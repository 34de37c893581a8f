//! The tokenizer: a query string becomes a flat stream of tokens.

use vstd::prelude::*;
use std::collections::VecDeque;
use crate::text::{lowercase, push_text, to_lowercase, trim, trimmed};

verus! {

/// The five classes of tokens.
#[derive(Debug, Clone, Copy, Eq, PartialEq, Structural)]
pub enum TokenType {
    /// The name of a table, a column or a function.
    Identifier,
    /// `select`, `from`, `where`, `group by`, `left join`, `inner join`,
    /// `order by`, `into`, `limit`, `asc`, `desc`, `as`.
    Keyword,
    /// `,`, `(`, `)`, `.`.
    Separator,
    /// `+ - * / > < >= <= = !=`, `and`, `or`.
    Operator,
    /// A quoted string, a number, `true`, `false`, `null`.
    Literal,
}

impl TokenType {
    /// The name of the class, which is also the name of its group in the
    /// token pattern.
    pub open spec fn name(self) -> Seq<char> {
        match self {
            TokenType::Identifier => "identifier"@,
            TokenType::Keyword => "keyword"@,
            TokenType::Literal => "literal"@,
            TokenType::Operator => "operator"@,
            TokenType::Separator => "separator"@,
        }
    }

    pub fn to_str(&self) -> (s: &'static str)
        ensures
            s@ == self.name(),
    {
        match self {
            TokenType::Identifier => "identifier",
            TokenType::Keyword => "keyword",
            TokenType::Literal => "literal",
            TokenType::Operator => "operator",
            TokenType::Separator => "separator",
        }
    }
}

/// A token: its text, in lower case and trimmed, and its class.
#[derive(Debug)]
pub struct Token {
    pub text: String,
    pub token_type: TokenType,
}

/// A token as a mathematical value.
pub struct TokenView {
    pub text: Seq<char>,
    pub kind: TokenType,
}

impl View for Token {
    type V = TokenView;

    open spec fn view(&self) -> TokenView {
        TokenView { text: self.text@, kind: self.token_type }
    }
}

impl Clone for Token {
    fn clone(&self) -> (r: Self)
        ensures
            r@ == self@,
    {
        Token { text: self.text.clone(), token_type: self.token_type }
    }
}

impl Token {
    pub fn new(text: String, token_type: TokenType) -> (t: Self)
        ensures
            t@ == (TokenView { text: text@, kind: token_type }),
    {
        Token { text, token_type }
    }

    pub fn get_text(&self) -> (s: &String)
        ensures
            s@ == self@.text,
    {
        &self.text
    }

    /// Whether the token's text is `value`.
    pub fn is(&self, value: &str) -> (r: bool)
        ensures
            r == (self@.text == value@),
    {
        *self.text.as_str() == *value
    }

    /// Whether the token is of the class `value`.
    pub fn is_type(&self, value: TokenType) -> (r: bool)
        ensures
            r == (self@.kind == value),
    {
        value == self.token_type
    }

    /// The token as it is shown: `(class: text)`.
    pub fn to_string(&self) -> (s: String)
        ensures
            s@ == "("@ + self@.kind.name() + ": "@ + self@.text + ")"@,
    {
        let mut s = String::new();
        push_text(&mut s, "(");
        push_text(&mut s, self.token_type.to_str());
        push_text(&mut s, ": ");
        push_text(&mut s, self.text.as_str());
        push_text(&mut s, ")");
        s
    }
}

pub type Tokens = VecDeque<Token>;

/// The views of the tokens of a stream, in order.
pub open spec fn token_views(tokens: Seq<Token>) -> Seq<TokenView> {
    Seq::new(tokens.len(), |i: int| tokens[i]@)
}

/// The texts of the tokens of a stream, in order.
pub open spec fn token_texts(tokens: Seq<Token>) -> Seq<Seq<char>> {
    Seq::new(tokens.len(), |i: int| tokens[i]@.text)
}

#[verifier::external_type_specification]
#[verifier::external_body]
pub struct ExRegex(regex::Regex);

#[verifier::external_type_specification]
#[verifier::external_body]
pub struct ExRegexError(regex::Error);

/// The pattern of one token. Its five named groups are the five classes;
/// the first alternative that matches at a place decides the class.
pub const TOKEN_PATTERN: &'static str =
    "(?xi)[\\s]*(?P<keyword>SELECT\\s|FROM\\s|WHERE\\s|GROUP\\s+BY|LEFT\\s+JOIN|INNER\\s+JOIN|ORDER\\s+BY|INTO\\s|LIMIT\\s|ASC\\s|DESC\\s|AS\\s)|(?P<operator>>=|<=|[-+/*><=]|or\\s|and\\s|!=)|(?P<literal>'[^']*'|[0-9]*\\.?[0-9]+([eE][-+]?[0-9]+)?|[0-9]+|true\\b|false\\b|null\\b)|(?P<identifier>[a-zA-Z][_a-zA-Z0-9]*)|(?P<separator>[,().])";

/// Whether `Regex::new` compiles a pattern: whether it is an expression
/// of the syntax of the regex crate, within the sizes that the crate
/// allows.
pub uninterp spec fn compiles(pattern: Seq<char>) -> bool;

/// The pattern that a compiled expression was made from: what
/// `Regex::as_str` returns.
pub uninterp spec fn pattern_of(re: regex::Regex) -> Seq<char>;

/// The matches of a pattern in a line, in order from the left and without
/// overlap, as `Regex::captures_iter` finds them: for every match the text
/// that each of the named groups captured, as `Captures::name` gives it,
/// `None` for a group that took no part in the match.
pub uninterp spec fn captured(pattern: Seq<char>, line: Seq<char>, names: Seq<Seq<char>>) -> Seq<
    Seq<Option<Seq<char>>>,
>;

/// The names of a list as texts.
pub open spec fn name_texts(names: Seq<&str>) -> Seq<Seq<char>> {
    Seq::new(names.len(), |i: int| names[i]@)
}

/// The texts that the groups of one match captured.
pub open spec fn group_texts(groups: Seq<Option<String>>) -> Seq<Option<Seq<char>>> {
    Seq::new(
        groups.len(),
        |k: int|
            match groups[k] {
                Some(text) => Some(text@),
                None => None,
            },
    )
}

/// The texts that the groups of every match of a list captured.
pub open spec fn match_texts(matches: Seq<Vec<Option<String>>>) -> Seq<Seq<Option<Seq<char>>>> {
    Seq::new(matches.len(), |i: int| group_texts(matches[i]@))
}

/// Calls `Regex::new`, which compiles a pattern or says why it cannot;
/// which of the two is named by [`compiles`]. The compiled expression
/// keeps the pattern it was made from, as `Regex::as_str` returns it.
#[verifier::external_body]
fn compile(pattern: &str) -> (r: Result<regex::Regex, regex::Error>)
    ensures
        r is Ok <==> compiles(pattern@),
        r matches Ok(re) ==> pattern_of(re) == pattern@,
{
    regex::Regex::new(pattern)
}

/// Calls `Regex::captures_iter` and, for every match in order, `Captures::name`
/// with each of `names`: the text that each named group captured in that
/// match, `None` for a group that took no part. Every match has one entry
/// for each name.
#[verifier::external_body]
fn captures(re: &regex::Regex, line: &str, names: &Vec<&str>) -> (r: Vec<Vec<Option<String>>>)
    ensures
        match_texts(r@) == captured(pattern_of(*re), line@, name_texts(names@)),
        forall|i: int| 0 <= i < r@.len() ==> (#[trigger] r@[i])@.len() == names@.len(),
{
    re.captures_iter(line).map(
        |found| names.iter().map(|name| found.name(name).map(|m| m.as_str().to_string())).collect(),
    ).collect()
}

/// The class of the group at place `i` of a match: keyword, operator,
/// literal, identifier, separator.
pub open spec fn group_kind(i: int) -> TokenType {
    if i == 0 {
        TokenType::Keyword
    } else if i == 1 {
        TokenType::Operator
    } else if i == 2 {
        TokenType::Literal
    } else if i == 3 {
        TokenType::Identifier
    } else {
        TokenType::Separator
    }
}

/// The tokens of the first `k` groups of one match: one token for every
/// group that captured a text, with that text trimmed and in lower case.
pub open spec fn match_tokens(groups: Seq<Option<Seq<char>>>, k: nat) -> Seq<TokenView>
    decreases k,
{
    if k == 0 {
        Seq::empty()
    } else {
        let rest = match_tokens(groups, (k - 1) as nat);
        match groups[k - 1] {
            Some(text) => rest.push(TokenView { text: lowercase(trimmed(text)), kind: group_kind(k - 1) }),
            None => rest,
        }
    }
}

/// The tokens of the first `n` matches, in order.
pub open spec fn stream_tokens(matches: Seq<Seq<Option<Seq<char>>>>, n: nat) -> Seq<TokenView>
    decreases n,
{
    if n == 0 {
        Seq::empty()
    } else {
        stream_tokens(matches, (n - 1) as nat) + match_tokens(matches[n - 1], matches[n - 1].len())
    }
}

/// The names of the groups of the token pattern, in the order of
/// `group_kind`.
pub open spec fn group_names() -> Seq<Seq<char>> {
    seq![
        TokenType::Keyword.name(),
        TokenType::Operator.name(),
        TokenType::Literal.name(),
        TokenType::Identifier.name(),
        TokenType::Separator.name(),
    ]
}

/// The tokens of a line: those of the matches of the token pattern in it.
pub open spec fn tokens_of(line: Seq<char>) -> Seq<TokenView> {
    let matches = captured(TOKEN_PATTERN@, line, group_names());
    stream_tokens(matches, matches.len())
}

fn kind_at(i: usize) -> (k: TokenType)
    ensures
        k == group_kind(i as int),
{
    if i == 0 {
        TokenType::Keyword
    } else if i == 1 {
        TokenType::Operator
    } else if i == 2 {
        TokenType::Literal
    } else if i == 3 {
        TokenType::Identifier
    } else {
        TokenType::Separator
    }
}

/// The token stream of a list of matches, each match given by the texts of
/// its groups in the order keyword, operator, literal, identifier,
/// separator.
pub fn tokens_from(matches: &Vec<Vec<Option<String>>>) -> (tokens: Tokens)
    ensures
        token_views(tokens@) == stream_tokens(match_texts(matches@), matches@.len()),
{
    let ghost plain = match_texts(matches@);
    let mut tokens: Tokens = VecDeque::new();
    let mut i: usize = 0;
    assert(token_views(tokens@) =~= Seq::<TokenView>::empty());
    while i < matches.len()
        invariant
            i <= matches@.len(),
            plain == match_texts(matches@),
            token_views(tokens@) == stream_tokens(plain, i as nat),
        decreases matches@.len() - i,
    {
        let groups = &matches[i];
        let ghost before = token_views(tokens@);
        let ghost texts = group_texts(groups@);
        assert(texts == plain[i as int]);
        let mut k: usize = 0;
        while k < groups.len()
            invariant
                k <= groups@.len(),
                texts == group_texts(groups@),
                token_views(tokens@) == before + match_tokens(texts, k as nat),
            decreases groups@.len() - k,
        {
            let ghost so_far = token_views(tokens@);
            match &groups[k] {
                Some(text) => {
                    let cleaned = to_lowercase(trim(text.as_str()));
                    let token = Token::new(cleaned, kind_at(k));
                    let ghost view = token@;
                    tokens.push_back(token);
                    assert(token_views(tokens@) =~= so_far.push(view));
                    assert(before + match_tokens(texts, k as nat).push(view) =~= (before + match_tokens(
                        texts,
                        k as nat,
                    )).push(view));
                },
                None => {},
            }
            k = k + 1;
        }
        i = i + 1;
    }
    tokens
}

/// A tokenizer holds the compiled token pattern.
pub struct Tokenizer {
    re: Option<regex::Regex>,
}

impl Tokenizer {
    #[verifier::type_invariant]
    spec fn holds_the_pattern(self) -> bool {
        self.re matches Some(re) ==> pattern_of(re) == TOKEN_PATTERN@
    }

    /// Whether the token pattern was compiled.
    pub closed spec fn ready(&self) -> bool {
        self.re is Some
    }

    /// A tokenizer for the token pattern. It is ready where the regex
    /// crate compiles the pattern, and finds no token where it does not.
    pub fn new() -> (t: Self)
        ensures
            t.ready() <==> compiles(TOKEN_PATTERN@),
    {
        match compile(TOKEN_PATTERN) {
            Ok(re) => Tokenizer { re: Some(re) },
            Err(_) => Tokenizer { re: None },
        }
    }

    /// The tokens of `line`: for every match of the token pattern, in
    /// order, one token for each class whose group took part in the match.
    /// Characters that no token matches are passed over. A tokenizer whose
    /// pattern was not compiled finds no token.
    pub fn tokenize(&self, line: String) -> (tokens: Tokens)
        ensures
            self.ready() ==> token_views(tokens@) == tokens_of(line@),
            !self.ready() ==> tokens@.len() == 0,
    {
        proof {
            use_type_invariant(self);
        }
        let mut names: Vec<&str> = Vec::new();
        names.push(TokenType::Keyword.to_str());
        names.push(TokenType::Operator.to_str());
        names.push(TokenType::Literal.to_str());
        names.push(TokenType::Identifier.to_str());
        names.push(TokenType::Separator.to_str());
        assert(name_texts(names@) =~= group_names());
        let matches: Vec<Vec<Option<String>>> = match &self.re {
            Some(re) => captures(re, line.as_str(), &names),
            None => Vec::new(),
        };
        let tokens = tokens_from(&matches);
        proof {
            if self.re is None {
                assert(token_views(tokens@).len() == 0);
            } else {
                assert(match_texts(matches@).len() == matches@.len());
            }
        }
        tokens
    }
}

} // verus!
