//! The recursive-descent parser: a token stream becomes a query tree.
//!
//! ```text
//! query      = 'select' columns [ from ] [ where ] [ group_by ]
//!                       [ order_by ] [ limit ] [ into ]
//! columns    = (expr | '*') ( ',' (expr | '*') )*
//! expr       = equality [ 'as' identifier ]
//! equality   = comparison ( ('=' | '!=') comparison )*
//! comparison = term ( ('>'|'>='|'<'|'<='|'and'|'or'|'xor') term )*
//! term       = factor ( ('+'|'-') factor )*
//! factor     = unary ( ('*'|'/') unary )*
//! unary      = ('-'|'!') unary | primary
//! primary    = literal | identifier | function | '(' (query | expr) ')'
//! function   = word '(' columns ')'
//! identifier = word [ '.' word ]
//! from       = 'from' from_stmt ( ('left join'|'right join') from_stmt 'on' expr )*
//! from_stmt  = '(' query ')' word | word [ word ]
//! where      = 'where' expr
//! group_by   = 'group by' columns
//! order_by   = 'order by' word [ 'asc' | 'desc' ] ( ',' word [ 'asc' | 'desc' ] )*
//! limit      = 'limit' literal
//! into       = 'into' token
//! ```

use vstd::prelude::*;
use crate::parser::{
    ParserNode, ParserNodeType, chain, concat, flat, joins, kept, lemma_chain_frame,
    lemma_concat_frame, lemma_joins_frame, lemma_kept_frame, lemma_separated_frame, separated,
};
use crate::parser::grammar::{Parse, Tree, kind_at, lemma_trees_frame, text_at, tree_of, trees_of};
use crate::parser::grammar;
use crate::result::{ErrorType, SqlError, SqlResult};
use crate::tokenizer::{Token, TokenType, TokenView, Tokens, token_texts, token_views};

verus! {

pub struct RecursiveDescentParser {
    pub tokens: Tokens,
}

pub type ParserResult = SqlResult<ParserNode>;

/// What a parsing function returns: a tree of the wanted kind that stands
/// for exactly the tokens that were consumed, or a `Syntax` error.
pub open spec fn parsed(
    before: Seq<Seq<char>>,
    after: Seq<Seq<char>>,
    r: ParserResult,
    kind: ParserNodeType,
) -> bool {
    match r {
        Ok(node) => node.node_type == kind && before == flat(node) + after && after.len()
            <= before.len(),
        Err(e) => e.type_ == ErrorType::Syntax,
    }
}

/// The kind of the operands of a chain, and the operators of the chain.
pub open spec fn level_operator(kind: ParserNodeType, text: Seq<char>) -> bool {
    match kind {
        ParserNodeType::Equality => text == "!="@ || text == "="@,
        ParserNodeType::Comparison => text == ">"@ || text == ">="@ || text == "<"@ || text == "<="@
            || text == "and"@ || text == "or"@ || text == "xor"@,
        ParserNodeType::Term => text == "-"@ || text == "+"@,
        ParserNodeType::Factor => text == "/"@ || text == "*"@,
        _ => false,
    }
}

pub open spec fn is_level(kind: ParserNodeType) -> bool {
    kind == ParserNodeType::Equality || kind == ParserNodeType::Comparison || kind
        == ParserNodeType::Term || kind == ParserNodeType::Factor
}

pub open spec fn level_rank(kind: ParserNodeType) -> nat {
    match kind {
        ParserNodeType::Equality => 18,
        ParserNodeType::Comparison => 15,
        ParserNodeType::Term => 12,
        _ => 9,
    }
}

/// The place of a clause keyword in the order of the clauses.
pub open spec fn clause_rank(text: Seq<char>) -> Option<usize> {
    if text == "from"@ {
        Some(0usize)
    } else if text == "where"@ {
        Some(1usize)
    } else if text == "group by"@ {
        Some(2usize)
    } else if text == "order by"@ {
        Some(3usize)
    } else if text == "limit"@ {
        Some(4usize)
    } else if text == "into"@ {
        Some(5usize)
    } else {
        None
    }
}

/// What a parsing function made of the tokens: the tree of its node and
/// the tokens that are left, or nothing for an error.
pub open spec fn outcome(r: ParserResult, rest: Seq<TokenView>) -> Parse {
    match r {
        Ok(node) => Some((tree_of(node), rest)),
        Err(_) => None,
    }
}

/// The tree of a node without tokens over one child.
proof fn lemma_only_child(node: ParserNode, child: ParserNode)
    requires
        node.tokens@.len() == 0,
        node.children@ =~= seq![child],
    ensures
        tree_of(node) == grammar::over(node.node_type, seq![tree_of(child)]),
{
    reveal_with_fuel(trees_of, 2);
    assert(token_views(node.tokens@) =~= Seq::<TokenView>::empty());
    assert(trees_of(node, 1) =~= seq![tree_of(child)]);
}

/// The trees of the children that a node had are those that it has after
/// a token or a child was added, and the tree of an added child follows
/// them.
proof fn lemma_children(before: ParserNode, node: ParserNode)
    requires
        before.children@.len() <= node.children@.len(),
        forall|i: int| 0 <= i < before.children@.len() ==> node.children@[i] == before.children@[i],
    ensures
        trees_of(node, before.children@.len()) == trees_of(before, before.children@.len()),
        node.children@.len() == before.children@.len() + 1 ==> trees_of(node, node.children@.len()) == trees_of(
            before,
            before.children@.len(),
        ).push(tree_of(node.children@.last())),
{
    lemma_trees_frame(node, before, before.children@.len());
}

/// The tree of a node with the given tokens over the given children.
proof fn lemma_tree(node: ParserNode, tokens: Seq<TokenView>, children: Seq<Tree>)
    requires
        token_views(node.tokens@) =~= tokens,
        trees_of(node, node.children@.len()) =~= children,
    ensures
        tree_of(node) == (Tree { kind: node.node_type, tokens, children }),
{
}

fn syntax(message: &str) -> (e: SqlError)
    ensures
        e.type_ == ErrorType::Syntax,
{
    SqlError::new(message, ErrorType::Syntax)
}

impl RecursiveDescentParser {
    /// The texts of the tokens that are still to be consumed.
    pub open spec fn rest(&self) -> Seq<Seq<char>> {
        token_texts(self.tokens@)
    }

    /// The tokens that are still to be consumed.
    pub open spec fn views(&self) -> Seq<TokenView> {
        token_views(self.tokens@)
    }

    pub fn new(tokens: Tokens) -> (p: Self)
        ensures
            p.tokens == tokens,
    {
        RecursiveDescentParser { tokens }
    }

    /// Parses one query from the front of the token stream. Tokens after
    /// the query stay in the stream.
    pub fn parse(&mut self) -> (r: ParserResult)
        ensures
            parsed(old(self).rest(), final(self).rest(), r, ParserNodeType::Query),
            outcome(r, final(self).views()) == grammar::query(old(self).views()),
    {
        self.parse_query()
    }

    fn next_token_is(&self, value: &str) -> (r: bool)
        ensures
            r == (self.tokens@.len() > 0 && self.tokens@[0]@.text == value@),
            r == text_at(self.views(), 0, value@),
    {
        self.tokens.len() > 0 && self.tokens[0].is(value)
    }

    fn next_token_type_is(&self, type_: TokenType) -> (r: bool)
        ensures
            r == (self.tokens@.len() > 0 && self.tokens@[0]@.kind == type_),
            r == kind_at(self.views(), 0, type_),
    {
        self.tokens.len() > 0 && self.tokens[0].is_type(type_)
    }

    /// Looks one token past the next: a name followed by `(` is a function
    /// call, not a column.
    fn next_next_token_is(&self, value: &str) -> (r: bool)
        ensures
            r == (self.tokens@.len() > 1 && self.tokens@[1]@.text == value@),
            r == text_at(self.views(), 1, value@),
    {
        self.tokens.len() > 1 && self.tokens[1].is(value)
    }

    /// Takes the next token.
    fn next(&mut self) -> (t: Token)
        requires
            old(self).tokens@.len() > 0,
        ensures
            t == old(self).tokens@[0],
            final(self).tokens@ == old(self).tokens@.subrange(1, old(self).tokens@.len() as int),
            final(self).tokens@.len() == old(self).tokens@.len() - 1,
            old(self).rest() == seq![t@.text] + final(self).rest(),
            t@ == old(self).views()[0],
            final(self).views() == old(self).views().skip(1),
    {
        let t = self.tokens.pop_front().unwrap();
        assert(old(self).rest() =~= seq![t@.text] + self.rest());
        assert(self.views() =~= old(self).views().skip(1));
        t
    }

    fn get_required_token_by_type(&mut self, token_type: TokenType, err_message: &str) -> (r: Result<
        Token,
        SqlError,
    >)
        ensures
            match r {
                Ok(t) => old(self).tokens@.len() > 0 && t == old(self).tokens@[0] && t@.kind
                    == token_type && old(self).rest() == seq![t@.text] + final(self).rest()
                    && final(self).tokens@.len() == old(self).tokens@.len() - 1 && final(self).views()
                    == old(self).views().skip(1) && t@ == old(self).views()[0],
                Err(e) => e.type_ == ErrorType::Syntax && (old(self).tokens@.len() == 0
                    || old(self).tokens@[0]@.kind != token_type),
            },
            r is Ok <==> kind_at(old(self).views(), 0, token_type),
    {
        if self.tokens.len() == 0 {
            return Err(syntax(err_message));
        }
        let t = self.next();
        if t.is_type(token_type) {
            Ok(t)
        } else {
            Err(syntax(err_message))
        }
    }

    fn get_required_token_by_value(&mut self, token_value: &str, err_message: &str) -> (r: Result<
        Token,
        SqlError,
    >)
        ensures
            match r {
                Ok(t) => old(self).tokens@.len() > 0 && t == old(self).tokens@[0] && t@.text
                    == token_value@ && old(self).rest() == seq![token_value@] + final(self).rest()
                    && final(self).tokens@.len() == old(self).tokens@.len() - 1 && final(self).views()
                    == old(self).views().skip(1) && t@ == old(self).views()[0],
                Err(e) => e.type_ == ErrorType::Syntax && (old(self).tokens@.len() == 0
                    || old(self).tokens@[0]@.text != token_value@),
            },
            r is Ok <==> text_at(old(self).views(), 0, token_value@),
    {
        if self.tokens.len() == 0 {
            return Err(syntax(err_message));
        }
        let t = self.next();
        if t.is(token_value) {
            Ok(t)
        } else {
            Err(syntax(err_message))
        }
    }

    fn clause_of_next(&self) -> (r: Option<usize>)
        requires
            self.tokens@.len() > 0,
        ensures
            r == clause_rank(self.tokens@[0]@.text),
    {
        let token = &self.tokens[0];
        if token.is("from") {
            Some(0)
        } else if token.is("where") {
            Some(1)
        } else if token.is("group by") {
            Some(2)
        } else if token.is("order by") {
            Some(3)
        } else if token.is("limit") {
            Some(4)
        } else if token.is("into") {
            Some(5)
        } else {
            None
        }
    }

    fn parse_clause(&mut self, clause: usize) -> (r: ParserResult)
        requires
            old(self).tokens@.len() > 0,
            clause_rank(old(self).tokens@[0]@.text) == Some(clause),
        ensures
            match r {
                Ok(node) => old(self).rest() == flat(node) + final(self).rest() && final(self).tokens@.len()
                    < old(self).tokens@.len(),
                Err(e) => e.type_ == ErrorType::Syntax,
            },
            outcome(r, final(self).views()) == grammar::clause(old(self).views(), clause),
        decreases old(self).tokens@.len(), 38nat,
    {
        let r = if clause == 0 {
            self.parse_from()
        } else if clause == 1 {
            self.parse_where()
        } else if clause == 2 {
            self.parse_group_by()
        } else if clause == 3 {
            self.parse_order_by()
        } else if clause == 4 {
            self.parse_limit()
        } else {
            self.parse_into()
        };
        proof {
            if r is Ok {
                let node = r->Ok_0;
                assert(flat(node).len() >= 1);
                assert(old(self).rest().len() == flat(node).len() + self.rest().len());
            }
        }
        r
    }

    fn parse_query(&mut self) -> (r: ParserResult)
        ensures
            parsed(old(self).rest(), final(self).rest(), r, ParserNodeType::Query),
            outcome(r, final(self).views()) == grammar::query(old(self).views()),
        decreases old(self).tokens@.len(), 40nat,
    {
        let mut node = ParserNode::new(ParserNodeType::Query);
        match self.get_required_token_by_value("select", "query must begin with select") {
            Ok(_) => {},
            Err(e) => {
                return Err(e);
            },
        }
        let columns = match self.parse_columns() {
            Ok(columns) => columns,
            Err(e) => {
                return Err(e);
            },
        };
        let ghost before = node;
        node.add_child(columns);
        proof {
            lemma_concat_frame(before, node, 0);
            assert(old(self).rest() =~= seq!["select"@] + concat(node, 1) + self.rest());
            lemma_children(before, node);
            assert(trees_of(node, 1) =~= seq![tree_of(columns)]);
        }
        let mut current_index: usize = 0;
        let mut done: bool = false;
        while !done && self.tokens.len() > 0
            invariant
                node.node_type == ParserNodeType::Query,
                node.tokens@.len() == 0,
                old(self).rest() == seq!["select"@] + concat(node, node.children@.len()) + self.rest(),
                self.tokens@.len() < old(self).tokens@.len(),
                grammar::query(old(self).views()) == grammar::clauses(
                    self.views(),
                    trees_of(node, node.children@.len()),
                    current_index,
                ),
                done ==> self.tokens@.len() > 0 && clause_rank(self.views()[0].text) is None,
            decreases self.tokens@.len(), if done { 0nat } else { 1nat },
        {
            match self.clause_of_next() {
                None => {
                    done = true;
                },
                Some(i) => {
                    if i < current_index {
                        return Err(syntax("select clauses out of order"));
                    }
                    current_index = i;
                    let ghost rest_before = self.rest();
                    let child = match self.parse_clause(i) {
                        Ok(child) => child,
                        Err(e) => {
                            return Err(e);
                        },
                    };
                    let ghost before = node;
                    node.add_child(child);
                    proof {
                        lemma_concat_frame(before, node, before.children@.len());
                        assert(old(self).rest() =~= seq!["select"@] + concat(node, node.children@.len())
                            + self.rest());
                        lemma_children(before, node);
                    }
                },
            }
        }
        proof {
            assert(old(self).rest() =~= flat(node) + self.rest());
            lemma_tree(node, Seq::empty(), trees_of(node, node.children@.len()));
        }
        Ok(node)
    }

    fn parse_column(&mut self) -> (r: ParserResult)
        ensures
            match r {
                Ok(node) => old(self).rest() == flat(node) + final(self).rest() && final(self).tokens@.len()
                    <= old(self).tokens@.len(),
                Err(e) => e.type_ == ErrorType::Syntax,
            },
            outcome(r, final(self).views()) == grammar::column(old(self).views()),
        decreases old(self).tokens@.len(), 28nat,
    {
        if self.next_token_is("*") {
            self.parse_star()
        } else {
            self.parse_expression()
        }
    }

    fn parse_columns(&mut self) -> (r: ParserResult)
        ensures
            parsed(old(self).rest(), final(self).rest(), r, ParserNodeType::Columns),
            outcome(r, final(self).views()) == grammar::columns(old(self).views()),
        decreases old(self).tokens@.len(), 30nat,
    {
        let mut node = ParserNode::new(ParserNodeType::Columns);
        let first = match self.parse_column() {
            Ok(first) => first,
            Err(e) => {
                return Err(e);
            },
        };
        let ghost before = node;
        node.add_child(first);
        proof {
            lemma_children(before, node);
            assert(trees_of(node, 1) =~= seq![tree_of(first)]);
        }
        while self.next_token_is(",")
            invariant
                node.node_type == ParserNodeType::Columns,
                node.tokens@.len() == 0,
                node.children@.len() >= 1,
                old(self).rest() == separated(node, node.children@.len(), ","@) + self.rest(),
                self.tokens@.len() <= old(self).tokens@.len(),
                grammar::columns(old(self).views()) == grammar::columns_rest(
                    self.views(),
                    trees_of(node, node.children@.len()),
                ),
            decreases self.tokens@.len(),
        {
            let ghost rest_before = self.rest();
            self.next();
            let child = match self.parse_column() {
                Ok(child) => child,
                Err(e) => {
                    return Err(e);
                },
            };
            let ghost before = node;
            node.add_child(child);
            proof {
                lemma_separated_frame(before, node, before.children@.len(), ","@);
                assert(rest_before.len() == 1 + flat(child).len() + self.rest().len());
                assert(old(self).rest() =~= separated(node, node.children@.len(), ","@) + self.rest());
                lemma_children(before, node);
            }
        }
        proof {
            lemma_tree(node, Seq::empty(), trees_of(node, node.children@.len()));
        }
        Ok(node)
    }

    fn parse_star(&mut self) -> (r: ParserResult)
        ensures
            parsed(old(self).rest(), final(self).rest(), r, ParserNodeType::StarOperator),
            r is Ok <==> text_at(old(self).views(), 0, "*"@),
            r matches Ok(node) ==> tree_of(node) == grammar::leaf(ParserNodeType::StarOperator, Seq::empty())
                && final(self).views() == old(self).views().skip(1),
    {
        let node = ParserNode::new(ParserNodeType::StarOperator);
        assert(token_views(node.tokens@) =~= Seq::<TokenView>::empty());
        match self.get_required_token_by_value("*", "star expected") {
            Ok(_) => {},
            Err(e) => {
                return Err(e);
            },
        }
        Ok(node)
    }

    /// An expression with an optional `as` clause. The node is kept for
    /// the name that the clause gives.
    pub fn parse_expression(&mut self) -> (r: ParserResult)
        ensures
            parsed(old(self).rest(), final(self).rest(), r, ParserNodeType::Expression),
            outcome(r, final(self).views()) == grammar::expression(old(self).views()),
        decreases old(self).tokens@.len(), 20nat,
    {
        let mut node = ParserNode::new(ParserNodeType::Expression);
        let equality = match self.parse_equality() {
            Ok(equality) => equality,
            Err(e) => {
                return Err(e);
            },
        };
        let ghost before = node;
        node.add_child(equality);
        proof {
            lemma_children(before, node);
            lemma_tree(node, Seq::empty(), seq![tree_of(equality)]);
        }
        if self.next_token_is("as") {
            self.next();
            let name = match self.parse_identifier() {
                Ok(name) => name,
                Err(e) => {
                    return Err(e);
                },
            };
            let ghost before = node;
            node.add_child(name);
            proof {
                lemma_separated_frame(before, node, 1, "as"@);
                assert(old(self).rest() =~= flat(node) + self.rest());
                lemma_children(before, node);
                lemma_tree(node, Seq::empty(), seq![tree_of(equality), tree_of(name)]);
            }
        }
        Ok(node)
    }

    fn next_is_operator_of(&self, kind: ParserNodeType) -> (r: bool)
        ensures
            r == (self.tokens@.len() > 0 && level_operator(kind, self.tokens@[0]@.text)),
    {
        if self.tokens.len() == 0 {
            return false;
        }
        let t = &self.tokens[0];
        match kind {
            ParserNodeType::Equality => t.is("!=") || t.is("="),
            ParserNodeType::Comparison => t.is(">") || t.is(">=") || t.is("<") || t.is("<=") || t.is(
                "and",
            ) || t.is("or") || t.is("xor"),
            ParserNodeType::Term => t.is("-") || t.is("+"),
            ParserNodeType::Factor => t.is("/") || t.is("*"),
            _ => false,
        }
    }

    fn parse_operand(&mut self, kind: ParserNodeType) -> (r: ParserResult)
        requires
            is_level(kind),
        ensures
            match r {
                Ok(node) => old(self).rest() == flat(node) + final(self).rest() && final(self).tokens@.len()
                    <= old(self).tokens@.len(),
                Err(e) => e.type_ == ErrorType::Syntax,
            },
            outcome(r, final(self).views()) == grammar::operand(kind, old(self).views()),
        decreases old(self).tokens@.len(), (level_rank(kind) - 1) as nat,
    {
        match kind {
            ParserNodeType::Equality => self.parse_comparison(),
            ParserNodeType::Comparison => self.parse_term(),
            ParserNodeType::Term => self.parse_factor(),
            _ => self.parse_unary(),
        }
    }

    /// A left-associative chain of one level: operands of the next level
    /// with the operators of this level between them. The node keeps the
    /// operators in source order, aligned with the operands.
    fn parse_level(&mut self, kind: ParserNodeType) -> (r: ParserResult)
        requires
            is_level(kind),
        ensures
            parsed(old(self).rest(), final(self).rest(), r, kind),
            r matches Ok(node) ==> node.children@.len() == node.tokens@.len() + 1,
            outcome(r, final(self).views()) == grammar::level(kind, old(self).views()),
        decreases old(self).tokens@.len(), level_rank(kind),
    {
        let mut node = ParserNode::new(kind);
        let first = match self.parse_operand(kind) {
            Ok(first) => first,
            Err(e) => {
                return Err(e);
            },
        };
        let ghost before = node;
        node.add_child(first);
        proof {
            lemma_children(before, node);
            assert(trees_of(node, 1) =~= seq![tree_of(first)]);
            assert(token_views(node.tokens@) =~= Seq::<TokenView>::empty());
        }
        while self.next_is_operator_of(kind)
            invariant
                is_level(kind),
                node.node_type == kind,
                node.children@.len() == node.tokens@.len() + 1,
                old(self).rest() == chain(node, node.children@.len()) + self.rest(),
                self.tokens@.len() <= old(self).tokens@.len(),
                grammar::level(kind, old(self).views()) == grammar::level_rest(
                    kind,
                    self.views(),
                    token_views(node.tokens@),
                    trees_of(node, node.children@.len()),
                ),
            decreases self.tokens@.len(),
        {
            let ghost rest_before = self.rest();
            let operator = self.next();
            let ghost before = node;
            node.add_token(operator);
            let operand = match self.parse_operand(kind) {
                Ok(operand) => operand,
                Err(e) => {
                    return Err(e);
                },
            };
            let ghost between = node;
            node.add_child(operand);
            proof {
                let k = before.children@.len();
                lemma_chain_frame(before, node, k);
                assert(rest_before.len() == 1 + flat(operand).len() + self.rest().len());
                assert(old(self).rest() =~= chain(node, node.children@.len()) + self.rest());
                lemma_children(before, between);
                lemma_children(between, node);
                assert(token_views(node.tokens@) =~= token_views(before.tokens@).push(operator@));
            }
        }
        Ok(node)
    }

    fn parse_equality(&mut self) -> (r: ParserResult)
        ensures
            parsed(old(self).rest(), final(self).rest(), r, ParserNodeType::Equality),
            outcome(r, final(self).views()) == grammar::level(ParserNodeType::Equality, old(self).views()),
        decreases old(self).tokens@.len(), 19nat,
    {
        self.parse_level(ParserNodeType::Equality)
    }

    fn parse_comparison(&mut self) -> (r: ParserResult)
        ensures
            parsed(old(self).rest(), final(self).rest(), r, ParserNodeType::Comparison),
            outcome(r, final(self).views()) == grammar::level(ParserNodeType::Comparison, old(self).views()),
        decreases old(self).tokens@.len(), 16nat,
    {
        self.parse_level(ParserNodeType::Comparison)
    }

    fn parse_term(&mut self) -> (r: ParserResult)
        ensures
            parsed(old(self).rest(), final(self).rest(), r, ParserNodeType::Term),
            outcome(r, final(self).views()) == grammar::level(ParserNodeType::Term, old(self).views()),
        decreases old(self).tokens@.len(), 13nat,
    {
        self.parse_level(ParserNodeType::Term)
    }

    fn parse_factor(&mut self) -> (r: ParserResult)
        ensures
            parsed(old(self).rest(), final(self).rest(), r, ParserNodeType::Factor),
            outcome(r, final(self).views()) == grammar::level(ParserNodeType::Factor, old(self).views()),
        decreases old(self).tokens@.len(), 10nat,
    {
        self.parse_level(ParserNodeType::Factor)
    }

    fn parse_unary(&mut self) -> (r: ParserResult)
        ensures
            parsed(old(self).rest(), final(self).rest(), r, ParserNodeType::Unary),
            outcome(r, final(self).views()) == grammar::unary(old(self).views()),
        decreases old(self).tokens@.len(), 7nat,
    {
        let mut node = ParserNode::new(ParserNodeType::Unary);
        if self.next_token_is("-") || self.next_token_is("!") {
            let operator = self.next();
            node.add_token(operator);
            let operand = match self.parse_unary() {
                Ok(operand) => operand,
                Err(e) => {
                    return Err(e);
                },
            };
            let ghost before = node;
            node.add_child(operand);
            proof {
                lemma_kept_frame(before, node, 1);
                lemma_concat_frame(before, node, 0);
                reveal_with_fuel(kept, 3);
                assert(kept(node, 1) =~= seq![operator@.text]);
                assert(old(self).rest() =~= flat(node) + self.rest());
                lemma_children(before, node);
                lemma_tree(node, seq![operator@], seq![tree_of(operand)]);
            }
        } else {
            let operand = match self.parse_primary() {
                Ok(operand) => operand,
                Err(e) => {
                    return Err(e);
                },
            };
            let ghost before = node;
            node.add_child(operand);
            proof {
                lemma_concat_frame(before, node, 0);
                assert(old(self).rest() =~= flat(node) + self.rest());
                lemma_only_child(node, operand);
            }
        }
        Ok(node)
    }

    fn parse_primary(&mut self) -> (r: ParserResult)
        ensures
            parsed(old(self).rest(), final(self).rest(), r, ParserNodeType::Primary),
            outcome(r, final(self).views()) == grammar::primary(old(self).views()),
        decreases old(self).tokens@.len(), 6nat,
    {
        let mut node = ParserNode::new(ParserNodeType::Primary);
        if self.next_token_type_is(TokenType::Literal) {
            let child = match self.parse_literal() {
                Ok(child) => child,
                Err(e) => {
                    return Err(e);
                },
            };
            let ghost before = node;
            node.add_child(child);
            proof {
                lemma_concat_frame(before, node, 0);
                assert(old(self).rest() =~= flat(node) + self.rest());
                lemma_only_child(node, child);
            }
        } else if self.next_token_type_is(TokenType::Identifier) {
            let child = if self.next_next_token_is("(") {
                match self.parse_function() {
                    Ok(child) => child,
                    Err(e) => {
                        return Err(e);
                    },
                }
            } else {
                match self.parse_identifier() {
                    Ok(child) => child,
                    Err(e) => {
                        return Err(e);
                    },
                }
            };
            let ghost before = node;
            node.add_child(child);
            proof {
                lemma_concat_frame(before, node, 0);
                assert(old(self).rest() =~= flat(node) + self.rest());
                lemma_only_child(node, child);
            }
        } else if self.next_token_is("(") {
            self.next();
            let child = if self.next_token_is("select") {
                match self.parse_query() {
                    Ok(child) => child,
                    Err(e) => {
                        return Err(e);
                    },
                }
            } else {
                match self.parse_expression() {
                    Ok(child) => child,
                    Err(e) => {
                        return Err(e);
                    },
                }
            };
            let ghost before = node;
            node.add_child(child);
            match self.get_required_token_by_value(")", "un-terminated paren") {
                Ok(_) => {},
                Err(e) => {
                    return Err(e);
                },
            }
            proof {
                lemma_concat_frame(before, node, 0);
                assert(old(self).rest() =~= flat(node) + self.rest());
                lemma_only_child(node, child);
            }
        } else {
            return Err(syntax("missing expression"));
        }
        Ok(node)
    }

    fn parse_literal(&mut self) -> (r: ParserResult)
        ensures
            parsed(old(self).rest(), final(self).rest(), r, ParserNodeType::Literal),
            r matches Ok(node) ==> node.tokens@.len() == 1 && node.tokens@[0]@.kind
                == TokenType::Literal,
            outcome(r, final(self).views()) == grammar::literal(old(self).views()),
    {
        let mut node = ParserNode::new(ParserNodeType::Literal);
        let token = match self.get_required_token_by_type(TokenType::Literal, "literal required") {
            Ok(token) => token,
            Err(e) => {
                return Err(e);
            },
        };
        node.add_token(token);
        proof {
            reveal_with_fuel(kept, 3);
            assert(kept(node, 1) =~= seq![token@.text]);
            assert(token_views(node.tokens@) =~= seq![token@]);
        }
        Ok(node)
    }

    fn parse_identifier(&mut self) -> (r: ParserResult)
        ensures
            parsed(old(self).rest(), final(self).rest(), r, ParserNodeType::Identifier),
            r matches Ok(node) ==> 1 <= node.tokens@.len() <= 2,
            outcome(r, final(self).views()) == grammar::identifier(old(self).views()),
    {
        let mut node = ParserNode::new(ParserNodeType::Identifier);
        let first = match self.get_required_token_by_type(
            TokenType::Identifier,
            "missing column identifier",
        ) {
            Ok(first) => first,
            Err(e) => {
                return Err(e);
            },
        };
        node.add_token(first);
        proof {
            reveal_with_fuel(kept, 3);
            assert(kept(node, 1) =~= seq![first@.text]);
            assert(token_views(node.tokens@) =~= seq![first@]);
        }
        if self.next_token_is(".") {
            self.next();
            assert(self.views() =~= old(self).views().skip(2));
            let second = match self.get_required_token_by_type(
                TokenType::Identifier,
                "missing column identifier",
            ) {
                Ok(second) => second,
                Err(e) => {
                    return Err(e);
                },
            };
            node.add_token(second);
            proof {
                assert(old(self).rest() =~= flat(node) + self.rest());
                assert(token_views(node.tokens@) =~= seq![first@, second@]);
                assert(self.views() =~= old(self).views().skip(3));
            }
        }
        Ok(node)
    }

    #[verifier::rlimit(60)]
    fn parse_function(&mut self) -> (r: ParserResult)
        ensures
            parsed(old(self).rest(), final(self).rest(), r, ParserNodeType::Function),
            outcome(r, final(self).views()) == grammar::function(old(self).views()),
        decreases old(self).tokens@.len(), 5nat,
    {
        let mut node = ParserNode::new(ParserNodeType::Function);
        let name = match self.get_required_token_by_type(
            TokenType::Identifier,
            "identifier required for function",
        ) {
            Ok(name) => name,
            Err(e) => {
                return Err(e);
            },
        };
        node.add_token(name);
        match self.get_required_token_by_value("(", "missing opening paren") {
            Ok(_) => {},
            Err(e) => {
                return Err(e);
            },
        }
        proof {
            assert(self.views() =~= old(self).views().skip(2));
        }
        let arguments = match self.parse_columns() {
            Ok(arguments) => arguments,
            Err(e) => {
                return Err(e);
            },
        };
        let ghost before = node;
        node.add_child(arguments);
        match self.get_required_token_by_value(")", "un-terminated paren") {
            Ok(_) => {},
            Err(e) => {
                return Err(e);
            },
        }
        proof {
            lemma_kept_frame(before, node, 1);
            lemma_concat_frame(before, node, 0);
            reveal_with_fuel(kept, 3);
            assert(kept(node, 1) =~= seq![name@.text]);
            assert(old(self).rest() =~= flat(node) + self.rest());
            lemma_children(before, node);
            lemma_tree(node, seq![name@], seq![tree_of(arguments)]);
        }
        Ok(node)
    }

    fn next_is_join(&self) -> (r: bool)
        ensures
            r == (self.tokens@.len() > 0 && (self.tokens@[0]@.text == "left join"@
                || self.tokens@[0]@.text == "right join"@)),
    {
        self.next_token_is("left join") || self.next_token_is("right join")
    }

    fn parse_from(&mut self) -> (r: ParserResult)
        ensures
            parsed(old(self).rest(), final(self).rest(), r, ParserNodeType::From),
            r matches Ok(node) ==> node.children@.len() == 2 * node.tokens@.len() + 1,
            outcome(r, final(self).views()) == grammar::from(old(self).views()),
        decreases old(self).tokens@.len(), 36nat,
    {
        let mut node = ParserNode::new(ParserNodeType::From);
        match self.get_required_token_by_value("from", "malformed from clause") {
            Ok(_) => {},
            Err(e) => {
                return Err(e);
            },
        }
        let first = match self.parse_from_statement() {
            Ok(first) => first,
            Err(e) => {
                return Err(e);
            },
        };
        let ghost empty = node;
        node.add_child(first);
        proof {
            assert(old(self).rest() =~= seq!["from"@] + joins(node, 0) + self.rest());
            lemma_children(empty, node);
            assert(trees_of(node, 1) =~= seq![tree_of(first)]);
            assert(token_views(node.tokens@) =~= Seq::<TokenView>::empty());
        }
        while self.next_is_join()
            invariant
                node.node_type == ParserNodeType::From,
                node.children@.len() == 2 * node.tokens@.len() + 1,
                old(self).rest() == seq!["from"@] + joins(node, node.tokens@.len() as nat) + self.rest(),
                self.tokens@.len() < old(self).tokens@.len(),
                grammar::from(old(self).views()) == grammar::from_rest(
                    self.views(),
                    token_views(node.tokens@),
                    trees_of(node, node.children@.len()),
                ),
            decreases self.tokens@.len(),
        {
            let ghost rest_before = self.rest();
            let ghost before = node;
            let join = self.next();
            node.add_token(join);
            let table = match self.parse_from_statement() {
                Ok(table) => table,
                Err(e) => {
                    return Err(e);
                },
            };
            let ghost named = node;
            node.add_child(table);
            let ghost tabled = node;
            match self.get_required_token_by_value("on", "join condition starting with on is required") {
                Ok(_) => {},
                Err(e) => {
                    return Err(e);
                },
            }
            let condition = match self.parse_expression() {
                Ok(condition) => condition,
                Err(e) => {
                    return Err(e);
                },
            };
            node.add_child(condition);
            proof {
                let k = before.tokens@.len();
                lemma_joins_frame(before, node, k);
                assert(rest_before.len() == 1 + flat(table).len() + 1 + flat(condition).len()
                    + self.rest().len());
                assert(old(self).rest() =~= seq!["from"@] + joins(node, node.tokens@.len() as nat)
                    + self.rest());
                lemma_children(before, named);
                lemma_children(named, tabled);
                lemma_children(tabled, node);
                assert(token_views(node.tokens@) =~= token_views(before.tokens@).push(join@));
            }
        }
        proof {
            assert((node.children@.len() / 2) as nat == node.tokens@.len());
        }
        Ok(node)
    }

    /// A table of the store, with an optional new alias, or a query in
    /// parentheses with its alias.
    fn parse_from_statement(&mut self) -> (r: ParserResult)
        ensures
            parsed(old(self).rest(), final(self).rest(), r, ParserNodeType::FromStatement),
            outcome(r, final(self).views()) == grammar::from_statement(old(self).views()),
        decreases old(self).tokens@.len(), 34nat,
    {
        let mut node = ParserNode::new(ParserNodeType::FromStatement);
        if self.next_token_is("(") {
            self.next();
            let query = match self.parse_query() {
                Ok(query) => query,
                Err(e) => {
                    return Err(e);
                },
            };
            let ghost empty = node;
            node.add_child(query);
            proof {
                lemma_children(empty, node);
            }
            match self.get_required_token_by_value(")", "non-terminated paren in from statement") {
                Ok(_) => {},
                Err(e) => {
                    return Err(e);
                },
            }
            let alias = match self.get_required_token_by_type(
                TokenType::Identifier,
                "name required for join table",
            ) {
                Ok(alias) => alias,
                Err(e) => {
                    return Err(e);
                },
            };
            let ghost before = node;
            node.add_token(alias);
            proof {
                lemma_concat_frame(before, node, 0);
                reveal_with_fuel(kept, 3);
                assert(kept(node, 1) =~= seq![alias@.text]);
                assert(concat(node, 1) == flat(query));
                assert(old(self).rest() =~= flat(node) + self.rest());
                lemma_children(before, node);
                lemma_tree(node, seq![alias@], seq![tree_of(query)]);
            }
        } else {
            let name = match self.get_required_token_by_type(
                TokenType::Identifier,
                "name required for join table",
            ) {
                Ok(name) => name,
                Err(e) => {
                    return Err(e);
                },
            };
            node.add_token(name);
            proof {
                reveal_with_fuel(kept, 3);
                assert(kept(node, 1) =~= seq![name@.text]);
                lemma_tree(node, seq![name@], Seq::empty());
            }
            if self.next_token_type_is(TokenType::Identifier) && !self.next_token_is("on") {
                let alias = self.next();
                let ghost before = node;
                node.add_token(alias);
                proof {
                    lemma_kept_frame(before, node, 1);
                    reveal_with_fuel(kept, 3);
                    assert(kept(node, 2) =~= seq![name@.text, alias@.text]);
                    assert(old(self).rest() =~= flat(node) + self.rest());
                    lemma_tree(node, seq![name@, alias@], Seq::empty());
                    assert(self.views() =~= old(self).views().skip(2));
                }
            }
        }
        Ok(node)
    }

    fn parse_where(&mut self) -> (r: ParserResult)
        ensures
            parsed(old(self).rest(), final(self).rest(), r, ParserNodeType::Where),
            outcome(r, final(self).views()) == grammar::where_(old(self).views()),
        decreases old(self).tokens@.len(), 36nat,
    {
        let mut node = ParserNode::new(ParserNodeType::Where);
        match self.get_required_token_by_value("where", "invalid where clause") {
            Ok(_) => {},
            Err(e) => {
                return Err(e);
            },
        }
        let condition = match self.parse_expression() {
            Ok(condition) => condition,
            Err(e) => {
                return Err(e);
            },
        };
        let ghost before = node;
        node.add_child(condition);
        proof {
            lemma_concat_frame(before, node, 0);
            assert(old(self).rest() =~= flat(node) + self.rest());
            lemma_only_child(node, condition);
        }
        Ok(node)
    }

    #[verifier::rlimit(60)]
    fn parse_group_by(&mut self) -> (r: ParserResult)
        ensures
            parsed(old(self).rest(), final(self).rest(), r, ParserNodeType::GroupBy),
            outcome(r, final(self).views()) == grammar::group_by(old(self).views()),
        decreases old(self).tokens@.len(), 36nat,
    {
        let mut node = ParserNode::new(ParserNodeType::GroupBy);
        match self.get_required_token_by_value("group by", "group by keyword required") {
            Ok(_) => {},
            Err(e) => {
                return Err(e);
            },
        }
        let keys = match self.parse_columns() {
            Ok(keys) => keys,
            Err(e) => {
                return Err(e);
            },
        };
        let ghost before = node;
        node.add_child(keys);
        proof {
            lemma_concat_frame(before, node, 0);
            assert(old(self).rest() =~= flat(node) + self.rest());
            lemma_only_child(node, keys);
        }
        Ok(node)
    }

    fn parse_order_by(&mut self) -> (r: ParserResult)
        ensures
            parsed(old(self).rest(), final(self).rest(), r, ParserNodeType::OrderBy),
            outcome(r, final(self).views()) == grammar::order_by(old(self).views()),
        decreases old(self).tokens@.len(), 36nat,
    {
        let mut node = ParserNode::new(ParserNodeType::OrderBy);
        match self.get_required_token_by_value("order by", "order by keyword required") {
            Ok(_) => {},
            Err(e) => {
                return Err(e);
            },
        }
        let first = match self.parse_order_by_statement() {
            Ok(first) => first,
            Err(e) => {
                return Err(e);
            },
        };
        let ghost empty = node;
        node.add_child(first);
        proof {
            assert(old(self).rest() =~= seq!["order by"@] + separated(node, 1, ","@) + self.rest());
            lemma_children(empty, node);
            assert(trees_of(node, 1) =~= seq![tree_of(first)]);
        }
        while self.next_token_is(",")
            invariant
                node.node_type == ParserNodeType::OrderBy,
                node.tokens@.len() == 0,
                node.children@.len() >= 1,
                old(self).rest() == seq!["order by"@] + separated(node, node.children@.len(), ","@)
                    + self.rest(),
                grammar::order_by(old(self).views()) == grammar::order_rest(
                    self.views(),
                    trees_of(node, node.children@.len()),
                ),
            decreases self.tokens@.len(),
        {
            let ghost rest_before = self.rest();
            self.next();
            let child = match self.parse_order_by_statement() {
                Ok(child) => child,
                Err(e) => {
                    return Err(e);
                },
            };
            let ghost before = node;
            node.add_child(child);
            proof {
                lemma_separated_frame(before, node, before.children@.len(), ","@);
                assert(rest_before.len() == 1 + flat(child).len() + self.rest().len());
                assert(old(self).rest() =~= seq!["order by"@] + separated(
                    node,
                    node.children@.len(),
                    ","@,
                ) + self.rest());
                lemma_children(before, node);
            }
        }
        proof {
            lemma_tree(node, Seq::empty(), trees_of(node, node.children@.len()));
        }
        Ok(node)
    }

    fn parse_order_by_statement(&mut self) -> (r: ParserResult)
        ensures
            parsed(old(self).rest(), final(self).rest(), r, ParserNodeType::OrderByStatement),
            outcome(r, final(self).views()) == grammar::order_statement(old(self).views()),
    {
        let mut node = ParserNode::new(ParserNodeType::OrderByStatement);
        let column = match self.get_required_token_by_type(
            TokenType::Identifier,
            "can only order on columns",
        ) {
            Ok(column) => column,
            Err(e) => {
                return Err(e);
            },
        };
        node.add_token(column);
        proof {
            reveal_with_fuel(kept, 3);
            assert(kept(node, 1) =~= seq![column@.text]);
            assert(token_views(node.tokens@) =~= seq![column@]);
        }
        if self.next_token_is("asc") || self.next_token_is("desc") {
            let direction = self.next();
            let ghost before = node;
            node.add_token(direction);
            proof {
                lemma_kept_frame(before, node, 1);
                reveal_with_fuel(kept, 3);
                assert(kept(node, 2) =~= seq![column@.text, direction@.text]);
                assert(old(self).rest() =~= flat(node) + self.rest());
                assert(token_views(node.tokens@) =~= seq![column@, direction@]);
                assert(self.views() =~= old(self).views().skip(2));
            }
        }
        Ok(node)
    }

    fn parse_limit(&mut self) -> (r: ParserResult)
        ensures
            parsed(old(self).rest(), final(self).rest(), r, ParserNodeType::Limit),
            outcome(r, final(self).views()) == grammar::limit(old(self).views()),
    {
        let mut node = ParserNode::new(ParserNodeType::Limit);
        match self.get_required_token_by_value("limit", "mis-configured limit clause") {
            Ok(_) => {},
            Err(e) => {
                return Err(e);
            },
        }
        let count = match self.parse_literal() {
            Ok(count) => count,
            Err(e) => {
                return Err(e);
            },
        };
        let ghost before = node;
        node.add_child(count);
        proof {
            lemma_concat_frame(before, node, 0);
            assert(old(self).rest() =~= flat(node) + self.rest());
            lemma_only_child(node, count);
        }
        Ok(node)
    }

    fn parse_into(&mut self) -> (r: ParserResult)
        ensures
            parsed(old(self).rest(), final(self).rest(), r, ParserNodeType::Into),
            outcome(r, final(self).views()) == grammar::into(old(self).views()),
    {
        let mut node = ParserNode::new(ParserNodeType::Into);
        match self.get_required_token_by_value("into", "expected into clause") {
            Ok(_) => {},
            Err(e) => {
                return Err(e);
            },
        }
        if self.tokens.len() == 0 {
            return Err(syntax("into must be followed by a target"));
        }
        let target = self.next();
        node.add_token(target);
        proof {
            reveal_with_fuel(kept, 3);
            assert(kept(node, 1) =~= seq![target@.text]);
            assert(old(self).rest() =~= flat(node) + self.rest());
            assert(token_views(node.tokens@) =~= seq![target@]);
            assert(self.views() =~= old(self).views().skip(2));
        }
        Ok(node)
    }
}

} // verus!
