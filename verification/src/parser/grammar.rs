//! The grammar: for every rule, the tree that a token sequence parses to
//! and the tokens that are left, or nothing where the sequence does not
//! begin with a phrase of the rule.
//!
//! Every rule reads from the left and never looks further than two tokens
//! ahead. A repetition takes as many items as there are.

use vstd::prelude::*;
use vstd::std_specs::vecdeque::axiom_vec_dequeue_index_decreases;
use crate::parser::rdp::{clause_rank, level_operator, level_rank};
use crate::parser::{ParserNode, ParserNodeType, same_children};
use crate::tokenizer::{TokenType, TokenView, token_views};

verus! {

/// A query tree as a mathematical value.
pub struct Tree {
    pub kind: ParserNodeType,
    pub tokens: Seq<TokenView>,
    pub children: Seq<Tree>,
}

/// What a rule makes of a token sequence: a tree and the tokens after it.
pub type Parse = Option<(Tree, Seq<TokenView>)>;

/// The trees of the first `k` children of a node.
pub open spec fn trees_of(n: ParserNode, k: nat) -> Seq<Tree>
    decreases n, 0nat, k,
    via trees_of_decreases
{
    if k == 0 || k > n.children@.len() {
        Seq::empty()
    } else {
        trees_of(n, (k - 1) as nat).push(tree_of(n.children@[k - 1]))
    }
}

/// The tree of a node.
pub open spec fn tree_of(n: ParserNode) -> Tree
    decreases n, 1nat, 0nat,
{
    Tree { kind: n.node_type, tokens: token_views(n.tokens@), children: trees_of(n, n.children@.len()) }
}

#[via_fn]
proof fn trees_of_decreases(n: ParserNode, k: nat) {
    if !(k == 0 || k > n.children@.len()) {
        axiom_vec_dequeue_index_decreases(n.children, k - 1);
    }
}

/// The trees of the children depend on the children alone.
pub proof fn lemma_trees_frame(a: ParserNode, b: ParserNode, k: nat)
    requires
        same_children(a, b, k),
    ensures
        trees_of(a, k) == trees_of(b, k),
        trees_of(a, k).len() == k,
    decreases k,
{
    if k > 0 {
        lemma_trees_frame(a, b, (k - 1) as nat);
    }
}

/// A tree without tokens over the given children.
pub open spec fn over(kind: ParserNodeType, children: Seq<Tree>) -> Tree {
    Tree { kind, tokens: Seq::empty(), children }
}

/// A tree without children that keeps the given tokens.
pub open spec fn leaf(kind: ParserNodeType, tokens: Seq<TokenView>) -> Tree {
    Tree { kind, tokens, children: Seq::empty() }
}

/// Whether the token at place `i` is there and has the text `text`.
pub open spec fn text_at(ts: Seq<TokenView>, i: int, text: Seq<char>) -> bool {
    0 <= i < ts.len() && ts[i].text == text
}

/// Whether the token at place `i` is there and is of the class `kind`.
pub open spec fn kind_at(ts: Seq<TokenView>, i: int, kind: TokenType) -> bool {
    0 <= i < ts.len() && ts[i].kind == kind
}

/// A parse that leaves no more tokens than `ts` has.
pub open spec fn within(p: Parse, ts: Seq<TokenView>) -> Parse {
    match p {
        Some((tree, rest)) => if rest.len() <= ts.len() {
            p
        } else {
            None
        },
        None => None,
    }
}

/// The tree of `p` under a new node of kind `kind`.
pub open spec fn under(kind: ParserNodeType, p: Parse) -> Parse {
    match p {
        Some((tree, rest)) => Some((over(kind, seq![tree]), rest)),
        None => None,
    }
}

/// A parse that must be followed by `)`, which is passed over.
pub open spec fn shut(p: Parse) -> Parse {
    match p {
        Some((tree, rest)) => if text_at(rest, 0, ")"@) {
            Some((tree, rest.skip(1)))
        } else {
            None
        },
        None => None,
    }
}

/// `literal`: one token of the class literal.
pub open spec fn literal(ts: Seq<TokenView>) -> Parse {
    if kind_at(ts, 0, TokenType::Literal) {
        Some((leaf(ParserNodeType::Literal, seq![ts[0]]), ts.skip(1)))
    } else {
        None
    }
}

/// `identifier = word [ '.' word ]`.
pub open spec fn identifier(ts: Seq<TokenView>) -> Parse {
    if !kind_at(ts, 0, TokenType::Identifier) {
        None
    } else if text_at(ts, 1, "."@) {
        if kind_at(ts, 2, TokenType::Identifier) {
            Some((leaf(ParserNodeType::Identifier, seq![ts[0], ts[2]]), ts.skip(3)))
        } else {
            None
        }
    } else {
        Some((leaf(ParserNodeType::Identifier, seq![ts[0]]), ts.skip(1)))
    }
}

/// `query = 'select' columns clause*`, the clauses in their order.
pub open spec fn query(ts: Seq<TokenView>) -> Parse
    decreases ts.len(), 40nat,
{
    if !text_at(ts, 0, "select"@) {
        None
    } else {
        match within(columns(ts.skip(1)), ts.skip(1)) {
            Some((first, rest)) => clauses(rest, seq![first], 0),
            None => None,
        }
    }
}

/// The clauses of a query after `children`, none of them before the place
/// `current` in the order of the clauses.
pub open spec fn clauses(ts: Seq<TokenView>, children: Seq<Tree>, current: usize) -> Parse
    decreases ts.len(), 39nat,
{
    if ts.len() == 0 {
        Some((over(ParserNodeType::Query, children), ts))
    } else {
        match clause_rank(ts[0].text) {
            None => Some((over(ParserNodeType::Query, children), ts)),
            Some(i) => if i < current {
                None
            } else {
                match clause(ts, i) {
                    Some((child, rest)) => if rest.len() < ts.len() {
                        clauses(rest, children.push(child), i)
                    } else {
                        None
                    },
                    None => None,
                }
            },
        }
    }
}

/// The clause at place `i` of the order of the clauses.
pub open spec fn clause(ts: Seq<TokenView>, i: usize) -> Parse
    decreases ts.len(), 38nat,
{
    if i == 0 {
        from(ts)
    } else if i == 1 {
        where_(ts)
    } else if i == 2 {
        group_by(ts)
    } else if i == 3 {
        order_by(ts)
    } else if i == 4 {
        limit(ts)
    } else {
        into(ts)
    }
}

/// `columns = column ( ',' column )*`.
pub open spec fn columns(ts: Seq<TokenView>) -> Parse
    decreases ts.len(), 30nat,
{
    match within(column(ts), ts) {
        Some((first, rest)) => columns_rest(rest, seq![first]),
        None => None,
    }
}

/// The columns after `children`.
pub open spec fn columns_rest(ts: Seq<TokenView>, children: Seq<Tree>) -> Parse
    decreases ts.len(), 0nat,
{
    if text_at(ts, 0, ","@) {
        match within(column(ts.skip(1)), ts.skip(1)) {
            Some((child, rest)) => columns_rest(rest, children.push(child)),
            None => None,
        }
    } else {
        Some((over(ParserNodeType::Columns, children), ts))
    }
}

/// `column = '*' | expr`.
pub open spec fn column(ts: Seq<TokenView>) -> Parse
    decreases ts.len(), 28nat,
{
    if text_at(ts, 0, "*"@) {
        Some((leaf(ParserNodeType::StarOperator, Seq::empty()), ts.skip(1)))
    } else {
        expression(ts)
    }
}

/// `expr = equality [ 'as' identifier ]`.
pub open spec fn expression(ts: Seq<TokenView>) -> Parse
    decreases ts.len(), 20nat,
{
    match level(ParserNodeType::Equality, ts) {
        Some((equality, rest)) => if text_at(rest, 0, "as"@) {
            match identifier(rest.skip(1)) {
                Some((name, after)) => Some((over(ParserNodeType::Expression, seq![equality, name]), after)),
                None => None,
            }
        } else {
            Some((over(ParserNodeType::Expression, seq![equality]), rest))
        },
        None => None,
    }
}

/// The operand of a chain of the level `kind`: a chain of the next level,
/// and below the factors a unary.
pub open spec fn operand(kind: ParserNodeType, ts: Seq<TokenView>) -> Parse
    decreases ts.len(), (level_rank(kind) - 1) as nat,
{
    match kind {
        ParserNodeType::Equality => level(ParserNodeType::Comparison, ts),
        ParserNodeType::Comparison => level(ParserNodeType::Term, ts),
        ParserNodeType::Term => level(ParserNodeType::Factor, ts),
        _ => unary(ts),
    }
}

/// A chain of the level `kind`: `operand ( operator operand )*`.
pub open spec fn level(kind: ParserNodeType, ts: Seq<TokenView>) -> Parse
    decreases ts.len(), level_rank(kind),
{
    match within(operand(kind, ts), ts) {
        Some((first, rest)) => level_rest(kind, rest, Seq::empty(), seq![first]),
        None => None,
    }
}

/// The chain after the operands `operands` with the operators `operators`
/// between them.
pub open spec fn level_rest(
    kind: ParserNodeType,
    ts: Seq<TokenView>,
    operators: Seq<TokenView>,
    operands: Seq<Tree>,
) -> Parse
    decreases ts.len(), 0nat,
{
    if ts.len() > 0 && level_operator(kind, ts[0].text) {
        match within(operand(kind, ts.skip(1)), ts.skip(1)) {
            Some((next, rest)) => level_rest(kind, rest, operators.push(ts[0]), operands.push(next)),
            None => None,
        }
    } else {
        Some((Tree { kind, tokens: operators, children: operands }, ts))
    }
}

/// `unary = ('-' | '!') unary | primary`.
pub open spec fn unary(ts: Seq<TokenView>) -> Parse
    decreases ts.len(), 7nat,
{
    if text_at(ts, 0, "-"@) || text_at(ts, 0, "!"@) {
        match unary(ts.skip(1)) {
            Some((inner, rest)) => Some(
                (Tree { kind: ParserNodeType::Unary, tokens: seq![ts[0]], children: seq![inner] }, rest),
            ),
            None => None,
        }
    } else {
        under(ParserNodeType::Unary, primary(ts))
    }
}

/// `primary = literal | function | identifier | '(' (query | expr) ')'`.
/// A word before `(` begins a function, `select` after `(` a query.
pub open spec fn primary(ts: Seq<TokenView>) -> Parse
    decreases ts.len(), 6nat,
{
    if kind_at(ts, 0, TokenType::Literal) {
        under(ParserNodeType::Primary, literal(ts))
    } else if kind_at(ts, 0, TokenType::Identifier) {
        if text_at(ts, 1, "("@) {
            under(ParserNodeType::Primary, function(ts))
        } else {
            under(ParserNodeType::Primary, identifier(ts))
        }
    } else if text_at(ts, 0, "("@) {
        if text_at(ts, 1, "select"@) {
            under(ParserNodeType::Primary, shut(query(ts.skip(1))))
        } else {
            under(ParserNodeType::Primary, shut(expression(ts.skip(1))))
        }
    } else {
        None
    }
}

/// `function = word '(' columns ')'`.
pub open spec fn function(ts: Seq<TokenView>) -> Parse
    decreases ts.len(), 5nat,
{
    if kind_at(ts, 0, TokenType::Identifier) && text_at(ts, 1, "("@) {
        match shut(columns(ts.skip(2))) {
            Some((arguments, rest)) => Some(
                (
                    Tree { kind: ParserNodeType::Function, tokens: seq![ts[0]], children: seq![arguments] },
                    rest,
                ),
            ),
            None => None,
        }
    } else {
        None
    }
}

/// `from = 'from' from_stmt ( join from_stmt 'on' expr )*`.
pub open spec fn from(ts: Seq<TokenView>) -> Parse
    decreases ts.len(), 36nat,
{
    if !text_at(ts, 0, "from"@) {
        None
    } else {
        match within(from_statement(ts.skip(1)), ts.skip(1)) {
            Some((first, rest)) => from_rest(rest, Seq::empty(), seq![first]),
            None => None,
        }
    }
}

/// The joins of a `from` clause after the tables and conditions
/// `children`, joined by `joins`.
pub open spec fn from_rest(ts: Seq<TokenView>, joins: Seq<TokenView>, children: Seq<Tree>) -> Parse
    decreases ts.len(), 0nat,
{
    if text_at(ts, 0, "left join"@) || text_at(ts, 0, "right join"@) {
        match within(from_statement(ts.skip(1)), ts.skip(1)) {
            Some((table, rest)) => if !text_at(rest, 0, "on"@) {
                None
            } else {
                match within(expression(rest.skip(1)), rest.skip(1)) {
                    Some((condition, after)) => from_rest(
                        after,
                        joins.push(ts[0]),
                        children.push(table).push(condition),
                    ),
                    None => None,
                }
            },
            None => None,
        }
    } else {
        Some((Tree { kind: ParserNodeType::From, tokens: joins, children }, ts))
    }
}

/// `from_stmt = '(' query ')' word | word [ word ]`, the second word not
/// being `on`.
pub open spec fn from_statement(ts: Seq<TokenView>) -> Parse
    decreases ts.len(), 34nat,
{
    if text_at(ts, 0, "("@) {
        match shut(query(ts.skip(1))) {
            Some((inner, rest)) => if kind_at(rest, 0, TokenType::Identifier) {
                Some(
                    (
                        Tree {
                            kind: ParserNodeType::FromStatement,
                            tokens: seq![rest[0]],
                            children: seq![inner],
                        },
                        rest.skip(1),
                    ),
                )
            } else {
                None
            },
            None => None,
        }
    } else if !kind_at(ts, 0, TokenType::Identifier) {
        None
    } else if kind_at(ts, 1, TokenType::Identifier) && !text_at(ts, 1, "on"@) {
        Some((leaf(ParserNodeType::FromStatement, seq![ts[0], ts[1]]), ts.skip(2)))
    } else {
        Some((leaf(ParserNodeType::FromStatement, seq![ts[0]]), ts.skip(1)))
    }
}

/// `where = 'where' expr`.
pub open spec fn where_(ts: Seq<TokenView>) -> Parse
    decreases ts.len(), 36nat,
{
    if text_at(ts, 0, "where"@) {
        under(ParserNodeType::Where, expression(ts.skip(1)))
    } else {
        None
    }
}

/// `group_by = 'group by' columns`.
pub open spec fn group_by(ts: Seq<TokenView>) -> Parse
    decreases ts.len(), 36nat,
{
    if text_at(ts, 0, "group by"@) {
        under(ParserNodeType::GroupBy, columns(ts.skip(1)))
    } else {
        None
    }
}

/// One key of an `order by` clause: `word [ 'asc' | 'desc' ]`.
pub open spec fn order_statement(ts: Seq<TokenView>) -> Parse {
    if !kind_at(ts, 0, TokenType::Identifier) {
        None
    } else if text_at(ts, 1, "asc"@) || text_at(ts, 1, "desc"@) {
        Some((leaf(ParserNodeType::OrderByStatement, seq![ts[0], ts[1]]), ts.skip(2)))
    } else {
        Some((leaf(ParserNodeType::OrderByStatement, seq![ts[0]]), ts.skip(1)))
    }
}

/// `order_by = 'order by' key ( ',' key )*`.
pub open spec fn order_by(ts: Seq<TokenView>) -> Parse {
    if !text_at(ts, 0, "order by"@) {
        None
    } else {
        match order_statement(ts.skip(1)) {
            Some((first, rest)) => order_rest(rest, seq![first]),
            None => None,
        }
    }
}

/// The keys of an `order by` clause after `children`.
pub open spec fn order_rest(ts: Seq<TokenView>, children: Seq<Tree>) -> Parse
    decreases ts.len(),
{
    if text_at(ts, 0, ","@) {
        match within(order_statement(ts.skip(1)), ts.skip(1)) {
            Some((child, rest)) => order_rest(rest, children.push(child)),
            None => None,
        }
    } else {
        Some((over(ParserNodeType::OrderBy, children), ts))
    }
}

/// `limit = 'limit' literal`.
pub open spec fn limit(ts: Seq<TokenView>) -> Parse {
    if text_at(ts, 0, "limit"@) {
        under(ParserNodeType::Limit, literal(ts.skip(1)))
    } else {
        None
    }
}

/// `into = 'into' token`.
pub open spec fn into(ts: Seq<TokenView>) -> Parse {
    if text_at(ts, 0, "into"@) && ts.len() > 1 {
        Some((leaf(ParserNodeType::Into, seq![ts[1]]), ts.skip(2)))
    } else {
        None
    }
}

} // verus!
