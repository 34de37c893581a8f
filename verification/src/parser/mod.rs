//! The query tree and the token sequence that each tree stands for.

use vstd::prelude::*;
use vstd::std_specs::vecdeque::axiom_vec_dequeue_index_decreases;
use std::collections::VecDeque;
use crate::tokenizer::Token;

pub mod rdp;
pub mod grammar;
pub mod display;

verus! {

/// The kinds of nodes of a query tree.
#[derive(Debug, PartialEq, Eq, Clone, Copy, Structural)]
pub enum ParserNodeType {
    Query,
    Columns,
    Expression,
    Equality,
    Comparison,
    Term,
    Factor,
    Unary,
    Function,
    Primary,
    Literal,
    Identifier,
    From,
    FromStatement,
    Where,
    GroupBy,
    OrderBy,
    OrderByStatement,
    Into,
    Limit,
    StarOperator,
}

/// A node of the query tree: its kind, the tokens it keeps (operators,
/// literals, the parts of an identifier) and its children, both in source
/// order.
#[derive(Debug)]
pub struct ParserNode {
    pub node_type: ParserNodeType,
    pub tokens: VecDeque<Token>,
    pub children: VecDeque<ParserNode>,
}

/// The texts of the first `k` tokens that a node keeps.
pub open spec fn kept(n: ParserNode, k: nat) -> Seq<Seq<char>>
    decreases k,
{
    if k == 0 {
        Seq::empty()
    } else {
        kept(n, (k - 1) as nat).push(n.tokens@[k - 1]@.text)
    }
}

/// The tokens of the first `k` children, one child after the other.
pub open spec fn concat(n: ParserNode, k: nat) -> Seq<Seq<char>>
    decreases n, 0nat, k,
    via concat_decreases
{
    if k == 0 || k > n.children@.len() {
        Seq::empty()
    } else {
        concat(n, (k - 1) as nat) + flat(n.children@[k - 1])
    }
}

/// The tokens of the first `k` children with `sep` between each two.
pub open spec fn separated(n: ParserNode, k: nat, sep: Seq<char>) -> Seq<Seq<char>>
    decreases n, 0nat, k,
    via separated_decreases
{
    if k == 0 || k > n.children@.len() {
        Seq::empty()
    } else if k == 1 {
        flat(n.children@[0])
    } else {
        separated(n, (k - 1) as nat, sep).push(sep) + flat(n.children@[k - 1])
    }
}

/// The tokens of a chain of `k` operands: the children with the node's own
/// tokens, the operators, between them.
pub open spec fn chain(n: ParserNode, k: nat) -> Seq<Seq<char>>
    decreases n, 0nat, k,
    via chain_decreases
{
    if k == 0 || k > n.children@.len() {
        Seq::empty()
    } else if k == 1 {
        flat(n.children@[0])
    } else {
        chain(n, (k - 1) as nat).push(n.tokens@[k - 2]@.text) + flat(n.children@[k - 1])
    }
}

/// The tokens of a `from` clause after its keyword, for `k` joins: the
/// first table, then for every join its keyword (a token of the node), the
/// joined table, `on` and the condition.
pub open spec fn joins(n: ParserNode, k: nat) -> Seq<Seq<char>>
    decreases n, 0nat, k,
    via joins_decreases
{
    if 2 * k + 1 > n.children@.len() {
        Seq::empty()
    } else if k == 0 {
        flat(n.children@[0])
    } else {
        joins(n, (k - 1) as nat).push(n.tokens@[k - 1]@.text) + flat(n.children@[2 * k - 1]).push("on"@)
            + flat(n.children@[(2 * k) as int])
    }
}

/// The token texts that a tree stands for: what the parser consumed to
/// build it, with the punctuation and keywords that the tree does not keep
/// put back in their places.
pub open spec fn flat(n: ParserNode) -> Seq<Seq<char>>
    decreases n, 1nat, 0nat,
{
    let all = n.children@.len();
    let own = kept(n, n.tokens@.len());
    match n.node_type {
        ParserNodeType::Query => seq!["select"@] + concat(n, all),
        ParserNodeType::Columns => separated(n, all, ","@),
        ParserNodeType::StarOperator => seq!["*"@],
        ParserNodeType::Expression => separated(n, all, "as"@),
        ParserNodeType::Equality => chain(n, all),
        ParserNodeType::Comparison => chain(n, all),
        ParserNodeType::Term => chain(n, all),
        ParserNodeType::Factor => chain(n, all),
        ParserNodeType::Unary => own + concat(n, all),
        ParserNodeType::Primary => if all == 1 && (n.children@[0].node_type == ParserNodeType::Query
            || n.children@[0].node_type == ParserNodeType::Expression) {
            seq!["("@] + concat(n, all).push(")"@)
        } else {
            concat(n, all)
        },
        ParserNodeType::Literal => own,
        ParserNodeType::Identifier => if n.tokens@.len() == 2 {
            seq![n.tokens@[0]@.text, "."@, n.tokens@[1]@.text]
        } else {
            own
        },
        ParserNodeType::Function => (own.push("("@) + concat(n, all)).push(")"@),
        ParserNodeType::From => seq!["from"@] + joins(n, (all / 2) as nat),
        ParserNodeType::FromStatement => if all == 0 {
            own
        } else {
            (seq!["("@] + concat(n, all)).push(")"@) + own
        },
        ParserNodeType::Where => seq!["where"@] + concat(n, all),
        ParserNodeType::GroupBy => seq!["group by"@] + concat(n, all),
        ParserNodeType::OrderBy => seq!["order by"@] + separated(n, all, ","@),
        ParserNodeType::OrderByStatement => own,
        ParserNodeType::Limit => seq!["limit"@] + concat(n, all),
        ParserNodeType::Into => seq!["into"@] + own,
    }
}

#[via_fn]
proof fn concat_decreases(n: ParserNode, k: nat) {
    if !(k == 0 || k > n.children@.len()) {
        axiom_vec_dequeue_index_decreases(n.children, k - 1);
    }
}

#[via_fn]
proof fn separated_decreases(n: ParserNode, k: nat, sep: Seq<char>) {
    if !(k == 0 || k > n.children@.len()) {
        axiom_vec_dequeue_index_decreases(n.children, k - 1);
        axiom_vec_dequeue_index_decreases(n.children, 0);
    }
}

#[via_fn]
proof fn chain_decreases(n: ParserNode, k: nat) {
    if !(k == 0 || k > n.children@.len()) {
        axiom_vec_dequeue_index_decreases(n.children, k - 1);
        axiom_vec_dequeue_index_decreases(n.children, 0);
    }
}

#[via_fn]
proof fn joins_decreases(n: ParserNode, k: nat) {
    if !(2 * k + 1 > n.children@.len()) {
        axiom_vec_dequeue_index_decreases(n.children, 0);
        if k > 0 {
            axiom_vec_dequeue_index_decreases(n.children, 2 * k - 1);
            axiom_vec_dequeue_index_decreases(n.children, (2 * k) as int);
        }
    }
}

/// Two nodes agree on their first `k` children.
pub open spec fn same_children(a: ParserNode, b: ParserNode, k: nat) -> bool {
    &&& k <= a.children@.len()
    &&& k <= b.children@.len()
    &&& forall|i: int| 0 <= i < k ==> a.children@[i] == b.children@[i]
}

/// Two nodes agree on their first `k` tokens.
pub open spec fn same_tokens(a: ParserNode, b: ParserNode, k: nat) -> bool {
    &&& k <= a.tokens@.len()
    &&& k <= b.tokens@.len()
    &&& forall|i: int| 0 <= i < k ==> a.tokens@[i] == b.tokens@[i]
}

/// The kept texts depend on the tokens alone.
pub proof fn lemma_kept_frame(a: ParserNode, b: ParserNode, k: nat)
    requires
        same_tokens(a, b, k),
    ensures
        kept(a, k) == kept(b, k),
    decreases k,
{
    if k > 0 {
        lemma_kept_frame(a, b, (k - 1) as nat);
    }
}

/// The concatenation depends on the children alone.
pub proof fn lemma_concat_frame(a: ParserNode, b: ParserNode, k: nat)
    requires
        same_children(a, b, k),
    ensures
        concat(a, k) == concat(b, k),
    decreases k,
{
    if k > 0 {
        lemma_concat_frame(a, b, (k - 1) as nat);
    }
}

/// The separated list depends on the children alone.
pub proof fn lemma_separated_frame(a: ParserNode, b: ParserNode, k: nat, sep: Seq<char>)
    requires
        same_children(a, b, k),
    ensures
        separated(a, k, sep) == separated(b, k, sep),
    decreases k,
{
    if k > 1 {
        lemma_separated_frame(a, b, (k - 1) as nat, sep);
    }
}

/// A chain of `k` operands depends on the first `k` children and the first
/// `k - 1` tokens alone.
pub proof fn lemma_chain_frame(a: ParserNode, b: ParserNode, k: nat)
    requires
        same_children(a, b, k),
        k >= 1 ==> same_tokens(a, b, (k - 1) as nat),
    ensures
        chain(a, k) == chain(b, k),
    decreases k,
{
    if k > 1 {
        lemma_chain_frame(a, b, (k - 1) as nat);
    }
}

/// The joins depend on the first `2k + 1` children and the first `k`
/// tokens alone.
pub proof fn lemma_joins_frame(a: ParserNode, b: ParserNode, k: nat)
    requires
        same_children(a, b, 2 * k + 1),
        same_tokens(a, b, k),
    ensures
        joins(a, k) == joins(b, k),
    decreases k,
{
    if k > 0 {
        lemma_joins_frame(a, b, (k - 1) as nat);
    }
}

impl ParserNode {
    /// A node without tokens and children.
    pub fn new(node_type: ParserNodeType) -> (n: Self)
        ensures
            n.node_type == node_type,
            n.tokens@.len() == 0,
            n.children@.len() == 0,
    {
        ParserNode { children: VecDeque::new(), node_type, tokens: VecDeque::new() }
    }

    pub fn add_child(&mut self, node: ParserNode)
        ensures
            final(self).node_type == old(self).node_type,
            final(self).tokens == old(self).tokens,
            final(self).children@ == old(self).children@.push(node),
    {
        self.children.push_back(node);
    }

    pub fn add_token(&mut self, token: Token)
        ensures
            final(self).node_type == old(self).node_type,
            final(self).children == old(self).children,
            final(self).tokens@ == old(self).tokens@.push(token),
    {
        self.tokens.push_back(token);
    }

    pub fn get_tokens(&self) -> (t: &VecDeque<Token>)
        ensures
            *t == self.tokens,
    {
        &self.tokens
    }

    pub fn get_type(&self) -> (t: &ParserNodeType)
        ensures
            *t == self.node_type,
    {
        &self.node_type
    }

    /// The parts of the node.
    pub fn release(self) -> (r: (ParserNodeType, VecDeque<Token>, VecDeque<ParserNode>))
        ensures
            r.0 == self.node_type,
            r.1 == self.tokens,
            r.2 == self.children,
    {
        (self.node_type, self.tokens, self.children)
    }
}

} // verus!
