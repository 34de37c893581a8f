//! The clauses of a query node.

use vstd::prelude::*;
use crate::parser::{ParserNode, ParserNodeType};
use crate::result::{ErrorType, SqlError, SqlResult};

verus! {

/// The clauses of a query: for each kind of clause the place of the last
/// child of that kind.
pub struct SplitAst {
    pub columns: Option<usize>,
    pub limit: Option<usize>,
    pub from: Option<usize>,
    pub group_by: Option<usize>,
    pub where_: Option<usize>,
    pub order_by: Option<usize>,
    pub into: Option<usize>,
}

/// The place of the last of the first `n` children that is of kind `kind`.
pub open spec fn last_of(children: Seq<ParserNode>, kind: ParserNodeType, n: nat) -> Option<usize>
    decreases n,
{
    if n == 0 {
        None
    } else if children[n - 1].node_type == kind {
        Some((n - 1) as usize)
    } else {
        last_of(children, kind, (n - 1) as nat)
    }
}

fn find_last(root: &ParserNode, kind: ParserNodeType) -> (r: Option<usize>)
    ensures
        r == last_of(root.children@, kind, root.children@.len()),
        r matches Some(i) ==> i < root.children@.len() && root.children@[i as int].node_type == kind,
{
    let mut i: usize = root.children.len();
    while i > 0
        invariant
            i <= root.children@.len(),
            last_of(root.children@, kind, root.children@.len()) == last_of(root.children@, kind, i as nat),
        decreases i,
    {
        i = i - 1;
        if root.children[i].node_type == kind {
            return Some(i);
        }
    }
    None
}

/// Tells the clauses of a query apart. A node that is no query is a
/// `Syntax` error. Where a kind of clause occurs more than once, the last
/// one holds.
pub fn split(root: &ParserNode) -> (r: SqlResult<SplitAst>)
    ensures
        root.node_type != ParserNodeType::Query ==> r is Err && r->Err_0.type_ == ErrorType::Syntax,
        root.node_type == ParserNodeType::Query ==> r is Ok && clauses_of(*root, r->Ok_0),
{
    if root.node_type != ParserNodeType::Query {
        return Err(SqlError::new("expected a query", ErrorType::Syntax));
    }
    Ok(
        SplitAst {
            columns: find_last(root, ParserNodeType::Columns),
            from: find_last(root, ParserNodeType::From),
            group_by: find_last(root, ParserNodeType::GroupBy),
            where_: find_last(root, ParserNodeType::Where),
            order_by: find_last(root, ParserNodeType::OrderBy),
            into: find_last(root, ParserNodeType::Into),
            limit: find_last(root, ParserNodeType::Limit),
        },
    )
}

/// Whether `parts` names the clauses of `root`.
pub open spec fn clauses_of(root: ParserNode, parts: SplitAst) -> bool {
    let children = root.children@;
    let n = children.len();
    &&& parts.columns == last_of(children, ParserNodeType::Columns, n)
    &&& parts.from == last_of(children, ParserNodeType::From, n)
    &&& parts.group_by == last_of(children, ParserNodeType::GroupBy, n)
    &&& parts.where_ == last_of(children, ParserNodeType::Where, n)
    &&& parts.order_by == last_of(children, ParserNodeType::OrderBy, n)
    &&& parts.into == last_of(children, ParserNodeType::Into, n)
    &&& parts.limit == last_of(children, ParserNodeType::Limit, n)
    &&& parts.in_range(n)
}

impl SplitAst {
    /// Every clause is at a place below `n`.
    pub open spec fn in_range(self, n: nat) -> bool {
        &&& self.columns matches Some(i) ==> i < n
        &&& self.from matches Some(i) ==> i < n
        &&& self.group_by matches Some(i) ==> i < n
        &&& self.where_ matches Some(i) ==> i < n
        &&& self.order_by matches Some(i) ==> i < n
        &&& self.into matches Some(i) ==> i < n
        &&& self.limit matches Some(i) ==> i < n
    }
}

} // verus!
