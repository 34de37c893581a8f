//! The evaluator: a query tree becomes a table.
//!
//! The clauses of a query are evaluated in the order FROM, WHERE, then
//! either GROUP BY with one projection for each group, or ORDER BY and the
//! projection, then LIMIT and INTO.

use vstd::prelude::*;
use crate::ops::OpContext;
use crate::parser::{ParserNode, ParserNodeType};
use crate::result::{ErrorType, SqlError, SqlResult};
use crate::table::{Store, Table};

pub mod split;
pub mod limit;
pub mod into;
pub mod project;
pub mod where_;
pub mod order_by;
pub mod group_by;
pub mod columns;
pub mod from;
pub mod select;
pub mod commands;
pub mod meaning;

verus! {

/// A file that a query asked to be written: its name and its text.
#[derive(Debug)]
pub struct FileOutput {
    pub filename: String,
    pub content: String,
}

/// The files asked for so far are still asked for, in their order.
pub open spec fn grows(before: Seq<FileOutput>, after: Seq<FileOutput>) -> bool {
    before.len() <= after.len() && forall|i: int| 0 <= i < before.len() ==> #[trigger] after[i] == before[i]
}

/// Evaluates a query tree against the tables of the store.
///
/// The result is the table of the query, as `meaning::query_gives` tells
/// it clause by clause. It has columns of one length. A tree that is no
/// query is a `Runtime` error. A file that the query asks for with INTO is
/// added to `written` as its last entry, and the query then gives the
/// empty table.
pub fn eval(
    root: ParserNode,
    op_context: &mut OpContext,
    table_context: &Store,
    written: &mut Vec<FileOutput>,
) -> (r: SqlResult<Table>)
    requires
        table_context.wf(),
    ensures
        *final(op_context) == *old(op_context),
        grows(old(written)@, final(written)@),
        r matches Ok(t) ==> t@.wf() && t@.rectangular(),
        root.node_type != ParserNodeType::Query ==> r is Err && r->Err_0.type_ == ErrorType::Runtime,
        select::rows_of_store(root, *table_context, r),
        select::groups_of_store(root, *old(op_context), *table_context, r),
        select::orders_of_store(root, *table_context, r),
        root.node_type == ParserNodeType::Query ==> meaning::query_gives(
            root,
            *old(op_context),
            *table_context,
            meaning::table_outcome(r),
        ),
        r is Ok && meaning::clause(root, ParserNodeType::Into) is Some ==> final(written)@.len() > 0
            && meaning::file_gives(root, *old(op_context), *table_context, final(written)@.last()),
        select::selects_all_of(root) matches Some(name) ==> match table_context.find(name) {
            None => r is Err && r->Err_0.type_ == ErrorType::Lookup,
            Some(place) => place < table_context.tables@.len() && r is Ok && r->Ok_0@.names
                == table_context.tables@[place as int]@.names && r->Ok_0@.columns
                == table_context.tables@[place as int]@.columns,
        },
{
    match root.node_type {
        ParserNodeType::Query => select::eval(&root, op_context, table_context, written),
        _ => {
            Err(
                SqlError::new(
                    "command not recognized, please use one of [<select...>]",
                    ErrorType::Runtime,
                ),
            )
        },
    }
}

} // verus!
