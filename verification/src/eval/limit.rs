//! LIMIT: the first rows of a table.

use vstd::prelude::*;
use crate::converters::{usize_from, usize_of_text};
use crate::parser::ParserNode;
use crate::result::{ErrorType, SqlError, SqlResult};
use crate::table::impl_table::{RowsOp, with_rows};
use crate::table::laws::lemma_rows_keep_rectangular;
use crate::table::Table;

verus! {

/// The text of the count of a limit clause: the first token of its first
/// child.
pub open spec fn limit_text(node: ParserNode) -> Option<Seq<char>> {
    if node.children@.len() == 0 || node.children@[0].tokens@.len() == 0 {
        None
    } else {
        Some(node.children@[0].tokens@[0]@.text)
    }
}

/// Truncates the table to the count that the clause gives.
///
/// A clause without a count is a `Runtime` error, a count that is no
/// length a `Type` error.
pub fn eval(node: &ParserNode, table: &Table) -> (r: SqlResult<Table>)
    ensures
        match limit_text(*node) {
            None => r is Err && r->Err_0.type_ == ErrorType::Runtime,
            Some(text) => match usize_of_text(text) {
                None => r is Err && r->Err_0.type_ == ErrorType::Type,
                Some(n) => r is Ok && r->Ok_0@ == with_rows(table@, RowsOp::Limit(n)),
            },
        },
        crate::eval::meaning::limit_gives(*node, table@, crate::eval::meaning::table_outcome(r)),
        r is Ok && table@.wf() ==> r->Ok_0@.wf(),
        r is Ok && table@.rectangular() ==> r->Ok_0@.rectangular(),
{
    if node.children.len() == 0 {
        return Err(SqlError::new("empty limit clause", ErrorType::Runtime));
    }
    let literal = &node.children[0];
    if literal.tokens.len() == 0 {
        return Err(SqlError::new("missing tokens in literal", ErrorType::Runtime));
    }
    let limit_by = match usize_from(literal.tokens[0].get_text().as_str()) {
        Some(n) => n,
        None => {
            return Err(SqlError::new("could not parse limit, only integers supported", ErrorType::Type));
        },
    };
    proof {
        if table@.rectangular() {
            lemma_rows_keep_rectangular(table@, RowsOp::Limit(limit_by));
        }
        assert(with_rows(table@, RowsOp::Limit(limit_by)).columns
            =~= crate::eval::meaning::first_rows(table@, limit_by).columns);
    }
    Ok(table.limit(limit_by))
}

} // verus!
