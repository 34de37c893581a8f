//! WHERE: the rows at which a predicate holds.

use vstd::prelude::*;
use vstd::std_specs::vecdeque::axiom_vec_dequeue_index_decreases;
use crate::eval::columns::eval_expression;
use crate::eval::meaning::{
    column_outcome, filtered_gives, is_given, kept_rows, mask_of, table_outcome, where_gives,
};
use crate::eval::{FileOutput, grows};
use crate::ops::OpContext;
use crate::parser::ParserNode;
use crate::result::{ErrorType, SqlError, SqlResult};
use crate::table::impl_table::{RowsOp, with_rows};
use crate::table::laws::{lemma_rows_keep_rectangular, lemma_select_of_empty};
use crate::table::{Column, ColumnType, Store, Table};

verus! {

/// Keeps the rows of `table` at which the evaluated predicate is true; a
/// null counts as false.
///
/// The predicate must be a boolean column (else a `Type` error) with one
/// entry for every row of the table (else a `Runtime` error).
pub fn filter(table: &Table, predicate: &Column) -> (r: SqlResult<Table>)
    ensures
        predicate.kind() != ColumnType::Boolean ==> r is Err && r->Err_0.type_ == ErrorType::Type,
        predicate.kind() == ColumnType::Boolean && predicate.cells().len() != table@.rows() ==> r is Err
            && r->Err_0.type_ == ErrorType::Runtime,
        predicate.kind() == ColumnType::Boolean && predicate.cells().len() == table@.rows() ==> r is Ok
            && (predicate matches Column::Booleans(mask) && r->Ok_0@ == with_rows(
            table@,
            RowsOp::Select(&mask),
        )),
        r is Ok && table@.wf() ==> r->Ok_0@.wf(),
        r is Ok && table@.rectangular() ==> r->Ok_0@.rectangular(),
        r is Ok && table@.rows() == 0 ==> r->Ok_0@.rows() == 0,
        r is Ok ==> r->Ok_0@.names == table@.names,
        filtered_gives(table@, predicate@, table_outcome(r)),
{
    match predicate {
        Column::Booleans(mask) => {
            if mask.len() != table.len() {
                return Err(
                    SqlError::new("where clause must give one boolean for every row", ErrorType::Runtime),
                );
            }
            proof {
                if table@.rectangular() {
                    lemma_rows_keep_rectangular(table@, RowsOp::Select(mask));
                }
                if table@.rows() == 0 {
                    lemma_select_of_empty(table@, mask);
                }
                assert(mask_of(predicate@.cells) =~= mask@);
                assert(with_rows(table@, RowsOp::Select(mask)).columns =~= kept_rows(table@, mask@).columns);
            }
            Ok(table.where_(mask))
        },
        _ => Err(SqlError::new("where clause must evaluate to a boolean column", ErrorType::Type)),
    }
}

/// Keeps the rows of `table` at which the predicate of the clause holds.
///
/// A clause without a predicate is a `Runtime` error. Of a table without
/// rows, no row is kept.
pub fn eval(
    node: &ParserNode,
    table: &Table,
    op_context: &OpContext,
    store: &Store,
    written: &mut Vec<FileOutput>,
) -> (r: SqlResult<Table>)
    requires
        table@.wf(),
        store.wf(),
    ensures
        grows(old(written)@, final(written)@),
        where_gives(*node, *op_context, table@, *store, table_outcome(r)),
        r matches Ok(t) ==> t@.wf() && t@.names == table@.names && (table@.rectangular()
            ==> t@.rectangular()) && (table@.rows() == 0 ==> t@.rows() == 0),
    decreases *node, 1nat,
{
    if node.children.len() == 0 {
        return Err(SqlError::new("empty where clause", ErrorType::Runtime));
    }
    proof {
        axiom_vec_dequeue_index_decreases(node.children, 0);
    }
    let evaluated = eval_expression(&node.children[0], op_context, table, store, written);
    let ghost predicate = column_outcome(evaluated);
    assert(is_given(predicate));
    let booleans = match evaluated {
        Ok(booleans) => booleans,
        Err(e) => {
            return Err(e);
        },
    };
    filter(table, &*booleans.column)
}

} // verus!
