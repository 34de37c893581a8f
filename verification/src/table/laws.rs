//! What the row operations keep of a table.

use vstd::prelude::*;
use crate::table::impl_table::{RowsOp, with_rows};
use crate::table::{ColumnView, TableView, longest};

verus! {

/// Where all columns have one length, that length is the row count.
pub proof fn lemma_longest_of_equal(columns: Seq<ColumnView>, n: nat, length: nat)
    requires
        n <= columns.len(),
        forall|i: int| 0 <= i < n ==> (#[trigger] columns[i]).cells.len() == length,
    ensures
        n > 0 ==> longest(columns, n) == length,
        n == 0 ==> longest(columns, n) == 0,
    decreases n,
{
    if n > 0 {
        lemma_longest_of_equal(columns, (n - 1) as nat, length);
    }
}

/// No column is longer than the row count.
pub proof fn lemma_longest_bounds(columns: Seq<ColumnView>, n: nat, i: int)
    requires
        0 <= i < n <= columns.len(),
    ensures
        columns[i].cells.len() <= longest(columns, n),
    decreases n,
{
    if i < n - 1 {
        lemma_longest_bounds(columns, (n - 1) as nat, i);
    }
}

/// Selecting, reordering, limiting or picking a row of a table whose
/// columns have one length gives a table whose columns have one length.
pub proof fn lemma_rows_keep_rectangular(t: TableView, op: RowsOp)
    requires
        t.rectangular(),
    ensures
        with_rows(t, op).rectangular(),
{
    let r = with_rows(t, op);
    if t.columns.len() > 0 {
        let length = op.applied(t.columns[0].cells).len();
        assert forall|i: int| 0 <= i < r.columns.len() implies (#[trigger] r.columns[i]).cells.len()
            == length by {
            assert(t.columns[i].cells.len() == t.rows());
            assert(t.columns[0].cells.len() == t.rows());
        }
        lemma_longest_of_equal(r.columns, r.columns.len(), length);
    }
}

/// Reordering the rows of a table whose columns have one length keeps the
/// row count.
pub proof fn lemma_order_keeps_rows(t: TableView, order: &Vec<usize>)
    requires
        t.rectangular(),
    ensures
        with_rows(t, RowsOp::Order(order)).rows() == t.rows(),
{
    let r = with_rows(t, RowsOp::Order(order));
    if t.columns.len() > 0 {
        assert forall|i: int| 0 <= i < r.columns.len() implies (#[trigger] r.columns[i]).cells.len()
            == t.rows() by {
            assert(t.columns[i].cells.len() == t.rows());
        }
        lemma_longest_of_equal(r.columns, r.columns.len(), t.rows());
    }
}

/// Filtering a table without rows gives a table without rows.
pub proof fn lemma_select_of_empty(t: TableView, mask: &Vec<Option<bool>>)
    requires
        t.rows() == 0,
    ensures
        with_rows(t, RowsOp::Select(mask)).rows() == 0,
        with_rows(t, RowsOp::Select(mask)).names == t.names,
{
    let r = with_rows(t, RowsOp::Select(mask));
    assert forall|i: int| 0 <= i < r.columns.len() implies (#[trigger] r.columns[i]).cells.len()
        == 0 by {
        lemma_longest_bounds(t.columns, t.columns.len(), i);
    }
    lemma_longest_of_equal(r.columns, r.columns.len(), 0);
}

/// A limit of zero gives a table without rows that keeps the names and the
/// types of the columns.
pub proof fn lemma_limit_zero(t: TableView)
    ensures
        with_rows(t, RowsOp::Limit(0)).rows() == 0,
        with_rows(t, RowsOp::Limit(0)).names == t.names,
        with_rows(t, RowsOp::Limit(0)).columns.len() == t.columns.len(),
        forall|i: int|
            0 <= i < t.columns.len() ==> (#[trigger] with_rows(t, RowsOp::Limit(0)).columns[i]).kind
                == t.columns[i].kind,
{
    let r = with_rows(t, RowsOp::Limit(0));
    assert forall|i: int| 0 <= i < r.columns.len() implies (#[trigger] r.columns[i]).cells.len()
        == 0 by {}
    lemma_longest_of_equal(r.columns, r.columns.len(), 0);
}

/// A limit that is not below the row count gives the whole table.
pub proof fn lemma_limit_beyond(t: TableView, n: usize)
    requires
        n >= t.rows(),
    ensures
        with_rows(t, RowsOp::Limit(n)) == t,
{
    let r = with_rows(t, RowsOp::Limit(n));
    assert forall|i: int| 0 <= i < r.columns.len() implies r.columns[i] == t.columns[i] by {
        lemma_longest_bounds(t.columns, t.columns.len(), i);
        assert(t.columns[i].cells.take(t.columns[i].cells.len() as int) =~= t.columns[i].cells);
    }
    assert(r.columns =~= t.columns);
}

} // verus!
