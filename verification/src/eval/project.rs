//! The table of a projection: evaluated columns brought to one length.

use vstd::prelude::*;
use std::rc::Rc;
use crate::result::{ErrorType, SqlError, SqlResult};
use crate::table::laws::lemma_longest_of_equal;
use crate::table::{Column, ColumnView, IndexKey, NamedColumn, Table, TableView};

verus! {

/// The one length of the first `n` columns that are not single rows:
/// `Some(None)` where all are single rows, `None` where two disagree.
pub open spec fn long_len(columns: Seq<ColumnView>, n: nat) -> Option<Option<nat>>
    decreases n,
{
    if n == 0 {
        Some(None)
    } else {
        let length = columns[n - 1].cells.len();
        match long_len(columns, (n - 1) as nat) {
            None => None,
            Some(None) => if length == 1 {
                Some(None)
            } else {
                Some(Some(length))
            },
            Some(Some(l)) => if length == 1 || length == l {
                Some(Some(l))
            } else {
                None
            },
        }
    }
}

/// The row count of a projection: the one length of the columns that are
/// not single rows, or 1 where all are single rows.
pub open spec fn target_len(columns: Seq<ColumnView>) -> Option<nat> {
    match long_len(columns, columns.len()) {
        None => None,
        Some(None) => Some(1),
        Some(Some(l)) => Some(l),
    }
}

/// A single row is repeated `target` times; a longer column stays.
pub open spec fn stretched(c: ColumnView, target: nat) -> ColumnView {
    if c.cells.len() == 1 {
        ColumnView { kind: c.kind, cells: Seq::new(target, |k: int| c.cells[0]) }
    } else {
        c
    }
}

/// The anonymous table of the given columns, each stretched to `target`
/// rows and indexed under the empty alias.
pub open spec fn projected(names: Seq<Seq<char>>, columns: Seq<ColumnView>, target: nat) -> TableView {
    TableView {
        alias: Seq::empty(),
        names: names,
        index: Seq::new(
            names.len(),
            |i: int| IndexKey { qualifier: Seq::empty(), name: names[i], position: i as nat },
        ),
        columns: Seq::new(columns.len(), |i: int| stretched(columns[i], target)),
    }
}

/// The names of a list of named columns.
pub open spec fn names_of(columns: Seq<NamedColumn>) -> Seq<Seq<char>> {
    Seq::new(columns.len(), |i: int| columns[i].name@)
}

/// The columns of a list of named columns.
pub open spec fn views_of(columns: Seq<NamedColumn>) -> Seq<ColumnView> {
    Seq::new(columns.len(), |i: int| (*columns[i].column)@)
}

/// Every column is a single row or has the one long length.
pub proof fn lemma_long_len(columns: Seq<ColumnView>, n: nat)
    requires
        n <= columns.len(),
    ensures
        match long_len(columns, n) {
            None => true,
            Some(None) => forall|i: int| 0 <= i < n ==> (#[trigger] columns[i]).cells.len() == 1,
            Some(Some(l)) => l != 1 && forall|i: int|
                0 <= i < n ==> (#[trigger] columns[i]).cells.len() == 1 || columns[i].cells.len() == l,
        },
    decreases n,
{
    if n > 0 {
        lemma_long_len(columns, (n - 1) as nat);
    }
}

/// Columns of one length keep that length, and a projection of them is the
/// columns themselves.
pub proof fn lemma_equal_lengths(columns: Seq<ColumnView>, n: nat, length: nat)
    requires
        n <= columns.len(),
        forall|i: int| 0 <= i < columns.len() ==> (#[trigger] columns[i]).cells.len() == length,
    ensures
        long_len(columns, n) == if n == 0 || length == 1 {
            Some(None::<nat>)
        } else {
            Some(Some(length))
        },
    decreases n,
{
    if n > 0 {
        lemma_equal_lengths(columns, (n - 1) as nat, length);
    }
}

/// The columns of a projection have one length.
pub proof fn lemma_projected_rectangular(names: Seq<Seq<char>>, columns: Seq<ColumnView>)
    requires
        names.len() == columns.len(),
        target_len(columns) is Some,
    ensures
        projected(names, columns, target_len(columns)->Some_0).rectangular(),
        projected(names, columns, target_len(columns)->Some_0).wf(),
        columns.len() > 0 ==> projected(names, columns, target_len(columns)->Some_0).rows()
            == target_len(columns)->Some_0,
{
    let target = target_len(columns)->Some_0;
    let t = projected(names, columns, target);
    lemma_long_len(columns, columns.len());
    assert forall|i: int| 0 <= i < t.columns.len() implies (#[trigger] t.columns[i]).cells.len()
        == target by {
        assert(columns[i].cells.len() == 1 || columns[i].cells.len() == target);
    }
    lemma_longest_of_equal(t.columns, t.columns.len(), target);
}

/// Makes one table of the evaluated columns of a projection.
///
/// A column of one row is repeated to the length of the others. Columns
/// of different lengths, other than single rows, are a `Runtime` error.
pub fn broadcast(columns: Vec<NamedColumn>) -> (r: SqlResult<Table>)
    ensures
        match target_len(views_of(columns@)) {
            None => r is Err && r->Err_0.type_ == ErrorType::Runtime,
            Some(target) => r is Ok && r->Ok_0@ == projected(names_of(columns@), views_of(columns@), target),
        },
        r is Ok ==> r->Ok_0@.wf() && r->Ok_0@.rectangular(),
{
    let ghost views = views_of(columns@);
    let ghost names = names_of(columns@);
    let mut long: Option<usize> = None;
    let mut i: usize = 0;
    while i < columns.len()
        invariant
            i <= columns@.len(),
            views == views_of(columns@),
            match long_len(views, i as nat) {
                None => false,
                Some(None) => long is None,
                Some(Some(l)) => long == Some(l as usize) && l <= usize::MAX,
            },
        decreases columns@.len() - i,
    {
        let length: usize = columns[i].column.len();
        assert(views[i as int].cells.len() == length);
        match long {
            None => {
                if length != 1 {
                    long = Some(length);
                }
            },
            Some(l) => {
                if length != 1 && length != l {
                    proof {
                        lemma_long_stays_none(views, (i + 1) as nat, views.len());
                    }
                    return Err(
                        SqlError::new("the columns of a projection differ in length", ErrorType::Runtime),
                    );
                }
            },
        }
        i = i + 1;
    }
    let target: usize = match long {
        Some(l) => l,
        None => 1,
    };
    let mut positions: Vec<usize> = Vec::new();
    let mut k: usize = 0;
    while k < target
        invariant
            k <= target,
            positions@.len() == k,
            forall|j: int| 0 <= j < k ==> positions@[j] == 0,
        decreases target - k,
    {
        positions.push(0);
        k = k + 1;
    }
    let mut table = Table::new();
    let mut columns = columns;
    let ghost all = columns@;
    let mut done: usize = 0;
    let total: usize = columns.len();
    let mut rest: Vec<NamedColumn> = Vec::new();
    while columns.len() > 0
        invariant
            columns@.len() <= total,
            total == all.len(),
            forall|j: int| 0 <= j < columns@.len() ==> columns@[j] == all[j],
            rest@.len() == total - columns@.len(),
            forall|j: int| 0 <= j < rest@.len() ==> rest@[j] == all[total - 1 - j],
        decreases columns@.len(),
    {
        let last = columns.pop().unwrap();
        rest.push(last);
    }
    while rest.len() > 0
        invariant
            done + rest@.len() == total,
            total == all.len(),
            views == views_of(all),
            names == names_of(all),
            positions@.len() == target,
            forall|j: int| 0 <= j < target ==> positions@[j] == 0,
            forall|j: int| 0 <= j < rest@.len() ==> rest@[j] == all[total - 1 - j],
            table@.alias == Seq::<char>::empty(),
            table@.names == Seq::new(done as nat, |j: int| names[j]),
            table@.index == Seq::new(
                done as nat,
                |j: int| IndexKey { qualifier: Seq::empty(), name: names[j], position: j as nat },
            ),
            table@.columns == Seq::new(done as nat, |j: int| stretched(views[j], target as nat)),
        decreases rest@.len(),
    {
        let next = rest.pop().unwrap();
        assert(next == all[done as int]);
        let ghost before = table@;
        let column: Rc<Column> = if next.column.len() == 1 {
            let repeated = next.column.gather(&positions);
            assert(repeated@.cells =~= stretched(views[done as int], target as nat).cells);
            Rc::new(repeated)
        } else {
            next.column
        };
        table.push(NamedColumn { name: next.name, column }, None);
        proof {
            assert(table@.names =~= Seq::new((done + 1) as nat, |j: int| names[j]));
            assert(table@.index =~= Seq::new(
                (done + 1) as nat,
                |j: int| IndexKey { qualifier: Seq::empty(), name: names[j], position: j as nat },
            ));
            assert(table@.columns =~= Seq::new(
                (done + 1) as nat,
                |j: int| stretched(views[j], target as nat),
            ));
        }
        done = done + 1;
    }
    proof {
        let goal = projected(names, views, target as nat);
        assert(table@.names =~= goal.names);
        assert(table@.index =~= goal.index);
        assert(table@.columns =~= goal.columns);
        lemma_projected_rectangular(names, views);
    }
    Ok(table)
}

/// Once two lengths disagree, more columns do not help.
pub proof fn lemma_long_stays_none(columns: Seq<ColumnView>, n: nat, m: nat)
    requires
        n <= m,
        long_len(columns, n) is None,
    ensures
        long_len(columns, m) is None,
    decreases m,
{
    if n < m {
        lemma_long_stays_none(columns, n, (m - 1) as nat);
    }
}

} // verus!
