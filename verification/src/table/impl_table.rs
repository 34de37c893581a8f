//! Operations on tables. Each returns a new table; columns that pass
//! through unchanged are shared with the table they come from.

use vstd::prelude::*;
use std::rc::Rc;
use crate::result::{ErrorType, SqlError, SqlResult};
use crate::table::impl_column::{gathered, reordered, selected, shorter};
use crate::table::{
    Cell, Column, ColumnType, ColumnView, IndexEntry, IndexKey, NamedColumn, Table, TableMeta,
    TableView, index_lookup, longest, positions_of,
};
use crate::text::{lowercase, to_lowercase};

verus! {

/// What is done to every column of a table to derive another.
pub enum RowsOp<'a> {
    /// Keep the rows at which the mask holds `true`.
    Select(&'a Vec<Option<bool>>),
    /// Take row `k` from row `order[k]`.
    Order(&'a Vec<usize>),
    /// Keep the first rows.
    Limit(usize),
    /// Keep one row.
    Row(usize),
    /// Repeat the first row so many times.
    Repeat(usize),
}

/// The cells of one row, or of the first row past the end, or none of an
/// empty column.
pub open spec fn row_cells(cells: Seq<Cell>, idx: nat) -> Seq<Cell> {
    if idx < cells.len() {
        seq![cells[idx as int]]
    } else if cells.len() > 0 {
        seq![cells[0]]
    } else {
        Seq::empty()
    }
}

impl<'a> RowsOp<'a> {
    /// What the operation makes of the cells of one column.
    pub open spec fn applied(self, cells: Seq<Cell>) -> Seq<Cell> {
        match self {
            RowsOp::Select(mask) => gathered(cells, selected(mask@, shorter(cells.len(), mask@.len()))),
            RowsOp::Order(order) => reordered(cells, order@),
            RowsOp::Limit(n) => cells.take(shorter(n as nat, cells.len()) as int),
            RowsOp::Row(idx) => row_cells(cells, idx as nat),
            RowsOp::Repeat(n) => if cells.len() > 0 {
                Seq::new(n as nat, |k: int| cells[0])
            } else {
                Seq::empty()
            },
        }
    }

    fn apply(&self, column: &Column) -> (r: Column)
        ensures
            r.kind() == column.kind(),
            r.cells() == self.applied(column.cells()),
    {
        match self {
            RowsOp::Select(mask) => column.select(mask),
            RowsOp::Order(order) => column.order(order),
            RowsOp::Limit(n) => column.limit(*n),
            RowsOp::Row(idx) => column.row(*idx),
            RowsOp::Repeat(n) => {
                let mut positions: Vec<usize> = Vec::new();
                if column.len() > 0 {
                    let mut k: usize = 0;
                    while k < *n
                        invariant
                            k <= *n,
                            positions@.len() == k,
                            forall|j: int| 0 <= j < k ==> positions@[j] == 0,
                        decreases *n - k,
                    {
                        positions.push(0);
                        k = k + 1;
                    }
                }
                let r = column.gather(&positions);
                assert(r.cells() =~= self.applied(column.cells()));
                r
            },
        }
    }
}

/// The table with `op` applied to every column; alias, names and index stay.
pub open spec fn with_rows(t: TableView, op: RowsOp) -> TableView {
    TableView {
        alias: t.alias,
        names: t.names,
        index: t.index,
        columns: Seq::new(
            t.columns.len(),
            |i: int| ColumnView { kind: t.columns[i].kind, cells: op.applied(t.columns[i].cells) },
        ),
    }
}

/// The table under another alias: every column is indexed under the new
/// alias and its display name, in order.
pub open spec fn with_alias(t: TableView, alias: Seq<char>) -> TableView {
    TableView {
        alias: alias,
        names: t.names,
        index: Seq::new(
            t.names.len(),
            |i: int| IndexKey { qualifier: alias, name: t.names[i], position: i as nat },
        ),
        columns: t.columns,
    }
}

/// The table with one more column, indexed under `qualifier`.
pub open spec fn with_column(t: TableView, name: Seq<char>, column: ColumnView, qualifier: Seq<char>) -> TableView {
    TableView {
        alias: t.alias,
        names: t.names.push(name),
        index: t.index.push(IndexKey { qualifier: qualifier, name: name, position: t.columns.len() }),
        columns: t.columns.push(column),
    }
}

/// Whether two tables can be stacked: as many columns, of the same types.
pub open spec fn stackable(a: TableView, b: TableView) -> bool {
    &&& a.columns.len() == b.columns.len()
    &&& forall|i: int| 0 <= i < a.columns.len() ==> (#[trigger] a.columns[i]).kind == b.columns[i].kind
}

/// The rows of `a`, then those of `b`, under the alias, names and index of
/// `a`.
pub open spec fn stacked(a: TableView, b: TableView) -> TableView {
    TableView {
        alias: a.alias,
        names: a.names,
        index: a.index,
        columns: Seq::new(
            a.columns.len(),
            |i: int| ColumnView { kind: a.columns[i].kind, cells: a.columns[i].cells + b.columns[i].cells },
        ),
    }
}

fn copy_text(s: &String) -> (r: String)
    ensures
        r@ == s@,
{
    s.clone()
}

fn copy_names(names: &Vec<String>) -> (r: Vec<String>)
    ensures
        r@.len() == names@.len(),
        forall|i: int| 0 <= i < names@.len() ==> r@[i]@ == names@[i]@,
{
    let mut r: Vec<String> = Vec::new();
    let mut i: usize = 0;
    while i < names.len()
        invariant
            i <= names.len(),
            r@.len() == i,
            forall|j: int| 0 <= j < i ==> r@[j]@ == names@[j]@,
        decreases names.len() - i,
    {
        r.push(copy_text(&names[i]));
        i = i + 1;
    }
    r
}

fn copy_index(index: &Vec<IndexEntry>) -> (r: Vec<IndexEntry>)
    ensures
        r@.len() == index@.len(),
        forall|i: int| 0 <= i < index@.len() ==> r@[i]@ == index@[i]@,
{
    let mut r: Vec<IndexEntry> = Vec::new();
    let mut i: usize = 0;
    while i < index.len()
        invariant
            i <= index.len(),
            r@.len() == i,
            forall|j: int| 0 <= j < i ==> r@[j]@ == index@[j]@,
        decreases index.len() - i,
    {
        r.push(
            IndexEntry {
                qualifier: copy_text(&index[i].qualifier),
                name: copy_text(&index[i].name),
                position: index[i].position,
            },
        );
        i = i + 1;
    }
    r
}

impl Clone for Table {
    fn clone(&self) -> (r: Self)
        ensures
            r@ == self@,
    {
        let mut columns: Vec<Rc<Column>> = Vec::new();
        let mut i: usize = 0;
        while i < self.columns.len()
            invariant
                i <= self.columns.len(),
                columns@.len() == i,
                forall|j: int| 0 <= j < i ==> columns@[j] == self.columns@[j],
            decreases self.columns.len() - i,
        {
            columns.push(self.columns[i].clone());
            i = i + 1;
        }
        let r = Table {
            alias: copy_text(&self.alias),
            column_names: copy_names(&self.column_names),
            column_map: copy_index(&self.column_map),
            columns,
        };
        assert(r@.names =~= self@.names);
        assert(r@.index =~= self@.index);
        assert(r@.columns =~= self@.columns);
        r
    }
}

impl Table {
    /// The empty anonymous table.
    pub fn new() -> (t: Self)
        ensures
            t@.alias == Seq::<char>::empty(),
            t@.names == Seq::<Seq<char>>::empty(),
            t@.index == Seq::<IndexKey>::empty(),
            t@.columns == Seq::<ColumnView>::empty(),
            t@.wf(),
            t@.rectangular(),
    {
        let t = Table {
            alias: String::new(),
            column_names: Vec::new(),
            column_map: Vec::new(),
            columns: Vec::new(),
        };
        assert(t@.names =~= Seq::<Seq<char>>::empty());
        assert(t@.index =~= Seq::<IndexKey>::empty());
        assert(t@.columns =~= Seq::<ColumnView>::empty());
        t
    }

    pub fn alias(&self) -> (a: String)
        ensures
            a@ == self@.alias,
    {
        copy_text(&self.alias)
    }

    /// The number of columns.
    pub fn width(&self) -> (n: usize)
        ensures
            n == self@.width(),
    {
        self.columns.len()
    }

    /// The row count: the length of the longest column.
    pub fn len(&self) -> (n: usize)
        ensures
            n == self@.rows(),
    {
        let mut n: usize = 0;
        let mut i: usize = 0;
        while i < self.columns.len()
            invariant
                i <= self.columns.len(),
                n == longest(self@.columns, i as nat),
            decreases self.columns.len() - i,
        {
            let l: usize = self.columns[i].len();
            if l > n {
                n = l;
            }
            i = i + 1;
        }
        n
    }

    /// Whether all columns have the same length.
    pub fn is_rectangular(&self) -> (r: bool)
        ensures
            r == self@.rectangular(),
    {
        let n: usize = self.len();
        let mut i: usize = 0;
        while i < self.columns.len()
            invariant
                i <= self.columns.len(),
                n == self@.rows(),
                forall|j: int| 0 <= j < i ==> (#[trigger] self@.columns[j]).cells.len() == n,
            decreases self.columns.len() - i,
        {
            if self.columns[i].len() != n {
                assert(self@.columns[i as int].cells.len() != self@.rows());
                return false;
            }
            i = i + 1;
        }
        true
    }

    /// Fully qualified access, as in `table.name`. The qualifier is put to
    /// lower case, the name is taken as it is.
    pub fn column(&self, table: &str, name: &str) -> (r: Option<Rc<Column>>)
        requires
            self@.wf(),
        ensures
            match self@.lookup(lowercase(table@), name@) {
                Some(position) => r == Some(self.columns@[position as int]),
                None => r is None,
            },
    {
        let qualifier = to_lowercase(table);
        let mut i: usize = self.column_map.len();
        assert(self@.index.take(i as int) =~= self@.index);
        while i > 0
            invariant
                i <= self.column_map.len(),
                self@.wf(),
                qualifier@ == lowercase(table@),
                self@.lookup(qualifier@, name@) == index_lookup(
                    self@.index.take(i as int),
                    qualifier@,
                    name@,
                ),
            decreases i,
        {
            i = i - 1;
            let entry = &self.column_map[i];
            assert(self@.index.take(i + 1).last() == self@.index[i as int]);
            assert(self@.index.take(i + 1).drop_last() =~= self@.index.take(i as int));
            if *entry.qualifier.as_str() == *qualifier.as_str() && *entry.name.as_str() == *name {
                assert(self@.index[i as int].position < self@.columns.len());
                return Some(self.columns[entry.position].clone());
            }
        }
        assert(self@.index.take(0).len() == 0);
        None
    }

    /// Access by display name alone, as in `select a from t`. A name that
    /// no column has, or that more than one has, is an error.
    pub fn column_search(&self, name: &str) -> (r: SqlResult<Rc<Column>>)
        requires
            self@.wf(),
        ensures
            self@.found(name@).len() == 1 ==> r == Ok::<Rc<Column>, SqlError>(
                self.columns@[self@.found(name@)[0] as int],
            ),
            self@.found(name@).len() != 1 ==> r is Err && r->Err_0.type_ == ErrorType::Lookup,
    {
        let mut index: usize = 0;
        let mut found_once: bool = false;
        let mut num: usize = 0;
        while num < self.column_names.len()
            invariant
                num <= self.column_names.len(),
                self@.wf(),
                found_once == (positions_of(self@.names, name@, num as nat).len() == 1),
                !found_once ==> positions_of(self@.names, name@, num as nat).len() == 0,
                found_once ==> positions_of(self@.names, name@, num as nat)[0] == index && index
                    < num,
            decreases self.column_names.len() - num,
        {
            if *self.column_names[num].as_str() == *name {
                if found_once {
                    proof {
                        lemma_positions_grow(self@.names, name@, (num + 1) as nat, self@.names.len());
                    }
                    return Err(SqlError::new("unqualified column name is ambiguous", ErrorType::Lookup));
                } else {
                    found_once = true;
                    index = num;
                }
            }
            num = num + 1;
        }
        if !found_once {
            Err(SqlError::look_up_error(name, "table"))
        } else {
            Ok(self.columns[index].clone())
        }
    }

    /// The columns with their names, in order.
    pub fn into_columns(self) -> (r: Vec<NamedColumn>)
        requires
            self@.wf(),
        ensures
            r@.len() == self@.width(),
            forall|i: int|
                0 <= i < r@.len() ==> (#[trigger] r@[i]).name@ == self@.names[i] && (*r@[i].column)@
                    == self@.columns[i],
    {
        self.to_columns()
    }

    /// The columns with their names, in order; the table stays.
    pub fn to_columns(&self) -> (r: Vec<NamedColumn>)
        requires
            self@.wf(),
        ensures
            r@.len() == self@.width(),
            forall|i: int|
                0 <= i < r@.len() ==> (#[trigger] r@[i]).name@ == self@.names[i] && (*r@[i].column)@
                    == self@.columns[i],
    {
        let mut r: Vec<NamedColumn> = Vec::new();
        let mut i: usize = 0;
        while i < self.columns.len()
            invariant
                i <= self.columns.len(),
                self@.wf(),
                r@.len() == i,
                forall|j: int|
                    0 <= j < i ==> (#[trigger] r@[j]).name@ == self@.names[j] && (*r@[j].column)@
                        == self@.columns[j],
            decreases self.columns.len() - i,
        {
            r.push(NamedColumn { name: copy_text(&self.column_names[i]), column: self.columns[i].clone() });
            i = i + 1;
        }
        r
    }

    /// The display names, in order.
    pub fn column_names(&self) -> (r: Vec<String>)
        ensures
            r@.len() == self@.names.len(),
            forall|i: int| 0 <= i < r@.len() ==> r@[i]@ == self@.names[i],
    {
        copy_names(&self.column_names)
    }

    /// Applies `op` to every column.
    pub fn transformed(&self, op: &RowsOp) -> (r: Self)
        ensures
            r@ == with_rows(self@, *op),
            self@.wf() ==> r@.wf(),
    {
        let mut columns: Vec<Rc<Column>> = Vec::new();
        let mut i: usize = 0;
        while i < self.columns.len()
            invariant
                i <= self.columns.len(),
                columns@.len() == i,
                forall|j: int|
                    0 <= j < i ==> (*#[trigger] columns@[j])@ == (ColumnView {
                        kind: self@.columns[j].kind,
                        cells: op.applied(self@.columns[j].cells),
                    }),
            decreases self.columns.len() - i,
        {
            columns.push(Rc::new(op.apply(&self.columns[i])));
            i = i + 1;
        }
        let r = Table {
            alias: copy_text(&self.alias),
            column_names: copy_names(&self.column_names),
            column_map: copy_index(&self.column_map),
            columns,
        };
        assert(r@.names =~= self@.names);
        assert(r@.index =~= self@.index);
        assert(r@.columns =~= with_rows(self@, *op).columns);
        r
    }

    /// The first `length` rows.
    pub fn limit(&self, length: usize) -> (r: Self)
        ensures
            r@ == with_rows(self@, RowsOp::Limit(length)),
            self@.wf() ==> r@.wf(),
    {
        self.transformed(&RowsOp::Limit(length))
    }

    /// The rows at which `mask` holds `true`.
    pub fn where_(&self, mask: &Vec<Option<bool>>) -> (r: Self)
        ensures
            r@ == with_rows(self@, RowsOp::Select(mask)),
            self@.wf() ==> r@.wf(),
    {
        self.transformed(&RowsOp::Select(mask))
    }

    /// The rows in another order: row `k` is taken from row `order_vec[k]`.
    pub fn order_by(&self, order_vec: &Vec<usize>) -> (r: Self)
        ensures
            r@ == with_rows(self@, RowsOp::Order(order_vec)),
            self@.wf() ==> r@.wf(),
    {
        self.transformed(&RowsOp::Order(order_vec))
    }

    /// The one-row table of row `idx`.
    pub fn row(&self, idx: usize) -> (r: Self)
        ensures
            r@ == with_rows(self@, RowsOp::Row(idx)),
            self@.wf() ==> r@.wf(),
    {
        self.transformed(&RowsOp::Row(idx))
    }

    /// Appends a column, indexed under `table` or, without one, under the
    /// table's own alias.
    pub fn push(&mut self, column: NamedColumn, table: Option<&str>)
        ensures
            final(self)@ == with_column(
                old(self)@,
                column.name@,
                (*column.column)@,
                match table {
                    Some(t) => t@,
                    None => old(self)@.alias,
                },
            ),
            old(self)@.wf() ==> final(self)@.wf(),
    {
        let qualifier: String = match table {
            Some(t) => {
                let mut q = String::new();
                crate::text::push_text(&mut q, t);
                q
            },
            None => copy_text(&self.alias),
        };
        let position: usize = self.columns.len();
        let name = column.name;
        self.column_map.push(IndexEntry { qualifier, name: copy_text(&name), position });
        self.column_names.push(name);
        self.columns.push(column.column);
        proof {
            let target = with_column(
                old(self)@,
                column.name@,
                (*column.column)@,
                match table {
                    Some(t) => t@,
                    None => old(self)@.alias,
                },
            );
            assert(self@.names =~= target.names);
            assert(self@.index =~= target.index);
            assert(self@.columns =~= target.columns);
        }
    }

    /// The same columns under another alias.
    pub fn with_new_alias(&self, alias: String) -> (r: Self)
        requires
            self@.wf(),
        ensures
            r@ == with_alias(self@, alias@),
            r@.wf(),
    {
        let mut column_map: Vec<IndexEntry> = Vec::new();
        let mut columns: Vec<Rc<Column>> = Vec::new();
        let mut i: usize = 0;
        while i < self.columns.len()
            invariant
                i <= self.columns.len(),
                self@.wf(),
                column_map@.len() == i,
                columns@.len() == i,
                forall|j: int| 0 <= j < i ==> columns@[j] == self.columns@[j],
                forall|j: int|
                    0 <= j < i ==> (#[trigger] column_map@[j])@ == (IndexKey {
                        qualifier: alias@,
                        name: self@.names[j],
                        position: j as nat,
                    }),
            decreases self.columns.len() - i,
        {
            column_map.push(
                IndexEntry {
                    qualifier: copy_text(&alias),
                    name: copy_text(&self.column_names[i]),
                    position: i,
                },
            );
            columns.push(self.columns[i].clone());
            i = i + 1;
        }
        let r = Table { alias, column_names: copy_names(&self.column_names), column_map, columns };
        assert(r@.names =~= self@.names);
        assert(r@.index =~= with_alias(self@, alias@).index);
        assert(r@.columns =~= self@.columns);
        r
    }

    /// The rows of `self`, then those of `other`. The two must have as many
    /// columns (else a `Runtime` error) of the same types (else a `Type`
    /// error).
    pub fn merge(&self, other: &Self) -> (r: SqlResult<Self>)
        ensures
            stackable(self@, other@) ==> r is Ok && r->Ok_0@ == stacked(self@, other@),
            !stackable(self@, other@) ==> r is Err,
            self@.columns.len() != other@.columns.len() ==> r is Err && r->Err_0.type_
                == ErrorType::Runtime,
            self@.columns.len() == other@.columns.len() && !stackable(self@, other@) ==> r is Err
                && r->Err_0.type_ == ErrorType::Type,
            self@.wf() && r is Ok ==> r->Ok_0@.wf(),
    {
        if self.columns.len() != other.columns.len() {
            return Err(SqlError::new("cannot union tables of different widths", ErrorType::Runtime));
        }
        let mut columns: Vec<Rc<Column>> = Vec::new();
        let mut i: usize = 0;
        while i < self.columns.len()
            invariant
                i <= self.columns.len(),
                self.columns.len() == other.columns.len(),
                columns@.len() == i,
                forall|j: int| 0 <= j < i ==> (#[trigger] self@.columns[j]).kind == other@.columns[j].kind,
                forall|j: int|
                    0 <= j < i ==> (*#[trigger] columns@[j])@ == (ColumnView {
                        kind: self@.columns[j].kind,
                        cells: self@.columns[j].cells + other@.columns[j].cells,
                    }),
            decreases self.columns.len() - i,
        {
            match self.columns[i].concat(&other.columns[i]) {
                Ok(c) => {
                    columns.push(Rc::new(c));
                },
                Err(e) => {
                    assert(self@.columns[i as int].kind != other@.columns[i as int].kind);
                    return Err(e);
                },
            }
            i = i + 1;
        }
        let r = Table {
            alias: copy_text(&self.alias),
            column_names: copy_names(&self.column_names),
            column_map: copy_index(&self.column_map),
            columns,
        };
        assert(r@.names =~= self@.names);
        assert(r@.index =~= self@.index);
        assert(r@.columns =~= stacked(self@, other@).columns);
        Ok(r)
    }

    /// The union of all tables, in order; of no table, the empty table.
    /// The first table that cannot stand under the first one decides the
    /// error: `Runtime` where it has another number of columns, `Type`
    /// where a column is of another type.
    pub fn from_tables(tables: Vec<Self>) -> (r: SqlResult<Self>)
        ensures
            tables@.len() == 0 ==> r is Ok && r->Ok_0@ == (TableView {
                alias: Seq::empty(),
                names: Seq::empty(),
                index: Seq::empty(),
                columns: Seq::empty(),
            }),
            tables@.len() == 1 ==> r is Ok && r->Ok_0@ == tables@[0]@,
            r is Ok <==> forall|i: int| 1 <= i < tables@.len() ==> stackable(tables@[0]@, #[trigger] tables@[i]@),
            r is Ok && tables@.len() > 0 ==> r->Ok_0@ == stacked_all(tables@, tables@.len() as nat),
            r is Ok && (tables@.len() > 0 ==> tables@[0]@.wf()) ==> r->Ok_0@.wf(),
            r matches Err(e) ==> exists|i: int|
                1 <= i < tables@.len() && !stackable(tables@[0]@, #[trigger] tables@[i]@) && (forall|j: int|
                    1 <= j < i ==> stackable(tables@[0]@, #[trigger] tables@[j]@)) && e.type_ == (if tables@[0]@.columns.len()
                    != tables@[i]@.columns.len() {
                    ErrorType::Runtime
                } else {
                    ErrorType::Type
                }),
    {
        if tables.len() == 0 {
            return Ok(Self::new());
        }
        let mut acc: Table = tables[0].clone();
        let mut i: usize = 1;
        while i < tables.len()
            invariant
                1 <= i <= tables.len(),
                acc@ == stacked_all(tables@, i as nat),
                tables@[0]@.wf() ==> acc@.wf(),
                forall|j: int| 1 <= j < i ==> stackable(tables@[0]@, #[trigger] tables@[j]@),
            decreases tables.len() - i,
        {
            proof {
                lemma_stacked_all_shape(tables@, i as nat);
            }
            match acc.merge(&tables[i]) {
                Ok(t) => {
                    acc = t;
                },
                Err(e) => {
                    assert(!stackable(tables@[0]@, tables@[i as int]@));
                    return Err(e);
                },
            }
            assert(stackable(tables@[0]@, tables@[i as int]@)) by {
                let whole = stacked_all(tables@, i as nat);
                assert forall|k: int| 0 <= k < tables@[0]@.columns.len() implies (
                #[trigger] tables@[0]@.columns[k]).kind == tables@[i as int]@.columns[k].kind by {
                    assert(whole.columns[k].kind == tables@[0]@.columns[k].kind);
                    assert(whole.columns[k].kind == tables@[i as int]@.columns[k].kind);
                }
            }
            i = i + 1;
        }
        Ok(acc)
    }

    /// The names and types of the columns, the row count and the alias.
    pub fn meta(&self) -> (m: TableMeta)
        requires
            self@.wf(),
        ensures
            m.alias@ == self@.alias,
            m.length == self@.rows(),
            m.columns@.len() == self@.width(),
            forall|i: int|
                0 <= i < m.columns@.len() ==> (#[trigger] m.columns@[i]).0@ == self@.names[i]
                    && m.columns@[i].1 == self@.columns[i].kind,
    {
        let mut columns: Vec<(String, ColumnType)> = Vec::new();
        let mut i: usize = 0;
        while i < self.columns.len()
            invariant
                i <= self.columns.len(),
                self@.wf(),
                columns@.len() == i,
                forall|j: int|
                    0 <= j < i ==> (#[trigger] columns@[j]).0@ == self@.names[j] && columns@[j].1
                        == self@.columns[j].kind,
            decreases self.columns.len() - i,
        {
            columns.push((copy_text(&self.column_names[i]), self.columns[i].type_()));
            i = i + 1;
        }
        TableMeta { columns, length: self.len(), alias: copy_text(&self.alias) }
    }
}

/// The first `n` tables stacked in order.
pub open spec fn stacked_all(tables: Seq<Table>, n: nat) -> TableView
    recommends
        1 <= n <= tables.len(),
    decreases n,
{
    if n <= 1 {
        tables[0]@
    } else {
        stacked(stacked_all(tables, (n - 1) as nat), tables[n - 1]@)
    }
}

/// Stacking keeps the number and the types of the columns of the first
/// table.
pub proof fn lemma_stacked_all_shape(tables: Seq<Table>, n: nat)
    requires
        1 <= n <= tables.len(),
    ensures
        stacked_all(tables, n).columns.len() == tables[0]@.columns.len(),
        forall|i: int|
            0 <= i < tables[0]@.columns.len() ==> (#[trigger] stacked_all(tables, n).columns[i]).kind
                == tables[0]@.columns[i].kind,
    decreases n,
{
    if n > 1 {
        lemma_stacked_all_shape(tables, (n - 1) as nat);
    }
}

/// A position that the index gives is the position of one of its entries.
pub proof fn lemma_lookup_bound(index: Seq<IndexKey>, qualifier: Seq<char>, name: Seq<char>)
    ensures
        index_lookup(index, qualifier, name) matches Some(position) ==> exists|i: int|
            0 <= i < index.len() && (#[trigger] index[i]).position == position,
    decreases index.len(),
{
    if index.len() > 0 {
        if index.last().qualifier == qualifier && index.last().name == name {
            assert(index[index.len() - 1].position == index.last().position);
        } else {
            lemma_lookup_bound(index.drop_last(), qualifier, name);
            if index_lookup(index.drop_last(), qualifier, name) is Some {
                let position = index_lookup(index.drop_last(), qualifier, name)->Some_0;
                let i = choose|i: int|
                    0 <= i < index.drop_last().len() && (#[trigger] index.drop_last()[i]).position
                        == position;
                assert(index[i].position == position);
            }
        }
    }
}

/// The positions found are positions of the list, and name the name.
pub proof fn lemma_positions_bound(names: Seq<Seq<char>>, name: Seq<char>, n: nat)
    requires
        n <= names.len(),
    ensures
        forall|k: int|
            0 <= k < positions_of(names, name, n).len() ==> (#[trigger] positions_of(names, name, n)[k])
                < n && names[positions_of(names, name, n)[k] as int] == name,
    decreases n,
{
    if n > 0 {
        lemma_positions_bound(names, name, (n - 1) as nat);
        let rest = positions_of(names, name, (n - 1) as nat);
        let all = positions_of(names, name, n);
        assert forall|k: int| 0 <= k < all.len() implies (#[trigger] all[k]) < n && names[all[k] as int]
            == name by {
            if k < rest.len() {
                assert(all[k] == rest[k]);
            }
        }
    }
}

/// Looking at more names never loses a position already found.
pub proof fn lemma_positions_grow(names: Seq<Seq<char>>, name: Seq<char>, n: nat, m: nat)
    requires
        n <= m,
    ensures
        positions_of(names, name, n).len() <= positions_of(names, name, m).len(),
    decreases m,
{
    if n < m {
        lemma_positions_grow(names, name, n, (m - 1) as nat);
    }
}

} // verus!
