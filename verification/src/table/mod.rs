//! The column store: typed nullable columns, tables of named columns, and
//! the store of tables a query runs against.

use vstd::prelude::*;
use std::rc::Rc;
use crate::floats::Float;

pub mod impl_column;
pub mod impl_table;
pub mod impl_table_hash;
pub mod impl_store;
pub mod laws;
pub mod reread;
pub mod value;
pub mod impl_table_display;
pub mod load;
pub mod render;

verus! {

/// Seconds since the Unix epoch.
pub type DateTime = i64;

/// The five value types.
#[derive(Clone, Copy, Debug, PartialEq, Eq, Structural)]
pub enum ColumnType {
    Float,
    Int,
    String,
    Boolean,
    Date,
}

/// A homogeneous sequence of nullable values.
#[derive(Debug)]
pub enum Column {
    Floats(Vec<Option<Float>>),
    Ints(Vec<Option<i64>>),
    Strings(Vec<Option<String>>),
    Booleans(Vec<Option<bool>>),
    Dates(Vec<Option<DateTime>>),
}

/// One entry of a column as a mathematical value. A float is its bit
/// pattern, a text its characters.
pub enum Cell {
    Null,
    Boolean(bool),
    Int(i64),
    Float(u64),
    Text(Seq<char>),
    Date(i64),
}

pub open spec fn float_cell(v: Option<Float>) -> Cell {
    match v {
        Some(f) => Cell::Float(f.bits),
        None => Cell::Null,
    }
}

pub open spec fn int_cell(v: Option<i64>) -> Cell {
    match v {
        Some(i) => Cell::Int(i),
        None => Cell::Null,
    }
}

pub open spec fn text_cell(v: Option<String>) -> Cell {
    match v {
        Some(s) => Cell::Text(s@),
        None => Cell::Null,
    }
}

pub open spec fn bool_cell(v: Option<bool>) -> Cell {
    match v {
        Some(b) => Cell::Boolean(b),
        None => Cell::Null,
    }
}

pub open spec fn date_cell(v: Option<DateTime>) -> Cell {
    match v {
        Some(d) => Cell::Date(d),
        None => Cell::Null,
    }
}

/// Whether a cell may stand in a column of the given type.
pub open spec fn cell_fits(cell: Cell, kind: ColumnType) -> bool {
    match cell {
        Cell::Null => true,
        Cell::Boolean(_) => kind == ColumnType::Boolean,
        Cell::Int(_) => kind == ColumnType::Int,
        Cell::Float(_) => kind == ColumnType::Float,
        Cell::Text(_) => kind == ColumnType::String,
        Cell::Date(_) => kind == ColumnType::Date,
    }
}

impl Column {
    /// The type tag of the column.
    pub open spec fn kind(&self) -> ColumnType {
        match self {
            Column::Floats(_) => ColumnType::Float,
            Column::Ints(_) => ColumnType::Int,
            Column::Strings(_) => ColumnType::String,
            Column::Booleans(_) => ColumnType::Boolean,
            Column::Dates(_) => ColumnType::Date,
        }
    }

    /// The entries of the column, in order.
    pub open spec fn cells(&self) -> Seq<Cell> {
        match self {
            Column::Floats(v) => Seq::new(v@.len(), |i: int| float_cell(v@[i])),
            Column::Ints(v) => Seq::new(v@.len(), |i: int| int_cell(v@[i])),
            Column::Strings(v) => Seq::new(v@.len(), |i: int| text_cell(v@[i])),
            Column::Booleans(v) => Seq::new(v@.len(), |i: int| bool_cell(v@[i])),
            Column::Dates(v) => Seq::new(v@.len(), |i: int| date_cell(v@[i])),
        }
    }

    /// Every entry is null or a value of the column's type.
    pub proof fn lemma_cells_fit(&self)
        ensures
            forall|i: int| 0 <= i < self.cells().len() ==> cell_fits(#[trigger] self.cells()[i], self.kind()),
    {
    }
}

/// A column as a mathematical value: its type and its entries.
pub struct ColumnView {
    pub kind: ColumnType,
    pub cells: Seq<Cell>,
}

impl View for Column {
    type V = ColumnView;

    open spec fn view(&self) -> ColumnView {
        ColumnView { kind: self.kind(), cells: self.cells() }
    }
}

/// A column with the name it is shown under.
#[derive(Debug)]
pub struct NamedColumn {
    pub name: String,
    pub column: Rc<Column>,
}

/// One entry of a table's index: the column at `position` can be reached
/// as `qualifier.name`.
#[derive(Debug)]
pub struct IndexEntry {
    pub qualifier: String,
    pub name: String,
    pub position: usize,
}

/// An ordered list of named columns that share their rows.
#[derive(Debug)]
pub struct Table {
    /// The name that qualifies the table's columns; empty for an anonymous
    /// intermediate table.
    pub alias: String,
    /// The display names, aligned with `columns`.
    pub column_names: Vec<String>,
    /// The qualified names; where a qualified name occurs twice the later
    /// entry holds.
    pub column_map: Vec<IndexEntry>,
    pub columns: Vec<Rc<Column>>,
}

/// What is known of a table without its data.
#[derive(Debug)]
pub struct TableMeta {
    pub columns: Vec<(String, ColumnType)>,
    pub length: usize,
    pub alias: String,
}

/// The tables a query can name, by alias.
#[derive(Debug)]
pub struct Store {
    pub tables: Vec<Table>,
}

/// An index entry as a mathematical value.
pub struct IndexKey {
    pub qualifier: Seq<char>,
    pub name: Seq<char>,
    pub position: nat,
}

/// A table as a mathematical value.
pub struct TableView {
    pub alias: Seq<char>,
    pub names: Seq<Seq<char>>,
    pub index: Seq<IndexKey>,
    pub columns: Seq<ColumnView>,
}

/// The position that the index gives a qualified name: that of the last
/// entry under that name.
pub open spec fn index_lookup(index: Seq<IndexKey>, qualifier: Seq<char>, name: Seq<char>) -> Option<nat>
    decreases index.len(),
{
    if index.len() == 0 {
        None
    } else if index.last().qualifier == qualifier && index.last().name == name {
        Some(index.last().position)
    } else {
        index_lookup(index.drop_last(), qualifier, name)
    }
}

/// The positions below `n` whose name is `name`, ascending.
pub open spec fn positions_of(names: Seq<Seq<char>>, name: Seq<char>, n: nat) -> Seq<nat>
    decreases n,
{
    if n == 0 {
        Seq::empty()
    } else if names[n - 1] == name {
        positions_of(names, name, (n - 1) as nat).push((n - 1) as nat)
    } else {
        positions_of(names, name, (n - 1) as nat)
    }
}

/// The length of the longest of the first `n` columns.
pub open spec fn longest(columns: Seq<ColumnView>, n: nat) -> nat
    decreases n,
{
    if n == 0 {
        0
    } else {
        let rest = longest(columns, (n - 1) as nat);
        if columns[n - 1].cells.len() > rest {
            columns[n - 1].cells.len()
        } else {
            rest
        }
    }
}

impl TableView {
    /// The number of columns.
    pub open spec fn width(self) -> nat {
        self.columns.len()
    }

    /// The row count: the length of the longest column.
    pub open spec fn rows(self) -> nat {
        longest(self.columns, self.columns.len())
    }

    /// Names and columns are aligned, and every index entry points at a
    /// column.
    pub open spec fn wf(self) -> bool {
        &&& self.names.len() == self.columns.len()
        &&& forall|i: int| 0 <= i < self.index.len() ==> (#[trigger] self.index[i]).position < self.columns.len()
    }

    /// All columns have the same length.
    pub open spec fn rectangular(self) -> bool {
        forall|i: int| 0 <= i < self.columns.len() ==> (#[trigger] self.columns[i]).cells.len() == self.rows()
    }

    /// The column that the qualified name reaches, if any.
    pub open spec fn lookup(self, qualifier: Seq<char>, name: Seq<char>) -> Option<nat> {
        index_lookup(self.index, qualifier, name)
    }

    /// The positions of the columns shown under `name`.
    pub open spec fn found(self, name: Seq<char>) -> Seq<nat> {
        positions_of(self.names, name, self.names.len())
    }
}

impl View for IndexEntry {
    type V = IndexKey;

    open spec fn view(&self) -> IndexKey {
        IndexKey { qualifier: self.qualifier@, name: self.name@, position: self.position as nat }
    }
}

impl View for Table {
    type V = TableView;

    open spec fn view(&self) -> TableView {
        TableView {
            alias: self.alias@,
            names: Seq::new(self.column_names@.len(), |i: int| self.column_names@[i]@),
            index: Seq::new(self.column_map@.len(), |i: int| self.column_map@[i]@),
            columns: Seq::new(self.columns@.len(), |i: int| (*self.columns@[i])@),
        }
    }
}

} // verus!
