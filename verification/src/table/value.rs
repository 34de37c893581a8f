//! Single values: what one row of a column holds.

use vstd::prelude::*;
use crate::floats::Float;
use crate::table::{Cell, Column, ColumnType, DateTime, cell_fits};
use crate::text::push_text;

verus! {

/// One entry of a column, borrowed from it.
#[derive(Clone, Copy, Debug)]
pub enum Value<'a> {
    Null,
    Boolean(bool),
    Int(i64),
    Float(Float),
    Text(&'a str),
    Date(DateTime),
}

impl<'a> View for Value<'a> {
    type V = Cell;

    open spec fn view(&self) -> Cell {
        match self {
            Value::Null => Cell::Null,
            Value::Boolean(b) => Cell::Boolean(*b),
            Value::Int(i) => Cell::Int(*i),
            Value::Float(f) => Cell::Float(f.bits),
            Value::Text(s) => Cell::Text(s@),
            Value::Date(d) => Cell::Date(*d),
        }
    }
}

/// The type of a cell that is not null.
pub open spec fn kind_of(cell: Cell) -> Option<ColumnType> {
    match cell {
        Cell::Null => None,
        Cell::Boolean(_) => Some(ColumnType::Boolean),
        Cell::Int(_) => Some(ColumnType::Int),
        Cell::Float(_) => Some(ColumnType::Float),
        Cell::Text(_) => Some(ColumnType::String),
        Cell::Date(_) => Some(ColumnType::Date),
    }
}

/// The cell that an optional value stands for: null where there is none.
pub open spec fn cell_of(value: Option<Value>) -> Cell {
    match value {
        Some(v) => v@,
        None => Cell::Null,
    }
}

impl Column {
    /// An empty column of the given type.
    pub fn with_type(kind: ColumnType) -> (r: Column)
        ensures
            r.kind() == kind,
            r.cells() == Seq::<Cell>::empty(),
    {
        let r = match kind {
            ColumnType::Boolean => Column::Booleans(Vec::new()),
            ColumnType::Date => Column::Dates(Vec::new()),
            ColumnType::Float => Column::Floats(Vec::new()),
            ColumnType::Int => Column::Ints(Vec::new()),
            ColumnType::String => Column::Strings(Vec::new()),
        };
        assert(r.cells() =~= Seq::<Cell>::empty());
        r
    }

    /// The entry at row `idx`.
    pub fn value(&self, idx: usize) -> (v: Value<'_>)
        requires
            idx < self.cells().len(),
        ensures
            v@ == self.cells()[idx as int],
    {
        match self {
            Column::Booleans(v) => match v[idx] {
                Some(b) => Value::Boolean(b),
                None => Value::Null,
            },
            Column::Dates(v) => match v[idx] {
                Some(d) => Value::Date(d),
                None => Value::Null,
            },
            Column::Floats(v) => match v[idx] {
                Some(f) => Value::Float(f),
                None => Value::Null,
            },
            Column::Ints(v) => match v[idx] {
                Some(i) => Value::Int(i),
                None => Value::Null,
            },
            Column::Strings(v) => match &v[idx] {
                Some(s) => Value::Text(s.as_str()),
                None => Value::Null,
            },
        }
    }

    /// The entries in order, a null as `None`.
    pub fn values(&self) -> (r: Vec<Option<Value<'_>>>)
        ensures
            r@.len() == self.cells().len(),
            forall|i: int| 0 <= i < r@.len() ==> cell_of(#[trigger] r@[i]) == self.cells()[i],
            forall|i: int| 0 <= i < r@.len() ==> ((#[trigger] r@[i]) is None <==> self.cells()[i] is Null),
    {
        let mut r: Vec<Option<Value<'_>>> = Vec::new();
        let mut i: usize = 0;
        while i < self.len()
            invariant
                i <= self.cells().len(),
                r@.len() == i,
                forall|j: int| 0 <= j < i ==> cell_of(#[trigger] r@[j]) == self.cells()[j],
                forall|j: int| 0 <= j < i ==> ((#[trigger] r@[j]) is None <==> self.cells()[j] is Null),
            decreases self.cells().len() - i,
        {
            let v = self.value(i);
            match v {
                Value::Null => r.push(None),
                _ => r.push(Some(v)),
            }
            i = i + 1;
        }
        r
    }

    /// Appends one entry, which must be null or of the column's type.
    pub fn push_value(&mut self, value: Value)
        requires
            cell_fits(value@, old(self).kind()),
        ensures
            final(self).kind() == old(self).kind(),
            final(self).cells() == old(self).cells().push(value@),
    {
        match self {
            Column::Booleans(v) => match value {
                Value::Boolean(b) => v.push(Some(b)),
                _ => v.push(None),
            },
            Column::Dates(v) => match value {
                Value::Date(d) => v.push(Some(d)),
                _ => v.push(None),
            },
            Column::Floats(v) => match value {
                Value::Float(f) => v.push(Some(f)),
                _ => v.push(None),
            },
            Column::Ints(v) => match value {
                Value::Int(i) => v.push(Some(i)),
                _ => v.push(None),
            },
            Column::Strings(v) => match value {
                Value::Text(s) => {
                    let mut text = String::new();
                    push_text(&mut text, s);
                    v.push(Some(text));
                },
                _ => v.push(None),
            },
        }
        assert(self.cells() =~= old(self).cells().push(value@));
    }

    /// The column of the given type that holds the given entries.
    pub fn from_values(kind: ColumnType, values: &Vec<Option<Value>>) -> (r: Column)
        requires
            forall|i: int| 0 <= i < values@.len() ==> cell_fits(cell_of(#[trigger] values@[i]), kind),
        ensures
            r.kind() == kind,
            r.cells().len() == values@.len(),
            forall|i: int| 0 <= i < values@.len() ==> r.cells()[i] == cell_of(#[trigger] values@[i]),
    {
        let mut r = Column::with_type(kind);
        let mut i: usize = 0;
        while i < values.len()
            invariant
                i <= values@.len(),
                r.kind() == kind,
                r.cells().len() == i,
                forall|j: int| 0 <= j < values@.len() ==> cell_fits(cell_of(#[trigger] values@[j]), kind),
                forall|j: int| 0 <= j < i ==> r.cells()[j] == cell_of(#[trigger] values@[j]),
            decreases values@.len() - i,
        {
            assert(cell_fits(cell_of(values@[i as int]), kind));
            match values[i] {
                Some(v) => r.push_value(v),
                None => r.push_value(Value::Null),
            }
            i = i + 1;
        }
        r
    }
}

} // verus!
