//! The map operators of one argument: negation, the null tests and `year`.

use vstd::prelude::*;
use crate::ops::dates::{year_of, year_of_timestamp};
use crate::result::{ErrorType, SqlError, SqlResult};
use crate::table::value::Value;
use crate::table::{Cell, Column, ColumnType};

verus! {

#[derive(Clone, Copy, Debug, PartialEq, Eq, Structural)]
pub enum UnaryKind {
    /// `!`: the negation of a boolean.
    Not,
    /// `is_null`: whether the entry is null.
    IsNull,
    /// `not_null`: whether the entry is a value.
    NotNull,
    /// `year`: the calendar year of a date.
    Year,
}

impl UnaryKind {
    /// The name under which the operator reports a wrong number of
    /// arguments.
    pub open spec fn name(self) -> Seq<char> {
        match self {
            UnaryKind::Not => "not"@,
            UnaryKind::IsNull => "is_null"@,
            UnaryKind::NotNull => "not_null"@,
            UnaryKind::Year => "year"@,
        }
    }

    /// The type of the result on a column of the given type, where the
    /// operator accepts it.
    pub open spec fn result_kind(self, kind: ColumnType) -> Option<ColumnType> {
        match self {
            UnaryKind::Not => if kind == ColumnType::Boolean {
                Some(ColumnType::Boolean)
            } else {
                None
            },
            UnaryKind::IsNull => Some(ColumnType::Boolean),
            UnaryKind::NotNull => Some(ColumnType::Boolean),
            UnaryKind::Year => if kind == ColumnType::Date {
                Some(ColumnType::Int)
            } else {
                None
            },
        }
    }

    /// The result for one entry. The null tests answer for every entry;
    /// the others give null for null, and `year` also for a date that the
    /// calendar does not reach.
    pub open spec fn of(self, cell: Cell) -> Cell {
        match self {
            UnaryKind::IsNull => Cell::Boolean(cell is Null),
            UnaryKind::NotNull => Cell::Boolean(!(cell is Null)),
            UnaryKind::Not => match cell {
                Cell::Boolean(b) => Cell::Boolean(!b),
                _ => Cell::Null,
            },
            UnaryKind::Year => match cell {
                Cell::Date(d) => match year_of_timestamp(d) {
                    Some(y) => Cell::Int(y),
                    None => Cell::Null,
                },
                _ => Cell::Null,
            },
        }
    }

    /// What the operator returns: a `Runtime` error unless there is one
    /// argument, a `Type` error for an argument of a type it does not
    /// accept, and else the column of the results, entry by entry.
    pub open spec fn allows(self, arguments: Seq<&Column>, r: SqlResult<Column>) -> bool {
        if arguments.len() != 1 {
            r is Err && r->Err_0.type_ == ErrorType::Runtime
        } else {
            match self.result_kind(arguments[0].kind()) {
                None => r is Err && r->Err_0.type_ == ErrorType::Type,
                Some(kind) => r is Ok && r->Ok_0.kind() == kind && r->Ok_0.cells() == Seq::new(
                    arguments[0].cells().len(),
                    |i: int| self.of(arguments[0].cells()[i]),
                ),
            }
        }
    }

    fn label(&self) -> (r: &'static str)
        ensures
            r@ == self.name(),
    {
        match self {
            UnaryKind::Not => "not",
            UnaryKind::IsNull => "is_null",
            UnaryKind::NotNull => "not_null",
            UnaryKind::Year => "year",
        }
    }

    fn result_type(&self, kind: ColumnType) -> (r: Option<ColumnType>)
        ensures
            r == self.result_kind(kind),
    {
        match self {
            UnaryKind::Not => if kind == ColumnType::Boolean {
                Some(ColumnType::Boolean)
            } else {
                None
            },
            UnaryKind::IsNull => Some(ColumnType::Boolean),
            UnaryKind::NotNull => Some(ColumnType::Boolean),
            UnaryKind::Year => if kind == ColumnType::Date {
                Some(ColumnType::Int)
            } else {
                None
            },
        }
    }

    fn convert(&self, value: Value) -> (out: Value<'static>)
        ensures
            out@ == self.of(value@),
    {
        match self {
            UnaryKind::IsNull => match value {
                Value::Null => Value::Boolean(true),
                _ => Value::Boolean(false),
            },
            UnaryKind::NotNull => match value {
                Value::Null => Value::Boolean(false),
                _ => Value::Boolean(true),
            },
            UnaryKind::Not => match value {
                Value::Boolean(b) => Value::Boolean(!b),
                _ => Value::Null,
            },
            UnaryKind::Year => match value {
                Value::Date(d) => match year_of(d) {
                    Some(y) => Value::Int(y),
                    None => Value::Null,
                },
                _ => Value::Null,
            },
        }
    }

    /// Applies the operator to its one argument.
    pub fn apply(&self, arguments: &Vec<&Column>) -> (r: SqlResult<Column>)
        ensures
            self.allows(arguments@, r),
    {
        if arguments.len() != 1 {
            return Err(SqlError::args_length_error(1, arguments.len(), self.label()));
        }
        let argument: &Column = arguments[0];
        let kind = match self.result_type(argument.type_()) {
            Some(kind) => kind,
            None => {
                return Err(SqlError::new("operator applied to a column of the wrong type", ErrorType::Type));
            },
        };
        let mut out = Column::with_type(kind);
        let mut i: usize = 0;
        while i < argument.len()
            invariant
                i <= argument.cells().len(),
                Some(kind) == self.result_kind(argument.kind()),
                out.kind() == kind,
                out.cells() == Seq::new(i as nat, |j: int| self.of(argument.cells()[j])),
            decreases argument.cells().len() - i,
        {
            let value = self.convert(argument.value(i));
            proof {
                argument.lemma_cells_fit();
            }
            out.push_value(value);
            assert(out.cells() =~= Seq::new((i + 1) as nat, |j: int| self.of(argument.cells()[j])));
            i = i + 1;
        }
        Ok(out)
    }
}

} // verus!
