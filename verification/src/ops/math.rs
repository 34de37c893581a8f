//! The reduce operators: `count`, `sum`, `min`, `max` and `mean`.

use vstd::prelude::*;
use crate::floats::{Float, FloatMath, float_lt, is_nan};
use crate::result::{ErrorType, SqlError, SqlResult};
use crate::table::value::Value;
use crate::table::{Cell, Column, ColumnType};

verus! {

#[derive(Clone, Copy, Debug, PartialEq, Eq, Structural)]
pub enum ReduceKind {
    Max,
    Min,
    Mean,
    Sum,
    Count,
}

/// The number of values among the first `n` cells.
pub open spec fn present(cells: Seq<Cell>, n: nat) -> nat
    decreases n,
{
    if n == 0 {
        0
    } else if cells[n - 1] is Null {
        present(cells, (n - 1) as nat)
    } else {
        present(cells, (n - 1) as nat) + 1
    }
}

/// The sum of the integers among the first `n` cells, wrapping around; a
/// null counts as zero.
pub open spec fn int_sum(cells: Seq<Cell>, n: nat) -> i64
    decreases n,
{
    if n == 0 {
        0
    } else {
        match cells[n - 1] {
            Cell::Int(v) => int_sum(cells, (n - 1) as nat).wrapping_add(v),
            _ => int_sum(cells, (n - 1) as nat),
        }
    }
}

/// The greatest, or the least, of the integers among the first `n` cells.
pub open spec fn int_best(cells: Seq<Cell>, n: nat, greatest: bool) -> Option<i64>
    decreases n,
{
    if n == 0 {
        None
    } else {
        let rest = int_best(cells, (n - 1) as nat, greatest);
        match cells[n - 1] {
            Cell::Int(v) => match rest {
                None => Some(v),
                Some(b) => if (greatest && v > b) || (!greatest && v < b) {
                    Some(v)
                } else {
                    Some(b)
                },
            },
            _ => rest,
        }
    }
}

/// The better of two floats: the other one where one is a not-a-number,
/// else the greater or the less; of two equal floats the first.
pub open spec fn better_float(a: u64, b: u64, greatest: bool) -> u64 {
    if is_nan(a) {
        b
    } else if is_nan(b) {
        a
    } else if (greatest && float_lt(a, b)) || (!greatest && float_lt(b, a)) {
        b
    } else {
        a
    }
}

/// The greatest, or the least, of the floats among the first `n` cells,
/// passing over every not-a-number while there is a number.
pub open spec fn float_best(cells: Seq<Cell>, n: nat, greatest: bool) -> Option<u64>
    decreases n,
{
    if n == 0 {
        None
    } else {
        let rest = float_best(cells, (n - 1) as nat, greatest);
        match cells[n - 1] {
            Cell::Float(v) => match rest {
                None => Some(v),
                Some(b) => Some(better_float(b, v, greatest)),
            },
            _ => rest,
        }
    }
}

/// The greatest integer of a column is one of its integers and none is
/// greater; likewise the least.
pub proof fn lemma_int_best_is_extreme(cells: Seq<Cell>, n: nat, greatest: bool)
    requires
        n <= cells.len(),
    ensures
        match int_best(cells, n, greatest) {
            Some(b) => (exists|i: int| 0 <= i < n && cells[i] == Cell::Int(b)) && forall|i: int|
                0 <= i < n ==> match #[trigger] cells[i] {
                    Cell::Int(v) => if greatest {
                        v <= b
                    } else {
                        v >= b
                    },
                    _ => true,
                },
            None => forall|i: int| 0 <= i < n ==> !(#[trigger] cells[i] is Int),
        },
    decreases n,
{
    if n > 0 {
        lemma_int_best_is_extreme(cells, (n - 1) as nat, greatest);
        match int_best(cells, n, greatest) {
            Some(b) => {
                match cells[n - 1] {
                    Cell::Int(v) => {
                        if v == b {
                            assert(cells[n - 1] == Cell::Int(b));
                        } else {
                            let i = choose|i: int| 0 <= i < n - 1 && cells[i] == Cell::Int(b);
                            assert(cells[i] == Cell::Int(b));
                        }
                    },
                    _ => {
                        let i = choose|i: int| 0 <= i < n - 1 && cells[i] == Cell::Int(b);
                        assert(cells[i] == Cell::Int(b));
                    },
                }
            },
            None => {},
        }
    }
}

fn one_row(value: Value) -> (r: Column)
    requires
        !(value@ is Null),
    ensures
        Some(r.kind()) == crate::table::value::kind_of(value@),
        r.cells() == seq![value@],
{
    let kind = match value {
        Value::Boolean(_) => ColumnType::Boolean,
        Value::Int(_) => ColumnType::Int,
        Value::Float(_) => ColumnType::Float,
        Value::Text(_) => ColumnType::String,
        _ => ColumnType::Date,
    };
    let mut r = Column::with_type(kind);
    r.push_value(value);
    assert(r.cells() =~= seq![value@]);
    r
}

fn pick_float(a: Float, b: Float, greatest: bool) -> (r: Float)
    ensures
        r.bits == better_float(a.bits, b.bits, greatest),
{
    if a.is_nan() {
        b
    } else if b.is_nan() {
        a
    } else if (greatest && a.lt(&b)) || (!greatest && b.lt(&a)) {
        b
    } else {
        a
    }
}

impl ReduceKind {
    /// What the operator returns for a column.
    ///
    /// `count` gives the number of entries, nulls included. `sum` gives the
    /// sum of a numeric column, a null counting as zero. `min`, `max` and
    /// `mean` pass over nulls and are a `Runtime` error where no value is
    /// left. On a column that is not numeric all but `count` are a `Type`
    /// error. Sums and means of floats are single present floats.
    pub open spec fn allows(self, argument: Column, r: SqlResult<Column>) -> bool {
        let cells = argument.cells();
        let n = cells.len();
        let numeric = argument.kind() == ColumnType::Int || argument.kind() == ColumnType::Float;
        if self == ReduceKind::Count {
            r is Ok && r->Ok_0.kind() == ColumnType::Int && r->Ok_0.cells() == seq![Cell::Int(n as i64)]
        } else if !numeric {
            r is Err && r->Err_0.type_ == ErrorType::Type
        } else {
            match self {
                ReduceKind::Sum => r is Ok && r->Ok_0.kind() == argument.kind() && r->Ok_0.cells().len()
                    == 1 && if argument.kind() == ColumnType::Int {
                    r->Ok_0.cells()[0] == Cell::Int(int_sum(cells, n))
                } else {
                    r->Ok_0.cells()[0] is Float
                },
                ReduceKind::Mean => if present(cells, n) == 0 {
                    r is Err && r->Err_0.type_ == ErrorType::Runtime
                } else {
                    r is Ok && r->Ok_0.kind() == ColumnType::Float && r->Ok_0.cells().len() == 1
                        && r->Ok_0.cells()[0] is Float
                },
                _ => {
                    let greatest = self == ReduceKind::Max;
                    if argument.kind() == ColumnType::Int {
                        match int_best(cells, n, greatest) {
                            Some(b) => r is Ok && r->Ok_0.kind() == ColumnType::Int && r->Ok_0.cells()
                                == seq![Cell::Int(b)],
                            None => r is Err && r->Err_0.type_ == ErrorType::Runtime,
                        }
                    } else {
                        match float_best(cells, n, greatest) {
                            Some(b) => r is Ok && r->Ok_0.kind() == ColumnType::Float
                                && r->Ok_0.cells() == seq![Cell::Float(b)],
                            None => r is Err && r->Err_0.type_ == ErrorType::Runtime,
                        }
                    }
                },
            }
        }
    }

    /// The one-row column of the number of entries of `argument`.
    pub fn count(argument: &Column) -> (r: Column)
        ensures
            r.kind() == ColumnType::Int,
            r.cells() == seq![Cell::Int(argument.cells().len() as i64)],
    {
        let n: usize = argument.len();
        one_row(Value::Int(#[verifier::truncate] (n as i64)))
    }

    fn sum<F: FloatMath + ?Sized>(argument: &Column, floats: &F) -> (r: Column)
        requires
            argument.kind() == ColumnType::Int || argument.kind() == ColumnType::Float,
        ensures
            ReduceKind::Sum.allows(*argument, Ok(r)),
    {
        let mut total: i64 = 0;
        let mut float_total: Float = floats.from_int(0);
        let mut i: usize = 0;
        while i < argument.len()
            invariant
                i <= argument.cells().len(),
                total == int_sum(argument.cells(), i as nat),
            decreases argument.cells().len() - i,
        {
            match argument.value(i) {
                Value::Int(v) => {
                    total = total.wrapping_add(v);
                },
                Value::Float(v) => {
                    float_total = floats.add(float_total, v);
                },
                _ => {},
            }
            i = i + 1;
        }
        match argument {
            Column::Ints(_) => one_row(Value::Int(total)),
            _ => one_row(Value::Float(float_total)),
        }
    }

    fn mean<F: FloatMath + ?Sized>(argument: &Column, floats: &F) -> (r: SqlResult<Column>)
        requires
            argument.kind() == ColumnType::Int || argument.kind() == ColumnType::Float,
        ensures
            ReduceKind::Mean.allows(*argument, r),
    {
        let mut total: Float = floats.from_int(0);
        let mut count: usize = 0;
        let mut i: usize = 0;
        while i < argument.len()
            invariant
                i <= argument.cells().len(),
                count == present(argument.cells(), i as nat),
                count <= i,
                argument.kind() == ColumnType::Int || argument.kind() == ColumnType::Float,
            decreases argument.cells().len() - i,
        {
            match argument.value(i) {
                Value::Int(v) => {
                    total = floats.add(total, floats.from_int(v));
                    count = count + 1;
                },
                Value::Float(v) => {
                    total = floats.add(total, v);
                    count = count + 1;
                },
                Value::Null => {},
                _ => {
                    proof {
                        argument.lemma_cells_fit();
                        assert(crate::table::cell_fits(argument.cells()[i as int], argument.kind()));
                    }
                },
            }
            i = i + 1;
        }
        if count == 0 {
            Err(SqlError::new("cannot take the mean of a column without values", ErrorType::Runtime))
        } else {
            let divisor = floats.from_int(#[verifier::truncate] (count as i64));
            Ok(one_row(Value::Float(floats.divide(total, divisor))))
        }
    }

    fn best(argument: &Column, greatest: bool) -> (r: SqlResult<Column>)
        requires
            argument.kind() == ColumnType::Int || argument.kind() == ColumnType::Float,
        ensures
            greatest ==> ReduceKind::Max.allows(*argument, r),
            !greatest ==> ReduceKind::Min.allows(*argument, r),
    {
        let mut best_int: Option<i64> = None;
        let mut best_float: Option<Float> = None;
        let mut i: usize = 0;
        while i < argument.len()
            invariant
                i <= argument.cells().len(),
                best_int == int_best(argument.cells(), i as nat, greatest),
                match best_float {
                    Some(f) => float_best(argument.cells(), i as nat, greatest) == Some(f.bits),
                    None => float_best(argument.cells(), i as nat, greatest) is None,
                },
            decreases argument.cells().len() - i,
        {
            match argument.value(i) {
                Value::Int(v) => {
                    best_int = match best_int {
                        None => Some(v),
                        Some(b) => if (greatest && v > b) || (!greatest && v < b) {
                            Some(v)
                        } else {
                            Some(b)
                        },
                    };
                },
                Value::Float(v) => {
                    best_float = match best_float {
                        None => Some(v),
                        Some(b) => Some(pick_float(b, v, greatest)),
                    };
                },
                _ => {},
            }
            i = i + 1;
        }
        match argument {
            Column::Ints(_) => match best_int {
                Some(b) => Ok(one_row(Value::Int(b))),
                None => Err(SqlError::new("cannot reduce a column without values", ErrorType::Runtime)),
            },
            _ => match best_float {
                Some(b) => Ok(one_row(Value::Float(b))),
                None => Err(SqlError::new("cannot reduce a column without values", ErrorType::Runtime)),
            },
        }
    }

    /// Reduces a column to one row.
    pub fn reduce<F: FloatMath + ?Sized>(&self, argument: &Column, floats: &F) -> (r: SqlResult<Column>)
        ensures
            self.allows(*argument, r),
    {
        match self {
            ReduceKind::Count => {
                return Ok(Self::count(argument));
            },
            _ => {},
        }
        match argument {
            Column::Ints(_) | Column::Floats(_) => {},
            _ => {
                return Err(SqlError::new("cannot reduce a column that is not numeric", ErrorType::Type));
            },
        }
        match self {
            ReduceKind::Sum => Ok(Self::sum(argument, floats)),
            ReduceKind::Mean => Self::mean(argument, floats),
            ReduceKind::Max => Self::best(argument, true),
            _ => Self::best(argument, false),
        }
    }
}

} // verus!
