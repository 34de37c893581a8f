//! The binary operators: arithmetic, comparison and boolean connectives,
//! applied row by row to two columns.

use vstd::prelude::*;
use crate::floats::{Float, FloatMath, float_eq, float_lt};
use crate::ops::binary_ops::{
    MapType, binary_iterate, left_row, paired_len, prepare_binary_args, right_row, shape_of,
};
use crate::order::{Order, int_order, order_chars, order_ints, text_order};
use crate::result::{ErrorType, SqlError, SqlResult};
use crate::table::value::{Value, cell_of, kind_of};
use crate::table::{Cell, Column, ColumnType, cell_fits};
use crate::text::chars_of;

verus! {

/// The binary operators of the registry.
#[derive(Clone, Copy, Debug, PartialEq, Eq, Structural)]
pub enum BinaryKind {
    Add,
    Subtract,
    Multiply,
    Divide,
    Modulo,
    Equal,
    NotEqual,
    Less,
    Greater,
    LessOrEqual,
    GreaterOrEqual,
    And,
    Or,
    Xor,
}

impl BinaryKind {
    pub open spec fn is_arithmetic(self) -> bool {
        self == BinaryKind::Add || self == BinaryKind::Subtract || self == BinaryKind::Multiply || self
            == BinaryKind::Divide || self == BinaryKind::Modulo
    }

    pub open spec fn is_equality(self) -> bool {
        self == BinaryKind::Equal || self == BinaryKind::NotEqual
    }

    pub open spec fn is_relative(self) -> bool {
        self == BinaryKind::Less || self == BinaryKind::Greater || self == BinaryKind::LessOrEqual
            || self == BinaryKind::GreaterOrEqual
    }

    pub open spec fn is_connective(self) -> bool {
        self == BinaryKind::And || self == BinaryKind::Or || self == BinaryKind::Xor
    }

    /// Whether a comparison holds of two values that stand in the given
    /// order.
    pub open spec fn holds(self, order: Order) -> bool {
        match self {
            BinaryKind::Equal => order == Order::Equal,
            BinaryKind::NotEqual => order != Order::Equal,
            BinaryKind::Less => order == Order::Less,
            BinaryKind::Greater => order == Order::Greater,
            BinaryKind::LessOrEqual => order != Order::Greater,
            BinaryKind::GreaterOrEqual => order != Order::Less,
            _ => false,
        }
    }

    /// Whether a comparison holds of two floats, as IEEE 754 has it: with a
    /// not-a-number only `!=` holds.
    pub open spec fn holds_of_floats(self, a: u64, b: u64) -> bool {
        match self {
            BinaryKind::Equal => float_eq(a, b),
            BinaryKind::NotEqual => !float_eq(a, b),
            BinaryKind::Less => float_lt(a, b),
            BinaryKind::Greater => float_lt(b, a),
            BinaryKind::LessOrEqual => float_lt(a, b) || float_eq(a, b),
            BinaryKind::GreaterOrEqual => float_lt(b, a) || float_eq(a, b),
            _ => false,
        }
    }

    /// Integer arithmetic: sums, differences and products wrap around; a
    /// quotient or remainder that does not exist (a zero divisor, or the
    /// least integer divided by -1) is null.
    pub open spec fn of_ints(self, a: i64, b: i64) -> Cell {
        match self {
            BinaryKind::Add => Cell::Int(a.wrapping_add(b)),
            BinaryKind::Subtract => Cell::Int(a.wrapping_sub(b)),
            BinaryKind::Multiply => Cell::Int(a.wrapping_mul(b)),
            BinaryKind::Modulo => match a.checked_rem(b) {
                Some(q) => Cell::Int(q),
                None => Cell::Null,
            },
            _ => match a.checked_div(b) {
                Some(q) => Cell::Int(q),
                None => Cell::Null,
            },
        }
    }

    /// A connective of two booleans.
    pub open spec fn of_bools(self, a: bool, b: bool) -> bool {
        match self {
            BinaryKind::And => a && b,
            BinaryKind::Or => a || b,
            _ => a != b,
        }
    }

    /// The type of the result on columns of the given types, where the
    /// operator accepts them. Arithmetic takes numbers and gives a float as
    /// soon as one side is a float. Equality takes two columns of one type,
    /// an order two columns of one type other than boolean; both also
    /// compare an integer with a float. The connectives take booleans.
    pub open spec fn result_kind(self, left: ColumnType, right: ColumnType) -> Option<ColumnType> {
        let numeric = (left == ColumnType::Int || left == ColumnType::Float) && (right
            == ColumnType::Int || right == ColumnType::Float);
        if self.is_arithmetic() {
            if left == ColumnType::Int && right == ColumnType::Int {
                Some(ColumnType::Int)
            } else if numeric {
                Some(ColumnType::Float)
            } else {
                None
            }
        } else if self.is_equality() {
            if left == right || numeric {
                Some(ColumnType::Boolean)
            } else {
                None
            }
        } else if self.is_relative() {
            if (left == right && left != ColumnType::Boolean) || numeric {
                Some(ColumnType::Boolean)
            } else {
                None
            }
        } else {
            if left == ColumnType::Boolean && right == ColumnType::Boolean {
                Some(ColumnType::Boolean)
            } else {
                None
            }
        }
    }

    /// The result for two present values where integer logic decides it:
    /// everything but arithmetic with a float and the comparison of an
    /// integer with a float, which go through the float arithmetic of the
    /// embedding program.
    pub open spec fn exact(self, a: Cell, b: Cell) -> Option<Cell> {
        match (a, b) {
            (Cell::Int(x), Cell::Int(y)) => if self.is_arithmetic() {
                Some(self.of_ints(x, y))
            } else {
                Some(Cell::Boolean(self.holds(int_order(x as int, y as int))))
            },
            (Cell::Date(x), Cell::Date(y)) => Some(
                Cell::Boolean(self.holds(int_order(x as int, y as int))),
            ),
            (Cell::Text(x), Cell::Text(y)) => Some(Cell::Boolean(self.holds(text_order(x, y)))),
            (Cell::Boolean(x), Cell::Boolean(y)) => if self.is_connective() {
                Some(Cell::Boolean(self.of_bools(x, y)))
            } else if self == BinaryKind::Equal {
                Some(Cell::Boolean(x == y))
            } else {
                Some(Cell::Boolean(x != y))
            },
            (Cell::Float(x), Cell::Float(y)) => if self.is_arithmetic() {
                None
            } else {
                Some(Cell::Boolean(self.holds_of_floats(x, y)))
            },
            _ => None,
        }
    }

    /// Whether `out` may be the result for the pair `(a, b)` in a column of
    /// type `kind`: null as soon as one of the two is null, the exact
    /// result where there is one, and otherwise a present value of the
    /// column's type.
    pub open spec fn allows(self, kind: ColumnType, a: Cell, b: Cell, out: Cell) -> bool {
        if a is Null || b is Null {
            out is Null
        } else {
            match self.exact(a, b) {
                Some(c) => out == c,
                None => !(out is Null) && cell_fits(out, kind),
            }
        }
    }

    /// Whether `out` may be the result of the operator on the two columns.
    pub open spec fn allows_column(
        self,
        sizes: MapType,
        left: crate::table::ColumnView,
        right: crate::table::ColumnView,
        out: crate::table::ColumnView,
    ) -> bool {
        &&& Some(out.kind) == self.result_kind(left.kind, right.kind)
        &&& out.cells.len() == paired_len(sizes, left.cells.len(), right.cells.len())
        &&& forall|i: int|
            0 <= i < out.cells.len() ==> self.allows(
                out.kind,
                left.cells[left_row(sizes, i, left.cells.len())],
                right.cells[right_row(sizes, i, right.cells.len())],
                #[trigger] out.cells[i],
            )
    }

    fn compare(&self, order: Order) -> (r: bool)
        ensures
            r == self.holds(order),
    {
        match self {
            BinaryKind::Equal => order == Order::Equal,
            BinaryKind::NotEqual => order != Order::Equal,
            BinaryKind::Less => order == Order::Less,
            BinaryKind::Greater => order == Order::Greater,
            BinaryKind::LessOrEqual => order != Order::Greater,
            BinaryKind::GreaterOrEqual => order != Order::Less,
            _ => false,
        }
    }

    fn compare_floats(&self, a: &Float, b: &Float) -> (r: bool)
        ensures
            r == self.holds_of_floats(a.bits, b.bits),
    {
        match self {
            BinaryKind::Equal => a.eq(b),
            BinaryKind::NotEqual => !a.eq(b),
            BinaryKind::Less => a.lt(b),
            BinaryKind::Greater => b.lt(a),
            BinaryKind::LessOrEqual => a.lt(b) || a.eq(b),
            BinaryKind::GreaterOrEqual => b.lt(a) || a.eq(b),
            _ => false,
        }
    }

    fn float_arithmetic<F: FloatMath + ?Sized>(&self, a: Float, b: Float, floats: &F) -> Float {
        match self {
            BinaryKind::Add => floats.add(a, b),
            BinaryKind::Subtract => floats.subtract(a, b),
            BinaryKind::Multiply => floats.multiply(a, b),
            BinaryKind::Modulo => floats.remainder(a, b),
            _ => floats.divide(a, b),
        }
    }

    fn is_arithmetic_kind(&self) -> (r: bool)
        ensures
            r == self.is_arithmetic(),
    {
        match self {
            BinaryKind::Add | BinaryKind::Subtract | BinaryKind::Multiply | BinaryKind::Divide | BinaryKind::Modulo => true,
            _ => false,
        }
    }

    fn is_connective_kind(&self) -> (r: bool)
        ensures
            r == self.is_connective(),
    {
        match self {
            BinaryKind::And | BinaryKind::Or | BinaryKind::Xor => true,
            _ => false,
        }
    }

    fn is_relative_kind(&self) -> (r: bool)
        ensures
            r == self.is_relative(),
    {
        match self {
            BinaryKind::Less | BinaryKind::Greater | BinaryKind::LessOrEqual | BinaryKind::GreaterOrEqual => true,
            _ => false,
        }
    }

    /// The type of the result, where the operator accepts the two types.
    pub fn result_type(&self, left: ColumnType, right: ColumnType) -> (r: Option<ColumnType>)
        ensures
            r == self.result_kind(left, right),
    {
        let numeric: bool = (left == ColumnType::Int || left == ColumnType::Float) && (right
            == ColumnType::Int || right == ColumnType::Float);
        if self.is_arithmetic_kind() {
            if left == ColumnType::Int && right == ColumnType::Int {
                Some(ColumnType::Int)
            } else if numeric {
                Some(ColumnType::Float)
            } else {
                None
            }
        } else if self.is_connective_kind() {
            if left == ColumnType::Boolean && right == ColumnType::Boolean {
                Some(ColumnType::Boolean)
            } else {
                None
            }
        } else if self.is_relative_kind() {
            if (left == right && left != ColumnType::Boolean) || numeric {
                Some(ColumnType::Boolean)
            } else {
                None
            }
        } else {
            if left == right || numeric {
                Some(ColumnType::Boolean)
            } else {
                None
            }
        }
    }

    /// The result for one pair of present values.
    pub fn combine<'a, F: FloatMath + ?Sized>(&self, a: Value<'a>, b: Value<'a>, floats: &F) -> (out:
        Value<'static>)
        ensures
            !(a@ is Null) && !(b@ is Null) && self.result_kind(kind_of(a@)->Some_0, kind_of(b@)->Some_0)
                is Some ==> self.allows(
                self.result_kind(kind_of(a@)->Some_0, kind_of(b@)->Some_0)->Some_0,
                a@,
                b@,
                out@,
            ),
    {
        match (a, b) {
            (Value::Int(x), Value::Int(y)) => {
                if self.is_arithmetic_kind() {
                    match self {
                        BinaryKind::Add => Value::Int(x.wrapping_add(y)),
                        BinaryKind::Subtract => Value::Int(x.wrapping_sub(y)),
                        BinaryKind::Multiply => Value::Int(x.wrapping_mul(y)),
                        BinaryKind::Modulo => match x.checked_rem(y) {
                            Some(q) => Value::Int(q),
                            None => Value::Null,
                        },
                        _ => match x.checked_div(y) {
                            Some(q) => Value::Int(q),
                            None => Value::Null,
                        },
                    }
                } else {
                    Value::Boolean(self.compare(order_ints(x, y)))
                }
            },
            (Value::Date(x), Value::Date(y)) => Value::Boolean(self.compare(order_ints(x, y))),
            (Value::Text(x), Value::Text(y)) => {
                let xs = chars_of(x);
                let ys = chars_of(y);
                Value::Boolean(self.compare(order_chars(&xs, &ys)))
            },
            (Value::Boolean(x), Value::Boolean(y)) => {
                match self {
                    BinaryKind::And => Value::Boolean(x && y),
                    BinaryKind::Or => Value::Boolean(x || y),
                    BinaryKind::Xor => Value::Boolean(x != y),
                    BinaryKind::Equal => Value::Boolean(x == y),
                    _ => Value::Boolean(x != y),
                }
            },
            (Value::Float(x), Value::Float(y)) => {
                if self.is_arithmetic_kind() {
                    Value::Float(self.float_arithmetic(x, y, floats))
                } else {
                    Value::Boolean(self.compare_floats(&x, &y))
                }
            },
            (Value::Int(x), Value::Float(y)) => {
                let promoted = floats.from_int(x);
                if self.is_arithmetic_kind() {
                    Value::Float(self.float_arithmetic(promoted, y, floats))
                } else {
                    Value::Boolean(self.compare_floats(&promoted, &y))
                }
            },
            (Value::Float(x), Value::Int(y)) => {
                let promoted = floats.from_int(y);
                if self.is_arithmetic_kind() {
                    Value::Float(self.float_arithmetic(x, promoted, floats))
                } else {
                    Value::Boolean(self.compare_floats(&x, &promoted))
                }
            },
            _ => Value::Null,
        }
    }

    /// Applies the operator to two columns, paired as their lengths say.
    ///
    /// The result is a `Runtime` error unless there are two arguments whose
    /// lengths are equal or of which one is 1, and a `Type` error where the
    /// operator does not accept the two types.
    pub fn apply<F: FloatMath + ?Sized>(&self, arguments: &Vec<&Column>, floats: &F) -> (r: SqlResult<Column>)
        ensures
            match self.outcome(arguments@) {
                Err(kind) => r is Err && r->Err_0.type_ == kind,
                Ok(sizes) => r is Ok && self.allows_column(sizes, arguments@[0]@, arguments@[1]@, r->Ok_0@),
            },
    {
        let input = match prepare_binary_args(arguments) {
            Ok(input) => input,
            Err(e) => {
                return Err(e);
            },
        };
        let kind = match self.result_type(input.left.type_(), input.right.type_()) {
            Some(kind) => kind,
            None => {
                return Err(SqlError::new("incompatible column types in binary op", ErrorType::Type));
            },
        };
        let left = input.left.values();
        let right = input.right.values();
        let op: BinaryKind = *self;
        let ghost lk = input.left.kind();
        let ghost rk = input.right.kind();
        proof {
            input.left.lemma_cells_fit();
            input.right.lemma_cells_fit();
        }
        let each = |a: &Value, b: &Value| -> (out: Value<'static>)
            ensures
                !(a@ is Null) && !(b@ is Null) && op.result_kind(kind_of(a@)->Some_0, kind_of(b@)->Some_0)
                    is Some ==> op.allows(
                    op.result_kind(kind_of(a@)->Some_0, kind_of(b@)->Some_0)->Some_0,
                    a@,
                    b@,
                    out@,
                ),
            { op.combine(*a, *b, floats) };
        let out = binary_iterate(&left, &right, input.sizes, each);
        let ghost sizes = input.sizes;
        let ghost ln = left@.len();
        let ghost rn = right@.len();
        assert forall|i: int| 0 <= i < out@.len() implies op.allows(
            kind,
            input.left.cells()[left_row(sizes, i, ln)],
            input.right.cells()[right_row(sizes, i, rn)],
            cell_of(#[trigger] out@[i]),
        ) by {
            let li = left_row(sizes, i, ln);
            let ri = right_row(sizes, i, rn);
            assert(0 <= li < ln && 0 <= ri < rn) by (nonlinear_arith)
                requires
                    0 <= i < paired_len(sizes, ln, rn),
                    li == left_row(sizes, i, ln),
                    ri == right_row(sizes, i, rn),
            ;
            assert(cell_of(left@[li]) == input.left.cells()[li]);
            assert(cell_of(right@[ri]) == input.right.cells()[ri]);
            assert(cell_fits(input.left.cells()[li], lk));
            assert(cell_fits(input.right.cells()[ri], rk));
        }
        assert forall|i: int| 0 <= i < out@.len() implies cell_fits(cell_of(#[trigger] out@[i]), kind) by {
            let li = left_row(sizes, i, ln);
            let ri = right_row(sizes, i, rn);
            assert(op.allows(kind, input.left.cells()[li], input.right.cells()[ri], cell_of(out@[i])));
            assert(0 <= li < ln && 0 <= ri < rn) by (nonlinear_arith)
                requires
                    0 <= i < paired_len(sizes, ln, rn),
                    li == left_row(sizes, i, ln),
                    ri == right_row(sizes, i, rn),
            ;
            assert(cell_fits(input.left.cells()[li], lk));
            assert(cell_fits(input.right.cells()[ri], rk));
        }
        let column = Column::from_values(kind, &out);
        assert forall|i: int| 0 <= i < column@.cells.len() implies op.allows(
            kind,
            arguments@[0]@.cells[left_row(sizes, i, ln)],
            arguments@[1]@.cells[right_row(sizes, i, rn)],
            #[trigger] column@.cells[i],
        ) by {
            assert(column.cells()[i] == cell_of(out@[i]));
        }
        Ok(column)
    }

    /// What the operator makes of its arguments before it looks at a row:
    /// the error it returns, or the way the two columns are paired.
    pub open spec fn outcome(self, arguments: Seq<&Column>) -> Result<MapType, ErrorType> {
        if arguments.len() != 2 {
            Err(ErrorType::Runtime)
        } else {
            match shape_of(arguments[0].cells().len(), arguments[1].cells().len()) {
                None => Err(ErrorType::Runtime),
                Some(sizes) => if self.result_kind(arguments[0].kind(), arguments[1].kind()) is None {
                    Err(ErrorType::Type)
                } else {
                    Ok(sizes)
                },
            }
        }
    }
}

} // verus!
