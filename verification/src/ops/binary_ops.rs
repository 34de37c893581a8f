//! Broadcasting: how the rows of two columns are paired by a binary
//! operator.

use vstd::prelude::*;
use crate::result::{ErrorType, SqlError, SqlResult};
use crate::table::Column;

verus! {

/// How two columns are paired: row by row, or a single row against every
/// row of the other side.
#[derive(Clone, Copy, Debug, PartialEq, Eq, Structural)]
pub enum MapType {
    /// Both sides have the same length.
    LL,
    /// The left side has one row, which meets every row of the right side.
    SL,
    /// The right side has one row, which meets every row of the left side.
    LS,
}

/// The two arguments of a binary operator with the way they are paired.
pub struct AnnotatedInput<'a> {
    pub left: &'a Column,
    pub right: &'a Column,
    pub sizes: MapType,
}

/// The way two columns of the given lengths are paired, where they can be.
pub open spec fn shape_of(left: nat, right: nat) -> Option<MapType> {
    if left == right {
        Some(MapType::LL)
    } else if left == 1 {
        Some(MapType::SL)
    } else if right == 1 {
        Some(MapType::LS)
    } else {
        None
    }
}

/// The number of pairs that two columns of the given lengths give.
pub open spec fn paired_len(sizes: MapType, left: nat, right: nat) -> nat {
    match sizes {
        MapType::LL => if left <= right {
            left
        } else {
            right
        },
        MapType::SL => if left == 0 {
            0
        } else {
            right
        },
        MapType::LS => if right == 0 {
            0
        } else {
            left
        },
    }
}

/// The row of the left side in pair `i`.
pub open spec fn left_row(sizes: MapType, i: int, left: nat) -> int {
    match sizes {
        MapType::SL => i % (left as int),
        _ => i,
    }
}

/// The row of the right side in pair `i`.
pub open spec fn right_row(sizes: MapType, i: int, right: nat) -> int {
    match sizes {
        MapType::LS => i % (right as int),
        _ => i,
    }
}

/// Columns of lengths `(n, n)`, `(1, n)` and `(n, 1)` with `n >= 1` give as
/// many pairs as the longer side has rows.
pub proof fn lemma_paired_len_is_longest(left: nat, right: nat)
    requires
        left >= 1,
        right >= 1,
        shape_of(left, right) is Some,
    ensures
        paired_len(shape_of(left, right)->Some_0, left, right) == if left >= right {
            left
        } else {
            right
        },
{
}

/// Checks that there are two arguments and that their lengths can be
/// paired; every other input is a `Runtime` error.
pub fn prepare_binary_args<'a>(input: &Vec<&'a Column>) -> (r: SqlResult<AnnotatedInput<'a>>)
    ensures
        input@.len() == 2 && shape_of(input@[0].cells().len(), input@[1].cells().len()) is Some
            ==> r is Ok && r->Ok_0.left == input@[0] && r->Ok_0.right == input@[1] && Some(
            r->Ok_0.sizes,
        ) == shape_of(input@[0].cells().len(), input@[1].cells().len()),
        !(input@.len() == 2 && shape_of(input@[0].cells().len(), input@[1].cells().len()) is Some)
            ==> r is Err && r->Err_0.type_ == ErrorType::Runtime,
{
    if input.len() != 2 {
        return Err(SqlError::new("incorrect number of arguments for binary op", ErrorType::Runtime));
    }
    let left: &'a Column = input[0];
    let right: &'a Column = input[1];
    if left.len() == right.len() {
        Ok(AnnotatedInput { left, right, sizes: MapType::LL })
    } else if left.len() == 1 {
        Ok(AnnotatedInput { left, right, sizes: MapType::SL })
    } else if right.len() == 1 {
        Ok(AnnotatedInput { left, right, sizes: MapType::LS })
    } else {
        Err(SqlError::new("mismatched column lengths in binary ops", ErrorType::Runtime))
    }
}

/// Pairs the rows of two vectors as `sizes` says and applies `f` to every
/// pair of present values; a pair with a null gives a null.
pub fn binary_iterate<T, U, V, F: Fn(&T, &U) -> V>(
    left: &Vec<Option<T>>,
    right: &Vec<Option<U>>,
    sizes: MapType,
    f: F,
) -> (out: Vec<Option<V>>)
    requires
        forall|a: &T, b: &U| f.requires((a, b)),
    ensures
        out@.len() == paired_len(sizes, left@.len(), right@.len()),
        forall|i: int|
            0 <= i < out@.len() ==> match (
                left@[left_row(sizes, i, left@.len())],
                right@[right_row(sizes, i, right@.len())],
            ) {
                (Some(a), Some(b)) => (#[trigger] out@[i]) is Some && f.ensures((&a, &b), out@[i]->Some_0),
                _ => out@[i] is None,
            },
{
    let n: usize = match sizes {
        MapType::LL => if left.len() <= right.len() {
            left.len()
        } else {
            right.len()
        },
        MapType::SL => if left.len() == 0 {
            0
        } else {
            right.len()
        },
        MapType::LS => if right.len() == 0 {
            0
        } else {
            left.len()
        },
    };
    let mut out: Vec<Option<V>> = Vec::new();
    let mut i: usize = 0;
    while i < n
        invariant
            i <= n,
            n == paired_len(sizes, left@.len(), right@.len()),
            out@.len() == i,
            forall|a: &T, b: &U| f.requires((a, b)),
            forall|j: int|
                0 <= j < i ==> match (
                    left@[left_row(sizes, j, left@.len())],
                    right@[right_row(sizes, j, right@.len())],
                ) {
                    (Some(a), Some(b)) => (#[trigger] out@[j]) is Some && f.ensures(
                        (&a, &b),
                        out@[j]->Some_0,
                    ),
                    _ => out@[j] is None,
                },
        decreases n - i,
    {
        let li: usize = match sizes {
            MapType::SL => i % left.len(),
            _ => i,
        };
        let ri: usize = match sizes {
            MapType::LS => i % right.len(),
            _ => i,
        };
        let value: Option<V> = match (&left[li], &right[ri]) {
            (Some(a), Some(b)) => Some(f(a, b)),
            _ => None,
        };
        out.push(value);
        i = i + 1;
    }
    out
}

} // verus!
