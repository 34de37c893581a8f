//! A three-way result of comparing two values, and the orders of the value
//! types that are compared as plain data.

use vstd::prelude::*;
use std::cmp::Ordering;

verus! {

/// How one value stands to another.
#[derive(Debug, Clone, Copy, PartialEq, Eq, Structural)]
pub enum Order {
    Less,
    Equal,
    Greater,
}

impl Order {
    /// The order seen from the other side.
    pub open spec fn reversed(self) -> Order {
        match self {
            Order::Less => Order::Greater,
            Order::Equal => Order::Equal,
            Order::Greater => Order::Less,
        }
    }
}

/// The standard ordering that says the same.
pub open spec fn ordering_of(order: Order) -> Ordering {
    match order {
        Order::Less => Ordering::Less,
        Order::Equal => Ordering::Equal,
        Order::Greater => Ordering::Greater,
    }
}

/// The standard ordering that says the same.
pub fn to_ordering(order: Order) -> (r: Ordering)
    ensures
        r == ordering_of(order),
{
    match order {
        Order::Less => Ordering::Less,
        Order::Equal => Ordering::Equal,
        Order::Greater => Ordering::Greater,
    }
}

/// The order of two integers.
pub open spec fn int_order(a: int, b: int) -> Order {
    if a < b {
        Order::Less
    } else if a == b {
        Order::Equal
    } else {
        Order::Greater
    }
}

/// Booleans are ordered with `true` before `false`.
pub open spec fn bool_order(a: bool, b: bool) -> Order {
    if a == b {
        Order::Equal
    } else if a {
        Order::Less
    } else {
        Order::Greater
    }
}

/// Texts are ordered character by character; a proper prefix comes first.
pub open spec fn text_order(a: Seq<char>, b: Seq<char>) -> Order
    decreases a.len(),
{
    if a.len() == 0 && b.len() == 0 {
        Order::Equal
    } else if a.len() == 0 {
        Order::Less
    } else if b.len() == 0 {
        Order::Greater
    } else if a[0] != b[0] {
        if (a[0] as u32) < (b[0] as u32) {
            Order::Less
        } else {
            Order::Greater
        }
    } else {
        text_order(a.skip(1), b.skip(1))
    }
}

pub fn order_ints(a: i64, b: i64) -> (r: Order)
    ensures
        r == int_order(a as int, b as int),
{
    if a < b {
        Order::Less
    } else if a == b {
        Order::Equal
    } else {
        Order::Greater
    }
}

pub fn order_bools(a: bool, b: bool) -> (r: Order)
    ensures
        r == bool_order(a, b),
{
    if a == b {
        Order::Equal
    } else if a {
        Order::Less
    } else {
        Order::Greater
    }
}

/// Compares two texts given as character vectors.
pub fn order_chars(a: &Vec<char>, b: &Vec<char>) -> (r: Order)
    ensures
        r == text_order(a@, b@),
{
    let mut i: usize = 0;
    assert(a@.skip(0) =~= a@);
    assert(b@.skip(0) =~= b@);
    while i < a.len() && i < b.len()
        invariant
            i <= a.len(),
            i <= b.len(),
            text_order(a@, b@) == text_order(a@.skip(i as int), b@.skip(i as int)),
        decreases a.len() - i,
    {
        let x: char = a[i];
        let y: char = b[i];
        assert(a@.skip(i as int)[0] == x);
        assert(b@.skip(i as int)[0] == y);
        if x != y {
            if (x as u32) < (y as u32) {
                return Order::Less;
            } else {
                return Order::Greater;
            }
        }
        assert(a@.skip(i as int).skip(1) =~= a@.skip(i + 1));
        assert(b@.skip(i as int).skip(1) =~= b@.skip(i + 1));
        i = i + 1;
    }
    if i == a.len() && i == b.len() {
        Order::Equal
    } else if i == a.len() {
        Order::Less
    } else {
        Order::Greater
    }
}

/// Equal texts compare `Equal`, and only they do.
pub proof fn lemma_text_order_equal(a: Seq<char>, b: Seq<char>)
    ensures
        text_order(a, b) == Order::Equal <==> a == b,
    decreases a.len(),
{
    if a.len() == 0 || b.len() == 0 {
        if a.len() == 0 && b.len() == 0 {
            assert(a =~= b);
        }
    } else if a[0] != b[0] {
    } else {
        lemma_text_order_equal(a.skip(1), b.skip(1));
        if a.skip(1) == b.skip(1) {
            assert(a =~= seq![a[0]] + a.skip(1));
            assert(b =~= seq![b[0]] + b.skip(1));
        }
    }
}

/// Seen from the other side, the order of two texts is reversed.
pub proof fn lemma_text_order_reversed(a: Seq<char>, b: Seq<char>)
    ensures
        text_order(b, a) == text_order(a, b).reversed(),
    decreases a.len(),
{
    if a.len() > 0 && b.len() > 0 {
        if a[0] == b[0] {
            lemma_text_order_reversed(a.skip(1), b.skip(1));
        } else {
            lemma_chars_differ(a[0], b[0]);
        }
    }
}

/// Different characters have different numbers.
pub proof fn lemma_chars_differ(a: char, b: char)
    requires
        a != b,
    ensures
        a as u32 != b as u32,
{
    vstd::utf8::char_u32_cast(a, a as u32);
    vstd::utf8::char_u32_cast(b, b as u32);
}

/// A text that is less than a text that is less than a third is less than
/// the third.
pub proof fn lemma_text_order_transitive(a: Seq<char>, b: Seq<char>, c: Seq<char>)
    requires
        text_order(a, b) == Order::Less,
        text_order(b, c) == Order::Less,
    ensures
        text_order(a, c) == Order::Less,
    decreases a.len(),
{
    if a.len() > 0 && b.len() > 0 && c.len() > 0 {
        if a[0] == b[0] && b[0] == c[0] {
            lemma_text_order_transitive(a.skip(1), b.skip(1), c.skip(1));
        } else {
            if a[0] != b[0] {
                lemma_chars_differ(a[0], b[0]);
            }
            if b[0] != c[0] {
                lemma_chars_differ(b[0], c[0]);
            }
        }
    }
}

} // verus!
