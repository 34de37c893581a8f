//! Converters from the text of a field to a typed value.

use vstd::prelude::*;
use crate::floats::{Float, FloatMath};
use crate::table::{Column, DateTime};
use crate::text::{chars_of, push_text};

verus! {

#[verifier::external_type_specification]
#[verifier::external_body]
pub struct ExChronoParseError(chrono::ParseError);

/// The number that a decimal digit stands for.
pub open spec fn digit_value(c: char) -> Option<nat> {
    if c == '0' {
        Some(0nat)
    } else if c == '1' {
        Some(1nat)
    } else if c == '2' {
        Some(2nat)
    } else if c == '3' {
        Some(3nat)
    } else if c == '4' {
        Some(4nat)
    } else if c == '5' {
        Some(5nat)
    } else if c == '6' {
        Some(6nat)
    } else if c == '7' {
        Some(7nat)
    } else if c == '8' {
        Some(8nat)
    } else if c == '9' {
        Some(9nat)
    } else {
        None
    }
}

/// The number that a text of decimal digits stands for; `None` for a text
/// with another character. The empty text stands for zero here.
pub open spec fn digits_value(digits: Seq<char>) -> Option<nat>
    decreases digits.len(),
{
    if digits.len() == 0 {
        Some(0nat)
    } else {
        match (digits_value(digits.drop_last()), digit_value(digits.last())) {
            (Some(front), Some(last)) => Some(front * 10 + last),
            _ => None,
        }
    }
}

/// The integer written in a text: an optional `+` or `-`, then one or more
/// decimal digits that give an integer of 64 bits; `None` for every other
/// text.
pub open spec fn int_of_text(field: Seq<char>) -> Option<i64> {
    let negative = field.len() > 0 && field[0] == '-';
    let signed = field.len() > 0 && (field[0] == '-' || field[0] == '+');
    let digits = if signed {
        field.skip(1)
    } else {
        field
    };
    if digits.len() == 0 {
        None
    } else {
        match digits_value(digits) {
            None => None,
            Some(v) => if negative {
                if v <= 0x8000_0000_0000_0000 {
                    Some((-(v as int)) as i64)
                } else {
                    None
                }
            } else {
                if v <= 0x7fff_ffff_ffff_ffff {
                    Some(v as i64)
                } else {
                    None
                }
            },
        }
    }
}

/// The length written in a text: an optional `+`, then one or more decimal
/// digits that give a number the machine's word can hold.
pub open spec fn usize_of_text(field: Seq<char>) -> Option<usize> {
    let digits = if field.len() > 0 && field[0] == '+' {
        field.skip(1)
    } else {
        field
    };
    if digits.len() == 0 {
        None
    } else {
        match digits_value(digits) {
            Some(v) => if v <= usize::MAX {
                Some(v as usize)
            } else {
                None
            },
            None => None,
        }
    }
}

/// The timestamp of a date and time written as RFC 2822 has it.
pub uninterp spec fn date_rfc2822(field: Seq<char>) -> Option<i64>;

/// The timestamp of a date and time written as RFC 3339 has it.
pub uninterp spec fn date_rfc3339(field: Seq<char>) -> Option<i64>;

/// The timestamp of midnight, UTC, of the day that `field` gives in the
/// chrono format `format`.
pub uninterp spec fn naive_date(field: Seq<char>, format: Seq<char>) -> Option<i64>;

/// Calls chrono's `DateTime::parse_from_rfc2822` and reads the moment as a
/// timestamp with `DateTime::timestamp`; it is named by [`date_rfc2822`].
#[verifier::external_body]
fn parse_rfc2822(field: &str) -> (r: Result<i64, chrono::ParseError>)
    ensures
        r.ok() == date_rfc2822(field@),
{
    chrono::DateTime::parse_from_rfc2822(field).map(|d| d.timestamp())
}

/// Calls chrono's `DateTime::parse_from_rfc3339` and reads the moment as a
/// timestamp with `DateTime::timestamp`; it is named by [`date_rfc3339`].
#[verifier::external_body]
fn parse_rfc3339(field: &str) -> (r: Result<i64, chrono::ParseError>)
    ensures
        r.ok() == date_rfc3339(field@),
{
    chrono::DateTime::parse_from_rfc3339(field).map(|d| d.timestamp())
}

/// Calls chrono's `NaiveDate::parse_from_str` and reads midnight of that
/// day, taken as UTC, as a timestamp; it is named by [`naive_date`].
#[verifier::external_body]
fn parse_naive_date(field: &str, format: &str) -> (r: Result<i64, chrono::ParseError>)
    ensures
        r.ok() == naive_date(field@, format@),
{
    chrono::NaiveDate::parse_from_str(field, format).map(
        |d| d.and_time(chrono::NaiveTime::MIN).and_utc().timestamp(),
    )
}

fn digit_of(c: char) -> (r: Option<u64>)
    ensures
        match r {
            Some(d) => digit_value(c) == Some(d as nat) && d < 10,
            None => digit_value(c) is None,
        },
{
    if c == '0' {
        Some(0)
    } else if c == '1' {
        Some(1)
    } else if c == '2' {
        Some(2)
    } else if c == '3' {
        Some(3)
    } else if c == '4' {
        Some(4)
    } else if c == '5' {
        Some(5)
    } else if c == '6' {
        Some(6)
    } else if c == '7' {
        Some(7)
    } else if c == '8' {
        Some(8)
    } else if c == '9' {
        Some(9)
    } else {
        None
    }
}

/// A text of digits stands for a number no less than any of its fronts.
pub proof fn lemma_digits_grow(digits: Seq<char>, k: int)
    requires
        0 <= k <= digits.len(),
        digits_value(digits) is Some,
    ensures
        digits_value(digits.take(k)) is Some,
        digits_value(digits.take(k))->Some_0 <= digits_value(digits)->Some_0,
    decreases digits.len() - k,
{
    if k == digits.len() {
        assert(digits.take(k) =~= digits);
    } else {
        lemma_digits_grow(digits.drop_last(), k);
        assert(digits.drop_last().take(k) =~= digits.take(k));
    }
}

/// A text with a character that is no digit stands for no number.
pub proof fn lemma_digits_fail(digits: Seq<char>, k: int)
    requires
        0 <= k <= digits.len(),
        digits_value(digits.take(k)) is None,
    ensures
        digits_value(digits) is None,
    decreases digits.len() - k,
{
    if k == digits.len() {
        assert(digits.take(k) =~= digits);
    } else {
        assert(digits.drop_last().take(k) =~= digits.take(k));
        lemma_digits_fail(digits.drop_last(), k);
    }
}

/// The number that the digits `chars[from..]` stand for, where it is not
/// above `limit`.
fn read_digits(chars: &Vec<char>, from: usize, limit: u64) -> (r: Option<u64>)
    requires
        from <= chars@.len(),
    ensures
        match r {
            Some(v) => digits_value(chars@.skip(from as int)) == Some(v as nat) && v <= limit,
            None => match digits_value(chars@.skip(from as int)) {
                Some(v) => v > limit,
                None => true,
            },
        },
{
    let ghost digits = chars@.skip(from as int);
    let mut value: u64 = 0;
    let mut i: usize = from;
    assert(digits.take(0) =~= Seq::<char>::empty());
    while i < chars.len()
        invariant
            from <= i <= chars@.len(),
            digits == chars@.skip(from as int),
            digits_value(digits.take(i - from)) == Some(value as nat),
            value <= limit,
        decreases chars@.len() - i,
    {
        let ghost front = digits.take(i - from);
        let ghost next = digits.take(i - from + 1);
        proof {
            assert(next.drop_last() =~= front);
            assert(next.last() == chars@[i as int]);
        }
        let d = match digit_of(chars[i]) {
            Some(d) => d,
            None => {
                proof {
                    lemma_digits_fail(digits, i - from + 1);
                }
                return None;
            },
        };
        let grown: Option<u64> = match value.checked_mul(10) {
            Some(tens) => tens.checked_add(d),
            None => None,
        };
        match grown {
            Some(v) => {
                if v > limit {
                    proof {
                        if digits_value(digits) is Some {
                            lemma_digits_grow(digits, i - from + 1);
                        }
                    }
                    return None;
                }
                value = v;
            },
            None => {
                proof {
                    if digits_value(digits) is Some {
                        lemma_digits_grow(digits, i - from + 1);
                    }
                }
                return None;
            },
        }
        i = i + 1;
    }
    proof {
        assert(digits.take(digits.len() as int) =~= digits);
    }
    Some(value)
}

/// The integer written in `field`, if it is one.
pub fn int_from(field: &str) -> (r: Option<i64>)
    ensures
        r == int_of_text(field@),
{
    let chars = chars_of(field);
    let negative: bool = chars.len() > 0 && chars[0] == '-';
    let signed: bool = chars.len() > 0 && (chars[0] == '-' || chars[0] == '+');
    let from: usize = if signed {
        1
    } else {
        0
    };
    if chars.len() == from {
        return None;
    }
    proof {
        if !signed {
            assert(chars@.skip(0) =~= chars@);
        }
    }
    if negative {
        match read_digits(&chars, from, 0x8000_0000_0000_0000) {
            Some(v) => {
                if v == 0x8000_0000_0000_0000 {
                    Some(i64::MIN)
                } else {
                    Some(-(v as i64))
                }
            },
            None => None,
        }
    } else {
        match read_digits(&chars, from, 0x7fff_ffff_ffff_ffff) {
            Some(v) => Some(v as i64),
            None => None,
        }
    }
}

/// The length written in `field`, if it is one.
pub fn usize_from(field: &str) -> (r: Option<usize>)
    ensures
        r == usize_of_text(field@),
{
    let chars = chars_of(field);
    let from: usize = if chars.len() > 0 && chars[0] == '+' {
        1
    } else {
        0
    };
    if chars.len() == from {
        return None;
    }
    proof {
        if from == 0 {
            assert(chars@.skip(0) =~= chars@);
        }
    }
    match read_digits(&chars, from, usize::MAX as u64) {
        Some(v) => Some(v as usize),
        None => None,
    }
}

/// The boolean written in `field`: `true` or `false`, nothing else.
pub open spec fn bool_of_text(field: Seq<char>) -> Option<bool> {
    if field == "true"@ {
        Some(true)
    } else if field == "false"@ {
        Some(false)
    } else {
        None
    }
}

pub fn bool_from(field: &str) -> (r: Option<bool>)
    ensures
        r == bool_of_text(field@),
{
    if *field == *"true" {
        Some(true)
    } else if *field == *"false" {
        Some(false)
    } else {
        None
    }
}

/// The day formats that are tried, in this order.
pub open spec fn day_format(i: int) -> Seq<char> {
    if i == 0 {
        "%y-%m-%d"@
    } else if i == 1 {
        "%Y-%m-%d"@
    } else {
        "%m/%d/%Y"@
    }
}

/// The first of the day formats from place `i` on in which `field` is a
/// day.
pub open spec fn first_day_format(field: Seq<char>, i: int) -> Option<int>
    decreases 3 - i,
{
    if i >= 3 || i < 0 {
        None
    } else if naive_date(field, day_format(i)) is Some {
        Some(i)
    } else {
        first_day_format(field, i + 1)
    }
}

/// What a date converter that has settled on `format` (or on none yet)
/// makes of a field: the timestamp, and the format it has settled on
/// afterwards.
///
/// Once a day format is found, only that format is accepted. Before, a
/// field may also be a full date and time as RFC 2822 or RFC 3339 has it.
pub open spec fn date_step(format: Option<Seq<char>>, field: Seq<char>) -> (Option<i64>, Option<Seq<char>>) {
    match format {
        Some(f) => (naive_date(field, f), format),
        None => if date_rfc2822(field) is Some {
            (date_rfc2822(field), None)
        } else if date_rfc3339(field) is Some {
            (date_rfc3339(field), None)
        } else {
            match first_day_format(field, 0) {
                Some(i) => (naive_date(field, day_format(i)), Some(day_format(i))),
                None => (None, None),
            }
        },
    }
}

/// A converter from the text of a field to a value of type `T`, and from
/// the values of a whole column to the column.
pub trait Converter<T> {
    fn convert(&mut self, field: &str) -> Option<T>;

    fn make_column(&self, values: Vec<Option<T>>) -> Column;
}

pub struct ToString {}

pub struct ToInt {}

pub struct ToBool {}

/// Reads floats through the float arithmetic of the embedding program.
pub struct ToFloat<'a> {
    pub floats: &'a dyn FloatMath,
}

/// Reads dates. The first day format that a field is written in is the
/// format of all fields after it.
pub struct ToDate {
    pub valid_format: String,
    pub valid_format_found: bool,
}

impl Converter<String> for ToString {
    fn convert(&mut self, field: &str) -> (r: Option<String>)
        ensures
            r is Some && r->Some_0@ == field@,
    {
        let mut text = String::new();
        push_text(&mut text, field);
        Some(text)
    }

    fn make_column(&self, values: Vec<Option<String>>) -> (c: Column)
        ensures
            c == Column::Strings(values),
    {
        Column::Strings(values)
    }
}

impl Converter<i64> for ToInt {
    fn convert(&mut self, field: &str) -> (r: Option<i64>)
        ensures
            r == int_of_text(field@),
    {
        int_from(field)
    }

    fn make_column(&self, values: Vec<Option<i64>>) -> (c: Column)
        ensures
            c == Column::Ints(values),
    {
        Column::Ints(values)
    }
}

impl Converter<bool> for ToBool {
    fn convert(&mut self, field: &str) -> (r: Option<bool>)
        ensures
            r == bool_of_text(field@),
    {
        bool_from(field)
    }

    fn make_column(&self, values: Vec<Option<bool>>) -> (c: Column)
        ensures
            c == Column::Booleans(values),
    {
        Column::Booleans(values)
    }
}

impl<'a> Converter<Float> for ToFloat<'a> {
    fn convert(&mut self, field: &str) -> Option<Float> {
        self.floats.parse(field)
    }

    fn make_column(&self, values: Vec<Option<Float>>) -> (c: Column)
        ensures
            c == Column::Floats(values),
    {
        Column::Floats(values)
    }
}

impl ToDate {
    /// The format that the converter has settled on, if it has.
    pub open spec fn format(&self) -> Option<Seq<char>> {
        if self.valid_format_found {
            Some(self.valid_format@)
        } else {
            None
        }
    }

    /// A converter that has not settled on a format.
    pub fn new() -> (d: Self)
        ensures
            d.format() is None,
    {
        ToDate { valid_format: String::new(), valid_format_found: false }
    }

    fn format_at(i: usize) -> (f: &'static str)
        requires
            i < 3,
        ensures
            f@ == day_format(i as int),
    {
        if i == 0 {
            "%y-%m-%d"
        } else if i == 1 {
            "%Y-%m-%d"
        } else {
            "%m/%d/%Y"
        }
    }
}

impl Converter<DateTime> for ToDate {
    fn convert(&mut self, field: &str) -> (r: Option<DateTime>)
        ensures
            (r, final(self).format()) == date_step(old(self).format(), field@),
    {
        if self.valid_format_found {
            match parse_naive_date(field, self.valid_format.as_str()) {
                Ok(v) => Some(v),
                Err(_) => None,
            }
        } else {
            match parse_rfc2822(field) {
                Ok(v) => {
                    return Some(v);
                },
                Err(_) => {},
            }
            match parse_rfc3339(field) {
                Ok(v) => {
                    return Some(v);
                },
                Err(_) => {},
            }
            let mut i: usize = 0;
            while i < 3
                invariant
                    i <= 3,
                    !self.valid_format_found,
                    *self == *old(self),
                    date_rfc2822(field@) is None,
                    date_rfc3339(field@) is None,
                    first_day_format(field@, 0) == first_day_format(field@, i as int),
                decreases 3 - i,
            {
                let format = Self::format_at(i);
                match parse_naive_date(field, format) {
                    Ok(v) => {
                        assert(first_day_format(field@, i as int) == Some(i as int));
                        let mut found = String::new();
                        push_text(&mut found, format);
                        self.valid_format = found;
                        self.valid_format_found = true;
                        return Some(v);
                    },
                    Err(_) => {},
                }
                i = i + 1;
            }
            None
        }
    }

    fn make_column(&self, values: Vec<Option<DateTime>>) -> (c: Column)
        ensures
            c == Column::Dates(values),
    {
        Column::Dates(values)
    }
}

} // verus!
