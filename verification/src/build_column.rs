//! Type inference: the raw texts of a column become a typed column.

use vstd::prelude::*;
use crate::converters::{
    Converter, ToDate, bool_from, bool_of_text, date_step, int_from, int_of_text,
};
use crate::floats::{Float, FloatMath};
use crate::table::value::Value;
use crate::table::{Cell, Column, ColumnType, ColumnView};

verus! {

/// The texts of a list of strings.
pub open spec fn texts_of(raw: Seq<String>) -> Seq<Seq<char>> {
    Seq::new(raw.len(), |i: int| raw[i]@)
}

/// The cell that a field gives in a boolean, integer or text column.
pub open spec fn plain_cell(which: ColumnType, field: Seq<char>) -> Option<Cell> {
    match which {
        ColumnType::Boolean => match bool_of_text(field) {
            Some(b) => Some(Cell::Boolean(b)),
            None => None,
        },
        ColumnType::Int => match int_of_text(field) {
            Some(i) => Some(Cell::Int(i)),
            None => None,
        },
        ColumnType::String => Some(Cell::Text(field)),
        _ => None,
    }
}

/// The cells of the first `n` fields as a column of type `which`, where
/// every field that is not the null text is a value of that type.
pub open spec fn typed_cells(raw: Seq<String>, null: Seq<char>, n: nat, which: ColumnType) -> Option<Seq<Cell>>
    decreases n,
{
    if n == 0 {
        Some(Seq::empty())
    } else {
        match typed_cells(raw, null, (n - 1) as nat, which) {
            None => None,
            Some(rest) => if raw[n - 1]@ == null {
                Some(rest.push(Cell::Null))
            } else {
                match plain_cell(which, raw[n - 1]@) {
                    Some(cell) => Some(rest.push(cell)),
                    None => None,
                }
            },
        }
    }
}

/// The cells of the first `n` fields as a date column, with the day format
/// that the fields settled on, where every field that is not the null text
/// is a date.
pub open spec fn date_cells(raw: Seq<String>, null: Seq<char>, n: nat) -> Option<(Seq<Cell>, Option<Seq<char>>)>
    decreases n,
{
    if n == 0 {
        Some((Seq::empty(), None))
    } else {
        match date_cells(raw, null, (n - 1) as nat) {
            None => None,
            Some((rest, format)) => if raw[n - 1]@ == null {
                Some((rest.push(Cell::Null), format))
            } else {
                match date_step(format, raw[n - 1]@).0 {
                    Some(d) => Some((rest.push(Cell::Date(d)), date_step(format, raw[n - 1]@).1)),
                    None => None,
                }
            },
        }
    }
}

/// The cells of the first `n` fields as a float column, where `read`
/// holds for every field what reading it as a float gave: the null text
/// gives a null whatever was read, another field the float that was read,
/// and a field that is neither leaves no column.
pub open spec fn float_cells(raw: Seq<String>, null: Seq<char>, read: Seq<Option<Float>>, n: nat) -> Option<
    Seq<Cell>,
>
    decreases n,
{
    if n == 0 {
        Some(Seq::empty())
    } else {
        match float_cells(raw, null, read, (n - 1) as nat) {
            None => None,
            Some(rest) => if raw[n - 1]@ == null {
                Some(rest.push(Cell::Null))
            } else {
                match read[n - 1] {
                    Some(f) => Some(rest.push(Cell::Float(f.bits))),
                    None => None,
                }
            },
        }
    }
}

/// Whether `r` is the float column that the fields give where reading
/// them as floats gave `read`.
pub open spec fn floats_from(raw: Seq<String>, null: Seq<char>, read: Seq<Option<Float>>, r: Option<Column>) -> bool {
    read.len() == raw.len() && match float_cells(raw, null, read, raw.len()) {
        Some(cells) => r is Some && r->Some_0@ == (ColumnView { kind: ColumnType::Float, cells }),
        None => r is None,
    }
}

/// Whether every field is the null text.
pub open spec fn all_null(raw: Seq<String>, null: Seq<char>) -> bool {
    forall|i: int| 0 <= i < raw.len() ==> (#[trigger] raw[i])@ == null
}

/// What is made of fields that are no booleans, dates or integers, where
/// reading them as floats gave `read`: a float column where every field
/// other than the null text was read as a float, else a text column.
pub open spec fn read_gives(raw: Seq<String>, null: Seq<char>, read: Seq<Option<Float>>, c: ColumnView) -> bool {
    read.len() == raw.len() && match float_cells(raw, null, read, raw.len()) {
        Some(cells) => c == (ColumnView { kind: ColumnType::Float, cells }),
        None => Some(c.cells) == typed_cells(raw, null, raw.len(), ColumnType::String) && c.kind
            == ColumnType::String,
    }
}

/// What type inference makes of the raw texts of a column.
///
/// The types are tried in the order boolean, date, integer, float, text,
/// and the first one that every field other than the null text can be read
/// as is the type of the column; the null text gives a null. Whether a
/// field is a float, and which, is decided by the float arithmetic of the
/// embedding program: the column is stated for what that read.
pub open spec fn built(raw: Seq<String>, null: Seq<char>, c: ColumnView) -> bool {
    let n = raw.len();
    match typed_cells(raw, null, n, ColumnType::Boolean) {
        Some(cells) => c == (ColumnView { kind: ColumnType::Boolean, cells }),
        None => match date_cells(raw, null, n) {
            Some((cells, _)) => c == (ColumnView { kind: ColumnType::Date, cells }),
            None => match typed_cells(raw, null, n, ColumnType::Int) {
                Some(cells) => c == (ColumnView { kind: ColumnType::Int, cells }),
                None => exists|read: Seq<Option<Float>>| #[trigger] read_gives(raw, null, read, c),
            },
        },
    }
}

fn convert_plain(raw: &Vec<String>, null: &str, which: ColumnType) -> (r: Option<Column>)
    requires
        which == ColumnType::Boolean || which == ColumnType::Int || which == ColumnType::String,
    ensures
        match typed_cells(raw@, null@, raw@.len(), which) {
            Some(cells) => r is Some && r->Some_0@ == (ColumnView { kind: which, cells }),
            None => r is None,
        },
{
    let mut column = Column::with_type(which);
    let mut i: usize = 0;
    while i < raw.len()
        invariant
            i <= raw@.len(),
            which == ColumnType::Boolean || which == ColumnType::Int || which == ColumnType::String,
            column.kind() == which,
            typed_cells(raw@, null@, i as nat, which) == Some(column.cells()),
        decreases raw@.len() - i,
    {
        let field = raw[i].as_str();
        if *field == *null {
            column.push_value(Value::Null);
        } else {
            match which {
                ColumnType::Boolean => match bool_from(field) {
                    Some(b) => column.push_value(Value::Boolean(b)),
                    None => {
                        proof {
                            lemma_typed_stays_none(raw@, null@, (i + 1) as nat, raw@.len(), which);
                        }
                        return None;
                    },
                },
                ColumnType::Int => match int_from(field) {
                    Some(v) => column.push_value(Value::Int(v)),
                    None => {
                        proof {
                            lemma_typed_stays_none(raw@, null@, (i + 1) as nat, raw@.len(), which);
                        }
                        return None;
                    },
                },
                _ => column.push_value(Value::Text(field)),
            }
        }
        i = i + 1;
    }
    Some(column)
}

fn convert_dates(raw: &Vec<String>, null: &str) -> (r: Option<Column>)
    ensures
        match date_cells(raw@, null@, raw@.len()) {
            Some((cells, _)) => r is Some && r->Some_0@ == (ColumnView { kind: ColumnType::Date, cells }),
            None => r is None,
        },
{
    let mut converter = ToDate::new();
    let mut column = Column::with_type(ColumnType::Date);
    let mut i: usize = 0;
    while i < raw.len()
        invariant
            i <= raw@.len(),
            column.kind() == ColumnType::Date,
            date_cells(raw@, null@, i as nat) == Some((column.cells(), converter.format())),
        decreases raw@.len() - i,
    {
        let field = raw[i].as_str();
        if *field == *null {
            column.push_value(Value::Null);
        } else {
            match converter.convert(field) {
                Some(d) => column.push_value(Value::Date(d)),
                None => {
                    proof {
                        lemma_dates_stay_none(raw@, null@, (i + 1) as nat, raw@.len());
                    }
                    return None;
                },
            }
        }
        i = i + 1;
    }
    Some(column)
}

/// Reads the fields as floats, each field that is not the null text
/// through `floats`, up to the first that is no float.
///
/// The column is the one that [`float_cells`] gives for what `floats`
/// read. Fields that are all the null text give a column of nulls, and no
/// fields the empty column, whatever `floats` is.
fn convert_floats<F: FloatMath + ?Sized>(raw: &Vec<String>, null: &str, floats: &F) -> (r: Option<Column>)
    ensures
        exists|read: Seq<Option<Float>>| #[trigger] floats_from(raw@, null@, read, r),
        all_null(raw@, null@) ==> r is Some,
        r matches Some(c) ==> c.kind() == ColumnType::Float && c.cells().len() == raw@.len()
            && forall|i: int| 0 <= i < raw@.len() ==> (#[trigger] c.cells()[i] is Null <==> raw@[i]@ == null@),
{
    let mut column = Column::with_type(ColumnType::Float);
    let ghost mut read: Seq<Option<Float>> = Seq::empty();
    let mut i: usize = 0;
    while i < raw.len()
        invariant
            i <= raw@.len(),
            read.len() == i,
            column.kind() == ColumnType::Float,
            column.cells().len() == i,
            float_cells(raw@, null@, read, i as nat) == Some(column.cells()),
            forall|j: int| 0 <= j < i ==> (#[trigger] column.cells()[j] is Null <==> raw@[j]@ == null@),
        decreases raw@.len() - i,
    {
        let field = raw[i].as_str();
        let ghost before = read;
        if *field == *null {
            column.push_value(Value::Null);
            proof {
                read = read.push(None);
                lemma_float_cells_frame(raw@, null@, before, read, i as nat);
            }
        } else {
            match floats.parse(field) {
                Some(f) => {
                    column.push_value(Value::Float(f));
                    proof {
                        read = read.push(Some(f));
                        lemma_float_cells_frame(raw@, null@, before, read, i as nat);
                    }
                },
                None => {
                    proof {
                        let rest = Seq::new((raw@.len() - i) as nat, |j: int| None::<Float>);
                        let all = read + rest;
                        lemma_float_cells_frame(raw@, null@, read, all, i as nat);
                        assert(all[i as int] is None);
                        assert(float_cells(raw@, null@, all, (i + 1) as nat) is None);
                        lemma_floats_stay_none(raw@, null@, all, (i + 1) as nat, raw@.len());
                        assert(floats_from(raw@, null@, all, None::<Column>));
                        assert(!all_null(raw@, null@)) by {
                            assert(raw@[i as int]@ != null@);
                        }
                    }
                    return None;
                },
            }
        }
        i = i + 1;
    }
    proof {
        assert(floats_from(raw@, null@, read, Some(column)));
    }
    Some(column)
}

/// The float cells of the first `n` fields depend on what was read of
/// those fields alone.
pub proof fn lemma_float_cells_frame(
    raw: Seq<String>,
    null: Seq<char>,
    a: Seq<Option<Float>>,
    b: Seq<Option<Float>>,
    n: nat,
)
    requires
        n <= a.len(),
        n <= b.len(),
        forall|i: int| 0 <= i < n ==> a[i] == b[i],
    ensures
        float_cells(raw, null, a, n) == float_cells(raw, null, b, n),
    decreases n,
{
    if n > 0 {
        lemma_float_cells_frame(raw, null, a, b, (n - 1) as nat);
    }
}

/// Once the fields cannot be read as floats, more fields do not help.
pub proof fn lemma_floats_stay_none(raw: Seq<String>, null: Seq<char>, read: Seq<Option<Float>>, n: nat, m: nat)
    requires
        n <= m,
        float_cells(raw, null, read, n) is None,
    ensures
        float_cells(raw, null, read, m) is None,
    decreases m,
{
    if n < m {
        lemma_floats_stay_none(raw, null, read, n, (m - 1) as nat);
    }
}

/// Once the fields cannot be read as a type, more fields do not help.
pub proof fn lemma_typed_stays_none(raw: Seq<String>, null: Seq<char>, n: nat, m: nat, which: ColumnType)
    requires
        n <= m,
        typed_cells(raw, null, n, which) is None,
    ensures
        typed_cells(raw, null, m, which) is None,
    decreases m,
{
    if n < m {
        lemma_typed_stays_none(raw, null, n, (m - 1) as nat, which);
    }
}

/// Once the fields cannot be read as dates, more fields do not help.
pub proof fn lemma_dates_stay_none(raw: Seq<String>, null: Seq<char>, n: nat, m: nat)
    requires
        n <= m,
        date_cells(raw, null, n) is None,
    ensures
        date_cells(raw, null, m) is None,
    decreases m,
{
    if n < m {
        lemma_dates_stay_none(raw, null, n, (m - 1) as nat);
    }
}

/// Every list of fields can be read as texts.
pub proof fn lemma_texts_always(raw: Seq<String>, null: Seq<char>, n: nat)
    ensures
        typed_cells(raw, null, n, ColumnType::String) is Some,
    decreases n,
{
    if n > 0 {
        lemma_texts_always(raw, null, (n - 1) as nat);
    }
}

/// Makes a typed column of the raw texts of a column. `null_as_string` is
/// the text that stands for null.
pub fn build_column<F: FloatMath + ?Sized>(raw_values: Vec<String>, null_as_string: &str, floats: &F) -> (c:
    Column)
    ensures
        built(raw_values@, null_as_string@, c@),
        c.cells().len() == raw_values@.len(),
{
    proof {
        lemma_texts_always(raw_values@, null_as_string@, raw_values@.len());
        lemma_cells_len(raw_values@, null_as_string@, raw_values@.len(), ColumnType::Boolean);
        lemma_cells_len(raw_values@, null_as_string@, raw_values@.len(), ColumnType::Int);
        lemma_cells_len(raw_values@, null_as_string@, raw_values@.len(), ColumnType::String);
    }
    if let Some(column) = convert_plain(&raw_values, null_as_string, ColumnType::Boolean) {
        return column;
    }
    if let Some(column) = convert_dates(&raw_values, null_as_string) {
        return column;
    }
    if let Some(column) = convert_plain(&raw_values, null_as_string, ColumnType::Int) {
        return column;
    }
    let as_floats = convert_floats(&raw_values, null_as_string, floats);
    let ghost read = choose|read: Seq<Option<Float>>| #[trigger]
        floats_from(raw_values@, null_as_string@, read, as_floats);
    if let Some(column) = as_floats {
        proof {
            assert(read_gives(raw_values@, null_as_string@, read, column@));
        }
        return column;
    }
    let column = match convert_plain(&raw_values, null_as_string, ColumnType::String) {
        Some(column) => column,
        None => Column::with_type(ColumnType::String),
    };
    proof {
        assert(read_gives(raw_values@, null_as_string@, read, column@));
    }
    column
}

/// A column that was read has one cell for every field.
pub proof fn lemma_cells_len(raw: Seq<String>, null: Seq<char>, n: nat, which: ColumnType)
    ensures
        typed_cells(raw, null, n, which) matches Some(cells) ==> cells.len() == n,
        date_cells(raw, null, n) matches Some((cells, _)) ==> cells.len() == n,
    decreases n,
{
    if n > 0 {
        lemma_cells_len(raw, null, (n - 1) as nat, which);
    }
}

} // verus!
