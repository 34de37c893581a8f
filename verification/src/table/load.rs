//! Loading: the lines of a separated text file become a typed table.

use vstd::prelude::*;
use std::rc::Rc;
use rayon::iter::{IntoParallelIterator, ParallelIterator};
use crate::build_column::{build_column, built, texts_of};
use crate::floats::FloatMath;
use crate::ingest::{SepFinder, fields, read_line, read_line_with};
use crate::table::laws::lemma_longest_of_equal;
use crate::table::{Column, ColumnView, IndexEntry, IndexKey, Table};
use crate::text::{chars_of, decimal, lowercase, push_decimal, to_lowercase};

verus! {

/// The file name without its directories and its last extension, as
/// `Path::file_stem` gives it; `None` for a path without a file name.
pub uninterp spec fn file_stem_of(path: Seq<char>) -> Option<Seq<char>>;

/// Calls `Path::file_stem` and reads the stem as text with `OsStr::to_str`;
/// the stem is named by [`file_stem_of`].
#[verifier::external_body]
fn file_stem(path: &str) -> (r: Option<String>)
    ensures
        match r {
            Some(stem) => file_stem_of(path@) == Some(stem@),
            None => file_stem_of(path@) is None,
        },
{
    std::path::Path::new(path).file_stem().and_then(|stem| stem.to_str()).map(|stem| stem.to_string())
}

/// A text with every `from` replaced by `to`.
pub open spec fn replaced(text: Seq<char>, from: char, to: char) -> Seq<char> {
    Seq::new(text.len(), |i: int| if text[i] == from {
        to
    } else {
        text[i]
    })
}

fn replace(text: &str, from: char, to: char) -> (r: String)
    ensures
        r@ == replaced(text@, from, to),
{
    let chars = chars_of(text);
    let mut r = String::new();
    let mut i: usize = 0;
    while i < chars.len()
        invariant
            i <= chars@.len(),
            chars@ == text@,
            r@ == replaced(text@, from, to).take(i as int),
        decreases chars@.len() - i,
    {
        if chars[i] == from {
            r.push(to);
        } else {
            r.push(chars[i]);
        }
        assert(r@ =~= replaced(text@, from, to).take(i + 1));
        i = i + 1;
    }
    assert(replaced(text@, from, to).take(text@.len() as int) =~= replaced(text@, from, to));
    r
}

/// The alias of the table of a file: the stem of the file name in lower
/// case, with every `.` replaced by `_`.
pub open spec fn table_name_of(path: Seq<char>) -> Option<Seq<char>> {
    match file_stem_of(path) {
        Some(stem) => Some(lowercase(replaced(stem, '.', '_'))),
        None => None,
    }
}

/// The alias under which the file at `file_path` is loaded.
pub fn extract_table_name(file_path: &str) -> (r: Option<String>)
    ensures
        match r {
            Some(name) => table_name_of(file_path@) == Some(name@),
            None => table_name_of(file_path@) is None,
        },
{
    match file_stem(file_path) {
        Some(stem) => {
            let renamed = replace(stem.as_str(), '.', '_');
            Some(to_lowercase(renamed.as_str()))
        },
        None => None,
    }
}

/// The display name of the column at `place` whose header field is
/// `field`: the field in lower case with every `.` replaced by `_`, or
/// the place as a number where the field is empty.
pub open spec fn header_name(field: Seq<char>, place: nat) -> Seq<char> {
    if field.len() == 0 {
        decimal(place)
    } else {
        replaced(lowercase(field), '.', '_')
    }
}

/// The display names of the columns, from the header line of a file.
pub fn parse_header_line(header_line: String, separator: &Box<dyn SepFinder>) -> (r: Vec<String>)
    ensures
        r@.len() == fields(&**separator, header_line@, 0, header_line@.len() as int).len(),
        forall|i: int|
            0 <= i < r@.len() ==> (#[trigger] r@[i])@ == header_name(
                fields(&**separator, header_line@, 0, header_line@.len() as int)[i],
                i as nat,
            ),
{
    names_from(read_line(header_line, separator))
}

/// The index of a table that was loaded: every column under the alias of
/// the table.
pub fn create_column_map(table_name: &String, column_names: &Vec<String>) -> (r: Vec<IndexEntry>)
    ensures
        r@.len() == column_names@.len(),
        forall|i: int|
            0 <= i < r@.len() ==> (#[trigger] r@[i])@ == (IndexKey {
                qualifier: table_name@,
                name: column_names@[i]@,
                position: i as nat,
            }),
{
    let mut r: Vec<IndexEntry> = Vec::new();
    let mut i: usize = 0;
    while i < column_names.len()
        invariant
            i <= column_names@.len(),
            r@.len() == i,
            forall|j: int|
                0 <= j < i ==> (#[trigger] r@[j])@ == (IndexKey {
                    qualifier: table_name@,
                    name: column_names@[j]@,
                    position: j as nat,
                }),
        decreases column_names@.len() - i,
    {
        r.push(IndexEntry { qualifier: table_name.clone(), name: column_names[i].clone(), position: i });
        i = i + 1;
    }
    r
}

/// A table that was loaded, with the numbers of the lines that were left
/// out because they have fewer fields than the header.
pub struct Loaded {
    pub table: Table,
    pub skipped: Vec<usize>,
}

/// Whether a line has a field for every column.
pub open spec fn complete<S: SepFinder + ?Sized>(finder: &S, line: Seq<char>, width: nat) -> bool {
    fields(finder, line, 0, line.len() as int).len() >= width
}

/// The numbers of the first `n` lines that lack a field.
pub open spec fn incomplete_lines<S: SepFinder + ?Sized>(finder: &S, lines: Seq<String>, width: nat, n: nat) -> Seq<
    usize,
>
    decreases n,
{
    if n == 0 {
        Seq::empty()
    } else if complete(finder, lines[n - 1]@, width) {
        incomplete_lines(finder, lines, width, (n - 1) as nat)
    } else {
        incomplete_lines(finder, lines, width, (n - 1) as nat).push((n - 1) as usize)
    }
}

/// The fields of column `c` in those of the first `n` lines that have a
/// field for every column.
pub open spec fn column_fields<S: SepFinder + ?Sized>(
    finder: &S,
    lines: Seq<String>,
    width: nat,
    c: int,
    n: nat,
) -> Seq<Seq<char>>
    decreases n,
{
    if n == 0 {
        Seq::empty()
    } else if complete(finder, lines[n - 1]@, width) {
        column_fields(finder, lines, width, c, (n - 1) as nat).push(
            fields(finder, lines[n - 1]@, 0, lines[n - 1]@.len() as int)[c],
        )
    } else {
        column_fields(finder, lines, width, c, (n - 1) as nat)
    }
}

/// Whether `column` is inferred from the fields of column `c` in the
/// complete lines.
pub open spec fn inferred<S: SepFinder + ?Sized>(
    finder: &S,
    lines: Seq<String>,
    width: nat,
    c: int,
    null: Seq<char>,
    column: ColumnView,
) -> bool {
    exists|raw: Seq<String>|
        texts_of(raw) == column_fields(finder, lines, width, c, lines.len()) && #[trigger] built(
            raw,
            null,
            column,
        )
}

/// What loading makes of the lines of a file: a table under the given
/// alias whose columns are named by the header line, indexed under the
/// alias, and inferred, each from its fields in the complete lines.
pub open spec fn loaded<S: SepFinder + ?Sized>(
    finder: &S,
    alias: Seq<char>,
    header_line: Seq<char>,
    lines: Seq<String>,
    null: Seq<char>,
    r: Loaded,
) -> bool {
    let header = fields(finder, header_line, 0, header_line.len() as int);
    let width = header.len();
    &&& r.table@.wf()
    &&& r.table@.rectangular()
    &&& r.table@.alias == alias
    &&& r.table@.names.len() == width
    &&& r.table@.index.len() == width
    &&& r.table@.columns.len() == width
    &&& forall|i: int| 0 <= i < width ==> #[trigger] r.table@.names[i] == header_name(header[i], i as nat)
    &&& forall|i: int|
        0 <= i < width ==> #[trigger] r.table@.index[i] == (IndexKey {
            qualifier: alias,
            name: r.table@.names[i],
            position: i as nat,
        })
    &&& forall|c: int|
        0 <= c < width ==> inferred(finder, lines, width, c, null, #[trigger] r.table@.columns[c])
    &&& r.skipped@ == incomplete_lines(finder, lines, width, lines.len())
}

/// Calls rayon's `into_par_iter`, `map` and `collect` on the raw columns:
/// every column is built by `build_column` on one of rayon's threads, and
/// the built columns come in the order of the raw ones.
#[verifier::external_body]
fn build_columns<F: FloatMath + Sync + ?Sized>(raw: Vec<Vec<String>>, null: &str, floats: &F) -> (r: Vec<
    Rc<Column>,
>)
    ensures
        r@.len() == raw@.len(),
        forall|j: int|
            0 <= j < r@.len() ==> built(raw@[j]@, null@, (*#[trigger] r@[j])@) && (*r@[j]).cells().len()
                == raw@[j]@.len(),
{
    let built: Vec<Column> = raw.into_par_iter().map(|texts| build_column(texts, null, floats)).collect();
    built.into_iter().map(Rc::new).collect()
}

fn names_from(raw: Vec<String>) -> (names: Vec<String>)
    ensures
        names@.len() == raw@.len(),
        forall|i: int| 0 <= i < names@.len() ==> (#[trigger] names@[i])@ == header_name(raw@[i]@, i as nat),
{
    let mut names: Vec<String> = Vec::new();
    let mut num: usize = 0;
    while num < raw.len()
        invariant
            num <= raw@.len(),
            names@.len() == num,
            forall|i: int| 0 <= i < num ==> (#[trigger] names@[i])@ == header_name(raw@[i]@, i as nat),
        decreases raw@.len() - num,
    {
        let field_chars = chars_of(raw[num].as_str());
        if field_chars.len() == 0 {
            let mut name = String::new();
            push_decimal(&mut name, num as u64);
            names.push(name);
        } else {
            let lowered = to_lowercase(raw[num].as_str());
            names.push(replace(lowered.as_str(), '.', '_'));
        }
        num = num + 1;
    }
    names
}

impl Table {
    /// Makes a table of the lines of a file.
    ///
    /// The header line gives the names of the columns. A line with fewer
    /// fields than the header is left out; of a line with more, the
    /// fields past the last column are. The type of each column is
    /// inferred from its fields, of which `null` stands for null.
    pub fn from_lines<F: FloatMath + Sync + ?Sized>(
        alias: String,
        header_line: String,
        lines: Vec<String>,
        separator: &Box<dyn SepFinder>,
        null: &str,
        floats: &F,
    ) -> (r: Loaded)
        ensures
            loaded(&**separator, alias@, header_line@, lines@, null@, r),
    {
        Self::from_lines_with(alias, header_line, lines, &**separator, null, floats)
    }

    /// Makes a table of the lines of a file, with any way of telling
    /// fields apart.
    pub fn from_lines_with<S: SepFinder + ?Sized, F: FloatMath + Sync + ?Sized>(
        alias: String,
        header_line: String,
        lines: Vec<String>,
        separator: &S,
        null: &str,
        floats: &F,
    ) -> (r: Loaded)
        ensures
            loaded(separator, alias@, header_line@, lines@, null@, r),
    {
        let column_names = names_from(read_line_with(header_line.as_str(), separator));
        let column_map = create_column_map(&alias, &column_names);
        let width: usize = column_names.len();
        let mut raw_string_columns: Vec<Vec<String>> = Vec::new();
        let mut c: usize = 0;
        while c < width
            invariant
                c <= width,
                raw_string_columns@.len() == c,
                forall|j: int| 0 <= j < c ==> (#[trigger] raw_string_columns@[j])@.len() == 0,
            decreases width - c,
        {
            raw_string_columns.push(Vec::new());
            c = c + 1;
        }
        let mut skipped: Vec<usize> = Vec::new();
        let mut i: usize = 0;
        proof {
            assert forall|j: int| 0 <= j < width implies texts_of((#[trigger] raw_string_columns@[j])@)
                == column_fields(separator, lines@, width as nat, j, 0) by {
                assert(texts_of(raw_string_columns@[j]@) =~= Seq::<Seq<char>>::empty());
            }
        }
        while i < lines.len()
            invariant
                i <= lines@.len(),
                raw_string_columns@.len() == width,
                skipped@ == incomplete_lines(separator, lines@, width as nat, i as nat),
                forall|j: int|
                    0 <= j < width ==> texts_of((#[trigger] raw_string_columns@[j])@) == column_fields(
                        separator,
                        lines@,
                        width as nat,
                        j,
                        i as nat,
                    ),
            decreases lines@.len() - i,
        {
            let parsed = read_line_with(lines[i].as_str(), separator);
            let ghost row = fields(separator, lines@[i as int]@, 0, lines@[i as int]@.len() as int);
            if parsed.len() < width {
                skipped.push(i);
            } else {
                let mut num: usize = 0;
                while num < width
                    invariant
                        num <= width <= parsed@.len(),
                        i < lines@.len(),
                        raw_string_columns@.len() == width,
                        row == fields(separator, lines@[i as int]@, 0, lines@[i as int]@.len() as int),
                        parsed@.len() == row.len(),
                        forall|k: int| 0 <= k < parsed@.len() ==> (#[trigger] parsed@[k])@ == row[k],
                        forall|j: int|
                            num <= j < width ==> texts_of((#[trigger] raw_string_columns@[j])@)
                                == column_fields(separator, lines@, width as nat, j, i as nat),
                        forall|j: int|
                            0 <= j < num ==> texts_of((#[trigger] raw_string_columns@[j])@)
                                == column_fields(separator, lines@, width as nat, j, (i + 1) as nat),
                    decreases width - num,
                {
                    let mut column: Vec<String> = Vec::new();
                    std::mem::swap(&mut column, &mut raw_string_columns[num]);
                    let ghost before = texts_of(column@);
                    column.push(parsed[num].clone());
                    proof {
                        assert(texts_of(column@) =~= before.push(row[num as int]));
                    }
                    raw_string_columns[num] = column;
                    num = num + 1;
                }
            }
            i = i + 1;
        }
        let ghost raws: Seq<Seq<String>> = Seq::new(width as nat, |j: int| raw_string_columns@[j]@);
        let columns: Vec<Rc<Column>> = build_columns(raw_string_columns, null, floats);
        let table = Table { alias, column_map, column_names, columns };
        let r = Loaded { table, skipped };
        proof {
            let header = fields(separator, header_line@, 0, header_line@.len() as int);
            let rows = column_fields(separator, lines@, width as nat, 0, lines@.len()).len();
            assert forall|j: int| 0 <= j < r.table@.columns.len() implies (
            #[trigger] r.table@.columns[j]).cells.len() == rows by {
                lemma_column_fields_len(separator, lines@, width as nat, j, 0, lines@.len());
                assert(texts_of(raws[j]).len() == raws[j].len());
            }
            lemma_longest_of_equal(r.table@.columns, r.table@.columns.len(), rows);
            assert forall|j: int| 0 <= j < width implies inferred(
                separator,
                lines@,
                width as nat,
                j,
                null@,
                #[trigger] r.table@.columns[j],
            ) by {
                assert(built(raws[j], null@, r.table@.columns[j]));
            }
        }
        r
    }
}

/// Every column has a field from every complete line.
pub proof fn lemma_column_fields_len<S: SepFinder + ?Sized>(
    finder: &S,
    lines: Seq<String>,
    width: nat,
    c: int,
    d: int,
    n: nat,
)
    ensures
        column_fields(finder, lines, width, c, n).len() == column_fields(finder, lines, width, d, n).len(),
    decreases n,
{
    if n > 0 {
        lemma_column_fields_len(finder, lines, width, c, d, (n - 1) as nat);
    }
}

} // verus!
