//! Reading back what was written: the lines of a written table give
//! their entries back.

use vstd::prelude::*;
use crate::ingest::{CsvFinder, SepFinder, after_marks, after_spaces, field, fields, until};
use crate::build_column::{built, texts_of};
use crate::table::impl_table_display::line_text;
use crate::table::load::{Loaded, column_fields, incomplete_lines, inferred, loaded};

verus! {

/// Whether the characters from `index` on are the entries `i..n`, each in
/// double quotes, with a comma between each two, up to the end.
pub open spec fn written_at(chars: Seq<char>, index: int, entries: Seq<Seq<char>>, i: int, n: int) -> bool
    decreases n - i,
{
    if i >= n {
        false
    } else {
        let entry = entries[i];
        let end = index + entry.len() + 2;
        &&& 0 <= index
        &&& end <= chars.len()
        &&& chars[index] == '"'
        &&& forall|k: int| 0 <= k < entry.len() ==> #[trigger] chars[index + 1 + k] == entry[k]
        &&& chars[end - 1] == '"'
        &&& if i + 1 < n {
            end < chars.len() && chars[end] == ',' && written_at(chars, end + 1, entries, i + 1, n)
        } else {
            end == chars.len()
        }
    }
}

/// A text in quotes is read up to its closing quote.
pub proof fn lemma_until_quote(chars: Seq<char>, entry: Seq<char>, start: int, k: int)
    requires
        0 <= k <= entry.len(),
        0 <= start,
        start + entry.len() < chars.len(),
        forall|j: int| 0 <= j < entry.len() ==> #[trigger] chars[start + j] == entry[j],
        forall|j: int| 0 <= j < entry.len() ==> #[trigger] entry[j] != '"',
        chars[start + entry.len()] == '"',
    ensures
        until(chars, '"', start + k, chars.len() as int) == (entry.skip(k), start + entry.len() + 1),
    decreases entry.len() - k,
{
    let length = chars.len() as int;
    if k == entry.len() {
        assert(entry.skip(k) =~= Seq::<char>::empty());
    } else {
        lemma_until_quote(chars, entry, start, k + 1);
        assert(chars[start + k] == entry[k]);
        assert(entry[k] != '"');
        assert(seq![chars[start + k]] + entry.skip(k + 1) =~= entry.skip(k));
    }
}

/// Reading a line of entries that were written in double quotes with
/// commas between them gives the entries back, where no entry holds a
/// double quote.
pub proof fn lemma_written_entries_are_read(chars: Seq<char>, index: int, entries: Seq<Seq<char>>, i: int, n: int)
    requires
        0 <= i < n <= entries.len(),
        written_at(chars, index, entries, i, n),
        forall|e: int, j: int| i <= e < n && 0 <= j < entries[e].len() ==> #[trigger] entries[e][j] != '"',
    ensures
        fields(&CsvFinder {}, chars, index, chars.len() as int) == entries.subrange(i, n),
    decreases n - i,
{
    let finder = &CsvFinder {};
    let length = chars.len() as int;
    let entry = entries[i];
    let end = index + entry.len() + 2;
    assert forall|j: int| 0 <= j < entry.len() implies #[trigger] entry[j] != '"' by {
        assert(entries[i][j] != '"');
    }
    lemma_until_quote(chars, entry, index + 1, 0);
    assert(entry.skip(0) =~= entry);
    reveal_with_fuel(written_at, 2);
    reveal_with_fuel(after_spaces, 2);
    reveal_with_fuel(after_marks, 3);
    assert(!finder.separator_at(chars, index, length));
    assert(until(chars, '"', index + 1, length) == (entry, end));
    if i + 1 < n {
        assert(finder.separator_at(chars, end, length));
        assert(field(finder, chars, end, length) == (Seq::<char>::empty(), end));
    } else {
        assert(field(finder, chars, end, length) == (Seq::<char>::empty(), end));
    }
    assert(field(finder, chars, index, length).1 == end);
    assert(field(finder, chars, index, length).0 =~= entry);
    if i + 1 < n {
        assert(chars[end + 1] == '"');
        assert(finder.after_separator(chars, end, length) == end + 1);
        lemma_written_entries_are_read(chars, end + 1, entries, i + 1, n);
        assert(fields(finder, chars, end, length) == fields(finder, chars, end + 1, length));
        assert(seq![entry] + entries.subrange(i + 1, n) =~= entries.subrange(i, n));
    } else {
        assert(fields(finder, chars, end, length) =~= Seq::<Seq<char>>::empty());
        assert(seq![entry] =~= entries.subrange(i, n));
    }
}

/// What is written after a line of entries adds an entry to the line.
proof fn lemma_written_more(chars: Seq<char>, more: Seq<char>, index: int, entries: Seq<Seq<char>>, i: int, m: int)
    requires
        0 <= i < m < entries.len(),
        written_at(chars, index, entries, i, m),
        more == chars + seq![','] + (seq!['"'] + entries[m] + seq!['"']),
    ensures
        written_at(more, index, entries, i, m + 1),
    decreases m - i,
{
    reveal_with_fuel(written_at, 2);
    let entry = entries[i];
    let end = index + entry.len() + 2;
    assert forall|k: int| 0 <= k < chars.len() implies more[k] == chars[k] by {}
    assert forall|k: int| 0 <= k < entry.len() implies #[trigger] more[index + 1 + k] == entry[k] by {
        assert(chars[index + 1 + k] == entry[k]);
    }
    if i + 1 < m {
        lemma_written_more(chars, more, end + 1, entries, i + 1, m);
    } else {
        let last = entries[m];
        assert(end == chars.len());
        assert(more[end] == ',');
        assert(more[end + 1] == '"');
        assert forall|k: int| 0 <= k < last.len() implies #[trigger] more[end + 1 + 1 + k] == last[k] by {}
        assert(more[end + 1 + last.len() + 2 - 1] == '"');
        assert(more.len() == end + 1 + last.len() + 2);
        assert(written_at(more, end + 1, entries, m, m + 1));
    }
}

/// A line of entries is written as its entries in double quotes with
/// commas between them.
proof fn lemma_line_is_written(entries: Seq<Seq<char>>, n: nat)
    requires
        0 < n <= entries.len(),
    ensures
        written_at(line_text(entries, ","@, n), 0, entries, 0, n as int),
    decreases n,
{
    reveal_strlit(",");
    reveal_strlit("\"");
    reveal_with_fuel(written_at, 2);
    assert(","@ =~= seq![',']);
    assert("\""@ =~= seq!['"']);
    if n == 1 {
        let line = line_text(entries, ","@, 1);
        assert(line =~= seq!['"'] + entries[0] + seq!['"']);
        assert forall|k: int| 0 <= k < entries[0].len() implies #[trigger] line[0 + 1 + k] == entries[0][k] by {}
        assert(line[0 + entries[0].len() + 2 - 1] == '"');
    } else {
        lemma_line_is_written(entries, (n - 1) as nat);
        lemma_written_more(
            line_text(entries, ","@, (n - 1) as nat),
            line_text(entries, ","@, n),
            0,
            entries,
            0,
            n - 1,
        );
    }
}

/// A line that was written is read back as it was: the fields of the
/// text of a line of entries, each in double quotes and with commas
/// between them, are the entries, where no entry holds a double quote.
pub proof fn lemma_written_line_is_read(entries: Seq<Seq<char>>, n: nat)
    requires
        n <= entries.len(),
        forall|e: int, j: int| 0 <= e < n && 0 <= j < entries[e].len() ==> #[trigger] entries[e][j] != '"',
    ensures
        fields(
            &CsvFinder {},
            line_text(entries, ","@, n),
            0,
            line_text(entries, ","@, n).len() as int,
        ) == entries.take(n as int),
{
    if n == 0 {
        assert(entries.take(0) =~= Seq::<Seq<char>>::empty());
    } else {
        lemma_line_is_written(entries, n);
        lemma_written_entries_are_read(line_text(entries, ","@, n), 0, entries, 0, n as int);
        assert(entries.subrange(0, n as int) =~= entries.take(n as int));
    }
}

/// The entries of column `c` in the lines of a written table.
pub open spec fn column_written(written: Seq<Seq<Seq<char>>>, c: int, n: nat) -> Seq<Seq<char>> {
    Seq::new(n, |i: int| written[i][c])
}

/// Whether `lines` are the lines of a written table of `width` columns,
/// one line for each row with its entries in double quotes and commas
/// between them, and no entry holds a double quote.
pub open spec fn lines_written(lines: Seq<String>, written: Seq<Seq<Seq<char>>>, width: nat) -> bool {
    &&& lines.len() == written.len()
    &&& forall|i: int| 0 <= i < written.len() ==> (#[trigger] written[i]).len() == width
    &&& forall|i: int| 0 <= i < written.len() ==> (#[trigger] lines[i])@ == line_text(written[i], ","@, width)
    &&& forall|i: int, e: int, j: int|
        0 <= i < written.len() && 0 <= e < width && 0 <= j < written[i][e].len() ==> #[trigger] written[i][e][j]
            != '"'
}

/// The lines of a written table have a field for every column, and the
/// fields of a column are its entries, row by row.
pub proof fn lemma_written_columns_are_read(
    lines: Seq<String>,
    written: Seq<Seq<Seq<char>>>,
    width: nat,
    c: int,
    n: nat,
)
    requires
        lines_written(lines, written, width),
        n <= written.len(),
        0 <= c < width,
    ensures
        column_fields(&CsvFinder {}, lines, width, c, n) == column_written(written, c, n),
        incomplete_lines(&CsvFinder {}, lines, width, n) == Seq::<usize>::empty(),
    decreases n,
{
    if n == 0 {
        assert(column_written(written, c, 0) =~= Seq::<Seq<char>>::empty());
    } else {
        lemma_written_columns_are_read(lines, written, width, c, (n - 1) as nat);
        let entries = written[n - 1];
        assert(entries.len() == width);
        assert(lines[n - 1]@ == line_text(entries, ","@, width));
        assert forall|e: int, j: int| 0 <= e < width && 0 <= j < entries[e].len() implies #[trigger] entries[e][j]
            != '"' by {
            assert(written[n - 1][e][j] != '"');
        }
        lemma_written_line_is_read(entries, width);
        assert(entries.take(width as int) =~= entries);
        assert(column_written(written, c, n) =~= column_written(written, c, (n - 1) as nat).push(entries[c]));
    }
}

/// A written table is read back: loading the lines of a table that was
/// written with commas, under a header of as many names, leaves out no
/// line, and infers every column from the entries that were written for
/// it, as [`built`] says, with `NULL` for a null.
pub proof fn lemma_written_table_is_read(
    lines: Seq<String>,
    written: Seq<Seq<Seq<char>>>,
    alias: Seq<char>,
    header: Seq<char>,
    r: Loaded,
    c: int,
)
    requires
        lines_written(lines, written, fields(&CsvFinder {}, header, 0, header.len() as int).len()),
        loaded(&CsvFinder {}, alias, header, lines, "NULL"@, r),
        0 <= c < fields(&CsvFinder {}, header, 0, header.len() as int).len(),
    ensures
        r.skipped@ == Seq::<usize>::empty(),
        exists|raw: Seq<String>|
            texts_of(raw) == column_written(written, c, written.len()) && #[trigger] built(
                raw,
                "NULL"@,
                r.table@.columns[c],
            ),
{
    let width = fields(&CsvFinder {}, header, 0, header.len() as int).len();
    lemma_written_columns_are_read(lines, written, width, c, written.len());
    assert(inferred(&CsvFinder {}, lines, width, c, "NULL"@, r.table@.columns[c]));
}

} // verus!
