//! The text of a table as it is written to a file.

use vstd::prelude::*;
use crate::floats::FloatMath;
use crate::table::impl_column::plain_cell_text;
use crate::table::impl_table_hash::cell_at;
use crate::table::{Cell, ColumnType, ColumnView, Table, TableView};
use crate::text::{lemma_prefix_of_sum, push_text};

verus! {

/// The first `n` names with `separator` between each two.
pub open spec fn header_text(names: Seq<Seq<char>>, separator: Seq<char>, n: nat) -> Seq<char>
    decreases n,
{
    if n == 0 {
        Seq::empty()
    } else if n == 1 {
        names[0]
    } else {
        header_text(names, separator, (n - 1) as nat) + separator + names[n - 1]
    }
}

/// A cell in double quotes; a null cell is the word `NULL` in quotes.
pub open spec fn quoted_cell(cell: Cell) -> Seq<char> {
    "\""@ + plain_cell_text(cell, "NULL"@) + "\""@
}

/// The first `n` cells of a row, each in quotes, with `separator` between
/// each two. A column that is too short gives a null.
pub open spec fn row_text(columns: Seq<ColumnView>, row: nat, separator: Seq<char>, n: nat) -> Seq<char>
    decreases n,
{
    if n == 0 {
        Seq::empty()
    } else if n == 1 {
        quoted_cell(cell_at(columns[0], row))
    } else {
        row_text(columns, row, separator, (n - 1) as nat) + separator + quoted_cell(
            cell_at(columns[n - 1], row),
        )
    }
}

/// The header line, then the first `rows` rows, each after a line break.
pub open spec fn file_text(t: TableView, separator: Seq<char>, rows: nat) -> Seq<char>
    decreases rows,
{
    if rows == 0 {
        header_text(t.names, separator, t.names.len())
    } else {
        file_text(t, separator, (rows - 1) as nat) + "\n"@ + row_text(
            t.columns,
            (rows - 1) as nat,
            separator,
            t.columns.len(),
        )
    }
}

/// Whether the table has a float column.
pub open spec fn has_floats(t: TableView) -> bool {
    exists|i: int| 0 <= i < t.columns.len() && (#[trigger] t.columns[i]).kind == ColumnType::Float
}

/// Whether a file name ends in `.tsv`.
pub open spec fn ends_in_tsv(filename: Seq<char>) -> bool {
    filename.len() >= 4 && filename.subrange(filename.len() - 4, filename.len() as int) == ".tsv"@
}

/// The separator that a file name asks for: a tab for `.tsv`, else a comma.
pub open spec fn separator_for(filename: Seq<char>) -> Seq<char> {
    if ends_in_tsv(filename) {
        "\t"@
    } else {
        ","@
    }
}

/// The first `n` entries of a line, each in double quotes, with
/// `separator` between each two.
pub open spec fn line_text(line: Seq<Seq<char>>, separator: Seq<char>, n: nat) -> Seq<char>
    decreases n,
{
    if n == 0 {
        Seq::empty()
    } else if n == 1 {
        "\""@ + line[0] + "\""@
    } else {
        line_text(line, separator, (n - 1) as nat) + separator + ("\""@ + line[n - 1] + "\""@)
    }
}

/// The header line, then the first `rows` of the lines, each after a line
/// break.
pub open spec fn table_text(names: Seq<Seq<char>>, lines: Seq<Seq<Seq<char>>>, separator: Seq<char>, rows: nat) -> Seq<
    char,
>
    decreases rows,
{
    if rows == 0 {
        header_text(names, separator, names.len())
    } else {
        table_text(names, lines, separator, (rows - 1) as nat) + "\n"@ + line_text(
            lines[rows - 1],
            separator,
            lines[rows - 1].len(),
        )
    }
}

/// Whether `lines` holds, row by row, the texts under which the cells of
/// a table are written: one line for each row with one text for each
/// column, and of every cell that is not a float the text of the cell, a
/// null as `NULL`.
pub open spec fn writes(t: TableView, lines: Seq<Seq<Seq<char>>>) -> bool {
    &&& lines.len() == t.rows()
    &&& forall|r: int| 0 <= r < lines.len() ==> (#[trigger] lines[r]).len() == t.columns.len()
    &&& forall|r: int, c: int|
        0 <= r < lines.len() && 0 <= c < t.columns.len() && !(cell_at(t.columns[c], r as nat) is Float)
            ==> #[trigger] lines[r][c] == plain_cell_text(cell_at(t.columns[c], r as nat), "NULL"@)
}

/// The first `n` entries of a line do not depend on the entries after
/// them.
pub proof fn lemma_line_frame(a: Seq<Seq<char>>, b: Seq<Seq<char>>, separator: Seq<char>, n: nat)
    requires
        n <= a.len(),
        n <= b.len(),
        forall|c: int| 0 <= c < n ==> a[c] == b[c],
    ensures
        line_text(a, separator, n) == line_text(b, separator, n),
    decreases n,
{
    if n > 1 {
        lemma_line_frame(a, b, separator, (n - 1) as nat);
    }
}

/// The first `n` lines do not depend on the lines after them.
pub proof fn lemma_lines_frame(
    names: Seq<Seq<char>>,
    a: Seq<Seq<Seq<char>>>,
    b: Seq<Seq<Seq<char>>>,
    separator: Seq<char>,
    n: nat,
)
    requires
        n <= a.len(),
        n <= b.len(),
        forall|r: int| 0 <= r < n ==> a[r] == b[r],
    ensures
        table_text(names, a, separator, n) == table_text(names, b, separator, n),
    decreases n,
{
    if n > 0 {
        lemma_lines_frame(names, a, b, separator, (n - 1) as nat);
    }
}

impl Table {
    /// The text of the table as a file: a header line of the display
    /// names, then one line for each row with every value in double
    /// quotes and a null written as `NULL`. There is no line break after
    /// the last row.
    ///
    /// A float is written as `floats` formats it, so the text is stated
    /// for the texts that were written; a table without a float column
    /// has one text.
    pub fn write_to_string<F: FloatMath + ?Sized>(&self, separator: &str, floats: &F) -> (out: String)
        requires
            self@.wf(),
        ensures
            exists|lines: Seq<Seq<Seq<char>>>| #[trigger]
                writes(self@, lines) && out@ == table_text(self@.names, lines, separator@, self@.rows()),
            !has_floats(self@) ==> out@ == file_text(self@, separator@, self@.rows()),
    {
        let mut out = String::new();
        let width: usize = self.columns.len();
        let mut c: usize = 0;
        while c < width
            invariant
                c <= width,
                width == self.columns@.len(),
                self@.wf(),
                out@ == header_text(self@.names, separator@, c as nat),
            decreases width - c,
        {
            if c > 0 {
                push_text(&mut out, separator);
            }
            push_text(&mut out, self.column_names[c].as_str());
            c = c + 1;
        }
        let rows: usize = self.len();
        let ghost mut lines: Seq<Seq<Seq<char>>> = Seq::empty();
        let mut i: usize = 0;
        while i < rows
            invariant
                i <= rows,
                rows == self@.rows(),
                width == self.columns@.len(),
                self@.wf(),
                lines.len() == i,
                forall|r: int| 0 <= r < i ==> (#[trigger] lines[r]).len() == width,
                forall|r: int, c: int|
                    0 <= r < i && 0 <= c < width && !(cell_at(self@.columns[c], r as nat) is Float)
                        ==> #[trigger] lines[r][c] == plain_cell_text(cell_at(self@.columns[c], r as nat), "NULL"@),
                out@ == table_text(self@.names, lines, separator@, i as nat),
                !has_floats(self@) ==> out@ == file_text(self@, separator@, i as nat),
            decreases rows - i,
        {
            let ghost before_row = out@;
            push_text(&mut out, "\n");
            let ghost line_start = out@;
            let ghost mut line: Seq<Seq<char>> = Seq::empty();
            let mut num: usize = 0;
            while num < width
                invariant
                    num <= width,
                    i < rows,
                    width == self.columns@.len(),
                    self@.wf(),
                    line.len() == num,
                    forall|c: int|
                        0 <= c < num && !(cell_at(self@.columns[c], i as nat) is Float) ==> #[trigger] line[c]
                            == plain_cell_text(cell_at(self@.columns[c], i as nat), "NULL"@),
                    out@ == line_start + line_text(line, separator@, num as nat),
                    !has_floats(self@) ==> out@ == line_start + row_text(
                        self@.columns,
                        i as nat,
                        separator@,
                        num as nat,
                    ),
                decreases width - num,
            {
                let ghost at_start = out@;
                if num > 0 {
                    push_text(&mut out, separator);
                }
                push_text(&mut out, "\"");
                let ghost before_cell = out@;
                if i < self.columns[num].len() {
                    self.columns[num].as_writable(i, &mut out, "NULL", floats);
                } else {
                    push_text(&mut out, "NULL");
                }
                let ghost after_cell = out@;
                let ghost text = after_cell.subrange(before_cell.len() as int, after_cell.len() as int);
                push_text(&mut out, "\"");
                proof {
                    let cell = cell_at(self@.columns[num as int], i as nat);
                    assert(before_cell.is_prefix_of(after_cell)) by {
                        if i < self.columns@[num as int].cells().len() && !(cell is Float) {
                            lemma_prefix_of_sum(before_cell, plain_cell_text(cell, "NULL"@));
                        } else if i >= self.columns@[num as int].cells().len() {
                            lemma_prefix_of_sum(before_cell, "NULL"@);
                        }
                    }
                    assert(after_cell =~= before_cell + text);
                    if !(cell is Float) {
                        assert(after_cell == before_cell + plain_cell_text(cell, "NULL"@));
                        assert(text =~= plain_cell_text(cell, "NULL"@));
                    }
                    let shorter = line;
                    line = line.push(text);
                    lemma_line_frame(shorter, line, separator@, num as nat);
                    assert(out@ =~= line_start + line_text(line, separator@, (num + 1) as nat));
                    if !has_floats(self@) {
                        assert(self@.columns[num as int].kind != ColumnType::Float);
                        self.columns@[num as int].lemma_cells_fit();
                        assert(!(cell is Float));
                        assert(out@ =~= line_start + row_text(
                            self@.columns,
                            i as nat,
                            separator@,
                            (num + 1) as nat,
                        ));
                    }
                }
                num = num + 1;
            }
            proof {
                let fewer = lines;
                lines = lines.push(line);
                lemma_lines_frame(self@.names, fewer, lines, separator@, i as nat);
                assert(out@ =~= table_text(self@.names, lines, separator@, (i + 1) as nat));
                if !has_floats(self@) {
                    assert(out@ =~= file_text(self@, separator@, (i + 1) as nat));
                }
            }
            i = i + 1;
        }
        proof {
            assert(writes(self@, lines));
        }
        out
    }
}

} // verus!
