//! The aligned text of a table, as it is shown to the user.

use vstd::prelude::*;
use crate::build_column::texts_of;
use crate::floats::FloatMath;
use crate::table::impl_column::plain_cell_text;
use crate::table::impl_table_display::has_floats;
use crate::table::impl_table_hash::cell_at;
use crate::table::{Cell, Column, ColumnType, ColumnView, Table, TableView};
use crate::text::{push_signed_decimal, push_text, signed_decimal};

verus! {

/// The date and time of a timestamp as chrono shows it, in UTC and without
/// a zone: `2020-12-08 00:00:00`; `None` where the calendar does not reach
/// that far.
pub uninterp spec fn date_text(timestamp: i64) -> Option<Seq<char>>;

/// Builds chrono's `DateTime<Utc>` with `DateTime::from_timestamp`, takes
/// its `naive_utc` and shows it with `to_string`; the text is named by
/// [`date_text`].
#[verifier::external_body]
fn show_date(timestamp: i64) -> (r: Option<String>)
    ensures
        match r {
            Some(text) => date_text(timestamp) == Some(text@),
            None => date_text(timestamp) is None,
        },
{
    chrono::DateTime::from_timestamp(timestamp, 0).map(|d| d.naive_utc().to_string())
}

/// The text under which a cell that is not a float is shown: a null as
/// `NULL`, a date as its date and time, or as its number where the
/// calendar does not reach it, everything else as it is written to a file.
pub open spec fn shown(cell: Cell) -> Seq<char> {
    match cell {
        Cell::Date(d) => match date_text(d) {
            Some(text) => text,
            None => signed_decimal(d as int),
        },
        _ => plain_cell_text(cell, "NULL"@),
    }
}

/// So many spaces.
pub open spec fn spaces(n: nat) -> Seq<char> {
    Seq::new(n, |i: int| ' ')
}

/// A text followed by spaces up to `width`; a longer text as it is.
pub open spec fn padded(text: Seq<char>, width: nat) -> Seq<char> {
    if text.len() < width {
        text + spaces((width - text.len()) as nat)
    } else {
        text
    }
}

/// The length of the longest of the texts of the first `n` rows of a
/// column, the rows that hold a null left out.
pub open spec fn widest_present(column: ColumnView, texts: Seq<Seq<char>>, n: nat) -> nat
    decreases n,
{
    if n == 0 {
        0
    } else {
        let rest = widest_present(column, texts, (n - 1) as nat);
        if !(cell_at(column, (n - 1) as nat) is Null) && texts[n - 1].len() > rest {
            texts[n - 1].len()
        } else {
            rest
        }
    }
}

/// Whether one of the first `n` rows of a column is shown as a null.
pub open spec fn shows_null(column: ColumnView, n: nat) -> bool
    decreases n,
{
    n > 0 && (cell_at(column, (n - 1) as nat) is Null || shows_null(column, (n - 1) as nat))
}

/// The width of a column of `rows` rows: two more than the longest of its
/// name and its values, where a boolean column counts as five wide
/// whatever it holds. A null is not counted among the values, but a
/// column that shows one is at least as wide as `NULL`, so that the
/// columns after it stay aligned.
pub open spec fn column_width(name: Seq<char>, column: ColumnView, texts: Seq<Seq<char>>, rows: nat) -> nat {
    let present = if column.kind == ColumnType::Boolean {
        5
    } else {
        widest_present(column, texts, rows)
    };
    let longest = if name.len() > present {
        name.len()
    } else {
        present
    };
    if shows_null(column, rows) && longest < 2 {
        4
    } else {
        longest + 2
    }
}

/// The first `n` names, each padded to the width of its column.
pub open spec fn header_line(names: Seq<Seq<char>>, widths: Seq<nat>, n: nat) -> Seq<char>
    decreases n,
{
    if n == 0 {
        Seq::empty()
    } else {
        header_line(names, widths, (n - 1) as nat) + padded(names[n - 1], widths[n - 1])
    }
}

/// The texts of one row in the first `n` columns, each padded to the width
/// of its column.
pub open spec fn row_line(grid: Seq<Seq<Seq<char>>>, widths: Seq<nat>, row: int, n: nat) -> Seq<char>
    decreases n,
{
    if n == 0 {
        Seq::empty()
    } else {
        row_line(grid, widths, row, (n - 1) as nat) + padded(grid[n - 1][row], widths[n - 1])
    }
}

/// The header line and a line break, then the first `rows` rows with a
/// line break between each two.
pub open spec fn grid_text(names: Seq<Seq<char>>, grid: Seq<Seq<Seq<char>>>, widths: Seq<nat>, rows: nat) -> Seq<
    char,
>
    decreases rows,
{
    if rows == 0 {
        header_line(names, widths, names.len()).push('\n')
    } else if rows == 1 {
        grid_text(names, grid, widths, 0) + row_line(grid, widths, 0, names.len())
    } else {
        grid_text(names, grid, widths, (rows - 1) as nat).push('\n') + row_line(
            grid,
            widths,
            rows - 1,
            names.len(),
        )
    }
}

/// The texts of a grid that is given column by column.
pub open spec fn grid_texts(grid: Seq<Vec<String>>) -> Seq<Seq<Seq<char>>> {
    Seq::new(grid.len(), |c: int| texts_of(grid[c]@))
}

/// A list of widths as numbers.
pub open spec fn width_numbers(widths: Seq<usize>) -> Seq<nat> {
    Seq::new(widths.len(), |c: int| widths[c] as nat)
}

/// The widths of the columns of a table whose cells are shown as `grid`.
pub open spec fn widths_of(t: TableView, grid: Seq<Seq<Seq<char>>>) -> Seq<nat> {
    Seq::new(t.columns.len(), |c: int| column_width(t.names[c], t.columns[c], grid[c], t.rows()))
}

/// Whether every width fits the machine's word.
pub open spec fn fits(widths: Seq<nat>) -> bool {
    forall|c: int| 0 <= c < widths.len() ==> #[trigger] widths[c] <= usize::MAX
}

/// A table laid out with its cells shown as `grid`, where every width
/// fits the machine's word.
pub open spec fn laid_out(t: TableView, grid: Seq<Seq<Seq<char>>>) -> Option<Seq<char>> {
    if fits(widths_of(t, grid)) {
        Some(grid_text(t.names, grid, widths_of(t, grid), t.rows()))
    } else {
        None
    }
}

/// Whether a grid holds the texts of the cells of a table, column by
/// column: of every cell that is not a float the text under which it is
/// shown.
pub open spec fn shows(t: TableView, grid: Seq<Seq<Seq<char>>>) -> bool {
    &&& grid.len() == t.columns.len()
    &&& forall|c: int| 0 <= c < grid.len() ==> (#[trigger] grid[c]).len() == t.rows()
    &&& forall|c: int, i: int|
        0 <= c < grid.len() && 0 <= i < t.rows() && !(cell_at(t.columns[c], i as nat) is Float)
            ==> #[trigger] grid[c][i] == shown(cell_at(t.columns[c], i as nat))
}

/// The texts of the cells of a table, column by column.
pub open spec fn shown_grid(t: TableView) -> Seq<Seq<Seq<char>>> {
    Seq::new(t.columns.len(), |c: int| Seq::new(t.rows(), |i: int| shown(cell_at(t.columns[c], i as nat))))
}

/// A table without floats has one grid of texts.
pub proof fn lemma_one_grid(t: TableView, grid: Seq<Seq<Seq<char>>>)
    requires
        shows(t, grid),
        forall|c: int, i: int|
            0 <= c < t.columns.len() && 0 <= i < t.columns[c].cells.len() ==> !(#[trigger] t.columns[c].cells[i] is Float),
    ensures
        grid == shown_grid(t),
{
    assert forall|c: int| 0 <= c < grid.len() implies grid[c] == shown_grid(t)[c] by {
        assert(grid[c].len() == t.rows());
        assert forall|i: int| 0 <= i < t.rows() implies grid[c][i] == shown_grid(t)[c][i] by {
            if i < t.columns[c].cells.len() {
                assert(!(t.columns[c].cells[i] is Float));
            }
            assert(!(cell_at(t.columns[c], i as nat) is Float));
        }
        assert(grid[c] =~= shown_grid(t)[c]);
    }
    assert(grid =~= shown_grid(t));
}

/// Whether row `idx` of a column is shown as a null.
fn null_at(column: &Column, idx: usize) -> (r: bool)
    ensures
        r == (cell_at(column@, idx as nat) is Null),
{
    if idx >= column.len() {
        return true;
    }
    match column {
        Column::Booleans(v) => v[idx].is_none(),
        Column::Ints(v) => v[idx].is_none(),
        Column::Dates(v) => v[idx].is_none(),
        Column::Floats(v) => v[idx].is_none(),
        Column::Strings(v) => v[idx].is_none(),
    }
}

/// The width of a column whose `rows` rows are shown as `texts`, where it
/// fits the machine's word.
pub fn find_column_width(name: &str, column: &Column, texts: &Vec<String>, rows: usize) -> (r: Option<usize>)
    requires
        texts@.len() == rows,
    ensures
        match r {
            Some(width) => width == column_width(name@, column@, texts_of(texts@), rows as nat),
            None => column_width(name@, column@, texts_of(texts@), rows as nat) > usize::MAX,
        },
{
    let mut widest: usize = 0;
    let mut null: bool = false;
    let mut i: usize = 0;
    while i < rows
        invariant
            i <= rows,
            texts@.len() == rows,
            widest == widest_present(column@, texts_of(texts@), i as nat),
            null == shows_null(column@, i as nat),
        decreases rows - i,
    {
        if null_at(column, i) {
            null = true;
        } else {
            let length: usize = texts[i].as_str().unicode_len();
            if length > widest {
                widest = length;
            }
        }
        i = i + 1;
    }
    let present: usize = match column.type_() {
        ColumnType::Boolean => 5,
        _ => widest,
    };
    let name_width: usize = name.unicode_len();
    let longest: usize = if name_width > present {
        name_width
    } else {
        present
    };
    if null && longest < 2 {
        Some(4)
    } else if longest > usize::MAX - 2 {
        None
    } else {
        Some(longest + 2)
    }
}

/// Writes one entry of the grid: the text, then spaces up to the width of
/// its column.
fn write_entry(out: &mut String, text: &str, width: usize)
    ensures
        final(out)@ == old(out)@ + padded(text@, width as nat),
{
    push_text(out, text);
    let mut written: usize = text.unicode_len();
    let ghost start = out@;
    while written < width
        invariant
            written <= width || written == text@.len(),
            text@.len() <= written,
            out@ == start + spaces((written - text@.len()) as nat),
        decreases width - written,
    {
        out.push(' ');
        assert(out@ =~= start + spaces((written + 1 - text@.len()) as nat));
        written = written + 1;
    }
    assert(out@ =~= old(out)@ + padded(text@, width as nat));
}

/// Lays out a grid of texts, given column by column, under the names of
/// its columns and in columns of the given widths. Every column must have
/// `rows` texts.
pub fn render_grid(names: &Vec<String>, grid: &Vec<Vec<String>>, widths: &Vec<usize>, rows: usize) -> (out: String)
    requires
        names@.len() == grid@.len(),
        names@.len() == widths@.len(),
        forall|c: int| 0 <= c < grid@.len() ==> (#[trigger] grid@[c])@.len() == rows,
    ensures
        out@ == grid_text(texts_of(names@), grid_texts(grid@), width_numbers(widths@), rows as nat),
{
    let ghost titles = texts_of(names@);
    let ghost cells = grid_texts(grid@);
    let ghost wide = width_numbers(widths@);
    let mut out = String::new();
    let mut num: usize = 0;
    while num < names.len()
        invariant
            num <= names@.len(),
            names@.len() == widths@.len(),
            titles == texts_of(names@),
            wide == width_numbers(widths@),
            out@ == header_line(titles, wide, num as nat),
        decreases names@.len() - num,
    {
        write_entry(&mut out, names[num].as_str(), widths[num]);
        num = num + 1;
    }
    out.push('\n');
    let mut i: usize = 0;
    while i < rows
        invariant
            i <= rows,
            names@.len() == grid@.len(),
            names@.len() == widths@.len(),
            titles == texts_of(names@),
            cells == grid_texts(grid@),
            wide == width_numbers(widths@),
            forall|k: int| 0 <= k < grid@.len() ==> (#[trigger] grid@[k])@.len() == rows,
            out@ == grid_text(titles, cells, wide, i as nat),
        decreases rows - i,
    {
        if i > 0 {
            out.push('\n');
        }
        let ghost start = out@;
        let mut num: usize = 0;
        while num < names.len()
            invariant
                num <= names@.len(),
                i < rows,
                names@.len() == grid@.len(),
                names@.len() == widths@.len(),
                cells == grid_texts(grid@),
                wide == width_numbers(widths@),
                forall|k: int| 0 <= k < grid@.len() ==> (#[trigger] grid@[k])@.len() == rows,
                out@ == start + row_line(cells, wide, i as int, num as nat),
            decreases names@.len() - num,
        {
            assert(grid@[num as int]@.len() == rows);
            write_entry(&mut out, grid[num][i].as_str(), widths[num]);
            assert(cells[num as int][i as int] == grid@[num as int]@[i as int]@);
            assert(out@ =~= start + row_line(cells, wide, i as int, (num + 1) as nat));
            num = num + 1;
        }
        assert(out@ =~= grid_text(titles, cells, wide, (i + 1) as nat));
        i = i + 1;
    }
    out
}

impl Column {
    /// The text under which row `idx` is shown; past the end, the text of
    /// a null. A float is shown as `floats` formats it.
    pub fn show<F: FloatMath + ?Sized>(&self, idx: usize, floats: &F) -> (r: String)
        ensures
            !(cell_at(self@, idx as nat) is Float) ==> r@ == shown(cell_at(self@, idx as nat)),
    {
        let mut r = String::new();
        if idx >= self.len() {
            push_text(&mut r, "NULL");
            return r;
        }
        match self {
            Column::Dates(v) => match v[idx] {
                Some(d) => match show_date(d) {
                    Some(text) => {
                        return text;
                    },
                    None => push_signed_decimal(&mut r, d),
                },
                None => push_text(&mut r, "NULL"),
            },
            _ => self.as_writable(idx, &mut r, "NULL", floats),
        }
        r
    }
}

impl Table {
    /// The texts of the cells, column by column, with as many texts in
    /// every column as the table has rows.
    pub fn cell_texts<F: FloatMath + ?Sized>(&self, floats: &F) -> (grid: Vec<Vec<String>>)
        ensures
            grid@.len() == self@.columns.len(),
            forall|c: int| 0 <= c < grid@.len() ==> (#[trigger] grid@[c])@.len() == self@.rows(),
            forall|c: int, r: int|
                0 <= c < grid@.len() && 0 <= r < self@.rows() && !(cell_at(self@.columns[c], r as nat) is Float)
                    ==> (#[trigger] grid@[c]@[r])@ == shown(cell_at(self@.columns[c], r as nat)),
            shows(self@, grid_texts(grid@)),
    {
        let rows: usize = self.len();
        let mut grid: Vec<Vec<String>> = Vec::new();
        let mut c: usize = 0;
        while c < self.columns.len()
            invariant
                c <= self.columns@.len(),
                rows == self@.rows(),
                grid@.len() == c,
                forall|k: int| 0 <= k < c ==> (#[trigger] grid@[k])@.len() == rows,
                forall|k: int, r: int|
                    0 <= k < c && 0 <= r < rows && !(cell_at(self@.columns[k], r as nat) is Float) ==> (
                    #[trigger] grid@[k]@[r])@ == shown(cell_at(self@.columns[k], r as nat)),
            decreases self.columns@.len() - c,
        {
            let mut texts: Vec<String> = Vec::new();
            let mut r: usize = 0;
            while r < rows
                invariant
                    r <= rows,
                    c < self.columns@.len(),
                    texts@.len() == r,
                    forall|j: int|
                        0 <= j < r && !(cell_at(self@.columns[c as int], j as nat) is Float) ==> (
                        #[trigger] texts@[j])@ == shown(cell_at(self@.columns[c as int], j as nat)),
                decreases rows - r,
            {
                texts.push(self.columns[c].show(r, floats));
                r = r + 1;
            }
            grid.push(texts);
            c = c + 1;
        }
        proof {
            let cells = grid_texts(grid@);
            assert forall|k: int, i: int|
                0 <= k < cells.len() && 0 <= i < self@.rows() && !(cell_at(self@.columns[k], i as nat) is Float) implies #[trigger] cells[k][i]
                == shown(cell_at(self@.columns[k], i as nat)) by {
                assert(cells[k][i] == grid@[k]@[i]@);
            }
        }
        grid
    }

    /// The table as aligned text: the names of the columns, then one line
    /// for each row, every entry padded with spaces to the width of its
    /// column. `None` for a table so wide in characters that the width of
    /// a column does not fit the machine's word. The text of a float is
    /// what `floats` makes of it.
    pub fn to_string<F: FloatMath + ?Sized>(&self, floats: &F) -> (r: Option<String>)
        requires
            self@.wf(),
        ensures
            exists|grid: Seq<Seq<Seq<char>>>| #[trigger] shows(self@, grid) && text_view(r) == laid_out(self@, grid),
            !has_floats(self@) ==> text_view(r) == laid_out(self@, shown_grid(self@)),
    {
        let grid = self.cell_texts(floats);
        let rows: usize = self.len();
        let ghost cells = grid_texts(grid@);
        let ghost titles = texts_of(self.column_names@);
        assert(titles =~= self@.names);
        assert(shows(self@, cells));
        proof {
            if !has_floats(self@) {
                assert forall|c: int, i: int|
                    0 <= c < self@.columns.len() && 0 <= i < self@.columns[c].cells.len() implies !(
                #[trigger] self@.columns[c].cells[i] is Float) by {
                    assert(self@.columns[c].kind != ColumnType::Float);
                    self.columns@[c].lemma_cells_fit();
                }
                lemma_one_grid(self@, cells);
            }
        }
        let mut widths: Vec<usize> = Vec::new();
        let mut c: usize = 0;
        while c < grid.len()
            invariant
                c <= grid@.len(),
                widths@.len() == c,
                rows == self@.rows(),
                grid@.len() == self.column_names@.len(),
                grid@.len() == self.columns@.len(),
                forall|k: int| 0 <= k < grid@.len() ==> (#[trigger] grid@[k])@.len() == rows,
                cells == grid_texts(grid@),
                titles == texts_of(self.column_names@),
                titles == self@.names,
                shows(self@, cells),
                !has_floats(self@) ==> cells == shown_grid(self@),
                forall|k: int| 0 <= k < c ==> (#[trigger] widths@[k]) as nat == widths_of(self@, cells)[k],
            decreases grid@.len() - c,
        {
            match find_column_width(self.column_names[c].as_str(), &*self.columns[c], &grid[c], rows) {
                Some(width) => {
                    assert(width == widths_of(self@, cells)[c as int]);
                    widths.push(width);
                },
                None => {
                    assert(widths_of(self@, cells)[c as int] > usize::MAX);
                    assert(!fits(widths_of(self@, cells)));
                    return None;
                },
            }
            c = c + 1;
        }
        assert(width_numbers(widths@) =~= widths_of(self@, cells));
        let text = render_grid(&self.column_names, &grid, &widths, rows);
        Some(text)
    }
}

/// The text of an optional string.
pub open spec fn text_view(r: Option<String>) -> Option<Seq<char>> {
    match r {
        Some(text) => Some(text@),
        None => None,
    }
}

} // verus!
