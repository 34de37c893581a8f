//! Operations on one column. Each returns a new column and leaves its
//! arguments as they were.

use vstd::prelude::*;
use std::cmp::Ordering;
use crate::floats::{Float, FloatMath, float_order};
use crate::order::{
    Order, bool_order, int_order, lemma_text_order_equal, lemma_text_order_reversed,
    lemma_text_order_transitive, order_bools, order_chars, order_ints, ordering_of, text_order,
    to_ordering,
};
use crate::result::{ErrorType, SqlError, SqlResult};
use crate::table::{Cell, Column, ColumnType};
use crate::text::{chars_of, push_signed_decimal, push_text, signed_decimal};

verus! {

/// The cells at the given positions, in the order of the positions.
pub open spec fn gathered(cells: Seq<Cell>, positions: Seq<usize>) -> Seq<Cell> {
    Seq::new(positions.len(), |k: int| cells[positions[k] as int])
}

/// The cells at the given positions; a null where no position is given.
pub open spec fn gathered_or_null(cells: Seq<Cell>, positions: Seq<Option<usize>>) -> Seq<Cell> {
    Seq::new(
        positions.len(),
        |k: int|
            match positions[k] {
                Some(p) => cells[p as int],
                None => Cell::Null,
            },
    )
}

/// The positions below `n` at which the mask holds `true`, ascending.
pub open spec fn selected(mask: Seq<Option<bool>>, n: nat) -> Seq<usize>
    decreases n,
{
    if n == 0 {
        Seq::empty()
    } else if mask[n - 1] == Some(true) {
        selected(mask, (n - 1) as nat).push((n - 1) as usize)
    } else {
        selected(mask, (n - 1) as nat)
    }
}

/// The positions that are selected are below `n`.
pub proof fn lemma_selected_bound(mask: Seq<Option<bool>>, n: nat)
    ensures
        forall|k: int| 0 <= k < selected(mask, n).len() ==> (#[trigger] selected(mask, n)[k]) < n,
    decreases n,
{
    if n > 0 {
        lemma_selected_bound(mask, (n - 1) as nat);
        let rest = selected(mask, (n - 1) as nat);
        let all = selected(mask, n);
        assert forall|k: int| 0 <= k < all.len() implies (#[trigger] all[k]) < n by {
            if k < rest.len() {
                assert(all[k] == rest[k]);
            }
        }
    }
}

/// The smaller of two lengths.
pub open spec fn shorter(a: nat, b: nat) -> nat {
    if a <= b {
        a
    } else {
        b
    }
}

/// Row `k` of a column reordered by `order`: the cell that `order[k]` names,
/// or the first cell where `order` has no valid entry for `k`.
pub open spec fn reordered_cell(cells: Seq<Cell>, order: Seq<usize>, k: int) -> Cell {
    if k < order.len() && order[k] < cells.len() {
        cells[order[k] as int]
    } else {
        cells[0]
    }
}

/// A column reordered by `order`; it keeps its length.
pub open spec fn reordered(cells: Seq<Cell>, order: Seq<usize>) -> Seq<Cell> {
    Seq::new(cells.len(), |k: int| reordered_cell(cells, order, k))
}

/// The order of two cells when rows are sorted: a null is equal to every
/// cell, so that a null keeps its place among its neighbours; values go by
/// the order of their type. Cells of different types are not ordered.
pub open spec fn cell_order(a: Cell, b: Cell) -> Order {
    match (a, b) {
        (Cell::Null, _) => Order::Equal,
        (_, Cell::Null) => Order::Equal,
        (Cell::Boolean(x), Cell::Boolean(y)) => bool_order(x, y),
        (Cell::Int(x), Cell::Int(y)) => int_order(x as int, y as int),
        (Cell::Date(x), Cell::Date(y)) => int_order(x as int, y as int),
        (Cell::Float(x), Cell::Float(y)) => float_order(x, y),
        (Cell::Text(x), Cell::Text(y)) => text_order(x, y),
        _ => Order::Equal,
    }
}

/// Seen from the other side, the order of two cells is reversed.
pub proof fn lemma_cell_order_reversed(a: Cell, b: Cell)
    ensures
        cell_order(b, a) == cell_order(a, b).reversed(),
{
    match (a, b) {
        (Cell::Text(x), Cell::Text(y)) => {
            lemma_text_order_reversed(x, y);
        },
        _ => {},
    }
}

/// Among the cells of one column, a cell that is less than a cell that is
/// less than a third is less than the third.
pub proof fn lemma_cell_order_transitive(a: Cell, b: Cell, c: Cell, kind: ColumnType)
    requires
        crate::table::cell_fits(a, kind),
        crate::table::cell_fits(b, kind),
        crate::table::cell_fits(c, kind),
        cell_order(a, b) == Order::Less,
        cell_order(b, c) == Order::Less,
    ensures
        cell_order(a, c) == Order::Less,
{
    match (a, b, c) {
        (Cell::Text(x), Cell::Text(y), Cell::Text(z)) => {
            lemma_text_order_transitive(x, y, z);
        },
        _ => {},
    }
}

/// Among the values of one column, a cell that does not come after a cell
/// that does not come after a third does not come after the third.
pub proof fn lemma_cell_order_chain(a: Cell, b: Cell, c: Cell, kind: ColumnType)
    requires
        crate::table::cell_fits(a, kind),
        crate::table::cell_fits(b, kind),
        crate::table::cell_fits(c, kind),
        !(a is Null),
        !(b is Null),
        !(c is Null),
        cell_order(a, b) != Order::Greater,
        cell_order(b, c) != Order::Greater,
    ensures
        cell_order(a, c) != Order::Greater,
        cell_order(a, c) == Order::Equal ==> cell_order(a, b) == Order::Equal && cell_order(b, c) == Order::Equal,
{
    match (a, b, c) {
        (Cell::Text(x), Cell::Text(y), Cell::Text(z)) => {
            lemma_text_order_equal(x, y);
            lemma_text_order_equal(y, z);
            lemma_text_order_equal(x, z);
            lemma_text_order_reversed(x, y);
            if text_order(x, y) == Order::Less && text_order(y, z) == Order::Less {
                lemma_text_order_transitive(x, y, z);
            }
        },
        _ => {},
    }
}

/// A value is equal to itself in the order of rows.
pub proof fn lemma_cell_order_same(a: Cell)
    ensures
        cell_order(a, a) == Order::Equal,
{
    match a {
        Cell::Text(x) => {
            lemma_text_order_equal(x, x);
        },
        _ => {},
    }
}

/// The text of a cell that is not a float, as it is written to a file: a
/// boolean as `true` or `false`, an integer or a date as a decimal number, a
/// text as it is.
pub open spec fn plain_cell_text(cell: Cell, null: Seq<char>) -> Seq<char> {
    match cell {
        Cell::Null => null,
        Cell::Boolean(b) => if b {
            "true"@
        } else {
            "false"@
        },
        Cell::Int(i) => signed_decimal(i as int),
        Cell::Date(d) => signed_decimal(d as int),
        Cell::Text(s) => s,
        Cell::Float(_) => Seq::empty(),
    }
}

fn gather_values<T: Copy>(values: &Vec<Option<T>>, positions: &Vec<usize>) -> (r: Vec<Option<T>>)
    requires
        forall|k: int| 0 <= k < positions.len() ==> positions[k] < values.len(),
    ensures
        r.len() == positions.len(),
        forall|k: int| 0 <= k < positions.len() ==> r[k] == values[positions[k] as int],
{
    let mut r: Vec<Option<T>> = Vec::new();
    let mut k: usize = 0;
    while k < positions.len()
        invariant
            k <= positions.len(),
            r.len() == k,
            forall|j: int| 0 <= j < positions.len() ==> positions[j] < values.len(),
            forall|j: int| 0 <= j < k ==> r[j] == values[positions[j] as int],
        decreases positions.len() - k,
    {
        r.push(values[positions[k]]);
        k = k + 1;
    }
    r
}

fn gather_texts(values: &Vec<Option<String>>, positions: &Vec<usize>) -> (r: Vec<Option<String>>)
    requires
        forall|k: int| 0 <= k < positions.len() ==> positions[k] < values.len(),
    ensures
        r.len() == positions.len(),
        forall|k: int| 0 <= k < positions.len() ==> r[k] == values[positions[k] as int],
{
    let mut r: Vec<Option<String>> = Vec::new();
    let mut k: usize = 0;
    while k < positions.len()
        invariant
            k <= positions.len(),
            r.len() == k,
            forall|j: int| 0 <= j < positions.len() ==> positions[j] < values.len(),
            forall|j: int| 0 <= j < k ==> r[j] == values[positions[j] as int],
        decreases positions.len() - k,
    {
        let copy: Option<String> = match &values[positions[k]] {
            Some(s) => Some(s.clone()),
            None => None,
        };
        r.push(copy);
        k = k + 1;
    }
    r
}

/// The positions `0, 1, .., n - 1`.
pub fn first_positions(n: usize) -> (r: Vec<usize>)
    ensures
        r.len() == n,
        forall|k: int| 0 <= k < n ==> r[k] == k,
{
    let mut r: Vec<usize> = Vec::new();
    let mut k: usize = 0;
    while k < n
        invariant
            k <= n,
            r.len() == k,
            forall|j: int| 0 <= j < k ==> r[j] == j,
        decreases n - k,
    {
        r.push(k);
        k = k + 1;
    }
    r
}

/// The positions below `n` at which the mask holds `true`.
pub fn selected_positions(mask: &Vec<Option<bool>>, n: usize) -> (r: Vec<usize>)
    requires
        n <= mask.len(),
    ensures
        r@ == selected(mask@, n as nat),
        forall|k: int| 0 <= k < r.len() ==> r[k] < n,
{
    let mut r: Vec<usize> = Vec::new();
    let mut i: usize = 0;
    while i < n
        invariant
            i <= n <= mask.len(),
            r@ == selected(mask@, i as nat),
            forall|k: int| 0 <= k < r.len() ==> r[k] < i,
        decreases n - i,
    {
        match mask[i] {
            Some(true) => {
                r.push(i);
            },
            _ => {},
        }
        i = i + 1;
    }
    r
}

fn mismatch() -> (e: SqlError)
    ensures
        e.type_ == ErrorType::Type,
{
    SqlError::new("cannot extend column with mismatched type", ErrorType::Type)
}

impl Clone for Column {
    fn clone(&self) -> (r: Self)
        ensures
            r.kind() == self.kind(),
            r.cells() == self.cells(),
    {
        let positions = first_positions(self.len());
        let r = self.gather(&positions);
        assert(r.cells() =~= self.cells());
        r
    }
}

impl Column {
    /// The number of entries, nulls included.
    pub fn len(&self) -> (n: usize)
        ensures
            n == self.cells().len(),
    {
        match self {
            Column::Booleans(v) => v.len(),
            Column::Dates(v) => v.len(),
            Column::Floats(v) => v.len(),
            Column::Ints(v) => v.len(),
            Column::Strings(v) => v.len(),
        }
    }

    pub fn type_(&self) -> (t: ColumnType)
        ensures
            t == self.kind(),
    {
        match self {
            Column::Booleans(_) => ColumnType::Boolean,
            Column::Ints(_) => ColumnType::Int,
            Column::Floats(_) => ColumnType::Float,
            Column::Dates(_) => ColumnType::Date,
            Column::Strings(_) => ColumnType::String,
        }
    }

    /// A new empty column of the same type.
    pub fn new_empty(&self) -> (r: Self)
        ensures
            r.kind() == self.kind(),
            r.cells() == Seq::<Cell>::empty(),
    {
        let r = match self {
            Column::Booleans(_) => Column::Booleans(Vec::new()),
            Column::Dates(_) => Column::Dates(Vec::new()),
            Column::Floats(_) => Column::Floats(Vec::new()),
            Column::Ints(_) => Column::Ints(Vec::new()),
            Column::Strings(_) => Column::Strings(Vec::new()),
        };
        assert(r.cells() =~= Seq::<Cell>::empty());
        r
    }

    /// Appends one null entry.
    pub fn push_null(&mut self)
        ensures
            final(self).kind() == old(self).kind(),
            final(self).cells() == old(self).cells().push(Cell::Null),
    {
        match self {
            Column::Booleans(v) => {
                v.push(None);
            },
            Column::Dates(v) => {
                v.push(None);
            },
            Column::Floats(v) => {
                v.push(None);
            },
            Column::Ints(v) => {
                v.push(None);
            },
            Column::Strings(v) => {
                v.push(None);
            },
        }
        assert(self.cells() =~= old(self).cells().push(Cell::Null));
    }

    /// The entries at `positions`, as a new column of the same type.
    pub fn gather(&self, positions: &Vec<usize>) -> (r: Self)
        requires
            forall|k: int| 0 <= k < positions.len() ==> positions[k] < self.cells().len(),
        ensures
            r.kind() == self.kind(),
            r.cells() == gathered(self.cells(), positions@),
    {
        let r = match self {
            Column::Booleans(v) => Column::Booleans(gather_values(v, positions)),
            Column::Dates(v) => Column::Dates(gather_values(v, positions)),
            Column::Floats(v) => Column::Floats(gather_values(v, positions)),
            Column::Ints(v) => Column::Ints(gather_values(v, positions)),
            Column::Strings(v) => Column::Strings(gather_texts(v, positions)),
        };
        assert(r.cells() =~= gathered(self.cells(), positions@));
        r
    }

    /// The entries at `positions`, with a null where no position is given.
    pub fn gather_or_null(&self, positions: &Vec<Option<usize>>) -> (r: Self)
        requires
            forall|k: int|
                0 <= k < positions.len() ==> (#[trigger] positions[k] matches Some(p) ==> p
                    < self.cells().len()),
        ensures
            r.kind() == self.kind(),
            r.cells() == gathered_or_null(self.cells(), positions@),
    {
        let mut r = self.new_empty();
        let mut k: usize = 0;
        while k < positions.len()
            invariant
                k <= positions.len(),
                r.kind() == self.kind(),
                r.cells() == gathered_or_null(self.cells(), positions@.take(k as int)),
                forall|j: int|
                    0 <= j < positions.len() ==> (#[trigger] positions[j] matches Some(p) ==> p
                        < self.cells().len()),
            decreases positions.len() - k,
        {
            proof {
                self.lemma_cells_fit();
            }
            match positions[k] {
                Some(p) => {
                    let value = self.value(p);
                    r.push_value(value);
                },
                None => {
                    r.push_null();
                },
            }
            assert(r.cells() =~= gathered_or_null(self.cells(), positions@.take(k + 1)));
            k = k + 1;
        }
        assert(positions@.take(positions@.len() as int) =~= positions@);
        r
    }

    /// Appends the entries of `other`, which must be of the same type;
    /// otherwise nothing changes and a `Type` error is returned.
    pub fn extend(&mut self, other: &Self) -> (r: SqlResult<()>)
        ensures
            final(self).kind() == old(self).kind(),
            old(self).kind() == other.kind() ==> r is Ok && final(self).cells() == old(
                self,
            ).cells() + other.cells(),
            old(self).kind() != other.kind() ==> r is Err && r->Err_0.type_ == ErrorType::Type
                && final(self).cells() == old(self).cells(),
    {
        let positions = first_positions(other.len());
        let copy = other.gather(&positions);
        assert(copy.cells() =~= other.cells());
        let ghost before = self.cells();
        match self {
            Column::Booleans(v1) => match copy {
                Column::Booleans(mut v2) => {
                    let ghost added = v2@;
                    v1.append(&mut v2);
                    assert(self.cells() =~= before + Seq::new(
                        added.len(),
                        |i: int| crate::table::bool_cell(added[i]),
                    ));
                },
                _ => {
                    return Err(mismatch());
                },
            },
            Column::Dates(v1) => match copy {
                Column::Dates(mut v2) => {
                    let ghost added = v2@;
                    v1.append(&mut v2);
                    assert(self.cells() =~= before + Seq::new(
                        added.len(),
                        |i: int| crate::table::date_cell(added[i]),
                    ));
                },
                _ => {
                    return Err(mismatch());
                },
            },
            Column::Floats(v1) => match copy {
                Column::Floats(mut v2) => {
                    let ghost added = v2@;
                    v1.append(&mut v2);
                    assert(self.cells() =~= before + Seq::new(
                        added.len(),
                        |i: int| crate::table::float_cell(added[i]),
                    ));
                },
                _ => {
                    return Err(mismatch());
                },
            },
            Column::Ints(v1) => match copy {
                Column::Ints(mut v2) => {
                    let ghost added = v2@;
                    v1.append(&mut v2);
                    assert(self.cells() =~= before + Seq::new(
                        added.len(),
                        |i: int| crate::table::int_cell(added[i]),
                    ));
                },
                _ => {
                    return Err(mismatch());
                },
            },
            Column::Strings(v1) => match copy {
                Column::Strings(mut v2) => {
                    let ghost added = v2@;
                    v1.append(&mut v2);
                    assert(self.cells() =~= before + Seq::new(
                        added.len(),
                        |i: int| crate::table::text_cell(added[i]),
                    ));
                },
                _ => {
                    return Err(mismatch());
                },
            },
        }
        assert(self.cells() =~= old(self).cells() + other.cells());
        Ok(())
    }

    /// A new column made of the entries of `self`, then those of `other`.
    pub fn concat(&self, other: &Self) -> (r: SqlResult<Self>)
        ensures
            self.kind() == other.kind() ==> r is Ok && r->Ok_0.kind() == self.kind()
                && r->Ok_0.cells() == self.cells() + other.cells(),
            self.kind() != other.kind() ==> r is Err && r->Err_0.type_ == ErrorType::Type,
    {
        let mut my_clone = self.clone();
        match my_clone.extend(other) {
            Ok(_) => Ok(my_clone),
            Err(e) => Err(e),
        }
    }

    /// The first `size` entries, or all of them where there are fewer.
    pub fn limit(&self, size: usize) -> (r: Self)
        ensures
            r.kind() == self.kind(),
            r.cells() == self.cells().take(shorter(size as nat, self.cells().len()) as int),
    {
        let n: usize = if size <= self.len() {
            size
        } else {
            self.len()
        };
        let positions = first_positions(n);
        let r = self.gather(&positions);
        assert(r.cells() =~= self.cells().take(n as int));
        r
    }

    /// The one-entry column of row `idx`. Past the end it is the first row,
    /// and of an empty column it is empty.
    pub fn row(&self, idx: usize) -> (r: Self)
        ensures
            r.kind() == self.kind(),
            idx < self.cells().len() ==> r.cells() == seq![self.cells()[idx as int]],
            idx >= self.cells().len() && self.cells().len() > 0 ==> r.cells() == seq![
                self.cells()[0],
            ],
            self.cells().len() == 0 ==> r.cells() == Seq::<Cell>::empty(),
    {
        let mut positions: Vec<usize> = Vec::new();
        if idx < self.len() {
            positions.push(idx);
        } else if self.len() > 0 {
            positions.push(0);
        }
        let r = self.gather(&positions);
        if idx < self.len() {
            assert(r.cells() =~= seq![self.cells()[idx as int]]);
        } else if self.len() > 0 {
            assert(r.cells() =~= seq![self.cells()[0]]);
        } else {
            assert(r.cells() =~= Seq::<Cell>::empty());
        }
        r
    }

    /// The entries at which `selections` holds `true`, in order. Entries
    /// past the end of the shorter of the two are left out.
    pub fn select(&self, selections: &Vec<Option<bool>>) -> (r: Self)
        ensures
            r.kind() == self.kind(),
            r.cells() == gathered(
                self.cells(),
                selected(selections@, shorter(self.cells().len(), selections@.len())),
            ),
    {
        let n: usize = if self.len() <= selections.len() {
            self.len()
        } else {
            selections.len()
        };
        let positions = selected_positions(selections, n);
        self.gather(&positions)
    }

    /// The column with row `k` taken from row `sort_order[k]`.
    pub fn order(&self, sort_order: &Vec<usize>) -> (r: Self)
        ensures
            r.kind() == self.kind(),
            r.cells() == reordered(self.cells(), sort_order@),
    {
        let n: usize = self.len();
        let mut positions: Vec<usize> = Vec::new();
        let mut k: usize = 0;
        while k < n
            invariant
                k <= n,
                n == self.cells().len(),
                positions.len() == k,
                forall|j: int| 0 <= j < k ==> positions[j] < n,
                forall|j: int|
                    0 <= j < k ==> self.cells()[positions[j] as int] == reordered_cell(
                        self.cells(),
                        sort_order@,
                        j,
                    ),
            decreases n - k,
        {
            if k < sort_order.len() && sort_order[k] < n {
                positions.push(sort_order[k]);
            } else {
                positions.push(0);
            }
            k = k + 1;
        }
        let r = self.gather(&positions);
        assert(r.cells() =~= reordered(self.cells(), sort_order@));
        r
    }

    /// How row `i1` stands to row `i2` when rows are sorted; rows past the
    /// end are equal to every row.
    pub open spec fn rows_order(&self, i1: usize, i2: usize) -> Order {
        if i1 < self.cells().len() && i2 < self.cells().len() {
            cell_order(self.cells()[i1 as int], self.cells()[i2 as int])
        } else {
            Order::Equal
        }
    }

    /// How row `i1` stands to row `i2` when rows are sorted, as a standard
    /// ordering.
    pub fn elem_order(&self, i1: usize, i2: usize) -> (r: Ordering)
        ensures
            r == ordering_of(self.rows_order(i1, i2)),
    {
        to_ordering(self.row_order(i1, i2))
    }

    /// How row `i1` stands to row `i2` when rows are sorted. A null is
    /// equal to every row, and so are rows past the end.
    pub fn row_order(&self, i1: usize, i2: usize) -> (r: Order)
        ensures
            r == self.rows_order(i1, i2),
    {
        if i1 >= self.len() || i2 >= self.len() {
            return Order::Equal;
        }
        match self {
            Column::Booleans(v) => match (v[i1], v[i2]) {
                (None, _) => Order::Equal,
                (_, None) => Order::Equal,
                (Some(a), Some(b)) => order_bools(a, b),
            },
            Column::Ints(v) => match (v[i1], v[i2]) {
                (None, _) => Order::Equal,
                (_, None) => Order::Equal,
                (Some(a), Some(b)) => order_ints(a, b),
            },
            Column::Dates(v) => match (v[i1], v[i2]) {
                (None, _) => Order::Equal,
                (_, None) => Order::Equal,
                (Some(a), Some(b)) => order_ints(a, b),
            },
            Column::Floats(v) => match (v[i1], v[i2]) {
                (None, _) => Order::Equal,
                (_, None) => Order::Equal,
                (Some(a), Some(b)) => a.order(&b),
            },
            Column::Strings(v) => match (&v[i1], &v[i2]) {
                (None, _) => Order::Equal,
                (_, None) => Order::Equal,
                (Some(a), Some(b)) => {
                    let x = chars_of(a.as_str());
                    let y = chars_of(b.as_str());
                    order_chars(&x, &y)
                },
            },
        }
    }

    /// Appends to `writer` the text of row `idx`, or `null` for a null
    /// entry. A float is written as `floats` formats it. Past the end,
    /// nothing is written.
    pub fn as_writable<F: FloatMath + ?Sized>(
        &self,
        idx: usize,
        writer: &mut String,
        null: &str,
        floats: &F,
    )
        ensures
            idx >= self.cells().len() ==> final(writer)@ == old(writer)@,
            idx < self.cells().len() && !(self.cells()[idx as int] is Float) ==> final(writer)@
                == old(writer)@ + plain_cell_text(self.cells()[idx as int], null@),
            idx < self.cells().len() && self.cells()[idx as int] is Float ==> old(
                writer,
            )@.is_prefix_of(final(writer)@),
    {
        if idx >= self.len() {
            return ;
        }
        match self {
            Column::Booleans(v) => match v[idx] {
                Some(true) => push_text(writer, "true"),
                Some(false) => push_text(writer, "false"),
                None => push_text(writer, null),
            },
            Column::Ints(v) => match v[idx] {
                Some(i) => push_signed_decimal(writer, i),
                None => push_text(writer, null),
            },
            Column::Dates(v) => match v[idx] {
                Some(d) => push_signed_decimal(writer, d),
                None => push_text(writer, null),
            },
            Column::Strings(v) => match &v[idx] {
                Some(s) => push_text(writer, s.as_str()),
                None => push_text(writer, null),
            },
            Column::Floats(v) => match v[idx] {
                Some(f) => {
                    let shown = floats.format(f);
                    push_text(writer, shown.as_str());
                },
                None => push_text(writer, null),
            },
        }
    }
}

} // verus!
