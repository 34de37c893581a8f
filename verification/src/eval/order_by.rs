//! ORDER BY: the rows in the order of one or more columns.

use vstd::prelude::*;
use std::rc::Rc;
use crate::order::Order as Place;
use crate::order::to_ordering;
use crate::parser::ParserNode;
use crate::result::{ErrorType, SqlError, SqlResult};
use crate::table::impl_column::{
    cell_order, lemma_cell_order_chain, lemma_cell_order_reversed, lemma_cell_order_same,
    lemma_cell_order_transitive, reordered,
};
use crate::table::impl_table::RowsOp;
use crate::eval::meaning::{order_gives, order_reads, ordered_rows};
use crate::table::laws::{lemma_longest_of_equal, lemma_rows_keep_rectangular};
use crate::table::{Column, Table, TableView};

verus! {

/// One clause of an ORDER BY: a column and a direction.
pub struct Order {
    pub column: Rc<Column>,
    pub desc: bool,
}

/// How row `a` stands to row `b` in one column; rows past the end of the
/// column are equal to every row.
pub open spec fn column_order(column: Column, a: usize, b: usize) -> Place {
    if a < column.cells().len() && b < column.cells().len() {
        cell_order(column.cells()[a as int], column.cells()[b as int])
    } else {
        Place::Equal
    }
}

/// How row `a` stands to row `b` under the clauses from place `k` on: the
/// first clause whose column does not hold them equal decides, and a
/// descending clause compares them the other way round.
pub open spec fn rows_order(orders: Seq<Order>, k: nat, a: usize, b: usize) -> Place
    decreases orders.len() - k,
{
    if k >= orders.len() {
        Place::Equal
    } else {
        let here = if orders[k as int].desc {
            column_order(*orders[k as int].column, b, a)
        } else {
            column_order(*orders[k as int].column, a, b)
        };
        if here != Place::Equal {
            here
        } else {
            rows_order(orders, k + 1, a, b)
        }
    }
}

/// Whether `rows` is the rows `0..n` as a stable sort by `orders` leaves
/// them: every row once; a row stands before a row that came before it
/// only where it is less; and of two neighbours in their first order the
/// second is not less than the first.
pub open spec fn sorted_by(orders: Seq<Order>, n: nat, rows: Seq<usize>) -> bool {
    &&& rows.len() == n
    &&& forall|k: int| 0 <= k < n ==> (#[trigger] rows[k]) < n
    &&& forall|k: int, l: int| 0 <= k < l < n ==> rows[k] != rows[l]
    &&& forall|k: int, l: int|
        0 <= k < l < n && rows[k] > rows[l] ==> rows_order(orders, 0, rows[k], rows[l]) == Place::Less
    &&& forall|k: int|
        0 <= k < n - 1 && rows[k] < rows[k + 1] ==> rows_order(orders, 0, #[trigger] rows[k + 1], rows[k])
            != Place::Less
}

/// Calls `sort_by` of slices, the stable sort of the standard library,
/// with the order of the rows as its comparison. The rows come out in
/// ascending order, and rows that are equal keep their order: a row
/// stands before a row that came before it only where it is less, and of
/// two neighbours in their first order the second is not less than the
/// first. The comparison must be a total order, which it is where every
/// key has a value in every row.
#[verifier::external_body]
fn sort_stably(rows: &mut Vec<usize>, orders: &Vec<Order>)
    requires
        in_turn(old(rows)@),
        keys_known(orders@, old(rows)@.len()),
    ensures
        sorted_by(orders@, old(rows)@.len(), final(rows)@),
{
    rows.sort_by(|a, b| to_ordering(compare(orders, *a, *b)));
}

fn compare(orders: &Vec<Order>, a: usize, b: usize) -> (r: Place)
    ensures
        r == rows_order(orders@, 0, a, b),
{
    let mut k: usize = 0;
    while k < orders.len()
        invariant
            k <= orders@.len(),
            rows_order(orders@, 0, a, b) == rows_order(orders@, k as nat, a, b),
        decreases orders@.len() - k,
    {
        let here = if orders[k].desc {
            orders[k].column.row_order(b, a)
        } else {
            orders[k].column.row_order(a, b)
        };
        if here != Place::Equal {
            return here;
        }
        k = k + 1;
    }
    Place::Equal
}

/// Whether a column has a value, and no null, in each of the rows `0..n`.
pub open spec fn column_known(column: Column, n: nat) -> bool {
    n <= column.cells().len() && forall|i: int| 0 <= i < n ==> !(#[trigger] column.cells()[i] is Null)
}

/// Whether every key of `orders` has a value in each of the rows `0..n`.
/// The order of the rows is then a total order: no two rows are equal
/// but by their keys.
pub open spec fn keys_known(orders: Seq<Order>, n: nat) -> bool {
    forall|k: int| 0 <= k < orders.len() ==> column_known(*(#[trigger] orders[k]).column, n)
}

/// The rows `0..n` in their order.
pub open spec fn in_turn(rows: Seq<usize>) -> bool {
    forall|i: int| 0 <= i < rows.len() ==> #[trigger] rows[i] == i
}

/// Where every key has a value in every row, the order of the rows is a
/// total order: seen from the other side it is reversed, and a row that
/// does not come after a row that does not come after a third does not
/// come after the third, and is equal to it only where all three are
/// equal.
pub proof fn lemma_known_order_is_total(orders: Seq<Order>, n: nat, k: nat, a: usize, b: usize, c: usize)
    requires
        keys_known(orders, n),
        a < n,
        b < n,
        c < n,
    ensures
        rows_order(orders, k, b, a) == rows_order(orders, k, a, b).reversed(),
        rows_order(orders, k, a, a) == Place::Equal,
        rows_order(orders, k, a, b) != Place::Greater && rows_order(orders, k, b, c) != Place::Greater ==> {
            &&& rows_order(orders, k, a, c) != Place::Greater
            &&& rows_order(orders, k, a, c) == Place::Equal ==> rows_order(orders, k, a, b) == Place::Equal
                && rows_order(orders, k, b, c) == Place::Equal
        },
    decreases orders.len() - k,
{
    if k < orders.len() {
        let column = *orders[k as int].column;
        let cells = column.cells();
        assert(column_known(column, n));
        column.lemma_cells_fit();
        let x = cells[a as int];
        let y = cells[b as int];
        let z = cells[c as int];
        lemma_cell_order_reversed(x, y);
        lemma_cell_order_reversed(y, z);
        lemma_cell_order_reversed(x, z);
        lemma_cell_order_same(x);
        lemma_known_order_is_total(orders, n, k + 1, a, b, c);
        if orders[k as int].desc {
            if cell_order(z, y) != Place::Greater && cell_order(y, x) != Place::Greater {
                lemma_cell_order_chain(z, y, x, column.kind());
            }
        } else {
            if cell_order(x, y) != Place::Greater && cell_order(y, z) != Place::Greater {
                lemma_cell_order_chain(x, y, z, column.kind());
            }
        }
    }
}

fn holds_null(column: &Column, idx: usize) -> (r: bool)
    requires
        idx < column.cells().len(),
    ensures
        r == (column.cells()[idx as int] is Null),
{
    match column {
        Column::Booleans(v) => v[idx].is_none(),
        Column::Ints(v) => v[idx].is_none(),
        Column::Dates(v) => v[idx].is_none(),
        Column::Floats(v) => v[idx].is_none(),
        Column::Strings(v) => v[idx].is_none(),
    }
}

fn is_known(column: &Column, n: usize) -> (r: bool)
    ensures
        r == column_known(*column, n as nat),
{
    if column.len() < n {
        return false;
    }
    let mut i: usize = 0;
    while i < n
        invariant
            i <= n <= column.cells().len(),
            forall|j: int| 0 <= j < i ==> !(#[trigger] column.cells()[j] is Null),
        decreases n - i,
    {
        if holds_null(column, i) {
            return false;
        }
        i = i + 1;
    }
    true
}

fn all_known(orders: &Vec<Order>, n: usize) -> (r: bool)
    ensures
        r == keys_known(orders@, n as nat),
{
    let mut k: usize = 0;
    while k < orders.len()
        invariant
            k <= orders@.len(),
            forall|j: int| 0 <= j < k ==> column_known(*(#[trigger] orders@[j]).column, n as nat),
        decreases orders@.len() - k,
    {
        if !is_known(&orders[k].column, n) {
            return false;
        }
        k = k + 1;
    }
    true
}

/// The rows `0..n` sorted by `orders`, rows that are equal in their first
/// order.
///
/// Where every key has a value in every row the rows are sorted by the
/// stable sort of the standard library. A null is equal to every value,
/// so with a null among the keys the order of the rows is no total
/// order, on which the standard sort may not be called: the rows are then
/// inserted one by one, each before the rows that it is less than, up to
/// the first row that it is not less than.
pub fn sorted_rows(orders: &Vec<Order>, n: usize) -> (rows: Vec<usize>)
    ensures
        sorted_by(orders@, n as nat, rows@),
{
    if all_known(orders, n) {
        let mut rows: Vec<usize> = Vec::new();
        let mut i: usize = 0;
        while i < n
            invariant
                i <= n,
                rows@.len() == i,
                in_turn(rows@),
            decreases n - i,
        {
            rows.push(i);
            i = i + 1;
        }
        sort_stably(&mut rows, orders);
        return rows;
    }
    let mut rows: Vec<usize> = Vec::new();
    let mut i: usize = 0;
    while i < n
        invariant
            i <= n,
            sorted_by(orders@, i as nat, rows@),
        decreases n - i,
    {
        let mut j: usize = i;
        while j > 0 && compare(orders, i, rows[j - 1]) == Place::Less
            invariant
                j <= i,
                rows@.len() == i,
                forall|m: int| j <= m < i ==> rows_order(orders@, 0, i, #[trigger] rows@[m]) == Place::Less,
            decreases j,
        {
            j = j - 1;
        }
        let ghost before = rows@;
        rows.insert(j, i);
        proof {
            let after = rows@;
            assert forall|k: int| 0 <= k < i + 1 implies (#[trigger] after[k]) < i + 1 by {
                if k < j {
                    assert(after[k] == before[k]);
                } else if k > j {
                    assert(after[k] == before[k - 1]);
                }
            }
            assert forall|k: int, l: int| 0 <= k < l < i + 1 implies after[k] != after[l] by {
                let x = if k < j { before[k] } else if k == j { i } else { before[k - 1] };
                let y = if l < j { before[l] } else if l == j { i } else { before[l - 1] };
                assert(after[k] == x && after[l] == y);
            }
            assert forall|k: int, l: int| 0 <= k < l < i + 1 && after[k] > after[l] implies rows_order(
                orders@,
                0,
                after[k],
                after[l],
            ) == Place::Less by {
                let x = if k < j { before[k] } else if k == j { i } else { before[k - 1] };
                let y = if l < j { before[l] } else if l == j { i } else { before[l - 1] };
                assert(after[k] == x && after[l] == y);
            }
            assert forall|k: int| 0 <= k < i && after[k] < after[k + 1] implies rows_order(
                orders@,
                0,
                #[trigger] after[k + 1],
                after[k],
            ) != Place::Less by {
                if k + 1 < j {
                    assert(after[k] == before[k] && after[k + 1] == before[k + 1]);
                } else if k + 1 == j {
                    assert(after[k] == before[k] && after[k + 1] == i);
                } else if k == j {
                    assert(after[k] == i && after[k + 1] == before[k]);
                } else {
                    assert(after[k] == before[k - 1] && after[k + 1] == before[k]);
                    assert(before[k - 1] < before[k - 1 + 1]);
                }
            }
        }
        i = i + 1;
    }
    rows
}

/// What one clause asks for: the place of its column and its direction.
/// A clause without a token is a `Runtime` error, a column name that is
/// unknown or ambiguous a `Lookup` error.
pub open spec fn clause_of(clause: ParserNode, t: TableView) -> Result<(nat, bool), ErrorType> {
    if clause.tokens@.len() == 0 {
        Err(ErrorType::Runtime)
    } else if t.found(clause.tokens@[0]@.text).len() != 1 {
        Err(ErrorType::Lookup)
    } else {
        Ok(
            (
                t.found(clause.tokens@[0]@.text)[0],
                clause.tokens@.len() > 1 && clause.tokens@[1]@.text == "desc"@,
            ),
        )
    }
}

/// Whether `order` is what `clause` asks for against `table`.
pub open spec fn reads(order: Order, clause: ParserNode, table: Table) -> bool {
    clause_of(clause, table@) matches Ok(asked) && asked.0 < table.columns@.len() && order.column
        == table.columns@[asked.0 as int] && order.desc == asked.1
}

/// Whether the error is the error of one of the clauses.
pub open spec fn fails(node: ParserNode, table: Table, e: SqlError) -> bool {
    exists|i: int|
        0 <= i < node.children@.len() && #[trigger] clause_of(node.children@[i], table@) == Err::<
            (nat, bool),
            ErrorType,
        >(e.type_)
}

/// Reads the clauses of an ORDER BY against a table.
pub fn parse_into_order(node: &ParserNode, table: &Table) -> (r: SqlResult<Vec<Order>>)
    requires
        table@.wf(),
    ensures
        match r {
            Ok(orders) => orders@.len() == node.children@.len() && forall|i: int|
                0 <= i < orders@.len() ==> reads(#[trigger] orders@[i], node.children@[i], *table),
            Err(e) => fails(*node, *table, e),
        },
{
    let mut orders: Vec<Order> = Vec::new();
    let mut i: usize = 0;
    while i < node.children.len()
        invariant
            i <= node.children@.len(),
            table@.wf(),
            orders@.len() == i,
            forall|j: int| 0 <= j < i ==> reads(#[trigger] orders@[j], node.children@[j], *table),
        decreases node.children@.len() - i,
    {
        let clause = &node.children[i];
        if clause.tokens.len() == 0 {
            let e = SqlError::new("need at least one column in order by", ErrorType::Runtime);
            assert(clause_of(node.children@[i as int], table@) == Err::<(nat, bool), ErrorType>(e.type_));
            return Err(e);
        }
        let column = match table.column_search(clause.tokens[0].get_text().as_str()) {
            Ok(column) => column,
            Err(e) => {
                assert(clause_of(node.children@[i as int], table@) == Err::<(nat, bool), ErrorType>(
                    e.type_,
                ));
                return Err(e);
            },
        };
        let desc: bool = clause.tokens.len() > 1 && clause.tokens[1].is("desc");
        proof {
            crate::table::impl_table::lemma_positions_bound(
                table@.names,
                clause.tokens@[0]@.text,
                table@.names.len(),
            );
        }
        let order = Order { column, desc };
        assert(reads(order, node.children@[i as int], *table));
        orders.push(order);
        i = i + 1;
    }
    Ok(orders)
}

/// Whether `rows` is the rows of `table` sorted by `orders`, and `orders`
/// is what the clauses of `node` ask for.
pub open spec fn asked(orders: Seq<Order>, node: ParserNode, table: Table, rows: Seq<usize>) -> bool {
    &&& sorted_by(orders, table@.rows(), rows)
    &&& orders.len() == node.children@.len()
    &&& forall|i: int| 0 <= i < orders.len() ==> reads(#[trigger] orders[i], node.children@[i], table)
}

/// The order in which the clause asks for the rows of the table.
pub fn sort_order(node: &ParserNode, table: &Table) -> (r: SqlResult<Vec<usize>>)
    requires
        table@.wf(),
    ensures
        r is Ok ==> exists|orders: Seq<Order>| #[trigger] asked(orders, *node, *table, r->Ok_0@),
        r is Err ==> fails(*node, *table, r->Err_0),
{
    let orders = match parse_into_order(node, table) {
        Ok(orders) => orders,
        Err(e) => {
            return Err(e);
        },
    };
    let rows = sorted_rows(&orders, table.len());
    let ghost witness = orders@;
    let ghost sorted = rows@;
    assert(asked(witness, *node, *table, sorted));
    let r: SqlResult<Vec<usize>> = Ok(rows);
    assert(r->Ok_0@ == sorted);
    assert(asked(witness, *node, *table, r->Ok_0@));
    r
}

/// Rows that descend step by step from below `n` are the rows `n - 1`
/// down to `0`.
pub proof fn lemma_descending_rows(rows: Seq<usize>, k: int)
    requires
        0 <= k < rows.len(),
        forall|i: int| 0 <= i < rows.len() ==> (#[trigger] rows[i]) < rows.len(),
        forall|i: int| 0 <= i < rows.len() - 1 ==> rows[i] > #[trigger] rows[i + 1],
    ensures
        rows[k] == rows.len() - 1 - k,
{
    lemma_descending_above(rows, k);
    lemma_descending_below(rows, k);
}

proof fn lemma_descending_above(rows: Seq<usize>, k: int)
    requires
        0 <= k < rows.len(),
        forall|i: int| 0 <= i < rows.len() ==> (#[trigger] rows[i]) < rows.len(),
        forall|i: int| 0 <= i < rows.len() - 1 ==> rows[i] > #[trigger] rows[i + 1],
    ensures
        rows[k] <= rows.len() - 1 - k,
    decreases k,
{
    if k > 0 {
        lemma_descending_above(rows, k - 1);
        assert(rows[k - 1] > rows[k - 1 + 1]);
    }
}

proof fn lemma_descending_below(rows: Seq<usize>, k: int)
    requires
        0 <= k < rows.len(),
        forall|i: int| 0 <= i < rows.len() - 1 ==> rows[i] > #[trigger] rows[i + 1],
    ensures
        rows[k] >= rows.len() - 1 - k,
    decreases rows.len() - k,
{
    if k < rows.len() - 1 {
        lemma_descending_below(rows, k + 1);
        assert(rows[k] > rows[k + 1]);
    }
}

/// Sorted ascending, the cells of a column of distinct keys ascend from
/// row to row.
proof fn lemma_ascending_cells(column: Column, orders: Seq<Order>, up: Seq<usize>, p: int, q: int)
    requires
        orders.len() == 1,
        !orders[0].desc,
        *orders[0].column == column,
        forall|i: int, j: int|
            0 <= i < j < column.cells().len() ==> cell_order(column.cells()[i], column.cells()[j])
                != Place::Equal,
        sorted_by(orders, column.cells().len(), up),
        0 <= p < q < column.cells().len(),
    ensures
        cell_order(column.cells()[up[p] as int], column.cells()[up[q] as int]) == Place::Less,
    decreases q - p,
{
    let cells = column.cells();
    let n = cells.len();
    reveal_with_fuel(rows_order, 3);
    column.lemma_cells_fit();
    if q > p + 1 {
        lemma_ascending_cells(column, orders, up, p, q - 1);
        lemma_ascending_cells(column, orders, up, q - 1, q);
        assert(up[p] < n && up[q - 1] < n && up[q] < n);
        lemma_cell_order_transitive(
            cells[up[p] as int],
            cells[up[q - 1] as int],
            cells[up[q] as int],
            column.kind(),
        );
    } else {
        let a = up[p];
        let b = up[p + 1];
        assert(a < n && b < n);
        assert(a != b);
        lemma_cell_order_reversed(cells[a as int], cells[b as int]);
        if a > b {
            assert(rows_order(orders, 0, a, b) == Place::Less);
        } else {
            assert(rows_order(orders, 0, up[p + 1], up[p]) != Place::Less);
            assert(cell_order(cells[a as int], cells[b as int]) != Place::Equal);
        }
    }
}

/// Sorted ascending by one key that holds no null, the keys do not
/// descend: no row holds a key that comes after the key of a later row.
pub proof fn lemma_sorted_ascends(column: Column, orders: Seq<Order>, rows: Seq<usize>, p: int, q: int)
    requires
        orders.len() == 1,
        !orders[0].desc,
        *orders[0].column == column,
        forall|i: int| 0 <= i < column.cells().len() ==> !(#[trigger] column.cells()[i] is Null),
        sorted_by(orders, column.cells().len(), rows),
        0 <= p <= q < column.cells().len(),
    ensures
        cell_order(column.cells()[rows[p] as int], column.cells()[rows[q] as int]) != Place::Greater,
    decreases q - p,
{
    let cells = column.cells();
    let n = cells.len();
    reveal_with_fuel(rows_order, 3);
    column.lemma_cells_fit();
    if p == q {
        assert(rows[p] < n);
        lemma_cell_order_same(cells[rows[p] as int]);
    } else {
        lemma_sorted_ascends(column, orders, rows, p, q - 1);
        let a = rows[q - 1];
        let b = rows[q];
        assert(rows[p] < n && a < n && b < n);
        assert(a != b);
        lemma_cell_order_reversed(cells[a as int], cells[b as int]);
        if a > b {
            assert(rows_order(orders, 0, a, b) == Place::Less);
        } else {
            assert(rows[q - 1] < rows[q - 1 + 1]);
            assert(rows_order(orders, 0, rows[q - 1 + 1], rows[q - 1]) != Place::Less);
        }
        lemma_cell_order_chain(cells[rows[p] as int], cells[a as int], cells[b as int], column.kind());
    }
}

/// Ordering a table by a key whose values are all different, and then by
/// the same key descending, gives the rows of the first order reversed:
/// the second sort takes row `k` from row `n - 1 - k`.
pub proof fn lemma_descending_reverses(
    column: Column,
    up_orders: Seq<Order>,
    up: Seq<usize>,
    down_orders: Seq<Order>,
    down: Seq<usize>,
)
    requires
        up_orders.len() == 1,
        !up_orders[0].desc,
        *up_orders[0].column == column,
        forall|i: int, j: int|
            0 <= i < j < column.cells().len() ==> cell_order(column.cells()[i], column.cells()[j])
                != Place::Equal,
        sorted_by(up_orders, column.cells().len(), up),
        down_orders.len() == 1,
        down_orders[0].desc,
        (*down_orders[0].column).cells() == reordered(column.cells(), up),
        sorted_by(down_orders, column.cells().len(), down),
    ensures
        forall|k: int| 0 <= k < column.cells().len() ==> #[trigger] down[k] == column.cells().len() - 1 - k,
{
    let cells = column.cells();
    let n = cells.len();
    let second = (*down_orders[0].column).cells();
    reveal_with_fuel(rows_order, 3);
    assert forall|k: int| 0 <= k < n - 1 implies down[k] > #[trigger] down[k + 1] by {
        let a = down[k];
        let b = down[k + 1];
        assert(a < n && b < n);
        assert(a != b);
        if a < b {
            lemma_ascending_cells(column, up_orders, up, a as int, b as int);
            assert(second[a as int] == cells[up[a as int] as int]);
            assert(second[b as int] == cells[up[b as int] as int]);
            assert(rows_order(down_orders, 0, down[k + 1], down[k]) != Place::Less);
            assert(rows_order(down_orders, 0, b, a) == cell_order(second[a as int], second[b as int]));
        }
    }
    assert forall|k: int| 0 <= k < n implies #[trigger] down[k] == n - 1 - k by {
        lemma_descending_rows(down, k);
    }
}

/// A table ordered by one key that holds no null has its keys in
/// ascending order: no row holds a key that comes after the key of a
/// later row.
pub proof fn lemma_ordered_clause_ascends(node: ParserNode, t: TableView, a: TableView, key: nat, p: int, q: int)
    requires
        t.rectangular(),
        key < t.columns.len(),
        node.children@.len() == 1,
        clause_of(node.children@[0], t) == Ok::<(nat, bool), ErrorType>((key, false)),
        forall|i: int| 0 <= i < t.rows() ==> !(#[trigger] t.columns[key as int].cells[i] is Null),
        order_gives(node, t, Ok::<TableView, ErrorType>(a)),
        0 <= p <= q < t.rows(),
    ensures
        cell_order(a.columns[key as int].cells[p], a.columns[key as int].cells[q]) != Place::Greater,
{
    let n = t.rows();
    let (orders, rows) = choose|orders: Seq<Order>, rows: Seq<usize>|
        #![trigger sorted_by(orders, t.rows(), rows)]
        sorted_by(orders, t.rows(), rows) && orders.len() == node.children@.len() && (forall|i: int|
            0 <= i < orders.len() ==> order_reads(#[trigger] orders[i], node.children@[i], t)) && a
            == ordered_rows(t, rows);
    let column = *orders[0].column;
    assert(order_reads(orders[0], node.children@[0], t));
    assert(column@ == t.columns[key as int]);
    assert(column.cells() == t.columns[key as int].cells);
    assert(column.cells().len() == n);
    lemma_sorted_ascends(column, orders, rows, p, q);
    assert(rows[p] < n && rows[q] < n);
}

/// A table ordered by a key whose values are all different, and the
/// result ordered by the same key descending, has its rows reversed: row
/// `i` of the second table is row `n - 1 - i` of the first.
pub proof fn lemma_descending_clause_reverses(
    up_node: ParserNode,
    down_node: ParserNode,
    t: TableView,
    a: TableView,
    d: TableView,
    key: nat,
)
    requires
        t.rectangular(),
        key < t.columns.len(),
        up_node.children@.len() == 1,
        down_node.children@.len() == 1,
        clause_of(up_node.children@[0], t) == Ok::<(nat, bool), ErrorType>((key, false)),
        clause_of(down_node.children@[0], a) == Ok::<(nat, bool), ErrorType>((key, true)),
        forall|i: int, j: int|
            0 <= i < j < t.rows() ==> cell_order(t.columns[key as int].cells[i], t.columns[key as int].cells[j])
                != Place::Equal,
        order_gives(up_node, t, Ok::<TableView, ErrorType>(a)),
        order_gives(down_node, a, Ok::<TableView, ErrorType>(d)),
    ensures
        d.columns.len() == a.columns.len(),
        forall|c: int, i: int|
            0 <= c < d.columns.len() && 0 <= i < t.rows() ==> #[trigger] d.columns[c].cells[i]
                == a.columns[c].cells[t.rows() - 1 - i],
{
    let n = t.rows();
    let (up_orders, up) = choose|orders: Seq<Order>, rows: Seq<usize>|
        #![trigger sorted_by(orders, t.rows(), rows)]
        sorted_by(orders, t.rows(), rows) && orders.len() == up_node.children@.len() && (forall|i: int|
            0 <= i < orders.len() ==> order_reads(#[trigger] orders[i], up_node.children@[i], t)) && a
            == ordered_rows(t, rows);
    assert forall|c: int| 0 <= c < a.columns.len() implies (#[trigger] a.columns[c]).cells.len() == n by {
        assert(t.columns[c].cells.len() == n);
    }
    lemma_longest_of_equal(a.columns, a.columns.len(), n);
    assert(a.rows() == n);
    let (down_orders, down) = choose|orders: Seq<Order>, rows: Seq<usize>|
        #![trigger sorted_by(orders, a.rows(), rows)]
        sorted_by(orders, a.rows(), rows) && orders.len() == down_node.children@.len() && (forall|i: int|
            0 <= i < orders.len() ==> order_reads(#[trigger] orders[i], down_node.children@[i], a)) && d
            == ordered_rows(a, rows);
    let column = *up_orders[0].column;
    assert(order_reads(up_orders[0], up_node.children@[0], t));
    assert(order_reads(down_orders[0], down_node.children@[0], a));
    assert(column@ == t.columns[key as int]);
    assert(column.cells() == t.columns[key as int].cells);
    assert(column.cells().len() == n);
    assert((*down_orders[0].column)@ == a.columns[key as int]);
    assert((*down_orders[0].column).cells() == reordered(column.cells(), up));
    lemma_descending_reverses(column, up_orders, up, down_orders, down);
    assert forall|c: int, i: int| 0 <= c < d.columns.len() && 0 <= i < n implies #[trigger] d.columns[c].cells[i]
        == a.columns[c].cells[n - 1 - i] by {
        assert(a.columns[c].cells.len() == n);
        assert(down[i] == n - 1 - i);
    }
}

/// The table with its rows in the order that the clause asks for. The
/// names, the types and the row count stay.
pub fn eval(node: &ParserNode, table: &Table) -> (r: SqlResult<Table>)
    requires
        table@.wf(),
    ensures
        crate::eval::meaning::order_gives(*node, table@, crate::eval::meaning::table_outcome(r)),
        r matches Ok(t) ==> t@.wf() && t@.names == table@.names && t@.columns.len()
            == table@.columns.len() && (table@.rectangular() ==> t@.rectangular() && t@.rows()
            == table@.rows()),
        r matches Err(e) ==> e.type_ == ErrorType::Runtime || e.type_ == ErrorType::Lookup,
{
    let rows = match sort_order(node, table) {
        Ok(rows) => rows,
        Err(e) => {
            return Err(e);
        },
    };
    let t = table.order_by(&rows);
    proof {
        if table@.rectangular() {
            lemma_rows_keep_rectangular(table@, RowsOp::Order(&rows));
            crate::table::laws::lemma_order_keeps_rows(table@, &rows);
        }
        let orders = choose|orders: Seq<Order>| #[trigger] asked(orders, *node, *table, rows@);
        assert(asked(orders, *node, *table, rows@));
        assert forall|i: int| 0 <= i < orders.len() implies crate::eval::meaning::order_reads(
            #[trigger] orders[i],
            node.children@[i],
            table@,
        ) by {
            assert(reads(orders[i], node.children@[i], *table));
        }
        assert(t@.columns =~= crate::eval::meaning::ordered_rows(table@, rows@).columns);
        assert(sorted_by(orders, table@.rows(), rows@));
    }
    Ok(t)
}

} // verus!
