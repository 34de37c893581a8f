//! What the expressions of a query mean: for every kind of expression, the
//! results that its evaluation may give.
//!
//! An expression is evaluated against a table. Its result is a named
//! column or the kind of an error. The result of an operator or a function
//! is what the registry allows for it: the result of a seeded operator is
//! stated there, that of an operator that was brought is free.

use vstd::prelude::*;
use vstd::std_specs::vecdeque::axiom_vec_dequeue_index_decreases;
use crate::build_column::{built, texts_of};
use crate::eval::columns::{literal_texts, named_place};
use crate::eval::order_by::{Order, clause_of, sorted_by};
use crate::eval::project::{projected, target_len};
use crate::eval::split::last_of;
use crate::converters::usize_of_text;
use crate::eval::limit::limit_text;
use crate::eval::from::{joined, partners};
use crate::eval::group_by::{grouped, members};
use crate::table::impl_table::{stackable, stacked};
use crate::table::impl_column::{gathered, reordered, selected, shorter};
use crate::table::impl_table::{RowsOp, with_alias, with_column, with_rows};
use crate::table::Cell;
use crate::ops::OpContext;
use crate::parser::{ParserNode, ParserNodeType};
use crate::result::{ErrorType, SqlResult};
use crate::table::{Column, ColumnView, NamedColumn, Store, Table, TableView};
use crate::tokenizer::TokenView;
use crate::eval::FileOutput;
use crate::eval::into::{file_holds, unquoted};

verus! {

/// A named column as a mathematical value.
pub struct NamedView {
    pub name: Seq<char>,
    pub column: ColumnView,
}

impl View for NamedColumn {
    type V = NamedView;

    open spec fn view(&self) -> NamedView {
        NamedView { name: self.name@, column: (*self.column)@ }
    }
}

/// What an evaluation gives: a value, or the kind of an error.
pub type Gives<T> = Result<T, ErrorType>;

/// Marks a value as the result of a step of an evaluation. It holds of
/// every value; the statements below speak of "a result such that ..." and
/// name the result with it.
pub open spec fn is_given<T>(value: T) -> bool {
    true
}

/// What an evaluated column stands for.
pub open spec fn column_outcome(r: SqlResult<NamedColumn>) -> Gives<NamedView> {
    match r {
        Ok(c) => Ok(c@),
        Err(e) => Err(e.type_),
    }
}

/// What an evaluated table stands for.
pub open spec fn table_outcome(r: SqlResult<Table>) -> Gives<TableView> {
    match r {
        Ok(t) => Ok(t@),
        Err(e) => Err(e.type_),
    }
}

/// The name that the result of a binary operator is shown under: the
/// operator token as text.
pub open spec fn token_shown(token: TokenView) -> Seq<char> {
    "("@ + token.kind.name() + ": "@ + token.text + ")"@
}

/// The result of the map operator `name` on the given columns, under the
/// name `shown`.
pub open spec fn applied_gives(
    ops: OpContext,
    name: Seq<char>,
    arguments: Seq<ColumnView>,
    shown: Seq<char>,
    r: Gives<NamedView>,
) -> bool {
    exists|columns: Seq<&Column>, applied: SqlResult<Column>|
        columns.len() == arguments.len() && (forall|i: int|
            0 <= i < columns.len() ==> (#[trigger] columns[i])@ == arguments[i]) && #[trigger] ops.apply_allows(
            name,
            columns,
            applied,
        ) && match applied {
            Ok(c) => r == Ok::<NamedView, ErrorType>(NamedView { name: shown, column: c@ }),
            Err(e) => r == Err::<NamedView, ErrorType>(e.type_),
        }
}

/// The result of the function `name` of the registry on the given columns.
pub open spec fn dispatched_gives(
    ops: OpContext,
    name: Seq<char>,
    arguments: Seq<ColumnView>,
    r: Gives<NamedView>,
) -> bool {
    exists|columns: Seq<&Column>, applied: SqlResult<Column>|
        columns.len() == arguments.len() && (forall|i: int|
            0 <= i < columns.len() ==> (#[trigger] columns[i])@ == arguments[i]) && #[trigger] ops.dispatch_allows(
            name,
            columns,
            applied,
        ) && match applied {
            Ok(c) => r == Ok::<NamedView, ErrorType>(NamedView { name: name, column: c@ }),
            Err(e) => r == Err::<NamedView, ErrorType>(e.type_),
        }
}

/// A literal gives the typed column of its text, without a name.
pub open spec fn literal_gives(node: ParserNode, r: Gives<NamedView>) -> bool {
    r is Ok && r->Ok_0.name == Seq::<char>::empty() && r->Ok_0.column.cells.len() == node.tokens@.len()
        && exists|raw: Seq<String>|
        texts_of(raw) == literal_texts(node) && #[trigger] built(raw, "nan"@, r->Ok_0.column)
}

/// An identifier gives the column that it names, under the name of the
/// column.
pub open spec fn identifier_gives(node: ParserNode, t: TableView, r: Gives<NamedView>) -> bool {
    match named_place(node, t) {
        Ok(place) => r == Ok::<NamedView, ErrorType>(
            NamedView { name: node.tokens@.last()@.text, column: t.columns[place as int] },
        ),
        Err(kind) => r == Err::<NamedView, ErrorType>(kind),
    }
}

/// What a query in parentheses gives.
pub open spec fn subquery_gives(sub: Gives<TableView>, r: Gives<NamedView>) -> bool {
    match sub {
        Err(kind) => r == Err::<NamedView, ErrorType>(kind),
        Ok(t) => if t.columns.len() != 1 || t.names.len() != 1 {
            r == Err::<NamedView, ErrorType>(ErrorType::Runtime)
        } else {
            r == Ok::<NamedView, ErrorType>(NamedView { name: t.names[0], column: t.columns[0] })
        },
    }
}

/// A child of a node is smaller than the node.
pub proof fn lemma_child_smaller(node: ParserNode, i: int)
    requires
        0 <= i < node.children@.len(),
    ensures
        decreases_to!(node => node.children@[i]),
{
    axiom_vec_dequeue_index_decreases(node.children, i);
}

/// The first `k` operators of a chain applied from left to right.
pub open spec fn chain_gives(
    node: ParserNode,
    level: u8,
    ops: OpContext,
    table: TableView,
    store: Store,
    k: nat,
    r: Gives<NamedView>,
) -> bool
    decreases node, 2nat, k,
    via chain_gives_decreases
{
    if node.children@.len() == 0 {
        r == Err::<NamedView, ErrorType>(ErrorType::Syntax)
    } else if k == 0 {
        operand_gives(node.children@[0], level, ops, table, store, r)
    } else {
        exists|left: Gives<NamedView>| #[trigger] is_given(left) && chain_gives(node, level, ops, table, store, (k - 1) as nat, left) && match left {
                Err(kind) => r == Err::<NamedView, ErrorType>(kind),
                Ok(l) => if k >= node.children@.len() || k > node.tokens@.len() {
                    r == Err::<NamedView, ErrorType>(ErrorType::Syntax)
                } else {
                    exists|right: Gives<NamedView>| #[trigger] is_given(right) && operand_gives(node.children@[k as int], level, ops, table, store, right)
                            && match right {
                            Err(kind) => r == Err::<NamedView, ErrorType>(kind),
                            Ok(rt) => applied_gives(
                                ops,
                                node.tokens@[k - 1]@.text,
                                seq![l.column, rt.column],
                                token_shown(node.tokens@[k - 1]@),
                                r,
                            ),
                        }
                },
            }
    }
}

#[via_fn]
proof fn chain_gives_decreases(
    node: ParserNode,
    level: u8,
    ops: OpContext,
    table: TableView,
    store: Store,
    k: nat,
    r: Gives<NamedView>,
) {
    if node.children@.len() > 0 {
        lemma_child_smaller(node, 0);
        if k > 0 && k < node.children@.len() {
            lemma_child_smaller(node, k as int);
        }
    }
}

/// A chain of one level: its operands combined from left to right by the
/// operators between them. A chain without an operand, or with an
/// operator that lacks its right operand, is a `Syntax` error.
pub open spec fn level_gives(
    node: ParserNode,
    level: u8,
    ops: OpContext,
    table: TableView,
    store: Store,
    r: Gives<NamedView>,
) -> bool
    decreases node, 3nat, 0nat,
{
    chain_gives(node, level, ops, table, store, node.tokens@.len(), r)
}

/// An operand of a chain: a chain of the next level, or, below the
/// factors, a unary expression.
pub open spec fn operand_gives(
    node: ParserNode,
    level: u8,
    ops: OpContext,
    table: TableView,
    store: Store,
    r: Gives<NamedView>,
) -> bool
    decreases node, 4nat, 0nat,
{
    if level >= 3 {
        unary_gives(node, ops, table, store, r)
    } else {
        level_gives(node, (level + 1) as u8, ops, table, store, r)
    }
}

/// A unary expression: its operator applied to its operand, or, without
/// an operator, a primary.
pub open spec fn unary_gives(node: ParserNode, ops: OpContext, table: TableView, store: Store, r: Gives<NamedView>) -> bool
    decreases node, 3nat, 0nat,
    via unary_gives_decreases
{
    if node.children@.len() == 0 {
        r == Err::<NamedView, ErrorType>(ErrorType::Syntax)
    } else if node.tokens@.len() > 0 {
        exists|inner: Gives<NamedView>| #[trigger] is_given(inner) && unary_gives(node.children@[0], ops, table, store, inner) && match inner {
                Err(kind) => r == Err::<NamedView, ErrorType>(kind),
                Ok(v) => applied_gives(
                    ops,
                    node.tokens@[0]@.text,
                    seq![v.column],
                    node.tokens@[0]@.text,
                    r,
                ),
            }
    } else {
        primary_gives(node.children@[0], ops, table, store, r)
    }
}

#[via_fn]
proof fn unary_gives_decreases(node: ParserNode, ops: OpContext, table: TableView, store: Store, r: Gives<NamedView>) {
    if node.children@.len() > 0 {
        lemma_child_smaller(node, 0);
    }
}

/// A primary: a literal, a column, a function call, or a query or an
/// expression in parentheses. A query must give exactly one column.
pub open spec fn primary_gives(node: ParserNode, ops: OpContext, table: TableView, store: Store, r: Gives<NamedView>) -> bool
    decreases node, 3nat, 0nat,
    via primary_gives_decreases
{
    if node.children@.len() == 0 {
        r == Err::<NamedView, ErrorType>(ErrorType::Syntax)
    } else {
        let child = node.children@[0];
        match child.node_type {
            ParserNodeType::Identifier => identifier_gives(child, table, r),
            ParserNodeType::Function => function_gives(child, ops, table, store, r),
            ParserNodeType::Literal => literal_gives(child, r),
            ParserNodeType::Query => exists|sub: Gives<TableView>| #[trigger] is_given(sub) && query_gives(child, ops, store, sub) && subquery_gives(sub, r),
            ParserNodeType::Expression => expression_gives(child, ops, table, store, r),
            _ => r == Err::<NamedView, ErrorType>(ErrorType::Runtime),
        }
    }
}

#[via_fn]
proof fn primary_gives_decreases(node: ParserNode, ops: OpContext, table: TableView, store: Store, r: Gives<NamedView>) {
    if node.children@.len() > 0 {
        lemma_child_smaller(node, 0);
    }
}

/// A function call: the function of the registry under the name of the
/// call, applied to the columns of its evaluated arguments.
pub open spec fn function_gives(node: ParserNode, ops: OpContext, table: TableView, store: Store, r: Gives<NamedView>) -> bool
    decreases node, 3nat, 0nat,
    via function_gives_decreases
{
    if node.children@.len() == 0 {
        r == Err::<NamedView, ErrorType>(ErrorType::Runtime)
    } else {
        exists|arguments: Gives<TableView>| #[trigger] is_given(arguments) && columns_gives(node.children@[0], ops, table, store, arguments) && match arguments {
                Err(kind) => r == Err::<NamedView, ErrorType>(kind),
                Ok(t) => if node.tokens@.len() == 0 {
                    r == Err::<NamedView, ErrorType>(ErrorType::Syntax)
                } else {
                    dispatched_gives(ops, node.tokens@[0]@.text, t.columns, r)
                },
            }
    }
}

#[via_fn]
proof fn function_gives_decreases(node: ParserNode, ops: OpContext, table: TableView, store: Store, r: Gives<NamedView>) {
    if node.children@.len() > 0 {
        lemma_child_smaller(node, 0);
    }
}

/// An expression with its optional name: the column of the expression,
/// under the name that an `as` clause gives it. An expression without a
/// child, or a name without a token, is a `Runtime` error.
pub open spec fn expression_gives(
    node: ParserNode,
    ops: OpContext,
    table: TableView,
    store: Store,
    r: Gives<NamedView>,
) -> bool
    decreases node, 5nat, 0nat,
    via expression_gives_decreases
{
    if node.children@.len() == 0 {
        r == Err::<NamedView, ErrorType>(ErrorType::Runtime)
    } else {
        exists|inner: Gives<NamedView>| #[trigger] is_given(inner) && level_gives(node.children@[0], 0, ops, table, store, inner) && match inner {
                Err(kind) => r == Err::<NamedView, ErrorType>(kind),
                Ok(v) => if node.children@.len() == 1 {
                    r == Ok::<NamedView, ErrorType>(v)
                } else if node.children@[1].tokens@.len() == 0 {
                    r == Err::<NamedView, ErrorType>(ErrorType::Runtime)
                } else {
                    r == Ok::<NamedView, ErrorType>(
                        NamedView { name: node.children@[1].tokens@[0]@.text, column: v.column },
                    )
                },
            }
    }
}

#[via_fn]
proof fn expression_gives_decreases(
    node: ParserNode,
    ops: OpContext,
    table: TableView,
    store: Store,
    r: Gives<NamedView>,
) {
    if node.children@.len() > 0 {
        lemma_child_smaller(node, 0);
    }
}

/// The names and columns of a table, as named columns.
pub open spec fn named_columns(t: TableView) -> Seq<NamedView> {
    Seq::new(t.columns.len(), |i: int| NamedView { name: t.names[i], column: t.columns[i] })
}

/// The columns that the first `k` entries of a projection give, in order:
/// of a `*` all columns of the table, of an expression its column.
pub open spec fn entries_give(
    node: ParserNode,
    ops: OpContext,
    table: TableView,
    store: Store,
    k: nat,
    r: Gives<Seq<NamedView>>,
) -> bool
    decreases node, 4nat, k,
    via entries_give_decreases
{
    if k == 0 || k > node.children@.len() {
        r == Ok::<Seq<NamedView>, ErrorType>(Seq::empty())
    } else {
        exists|before: Gives<Seq<NamedView>>| #[trigger] is_given(before) && entries_give(node, ops, table, store, (k - 1) as nat, before) && match before {
                Err(kind) => r == Err::<Seq<NamedView>, ErrorType>(kind),
                Ok(columns) => if node.children@[k - 1].node_type == ParserNodeType::StarOperator {
                    r == Ok::<Seq<NamedView>, ErrorType>(columns + named_columns(table))
                } else {
                    exists|entry: Gives<NamedView>| #[trigger] is_given(entry) && expression_gives(node.children@[k - 1], ops, table, store, entry) && match entry {
                            Err(kind) => r == Err::<Seq<NamedView>, ErrorType>(kind),
                            Ok(column) => r == Ok::<Seq<NamedView>, ErrorType>(columns.push(column)),
                        }
                },
            }
    }
}

#[via_fn]
proof fn entries_give_decreases(
    node: ParserNode,
    ops: OpContext,
    table: TableView,
    store: Store,
    k: nat,
    r: Gives<Seq<NamedView>>,
) {
    if !(k == 0 || k > node.children@.len()) {
        lemma_child_smaller(node, k - 1);
    }
}

/// The names of a list of named columns.
pub open spec fn entry_names(entries: Seq<NamedView>) -> Seq<Seq<char>> {
    Seq::new(entries.len(), |i: int| entries[i].name)
}

/// The columns of a list of named columns.
pub open spec fn entry_columns(entries: Seq<NamedView>) -> Seq<ColumnView> {
    Seq::new(entries.len(), |i: int| entries[i].column)
}

/// A projection: the table of the columns that its entries give, brought
/// to one length. Columns of different lengths, other than single rows,
/// are a `Runtime` error.
pub open spec fn columns_gives(node: ParserNode, ops: OpContext, table: TableView, store: Store, r: Gives<TableView>) -> bool
    decreases node, 5nat, 0nat,
{
    exists|entries: Gives<Seq<NamedView>>| #[trigger] is_given(entries) && entries_give(node, ops, table, store, node.children@.len(), entries) && match entries {
            Err(kind) => r == Err::<TableView, ErrorType>(kind),
            Ok(columns) => match target_len(entry_columns(columns)) {
                None => r == Err::<TableView, ErrorType>(ErrorType::Runtime),
                Some(target) => r == Ok::<TableView, ErrorType>(
                    projected(entry_names(columns), entry_columns(columns), target),
                ),
            },
        }
}

/// The mask that a boolean column stands for: a null where the column
/// holds a null.
pub open spec fn mask_of(cells: Seq<Cell>) -> Seq<Option<bool>> {
    Seq::new(cells.len(), |i: int| match cells[i] {
        Cell::Boolean(b) => Some(b),
        _ => None,
    })
}

/// The table with the same alias, names and index whose columns hold the
/// given cells.
pub open spec fn with_cells(t: TableView, cells: spec_fn(Seq<Cell>) -> Seq<Cell>) -> TableView {
    TableView {
        alias: t.alias,
        names: t.names,
        index: t.index,
        columns: Seq::new(
            t.columns.len(),
            |i: int| ColumnView { kind: t.columns[i].kind, cells: cells(t.columns[i].cells) },
        ),
    }
}

/// The rows of a table at which the mask holds `true`.
pub open spec fn kept_rows(t: TableView, mask: Seq<Option<bool>>) -> TableView {
    with_cells(t, |cells: Seq<Cell>| gathered(cells, selected(mask, shorter(cells.len(), mask.len()))))
}

/// The rows of a table in another order.
pub open spec fn ordered_rows(t: TableView, rows: Seq<usize>) -> TableView {
    with_cells(t, |cells: Seq<Cell>| reordered(cells, rows))
}

/// The first `n` rows of a table.
pub open spec fn first_rows(t: TableView, n: usize) -> TableView {
    with_cells(t, |cells: Seq<Cell>| cells.take(shorter(n as nat, cells.len()) as int))
}

/// The empty anonymous table.
pub open spec fn empty_table() -> TableView {
    TableView { alias: Seq::empty(), names: Seq::empty(), index: Seq::empty(), columns: Seq::empty() }
}

/// What filtering a table by an evaluated predicate gives: the rows at
/// which it is true. The predicate must be a boolean column (else a
/// `Type` error) with one entry for every row (else a `Runtime` error).
pub open spec fn filtered_gives(t: TableView, predicate: ColumnView, r: Gives<TableView>) -> bool {
    if predicate.kind != crate::table::ColumnType::Boolean {
        r == Err::<TableView, ErrorType>(ErrorType::Type)
    } else if predicate.cells.len() != t.rows() {
        r == Err::<TableView, ErrorType>(ErrorType::Runtime)
    } else {
        r == Ok::<TableView, ErrorType>(kept_rows(t, mask_of(predicate.cells)))
    }
}

/// A WHERE clause: the rows of the table at which its predicate holds. A
/// clause without a predicate is a `Runtime` error.
pub open spec fn where_gives(node: ParserNode, ops: OpContext, table: TableView, store: Store, r: Gives<TableView>) -> bool
    decreases node, 6nat, 0nat,
    via where_gives_decreases
{
    if node.children@.len() == 0 {
        r == Err::<TableView, ErrorType>(ErrorType::Runtime)
    } else {
        exists|predicate: Gives<NamedView>| #[trigger] is_given(predicate) && expression_gives(
            node.children@[0],
            ops,
            table,
            store,
            predicate,
        ) && match predicate {
            Err(kind) => r == Err::<TableView, ErrorType>(kind),
            Ok(column) => filtered_gives(table, column.column, r),
        }
    }
}

#[via_fn]
proof fn where_gives_decreases(node: ParserNode, ops: OpContext, table: TableView, store: Store, r: Gives<TableView>) {
    if node.children@.len() > 0 {
        lemma_child_smaller(node, 0);
    }
}

/// A LIMIT clause: the first rows of the table, as many as the clause
/// says. A clause without a count is a `Runtime` error, a count that is no
/// length a `Type` error.
pub open spec fn limit_gives(node: ParserNode, table: TableView, r: Gives<TableView>) -> bool {
    match limit_text(node) {
        None => r == Err::<TableView, ErrorType>(ErrorType::Runtime),
        Some(text) => match usize_of_text(text) {
            None => r == Err::<TableView, ErrorType>(ErrorType::Type),
            Some(n) => r == Ok::<TableView, ErrorType>(first_rows(table, n)),
        },
    }
}

/// Whether `order` is what a clause of an ORDER BY asks for.
pub open spec fn order_reads(order: Order, clause: ParserNode, t: TableView) -> bool {
    clause_of(clause, t) matches Ok(asked) && asked.0 < t.columns.len() && (*order.column)@
        == t.columns[asked.0 as int] && order.desc == asked.1
}

/// An ORDER BY clause: the rows of the table, stably sorted by the columns
/// that its clauses name, or the error of one of its clauses.
pub open spec fn order_gives(node: ParserNode, table: TableView, r: Gives<TableView>) -> bool {
    match r {
        Err(kind) => exists|i: int|
            0 <= i < node.children@.len() && #[trigger] clause_of(node.children@[i], table) == Err::<
                (nat, bool),
                ErrorType,
            >(kind),
        Ok(t) => exists|orders: Seq<Order>, rows: Seq<usize>|
            #![trigger sorted_by(orders, table.rows(), rows)]
            sorted_by(orders, table.rows(), rows) && orders.len() == node.children@.len() && (forall|
                i: int,
            |
                0 <= i < orders.len() ==> order_reads(#[trigger] orders[i], node.children@[i], table))
                && t == ordered_rows(table, rows),
    }
}

/// One entry of a FROM clause: a table of the store, under a new alias
/// where one is given, or the result of a query in parentheses under its
/// alias. An entry without a token is a `Runtime` error, a name that the
/// store does not hold a `Lookup` error.
pub open spec fn statement_gives(node: ParserNode, ops: OpContext, store: Store, r: Gives<TableView>) -> bool
    decreases node, 9nat, 0nat,
    via statement_gives_decreases
{
    if node.tokens@.len() == 0 {
        r == Err::<TableView, ErrorType>(ErrorType::Runtime)
    } else if node.children@.len() > 0 {
        exists|sub: Gives<TableView>| #[trigger] is_given(sub) && query_gives(node.children@[0], ops, store, sub)
            && match sub {
            Err(kind) => r == Err::<TableView, ErrorType>(kind),
            Ok(t) => r == Ok::<TableView, ErrorType>(with_alias(t, node.tokens@[0]@.text)),
        }
    } else {
        match store.find(node.tokens@[0]@.text) {
            None => r == Err::<TableView, ErrorType>(ErrorType::Lookup),
            Some(place) => place < store.tables@.len() && r == Ok::<TableView, ErrorType>(
                if node.tokens@.len() > 1 {
                    with_alias(store.tables@[place as int]@, node.tokens@[1]@.text)
                } else {
                    store.tables@[place as int]@
                },
            ),
        }
    }
}

#[via_fn]
proof fn statement_gives_decreases(node: ParserNode, ops: OpContext, store: Store, r: Gives<TableView>) {
    if node.children@.len() > 0 {
        lemma_child_smaller(node, 0);
    }
}

/// A table with the first `n` columns of another pushed after its own,
/// under the alias of the other.
pub open spec fn pushed(base: TableView, other: TableView, n: nat) -> TableView
    decreases n,
{
    if n == 0 {
        base
    } else {
        with_column(
            pushed(base, other, (n - 1) as nat),
            other.names[n - 1],
            other.columns[n - 1],
            other.alias,
        )
    }
}

/// The table that a join condition is evaluated against for one row of
/// the left table: that row next to the whole right table.
pub open spec fn beside(left: TableView, right: TableView, row: usize) -> TableView {
    pushed(with_rows(left, RowsOp::Row(row)), right, right.columns.len())
}

/// The pairs of rows that the first `k` rows of the left table give: every
/// left row with the right rows at which the condition is true, or, where
/// there is none, once with no row. The condition must give a boolean
/// column (else a `Type` error) with one entry for every row of the right
/// table (else a `Runtime` error).
pub open spec fn paired_gives(
    left: TableView,
    right: TableView,
    condition: ParserNode,
    ops: OpContext,
    store: Store,
    k: nat,
    r: Gives<(Seq<usize>, Seq<Option<usize>>)>,
) -> bool
    decreases condition, 7nat, k,
{
    if k == 0 {
        r == Ok::<(Seq<usize>, Seq<Option<usize>>), ErrorType>((Seq::empty(), Seq::empty()))
    } else {
        exists|before: Gives<(Seq<usize>, Seq<Option<usize>>)>| #[trigger] is_given(before) && paired_gives(
            left,
            right,
            condition,
            ops,
            store,
            (k - 1) as nat,
            before,
        ) && match before {
            Err(kind) => r == Err::<(Seq<usize>, Seq<Option<usize>>), ErrorType>(kind),
            Ok(pairs) => exists|held: Gives<NamedView>| #[trigger] is_given(held) && expression_gives(
                condition,
                ops,
                beside(left, right, (k - 1) as usize),
                store,
                held,
            ) && match held {
                Err(kind) => r == Err::<(Seq<usize>, Seq<Option<usize>>), ErrorType>(kind),
                Ok(c) => if c.column.kind != crate::table::ColumnType::Boolean {
                    r == Err::<(Seq<usize>, Seq<Option<usize>>), ErrorType>(ErrorType::Type)
                } else if c.column.cells.len() != right.rows() {
                    r == Err::<(Seq<usize>, Seq<Option<usize>>), ErrorType>(ErrorType::Runtime)
                } else {
                    r == Ok::<(Seq<usize>, Seq<Option<usize>>), ErrorType>(
                        (
                            pairs.0 + Seq::new(
                                partners(mask_of(c.column.cells)).len(),
                                |j: int| (k - 1) as usize,
                            ),
                            pairs.1 + partners(mask_of(c.column.cells)),
                        ),
                    )
                },
            },
        }
    }
}

/// The left join of two tables on a condition: the join by the pairs of
/// rows that the condition gives.
pub open spec fn join_gives(
    left: TableView,
    right: TableView,
    condition: ParserNode,
    ops: OpContext,
    store: Store,
    r: Gives<TableView>,
) -> bool
    decreases condition, 8nat, 0nat,
{
    exists|pairs: Gives<(Seq<usize>, Seq<Option<usize>>)>| #[trigger] is_given(pairs) && paired_gives(
        left,
        right,
        condition,
        ops,
        store,
        left.rows(),
        pairs,
    ) && match pairs {
        Err(kind) => r == Err::<TableView, ErrorType>(kind),
        Ok(p) => r == Ok::<TableView, ErrorType>(joined(left, right, p.0, p.1)),
    }
}

/// The places among the first `n` children that hold an entry of a FROM
/// clause (or, for `tables` false, that hold anything else), ascending.
pub open spec fn places(children: Seq<ParserNode>, n: nat, tables: bool) -> Seq<usize>
    decreases n,
{
    if n == 0 {
        Seq::empty()
    } else if (children[n - 1].node_type == ParserNodeType::FromStatement) == tables {
        places(children, (n - 1) as nat, tables).push((n - 1) as usize)
    } else {
        places(children, (n - 1) as nat, tables)
    }
}

/// The number of joins of a FROM clause: one for every table after the
/// first that has a condition.
pub open spec fn joins_of(root: ParserNode) -> nat {
    let tables = places(root.children@, root.children@.len(), true).len();
    let conditions = places(root.children@, root.children@.len(), false).len();
    if tables == 0 {
        0
    } else if tables - 1 <= conditions {
        (tables - 1) as nat
    } else {
        conditions
    }
}

/// The first table of a FROM clause joined with the next `k` tables, each
/// on its condition. A right join is a `Runtime` error.
pub open spec fn folded_gives(root: ParserNode, ops: OpContext, store: Store, k: nat, r: Gives<TableView>) -> bool
    decreases root, 10nat, k,
    via folded_gives_decreases
{
    let tables = places(root.children@, root.children@.len(), true);
    let conditions = places(root.children@, root.children@.len(), false);
    if tables.len() == 0 || k >= tables.len() || k > conditions.len() || !places_fit(root) {
        false
    } else if k == 0 {
        statement_gives(root.children@[tables[0] as int], ops, store, r)
    } else {
        exists|left: Gives<TableView>| #[trigger] is_given(left) && folded_gives(
            root,
            ops,
            store,
            (k - 1) as nat,
            left,
        ) && match left {
            Err(kind) => r == Err::<TableView, ErrorType>(kind),
            Ok(current) => if k - 1 < root.tokens@.len() && root.tokens@[k - 1]@.text == "right join"@ {
                r == Err::<TableView, ErrorType>(ErrorType::Runtime)
            } else {
                exists|next: Gives<TableView>| #[trigger] is_given(next) && statement_gives(
                    root.children@[tables[k as int] as int],
                    ops,
                    store,
                    next,
                ) && match next {
                    Err(kind) => r == Err::<TableView, ErrorType>(kind),
                    Ok(joining) => join_gives(
                        current,
                        joining,
                        root.children@[conditions[k - 1] as int],
                        ops,
                        store,
                        r,
                    ),
                }
            },
        }
    }
}

/// Every place of a FROM clause is the place of a child.
pub open spec fn places_fit(root: ParserNode) -> bool {
    let tables = places(root.children@, root.children@.len(), true);
    let conditions = places(root.children@, root.children@.len(), false);
    (forall|i: int| 0 <= i < tables.len() ==> (#[trigger] tables[i]) < root.children@.len()) && (forall|
        i: int,
    | 0 <= i < conditions.len() ==> (#[trigger] conditions[i]) < root.children@.len())
}

#[via_fn]
proof fn folded_gives_decreases(root: ParserNode, ops: OpContext, store: Store, k: nat, r: Gives<TableView>) {
    let tables = places(root.children@, root.children@.len(), true);
    let conditions = places(root.children@, root.children@.len(), false);
    if !(tables.len() == 0 || k >= tables.len() || k > conditions.len() || !places_fit(root)) {
        lemma_child_smaller(root, tables[0] as int);
        if k > 0 {
            lemma_child_smaller(root, tables[k as int] as int);
            lemma_child_smaller(root, conditions[k - 1] as int);
        }
    }
}

/// A FROM clause: its first table, joined with the others in their order.
/// A clause without a child is a `Syntax` error, a clause without a table
/// a `Runtime` error.
pub open spec fn from_gives(root: ParserNode, ops: OpContext, store: Store, r: Gives<TableView>) -> bool
    decreases root, 11nat, 0nat,
{
    if root.children@.len() == 0 {
        r == Err::<TableView, ErrorType>(ErrorType::Syntax)
    } else if places(root.children@, root.children@.len(), true).len() == 0 {
        r == Err::<TableView, ErrorType>(ErrorType::Runtime)
    } else {
        folded_gives(root, ops, store, joins_of(root), r)
    }
}

/// A table with those of the first `n` columns of another pushed after its
/// own whose names it does not hold exactly once.
pub open spec fn unknown_pushed(base: TableView, other: TableView, n: nat) -> TableView
    decreases n,
{
    if n == 0 {
        base
    } else {
        let before = unknown_pushed(base, other, (n - 1) as nat);
        if before.found(other.names[n - 1]).len() == 1 {
            before
        } else {
            with_column(before, other.names[n - 1], other.columns[n - 1], before.alias)
        }
    }
}

/// The table of one group: the key columns at the first row of the group,
/// then every column of the source whose name no key column has, with the
/// rows of the group.
pub open spec fn group_view(
    table: TableView,
    keys: TableView,
    assignments: Seq<usize>,
    group: usize,
    first: usize,
) -> TableView {
    unknown_pushed(
        with_rows(keys, RowsOp::Row(first)),
        kept_rows(table, members(assignments, group)),
        table.columns.len(),
    )
}

/// The key table of a grouping: the evaluated keys, which must have a row
/// for every row of the table; a single row stands for every row.
pub open spec fn keys_of(evaluated: TableView, rows: usize) -> Option<TableView> {
    if evaluated.rows() == rows {
        Some(evaluated)
    } else if evaluated.rows() == 1 {
        Some(with_rows(evaluated, RowsOp::Repeat(rows)))
    } else {
        None
    }
}

/// The tables of the groups, in the order of the groups.
pub open spec fn groups_of(
    table: TableView,
    keys: TableView,
    assignments: Seq<usize>,
    representatives: Seq<usize>,
) -> Seq<TableView> {
    Seq::new(
        representatives.len(),
        |g: int| group_view(table, keys, assignments, g as usize, representatives[g]),
    )
}

/// The tables of the groups of a table by the hash of the rows of its key
/// table, in the order in which the groups first appear.
pub open spec fn grouping_gives(table: TableView, keys: TableView, r: Gives<Seq<TableView>>) -> bool {
    exists|assignments: Seq<usize>, representatives: Seq<usize>|
        #![trigger grouped(keys, table.rows(), assignments, representatives)]
        grouped(keys, table.rows(), assignments, representatives) && r == Ok::<Seq<TableView>, ErrorType>(
            groups_of(table, keys, assignments, representatives),
        )
}

/// A GROUP BY clause: the tables of the groups of the table by the hash of
/// the rows of its keys, in the order in which the groups first appear. A
/// clause without keys, or with keys of another length than the table, is
/// a `Runtime` error.
pub open spec fn groups_give(
    node: ParserNode,
    ops: OpContext,
    table: TableView,
    store: Store,
    r: Gives<Seq<TableView>>,
) -> bool
    decreases node, 6nat, 0nat,
    via groups_give_decreases
{
    if node.children@.len() == 0 || table.rows() > usize::MAX {
        r == Err::<Seq<TableView>, ErrorType>(ErrorType::Runtime)
    } else {
        exists|evaluated: Gives<TableView>| #[trigger] is_given(evaluated) && columns_gives(
            node.children@[0],
            ops,
            table,
            store,
            evaluated,
        ) && match evaluated {
            Err(kind) => r == Err::<Seq<TableView>, ErrorType>(kind),
            Ok(e) => match keys_of(e, table.rows() as usize) {
                None => r == Err::<Seq<TableView>, ErrorType>(ErrorType::Runtime),
                Some(keys) => grouping_gives(table, keys, r),
            },
        }
    }
}

#[via_fn]
proof fn groups_give_decreases(node: ParserNode, ops: OpContext, table: TableView, store: Store, r: Gives<Seq<TableView>>) {
    if node.children@.len() > 0 {
        lemma_child_smaller(node, 0);
    }
}

/// The projections of the first `k` groups, each of which must be one row;
/// a projection of any other length is a `Runtime` error.
pub open spec fn projections_give(
    columns: ParserNode,
    ops: OpContext,
    groups: Seq<TableView>,
    store: Store,
    k: nat,
    r: Gives<Seq<TableView>>,
) -> bool
    decreases columns, 6nat, k,
{
    if k == 0 || k > groups.len() {
        r == Ok::<Seq<TableView>, ErrorType>(Seq::empty())
    } else {
        exists|before: Gives<Seq<TableView>>| #[trigger] is_given(before) && projections_give(
            columns,
            ops,
            groups,
            store,
            (k - 1) as nat,
            before,
        ) && match before {
            Err(kind) => r == Err::<Seq<TableView>, ErrorType>(kind),
            Ok(done) => exists|projection: Gives<TableView>| #[trigger] is_given(projection) && columns_gives(
                columns,
                ops,
                groups[k - 1],
                store,
                projection,
            ) && match projection {
                Err(kind) => r == Err::<Seq<TableView>, ErrorType>(kind),
                Ok(t) => if t.rows() != 1 {
                    r == Err::<Seq<TableView>, ErrorType>(ErrorType::Runtime)
                } else {
                    r == Ok::<Seq<TableView>, ErrorType>(done.push(t))
                },
            },
        }
    }
}

/// The first `n` tables one under the other.
pub open spec fn stacked_views(tables: Seq<TableView>, n: nat) -> TableView
    decreases n,
{
    if n <= 1 {
        tables[0]
    } else {
        stacked(stacked_views(tables, (n - 1) as nat), tables[n - 1])
    }
}

/// Tables one under the other: of no table the empty table; tables that
/// differ from the first in the number or the types of their columns are
/// an error.
pub open spec fn stack_gives(tables: Seq<TableView>, r: Gives<TableView>) -> bool {
    if tables.len() == 0 {
        r == Ok::<TableView, ErrorType>(empty_table())
    } else if forall|i: int| 1 <= i < tables.len() ==> stackable(tables[0], #[trigger] tables[i]) {
        r == Ok::<TableView, ErrorType>(stacked_views(tables, tables.len()))
    } else {
        r is Err
    }
}

/// The projection of the groups: the projection of every group, one row
/// each, one under the other.
pub open spec fn projected_gives(
    columns: ParserNode,
    ops: OpContext,
    groups: Seq<TableView>,
    store: Store,
    r: Gives<TableView>,
) -> bool
    decreases columns, 7nat, 0nat,
{
    exists|projections: Gives<Seq<TableView>>| #[trigger] is_given(projections) && projections_give(
        columns,
        ops,
        groups,
        store,
        groups.len(),
        projections,
    ) && match projections {
        Err(kind) => r == Err::<TableView, ErrorType>(kind),
        Ok(p) => stack_gives(p, r),
    }
}

/// A grouped projection: the groups of the table by the GROUP BY clause
/// of the query, at place `group`, and the projection, at place
/// `columns`, of them.
pub open spec fn grouped_gives(
    root: ParserNode,
    group: usize,
    columns: usize,
    ops: OpContext,
    table: TableView,
    store: Store,
    r: Gives<TableView>,
) -> bool
    decreases root, 6nat, 0nat,
    via grouped_gives_decreases
{
    if group >= root.children@.len() || columns >= root.children@.len() {
        false
    } else {
        exists|groups: Gives<Seq<TableView>>| #[trigger] is_given(groups) && groups_give(
            root.children@[group as int],
            ops,
            table,
            store,
            groups,
        ) && match groups {
            Err(kind) => r == Err::<TableView, ErrorType>(kind),
            Ok(g) => projected_gives(root.children@[columns as int], ops, g, store, r),
        }
    }
}

#[via_fn]
proof fn grouped_gives_decreases(
    root: ParserNode,
    group: usize,
    columns: usize,
    ops: OpContext,
    table: TableView,
    store: Store,
    r: Gives<TableView>,
) {
    if !(group >= root.children@.len() || columns >= root.children@.len()) {
        lemma_child_smaller(root, group as int);
        lemma_child_smaller(root, columns as int);
    }
}

/// The place of the clause of a kind in a query.
pub open spec fn clause(root: ParserNode, kind: ParserNodeType) -> Option<usize> {
    last_of(root.children@, kind, root.children@.len())
}

/// What a FROM clause of the query gives; without one, the empty table.
pub open spec fn source_gives(root: ParserNode, ops: OpContext, store: Store, r: Gives<TableView>) -> bool
    decreases root, 12nat, 0nat,
    via source_gives_decreases
{
    match clause(root, ParserNodeType::From) {
        None => r == Ok::<TableView, ErrorType>(empty_table()),
        Some(f) => f < root.children@.len() && from_gives(root.children@[f as int], ops, store, r),
    }
}

#[via_fn]
proof fn source_gives_decreases(root: ParserNode, ops: OpContext, store: Store, r: Gives<TableView>) {
    match clause(root, ParserNodeType::From) {
        Some(f) => {
            if f < root.children@.len() {
                lemma_child_smaller(root, f as int);
            }
        },
        None => {},
    }
}

/// What the WHERE clause of the query makes of the source; without one,
/// the source.
pub open spec fn kept_gives(root: ParserNode, ops: OpContext, store: Store, source: TableView, r: Gives<TableView>) -> bool
    decreases root, 7nat, 0nat,
    via kept_gives_decreases
{
    match clause(root, ParserNodeType::Where) {
        None => r == Ok::<TableView, ErrorType>(source),
        Some(w) => if w < root.children@.len() {
            where_gives(root.children@[w as int], ops, source, store, r)
        } else {
            false
        },
    }
}

#[via_fn]
proof fn kept_gives_decreases(root: ParserNode, ops: OpContext, store: Store, source: TableView, r: Gives<TableView>) {
    match clause(root, ParserNodeType::Where) {
        Some(w) => {
            if w < root.children@.len() {
                lemma_child_smaller(root, w as int);
            }
        },
        None => {},
    }
}

/// What the projection of the query gives for the rows that are kept:
/// with a GROUP BY clause the projection of every group, one row each, then
/// ordered; without one the projection of the ordered rows.
pub open spec fn selected_gives(
    root: ParserNode,
    ops: OpContext,
    store: Store,
    columns: usize,
    kept: TableView,
    r: Gives<TableView>,
) -> bool
    decreases root, 7nat, 0nat,
    via selected_gives_decreases
{
    if columns >= root.children@.len() {
        false
    } else {
        match clause(root, ParserNodeType::GroupBy) {
            Some(g) => exists|merged: Gives<TableView>| #[trigger] is_given(merged) && g < root.children@.len()
                && grouped_gives(root, g, columns, ops, kept, store, merged) && match merged {
                Err(kind) => r == Err::<TableView, ErrorType>(kind),
                Ok(m) => match clause(root, ParserNodeType::OrderBy) {
                    None => r == Ok::<TableView, ErrorType>(m),
                    Some(o) => order_gives(root.children@[o as int], m, r),
                },
            },
            None => exists|ordered: Gives<TableView>| #[trigger] is_given(ordered) && (match clause(
                root,
                ParserNodeType::OrderBy,
            ) {
                None => ordered == Ok::<TableView, ErrorType>(kept),
                Some(o) => order_gives(root.children@[o as int], kept, ordered),
            }) && match ordered {
                Err(kind) => r == Err::<TableView, ErrorType>(kind),
                Ok(t) => columns_gives(root.children@[columns as int], ops, t, store, r),
            },
        }
    }
}

#[via_fn]
proof fn selected_gives_decreases(
    root: ParserNode,
    ops: OpContext,
    store: Store,
    columns: usize,
    kept: TableView,
    r: Gives<TableView>,
) {
    if columns < root.children@.len() {
        lemma_child_smaller(root, columns as int);
    }
}

/// What the LIMIT clause of the query makes of the projection; without
/// one, the projection.
pub open spec fn limited_gives(root: ParserNode, selected: TableView, r: Gives<TableView>) -> bool {
    match clause(root, ParserNodeType::Limit) {
        None => r == Ok::<TableView, ErrorType>(selected),
        Some(l) => limit_gives(root.children@[l as int], selected, r),
    }
}

/// What the INTO clause of the query makes of the result: the empty table,
/// the result being asked to be written to a file; without one, the
/// result. A clause without a target is a `Runtime` error.
pub open spec fn written_gives(root: ParserNode, limited: TableView, r: Gives<TableView>) -> bool {
    match clause(root, ParserNodeType::Into) {
        None => r == Ok::<TableView, ErrorType>(limited),
        Some(i) => if root.children@[i as int].tokens@.len() == 0 {
            r == Err::<TableView, ErrorType>(ErrorType::Runtime)
        } else {
            r == Ok::<TableView, ErrorType>(empty_table())
        },
    }
}

/// The table that a query gives before its INTO clause: its clauses in
/// the order FROM, WHERE, GROUP BY or ORDER BY with the projection, LIMIT.
/// A tree that is no query is a `Syntax` error, a query without a
/// projection a `Runtime` error.
pub open spec fn answer_gives(root: ParserNode, ops: OpContext, store: Store, r: Gives<TableView>) -> bool
    decreases root, 13nat, 0nat,
{
    if root.node_type != ParserNodeType::Query {
        r == Err::<TableView, ErrorType>(ErrorType::Syntax)
    } else {
        exists|source: Gives<TableView>| #[trigger] is_given(source) && source_gives(root, ops, store, source)
            && match source {
            Err(kind) => r == Err::<TableView, ErrorType>(kind),
            Ok(t0) => exists|kept: Gives<TableView>| #[trigger] is_given(kept) && kept_gives(
                root,
                ops,
                store,
                t0,
                kept,
            ) && match kept {
                Err(kind) => r == Err::<TableView, ErrorType>(kind),
                Ok(t1) => match clause(root, ParserNodeType::Columns) {
                    None => r == Err::<TableView, ErrorType>(ErrorType::Runtime),
                    Some(c) => exists|selected: Gives<TableView>| #[trigger] is_given(selected)
                        && selected_gives(root, ops, store, c, t1, selected) && match selected {
                        Err(kind) => r == Err::<TableView, ErrorType>(kind),
                        Ok(t2) => limited_gives(root, t2, r),
                    },
                },
            },
        }
    }
}

/// A query: the table before its INTO clause, and what the clause makes
/// of it.
pub open spec fn query_gives(root: ParserNode, ops: OpContext, store: Store, r: Gives<TableView>) -> bool
    decreases root, 14nat, 0nat,
{
    exists|answer: Gives<TableView>| #[trigger] is_given(answer) && answer_gives(root, ops, store, answer)
        && match answer {
        Err(kind) => r == Err::<TableView, ErrorType>(kind),
        Ok(table) => written_gives(root, table, r),
    }
}

/// The file that the INTO clause of a query asks for: its name is the
/// clause's target without quotes, and its text the header and the rows
/// of the table that the query gives before the clause, with a tab
/// between the fields for a name that ends in `.tsv` and a comma
/// otherwise.
pub open spec fn file_of(root: ParserNode, table: TableView, file: FileOutput) -> bool {
    clause(root, ParserNodeType::Into) matches Some(i) && root.children@[i as int].tokens@.len() > 0
        && file.filename@ == unquoted(root.children@[i as int].tokens@[0]@.text) && file_holds(table, file)
}

/// The file that a query with an INTO clause asks for.
pub open spec fn file_gives(root: ParserNode, ops: OpContext, store: Store, file: FileOutput) -> bool {
    exists|answer: Gives<TableView>| #[trigger]
        is_given(answer) && answer_gives(root, ops, store, answer) && answer is Ok && file_of(
            root,
            answer->Ok_0,
            file,
        )
}

} // verus!
