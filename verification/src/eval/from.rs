//! FROM: the source table of a query, with its joins.

use vstd::prelude::*;
use vstd::std_specs::vecdeque::axiom_vec_dequeue_index_decreases;
use std::rc::Rc;
use crate::eval::columns::{eval_expression, lemma_grows_chain};
use crate::eval::meaning::{
    beside, column_outcome, folded_gives, from_gives, is_given, join_gives, joins_of, mask_of,
    paired_gives, places, places_fit, pushed, statement_gives, table_outcome,
};
use crate::eval::{FileOutput, grows, select};
use crate::ops::OpContext;
use crate::parser::{ParserNode, ParserNodeType};
use crate::result::{ErrorType, SqlError, SqlResult};
use crate::table::impl_column::{gathered, gathered_or_null, selected, selected_positions};
use crate::table::laws::lemma_longest_of_equal;
use crate::table::{Column, ColumnView, IndexKey, NamedColumn, Store, Table, TableView};

verus! {

/// The rows of the right table that pair with one row of the left table:
/// those at which the condition is true, or no row at all, which stands
/// for a row of nulls.
pub open spec fn partners(mask: Seq<Option<bool>>) -> Seq<Option<usize>> {
    let found = selected(mask, mask.len());
    if found.len() == 0 {
        seq![None]
    } else {
        Seq::new(found.len(), |k: int| Some(found[k]))
    }
}

/// Adds the pairs of one left row to the pairs found so far.
pub fn pair_row(
    left_row: usize,
    mask: &Vec<Option<bool>>,
    left_rows: &mut Vec<usize>,
    right_rows: &mut Vec<Option<usize>>,
)
    ensures
        final(left_rows)@ == old(left_rows)@ + Seq::new(partners(mask@).len(), |k: int| left_row),
        final(right_rows)@ == old(right_rows)@ + partners(mask@),
{
    let found = selected_positions(mask, mask.len());
    if found.len() == 0 {
        left_rows.push(left_row);
        right_rows.push(None);
        assert(left_rows@ =~= old(left_rows)@ + Seq::new(partners(mask@).len(), |k: int| left_row));
        assert(right_rows@ =~= old(right_rows)@ + partners(mask@));
    } else {
        let mut k: usize = 0;
        while k < found.len()
            invariant
                k <= found@.len(),
                found@ == selected(mask@, mask@.len()),
                found@.len() > 0,
                left_rows@ == old(left_rows)@ + Seq::new(k as nat, |j: int| left_row),
                right_rows@ == old(right_rows)@ + Seq::new(k as nat, |j: int| Some(found@[j])),
            decreases found@.len() - k,
        {
            left_rows.push(left_row);
            right_rows.push(Some(found[k]));
            assert(left_rows@ =~= old(left_rows)@ + Seq::new((k + 1) as nat, |j: int| left_row));
            assert(right_rows@ =~= old(right_rows)@ + Seq::new((k + 1) as nat, |j: int| Some(found@[j])));
            k = k + 1;
        }
        assert(right_rows@ =~= old(right_rows)@ + partners(mask@));
    }
}

/// The join of two tables by the given pairs of rows: the columns of the
/// left table, then those of the right table, each under the alias of its
/// table; a pair without a right row has nulls on the right.
pub open spec fn joined(
    left: TableView,
    right: TableView,
    left_rows: Seq<usize>,
    right_rows: Seq<Option<usize>>,
) -> TableView {
    TableView {
        alias: Seq::empty(),
        names: left.names + right.names,
        index: Seq::new(
            left.names.len() + right.names.len(),
            |i: int|
                if i < left.names.len() {
                    IndexKey { qualifier: left.alias, name: left.names[i], position: i as nat }
                } else {
                    IndexKey {
                        qualifier: right.alias,
                        name: right.names[i - left.names.len()],
                        position: i as nat,
                    }
                },
        ),
        columns: Seq::new(
            left.columns.len() + right.columns.len(),
            |i: int|
                if i < left.columns.len() {
                    ColumnView {
                        kind: left.columns[i].kind,
                        cells: gathered(left.columns[i].cells, left_rows),
                    }
                } else {
                    ColumnView {
                        kind: right.columns[i - left.columns.len()].kind,
                        cells: gathered_or_null(right.columns[i - left.columns.len()].cells, right_rows),
                    }
                },
        ),
    }
}

/// A join has columns of one length: one row for each pair.
pub proof fn lemma_joined_rectangular(
    left: TableView,
    right: TableView,
    left_rows: Seq<usize>,
    right_rows: Seq<Option<usize>>,
)
    requires
        left.wf(),
        right.wf(),
        left_rows.len() == right_rows.len(),
    ensures
        joined(left, right, left_rows, right_rows).wf(),
        joined(left, right, left_rows, right_rows).rectangular(),
{
    let t = joined(left, right, left_rows, right_rows);
    assert forall|i: int| 0 <= i < t.columns.len() implies (#[trigger] t.columns[i]).cells.len()
        == left_rows.len() by {}
    lemma_longest_of_equal(t.columns, t.columns.len(), left_rows.len());
}

/// Makes the table of a join from the pairs of rows.
pub fn assemble(left: &Table, right: &Table, left_rows: &Vec<usize>, right_rows: &Vec<Option<usize>>) -> (r:
    Table)
    requires
        left@.wf(),
        right@.wf(),
        left@.rectangular(),
        right@.rectangular(),
        left_rows@.len() == right_rows@.len(),
        forall|k: int| 0 <= k < left_rows@.len() ==> (#[trigger] left_rows@[k]) < left@.rows(),
        forall|k: int|
            0 <= k < right_rows@.len() ==> (#[trigger] right_rows@[k] matches Some(p) ==> p
                < right@.rows()),
    ensures
        r@ == joined(left@, right@, left_rows@, right_rows@),
        r@.wf(),
        r@.rectangular(),
{
    let mut t = Table::new();
    let left_width: usize = left.columns.len();
    let right_width: usize = right.columns.len();
    let ghost goal = joined(left@, right@, left_rows@, right_rows@);
    let mut i: usize = 0;
    while i < left_width
        invariant
            i <= left_width,
            left_width == left@.columns.len(),
            left@.wf(),
            left@.rectangular(),
            forall|k: int| 0 <= k < left_rows@.len() ==> (#[trigger] left_rows@[k]) < left@.rows(),
            goal == joined(left@, right@, left_rows@, right_rows@),
            t@.alias == Seq::<char>::empty(),
            t@.names == goal.names.take(i as int),
            t@.index == goal.index.take(i as int),
            t@.columns == goal.columns.take(i as int),
        decreases left_width - i,
    {
        assert(left@.columns[i as int].cells.len() == left@.rows());
        let column = left.columns[i].gather(left_rows);
        let name = left.column_names[i].clone();
        t.push(NamedColumn { name, column: Rc::new(column) }, Some(left.alias.as_str()));
        proof {
            assert(t@.names =~= goal.names.take(i + 1));
            assert(t@.index =~= goal.index.take(i + 1));
            assert(t@.columns =~= goal.columns.take(i + 1));
        }
        i = i + 1;
    }
    let mut j: usize = 0;
    while j < right_width
        invariant
            j <= right_width,
            right_width == right@.columns.len(),
            left_width == left@.columns.len(),
            left@.wf(),
            right@.wf(),
            right@.rectangular(),
            forall|k: int|
                0 <= k < right_rows@.len() ==> (#[trigger] right_rows@[k] matches Some(p) ==> p
                    < right@.rows()),
            goal == joined(left@, right@, left_rows@, right_rows@),
            t@.alias == Seq::<char>::empty(),
            t@.names == goal.names.take(left_width + j),
            t@.index == goal.index.take(left_width + j),
            t@.columns == goal.columns.take(left_width + j),
        decreases right_width - j,
    {
        assert(right@.columns[j as int].cells.len() == right@.rows());
        let column = right.columns[j].gather_or_null(right_rows);
        let name = right.column_names[j].clone();
        t.push(NamedColumn { name, column: Rc::new(column) }, Some(right.alias.as_str()));
        proof {
            assert(t@.names =~= goal.names.take(left_width + j + 1));
            assert(t@.index =~= goal.index.take(left_width + j + 1));
            assert(t@.columns =~= goal.columns.take(left_width + j + 1));
        }
        j = j + 1;
    }
    proof {
        assert(goal.names.take(goal.names.len() as int) =~= goal.names);
        assert(goal.index.take(goal.index.len() as int) =~= goal.index);
        assert(goal.columns.take(goal.columns.len() as int) =~= goal.columns);
        lemma_joined_rectangular(left@, right@, left_rows@, right_rows@);
    }
    t
}

/// The table that one entry of a FROM clause names: a table of the store,
/// under a new alias where one is given, or the result of a query in
/// parentheses under its alias.
pub fn from_statement_to_table(
    node: &ParserNode,
    ops: &OpContext,
    tables: &Store,
    written: &mut Vec<FileOutput>,
) -> (r: SqlResult<Table>)
    requires
        tables.wf(),
    ensures
        grows(old(written)@, final(written)@),
        statement_gives(*node, *ops, *tables, table_outcome(r)),
        r matches Ok(t) ==> t@.wf() && t@.rectangular(),
    decreases *node, 0nat,
{
    if node.tokens.len() == 0 {
        return Err(SqlError::new("table name required", ErrorType::Runtime));
    }
    if node.children.len() > 0 {
        let alias = node.tokens[0].get_text().clone();
        proof {
            axiom_vec_dequeue_index_decreases(node.children, 0);
        }
        let selected = select::eval(&node.children[0], ops, tables, written);
        assert(is_given(table_outcome(selected)));
        match selected {
            Ok(t) => {
                let renamed = t.with_new_alias(alias);
                Ok(renamed)
            },
            Err(e) => Err(e),
        }
    } else {
        let table_name = &node.tokens[0];
        match tables.get(table_name.get_text().as_str()) {
            Ok(t) => {
                let ghost place = tables.find(table_name@.text)->Some_0;
                proof {
                    crate::table::impl_store::lemma_position_found(
                        tables.tables@,
                        table_name@.text,
                        tables.tables@.len(),
                    );
                }
                assert(tables.tables@[place as int]@.wf() && tables.tables@[place as int]@.rectangular());
                if node.tokens.len() > 1 {
                    Ok(t.with_new_alias(node.tokens[1].get_text().clone()))
                } else {
                    Ok(t.clone())
                }
            },
            Err(e) => Err(e),
        }
    }
}

/// The left join of two tables on a condition.
///
/// For every row of the left table the condition is evaluated against
/// that row next to the whole right table. It must give a boolean column
/// (else a `Type` error) with one entry for every row of the right table
/// (else a `Runtime` error). The left row is paired with every right row
/// at which the condition is true, or, where there is none, once with a
/// row of nulls.
pub fn join(
    left: &Table,
    right: &Table,
    expression: &ParserNode,
    ops: &OpContext,
    store: &Store,
    written: &mut Vec<FileOutput>,
) -> (r: SqlResult<Table>)
    requires
        left@.wf(),
        right@.wf(),
        left@.rectangular(),
        right@.rectangular(),
        store.wf(),
    ensures
        grows(old(written)@, final(written)@),
        join_gives(left@, right@, *expression, *ops, *store, table_outcome(r)),
        r matches Ok(t) ==> t@.wf() && t@.rectangular() && t@.names == left@.names + right@.names,
    decreases *expression, 2nat,
{
    let mut left_rows: Vec<usize> = Vec::new();
    let mut right_rows: Vec<Option<usize>> = Vec::new();
    let rows: usize = left.len();
    let right_columns = right.to_columns();
    let mut row: usize = 0;
    while row < rows
        invariant
            row <= rows,
            rows == left@.rows(),
            left@.wf(),
            right@.wf(),
            store.wf(),
            grows(old(written)@, written@),
            left_rows@.len() == right_rows@.len(),
            forall|k: int| 0 <= k < left_rows@.len() ==> (#[trigger] left_rows@[k]) < left@.rows(),
            forall|k: int|
                0 <= k < right_rows@.len() ==> (#[trigger] right_rows@[k] matches Some(p) ==> p
                    < right@.rows()),
            right_columns@.len() == right@.width(),
            forall|j: int|
                0 <= j < right_columns@.len() ==> (#[trigger] right_columns@[j]).name@ == right@.names[j]
                    && (*right_columns@[j].column)@ == right@.columns[j],
            paired_gives(
                left@,
                right@,
                *expression,
                *ops,
                *store,
                row as nat,
                Ok::<(Seq<usize>, Seq<Option<usize>>), ErrorType>((left_rows@, right_rows@)),
            ),
        decreases rows - row,
    {
        let ghost so_far = Ok::<(Seq<usize>, Seq<Option<usize>>), ErrorType>((left_rows@, right_rows@));
        assert(is_given(so_far));
        let mut temp_table = left.row(row);
        let ghost base = temp_table@;
        let mut c: usize = 0;
        while c < right_columns.len()
            invariant
                c <= right_columns@.len(),
                right_columns@.len() == right@.width(),
                right@.wf(),
                forall|j: int|
                    0 <= j < right_columns@.len() ==> (#[trigger] right_columns@[j]).name@
                        == right@.names[j] && (*right_columns@[j].column)@ == right@.columns[j],
                temp_table@.wf(),
                temp_table@ == pushed(base, right@, c as nat),
            decreases right_columns@.len() - c,
        {
            let column = NamedColumn {
                name: right_columns[c].name.clone(),
                column: right_columns[c].column.clone(),
            };
            temp_table.push(column, Some(right.alias.as_str()));
            c = c + 1;
        }
        assert(temp_table@ == beside(left@, right@, row));
        let ghost before = written@;
        let condition = eval_expression(expression, ops, &temp_table, store, written);
        let ghost held = column_outcome(condition);
        proof {
            lemma_grows_chain(old(written)@, before, written@);
            assert(is_given(held));
        }
        let evaluated = match condition {
            Ok(evaluated) => evaluated,
            Err(e) => {
                proof {
                    assert(paired_gives(
                        left@,
                        right@,
                        *expression,
                        *ops,
                        *store,
                        (row + 1) as nat,
                        Err::<(Seq<usize>, Seq<Option<usize>>), ErrorType>(e.type_),
                    ));
                    lemma_pairs_fail(left@, right@, *expression, *ops, *store, (row + 1) as nat, rows as nat, e.type_);
                    assert(is_given(Err::<(Seq<usize>, Seq<Option<usize>>), ErrorType>(e.type_)));
                }
                return Err(e);
            },
        };
        match &*evaluated.column {
            Column::Booleans(mask) => {
                if mask.len() != right.len() {
                    let e = SqlError::new(
                        "join condition must give one boolean for every row of the joined table",
                        ErrorType::Runtime,
                    );
                    proof {
                        assert(paired_gives(
                            left@,
                            right@,
                            *expression,
                            *ops,
                            *store,
                            (row + 1) as nat,
                            Err::<(Seq<usize>, Seq<Option<usize>>), ErrorType>(e.type_),
                        ));
                        lemma_pairs_fail(left@, right@, *expression, *ops, *store, (row + 1) as nat, rows as nat, e.type_);
                        assert(is_given(Err::<(Seq<usize>, Seq<Option<usize>>), ErrorType>(e.type_)));
                    }
                    return Err(e);
                }
                let ghost old_left = left_rows@;
                let ghost old_right = right_rows@;
                pair_row(row, mask, &mut left_rows, &mut right_rows);
                proof {
                    assert(mask_of(evaluated@.column.cells) =~= mask@);
                    assert(paired_gives(
                        left@,
                        right@,
                        *expression,
                        *ops,
                        *store,
                        (row + 1) as nat,
                        Ok::<(Seq<usize>, Seq<Option<usize>>), ErrorType>((left_rows@, right_rows@)),
                    ));
                    crate::table::impl_column::lemma_selected_bound(mask@, mask@.len());
                    assert forall|k: int| 0 <= k < left_rows@.len() implies (#[trigger] left_rows@[k])
                        < left@.rows() by {
                        if k < old_left.len() {
                            assert(left_rows@[k] == old_left[k]);
                        }
                    }
                    assert forall|k: int| 0 <= k < right_rows@.len() implies (
                    #[trigger] right_rows@[k] matches Some(p) ==> p < right@.rows()) by {
                        if k < old_right.len() {
                            assert(right_rows@[k] == old_right[k]);
                        } else {
                            assert(right_rows@[k] == partners(mask@)[k - old_right.len()]);
                        }
                    }
                }
            },
            _ => {
                let e = SqlError::new("join condition must evaluate to boolean", ErrorType::Type);
                proof {
                    assert(paired_gives(
                        left@,
                        right@,
                        *expression,
                        *ops,
                        *store,
                        (row + 1) as nat,
                        Err::<(Seq<usize>, Seq<Option<usize>>), ErrorType>(e.type_),
                    ));
                    lemma_pairs_fail(left@, right@, *expression, *ops, *store, (row + 1) as nat, rows as nat, e.type_);
                    assert(is_given(Err::<(Seq<usize>, Seq<Option<usize>>), ErrorType>(e.type_)));
                }
                return Err(e);
            },
        }
        row = row + 1;
    }
    let t = assemble(left, right, &left_rows, &right_rows);
    assert(is_given(Ok::<(Seq<usize>, Seq<Option<usize>>), ErrorType>((left_rows@, right_rows@))));
    Ok(t)
}

/// Once a row of a join fails, the join fails with it.
pub proof fn lemma_pairs_fail(
    left: TableView,
    right: TableView,
    condition: ParserNode,
    ops: OpContext,
    store: Store,
    k: nat,
    m: nat,
    kind: ErrorType,
)
    requires
        k <= m,
        paired_gives(left, right, condition, ops, store, k, Err::<(Seq<usize>, Seq<Option<usize>>), ErrorType>(kind)),
    ensures
        paired_gives(left, right, condition, ops, store, m, Err::<(Seq<usize>, Seq<Option<usize>>), ErrorType>(kind)),
    decreases m,
{
    if k < m {
        lemma_pairs_fail(left, right, condition, ops, store, k, (m - 1) as nat, kind);
        assert(is_given(Err::<(Seq<usize>, Seq<Option<usize>>), ErrorType>(kind)));
    }
}

/// Once a join of a FROM clause fails, the clause fails with it.
pub proof fn lemma_folded_fails(root: ParserNode, ops: OpContext, store: Store, k: nat, m: nat, kind: ErrorType)
    requires
        k <= m <= joins_of(root),
        places_fit(root),
        folded_gives(root, ops, store, k, Err::<TableView, ErrorType>(kind)),
    ensures
        folded_gives(root, ops, store, m, Err::<TableView, ErrorType>(kind)),
    decreases m,
{
    if k < m {
        lemma_folded_fails(root, ops, store, k, (m - 1) as nat, kind);
        assert(is_given(Err::<TableView, ErrorType>(kind)));
    }
}

/// The places of a FROM clause are places of its children.
pub proof fn lemma_places_fit(children: Seq<ParserNode>, n: nat, tables: bool)
    requires
        n <= children.len(),
        n <= usize::MAX,
    ensures
        forall|i: int| 0 <= i < places(children, n, tables).len() ==> (#[trigger] places(children, n, tables)[i]) < n,
    decreases n,
{
    if n > 0 {
        lemma_places_fit(children, (n - 1) as nat, tables);
        let rest = places(children, (n - 1) as nat, tables);
        let all = places(children, n, tables);
        assert forall|i: int| 0 <= i < all.len() implies (#[trigger] all[i]) < n by {
            if i < rest.len() {
                assert(all[i] == rest[i]);
            }
        }
    }
}

/// Whether a FROM clause names one table of the store and nothing else.
pub open spec fn names_one_table(root: ParserNode) -> bool {
    &&& root.children@.len() == 1
    &&& root.children@[0].node_type == ParserNodeType::FromStatement
    &&& root.children@[0].children@.len() == 0
    &&& root.children@[0].tokens@.len() > 0
}

/// The source table of a query: the first table of the clause, joined
/// with the others in their order.
///
/// A clause without a table is an error (`Syntax` for no children at all,
/// else `Runtime`); so is a right join (`Runtime`).
pub fn eval(root: &ParserNode, ops: &OpContext, store: &Store, written: &mut Vec<FileOutput>) -> (r: SqlResult<
    Table,
>)
    requires
        store.wf(),
    ensures
        grows(old(written)@, final(written)@),
        from_gives(*root, *ops, *store, table_outcome(r)),
        r matches Ok(t) ==> t@.wf() && t@.rectangular(),
        names_one_table(*root) ==> match store.find(root.children@[0].tokens@[0]@.text) {
            None => r is Err && r->Err_0.type_ == ErrorType::Lookup,
            Some(place) => place < store.tables@.len() && r is Ok && r->Ok_0@.columns
                == store.tables@[place as int]@.columns && r->Ok_0@.names
                == store.tables@[place as int]@.names,
        },
    decreases *root, 3nat,
{
    if root.children.len() == 0 {
        return Err(SqlError::new("from does not reference any tables", ErrorType::Syntax));
    }
    let mut table_nodes: Vec<usize> = Vec::new();
    let mut condition_nodes: Vec<usize> = Vec::new();
    let mut i: usize = 0;
    while i < root.children.len()
        invariant
            i <= root.children@.len(),
            table_nodes@ == places(root.children@, i as nat, true),
            condition_nodes@ == places(root.children@, i as nat, false),
        decreases root.children@.len() - i,
    {
        if root.children[i].node_type == ParserNodeType::FromStatement {
            table_nodes.push(i);
        } else {
            condition_nodes.push(i);
        }
        i = i + 1;
    }
    proof {
        lemma_places_fit(root.children@, root.children@.len(), true);
        lemma_places_fit(root.children@, root.children@.len(), false);
        assert(places_fit(*root));
        reveal_with_fuel(places, 2);
    }
    if table_nodes.len() == 0 {
        return Err(SqlError::new("select target not found", ErrorType::Runtime));
    }
    let joins: usize = if table_nodes.len() - 1 <= condition_nodes.len() {
        table_nodes.len() - 1
    } else {
        condition_nodes.len()
    };
    let first: usize = table_nodes[0];
    assert(first == table_nodes@[0]);
    proof {
        axiom_vec_dequeue_index_decreases(root.children, first as int);
    }
    let first_table = from_statement_to_table(&root.children[first], ops, store, written);
    proof {
        let tables = places(root.children@, root.children@.len(), true);
        let conditions = places(root.children@, root.children@.len(), false);
        assert(tables == table_nodes@);
        assert(conditions == condition_nodes@);
        assert(tables.len() > 0);
        assert(statement_gives(root.children@[first as int], *ops, *store, table_outcome(first_table)));
        assert(tables[0] == first);
        assert(statement_gives(root.children@[tables[0] as int], *ops, *store, table_outcome(first_table)));
        assert(folded_gives(*root, *ops, *store, 0, table_outcome(first_table)));
        if names_one_table(*root) {
            assert(tables =~= seq![0usize]);
            assert(first == 0);
        }
    }
    let mut current = match first_table {
        Ok(current) => current,
        Err(e) => {
            proof {
                lemma_folded_fails(*root, *ops, *store, 0, joins as nat, e.type_);
            }
            return Err(e);
        },
    };
    let mut k: usize = 0;
    while k < joins
        invariant
            k <= joins,
            joins == joins_of(*root),
            places_fit(*root),
            table_nodes@ == places(root.children@, root.children@.len(), true),
            condition_nodes@ == places(root.children@, root.children@.len(), false),
            table_nodes@.len() > 0,
            names_one_table(*root) ==> joins == 0,
            names_one_table(*root) ==> match store.find(root.children@[0].tokens@[0]@.text) {
                None => false,
                Some(place) => place < store.tables@.len() && current@.columns
                    == store.tables@[place as int]@.columns && current@.names
                    == store.tables@[place as int]@.names,
            },
            store.wf(),
            current@.wf(),
            current@.rectangular(),
            grows(old(written)@, written@),
            folded_gives(*root, *ops, *store, k as nat, Ok::<TableView, ErrorType>(current@)),
        decreases joins - k,
    {
        let ghost left = Ok::<TableView, ErrorType>(current@);
        assert(is_given(left));
        if k < root.tokens.len() && root.tokens[k].is("right join") {
            let e = SqlError::new("right joins are not supported", ErrorType::Runtime);
            proof {
                assert(folded_gives(*root, *ops, *store, (k + 1) as nat, Err::<TableView, ErrorType>(e.type_)));
                lemma_folded_fails(*root, *ops, *store, (k + 1) as nat, joins as nat, e.type_);
            }
            return Err(e);
        }
        let table_place: usize = table_nodes[k + 1];
        let condition_place: usize = condition_nodes[k];
        assert(table_place == table_nodes@[k + 1]);
        assert(condition_place == condition_nodes@[k as int]);
        proof {
            axiom_vec_dequeue_index_decreases(root.children, table_place as int);
            axiom_vec_dequeue_index_decreases(root.children, condition_place as int);
        }
        let ghost before = written@;
        let joining = from_statement_to_table(&root.children[table_place], ops, store, written);
        let ghost next = table_outcome(joining);
        proof {
            lemma_grows_chain(old(written)@, before, written@);
            assert(is_given(next));
        }
        let next_table = match joining {
            Ok(next_table) => next_table,
            Err(e) => {
                proof {
                    assert(folded_gives(*root, *ops, *store, (k + 1) as nat, Err::<TableView, ErrorType>(e.type_)));
                    lemma_folded_fails(*root, *ops, *store, (k + 1) as nat, joins as nat, e.type_);
                }
                return Err(e);
            },
        };
        let ghost between = written@;
        let joined_tables = join(&current, &next_table, &root.children[condition_place], ops, store, written);
        proof {
            lemma_grows_chain(old(written)@, between, written@);
            assert(folded_gives(*root, *ops, *store, (k + 1) as nat, table_outcome(joined_tables)));
        }
        current = match joined_tables {
            Ok(joined_table) => joined_table,
            Err(e) => {
                proof {
                    lemma_folded_fails(*root, *ops, *store, (k + 1) as nat, joins as nat, e.type_);
                }
                return Err(e);
            },
        };
        k = k + 1;
    }
    Ok(current)
}

} // verus!
