//! GROUP BY: the rows of a table by the values of their keys.

use vstd::prelude::*;
use vstd::std_specs::vecdeque::axiom_vec_dequeue_index_decreases;
use std::collections::HashMap;
use crate::eval::columns::lemma_grows_chain;
use crate::eval::meaning::{
    Gives, columns_gives, empty_table, group_view, grouped_gives, grouping_gives, groups_give, groups_of, is_given, kept_rows,
    keys_of, projected_gives, projections_give, stacked_views, table_outcome, unknown_pushed,
};
use crate::eval::{FileOutput, columns, grows};
use crate::ops::OpContext;
use crate::parser::ParserNode;
use crate::result::{ErrorType, SqlError, SqlResult};
use crate::table::impl_table::{RowsOp, stackable, stacked_all, with_rows};
use crate::table::impl_table_hash::row_hash;
use crate::table::laws::{lemma_longest_of_equal, lemma_rows_keep_rectangular};
use crate::table::{NamedColumn, Store, Table, TableView};

verus! {

broadcast use vstd::std_specs::hash::group_hash_axioms;

/// The groups of a table, in the order in which their keys first appear.
pub struct Grouped {
    pub groups: Vec<Table>,
}

/// Whether `assignments` and `representatives` group the first `n` rows of
/// the key table by their hash.
///
/// Every row is assigned to a group. The representative of a group is a
/// row of that group, no later than any other; representatives are
/// ascending, so groups are numbered by first appearance. Two groups
/// have different hashes: there is one group for each distinct hash.
pub open spec fn grouped(keys: TableView, n: nat, assignments: Seq<usize>, representatives: Seq<usize>) -> bool {
    &&& assignments.len() == n
    &&& forall|i: int| 0 <= i < n ==> (#[trigger] assignments[i]) < representatives.len()
    &&& forall|g: int| 0 <= g < representatives.len() ==> (#[trigger] representatives[g]) < n
    &&& forall|g: int, h: int|
        0 <= g < h < representatives.len() ==> representatives[g] < representatives[h]
    &&& forall|i: int|
        0 <= i < n ==> representatives[(#[trigger] assignments[i]) as int] <= i && row_hash(
            keys,
            representatives[assignments[i] as int] as nat,
        ) == row_hash(keys, i as nat)
    &&& forall|g: int, h: int|
        0 <= g < h < representatives.len() ==> row_hash(keys, representatives[g] as nat) != row_hash(
            keys,
            representatives[h] as nat,
        )
}

/// The hashes of the first `n` rows of the key table.
pub open spec fn key_hashes(keys: TableView, n: nat) -> Set<u64> {
    Set::new(|h: u64| exists|i: nat| i < n && #[trigger] row_hash(keys, i) == h)
}

/// Whether `keys` is the key table of a GROUP BY clause against a table:
/// what the keys of the clause evaluate to, with a row for every row of
/// the table, a single row standing for every row.
pub open spec fn keys_given(node: ParserNode, ops: OpContext, table: TableView, store: Store, keys: TableView) -> bool {
    node.children@.len() > 0 && table.rows() <= usize::MAX && exists|evaluated: Gives<TableView>| #[trigger]
        is_given(evaluated) && columns_gives(node.children@[0], ops, table, store, evaluated) && evaluated is Ok
            && keys_of(evaluated->Ok_0, table.rows() as usize) == Some(keys)
}

/// Whether a table has one row for each distinct hash of the rows of the
/// key table of a GROUP BY clause, or no column at all.
pub open spec fn one_row_for_each_key(
    node: ParserNode,
    ops: OpContext,
    table: TableView,
    store: Store,
    result: TableView,
) -> bool {
    exists|keys: TableView| #[trigger]
        keys_given(node, ops, table, store, keys) && (result.columns.len() > 0 ==> result.rows() == key_hashes(
            keys,
            table.rows(),
        ).len())
}

/// There are as many groups as the rows of the key table have distinct
/// hashes.
pub proof fn lemma_one_group_for_each_key(
    keys: TableView,
    n: nat,
    assignments: Seq<usize>,
    representatives: Seq<usize>,
)
    requires
        grouped(keys, n, assignments, representatives),
    ensures
        key_hashes(keys, n).finite(),
        key_hashes(keys, n).len() == representatives.len(),
{
    let hashes = Seq::new(representatives.len(), |g: int| row_hash(keys, representatives[g] as nat));
    assert(hashes.no_duplicates()) by {
        assert forall|g: int, h: int| 0 <= g < hashes.len() && 0 <= h < hashes.len() && g != h implies hashes[g]
            != hashes[h] by {
            if g < h {
                assert(row_hash(keys, representatives[g] as nat) != row_hash(keys, representatives[h] as nat));
            } else {
                assert(row_hash(keys, representatives[h] as nat) != row_hash(keys, representatives[g] as nat));
            }
        }
    }
    assert(hashes.to_set() =~= key_hashes(keys, n)) by {
        assert forall|h: u64| hashes.to_set().contains(h) implies key_hashes(keys, n).contains(h) by {
            let g = choose|g: int| 0 <= g < hashes.len() && hashes[g] == h;
            assert(representatives[g] < n);
            assert(row_hash(keys, representatives[g] as nat) == h);
        }
        assert forall|h: u64| key_hashes(keys, n).contains(h) implies hashes.to_set().contains(h) by {
            let i = choose|i: nat| i < n && #[trigger] row_hash(keys, i) == h;
            let g = assignments[i as int];
            assert(row_hash(keys, representatives[g as int] as nat) == row_hash(keys, i));
            assert(hashes[g as int] == h);
        }
    }
    hashes.unique_seq_to_set();
    vstd::seq_lib::seq_to_set_is_finite(hashes);
}

/// Groups the rows of the key table: for every row the number of its
/// group, and for every group its first row.
pub fn keys_to_assignments(grouped_by_keys: &Table) -> (r: (Vec<usize>, Vec<usize>))
    ensures
        grouped(grouped_by_keys@, grouped_by_keys@.rows(), r.0@, r.1@),
{
    let n: usize = grouped_by_keys.len();
    let ghost keys = grouped_by_keys@;
    let mut hist: HashMap<u64, usize> = HashMap::new();
    let mut assignments: Vec<usize> = Vec::new();
    let mut representative_rows: Vec<usize> = Vec::new();
    let mut i: usize = 0;
    while i < n
        invariant
            i <= n,
            keys == grouped_by_keys@,
            grouped(keys, i as nat, assignments@, representative_rows@),
            forall|j: int| 0 <= j < i ==> hist@.contains_key(#[trigger] row_hash(keys, j as nat)),
            forall|key: u64|
                hist@.contains_key(key) ==> (#[trigger] hist@[key]) < representative_rows@.len()
                    && row_hash(keys, representative_rows@[hist@[key] as int] as nat) == key,
        decreases n - i,
    {
        let hash: u64 = grouped_by_keys.hash_row(i);
        let ghost old_reps = representative_rows@;
        let ghost old_hist = hist@;
        if !hist.contains_key(&hash) {
            let counter: usize = representative_rows.len();
            representative_rows.push(i);
            hist.insert(hash, counter);
            proof {
                assert forall|g: int| 0 <= g < old_reps.len() implies row_hash(keys, old_reps[g] as nat)
                    != hash by {
                    let j: int = old_reps[g] as int;
                    assert(0 <= j < i);
                    assert(old_hist.contains_key(row_hash(keys, j as nat)));
                }
                assert forall|key: u64| hist@.contains_key(key) implies (#[trigger] hist@[key])
                    < representative_rows@.len() && row_hash(
                    keys,
                    representative_rows@[hist@[key] as int] as nat,
                ) == key by {
                    if key != hash {
                        assert(old_hist.contains_key(key));
                        assert(representative_rows@[old_hist[key] as int] == old_reps[old_hist[key] as int]);
                    }
                }
            }
        }
        let group: usize = match hist.get(&hash) {
            Some(g) => *g,
            None => 0,
        };
        assert(hist@.contains_key(hash));
        assert(group == hist@[hash]);
        let ghost old_assignments = assignments@;
        assignments.push(group);
        proof {
            assert forall|k: int| 0 <= k < i + 1 implies (#[trigger] assignments@[k])
                < representative_rows@.len() by {
                if k < i {
                    assert(assignments@[k] == old_assignments[k]);
                }
            }
            assert forall|g: int| 0 <= g < representative_rows@.len() implies (
            #[trigger] representative_rows@[g]) < i + 1 by {
                if g < old_reps.len() {
                    assert(representative_rows@[g] == old_reps[g]);
                }
            }
            assert forall|g: int, h: int| 0 <= g < h < representative_rows@.len() implies representative_rows@[g]
                < representative_rows@[h] by {
                if h < old_reps.len() {
                    assert(representative_rows@[g] == old_reps[g] && representative_rows@[h] == old_reps[h]);
                } else {
                    assert(representative_rows@[g] == old_reps[g]);
                }
            }
            assert forall|k: int| 0 <= k < i + 1 implies representative_rows@[(
            #[trigger] assignments@[k]) as int] <= k && row_hash(
                keys,
                representative_rows@[assignments@[k] as int] as nat,
            ) == row_hash(keys, k as nat) by {
                if k < i {
                    assert(assignments@[k] == old_assignments[k]);
                    assert(old_assignments[k] < old_reps.len());
                    assert(representative_rows@[old_assignments[k] as int] == old_reps[old_assignments[k] as int]);
                } else {
                    if group < old_reps.len() {
                        assert(representative_rows@[group as int] == old_reps[group as int]);
                        assert(old_reps[group as int] < i);
                    }
                }
            }
            assert forall|g: int, h: int| 0 <= g < h < representative_rows@.len() implies row_hash(
                keys,
                representative_rows@[g] as nat,
            ) != row_hash(keys, representative_rows@[h] as nat) by {
                if h < old_reps.len() {
                    assert(representative_rows@[g] == old_reps[g] && representative_rows@[h] == old_reps[h]);
                } else {
                    assert(representative_rows@[g] == old_reps[g]);
                }
            }
            assert forall|j: int| 0 <= j < i + 1 implies hist@.contains_key(
                #[trigger] row_hash(keys, j as nat),
            ) by {
                if j < i {
                    assert(old_hist.contains_key(row_hash(keys, j as nat)));
                }
            }
        }
        i = i + 1;
    }
    (assignments, representative_rows)
}

/// The mask of the rows that are assigned to `group`.
pub open spec fn members(assignments: Seq<usize>, group: usize) -> Seq<Option<bool>> {
    Seq::new(assignments.len(), |i: int| Some(assignments[i] == group))
}

fn selector(assignments: &Vec<usize>, group: usize) -> (mask: Vec<Option<bool>>)
    ensures
        mask@ == members(assignments@, group),
{
    let mut mask: Vec<Option<bool>> = Vec::new();
    let mut i: usize = 0;
    while i < assignments.len()
        invariant
            i <= assignments@.len(),
            mask@ == Seq::new(i as nat, |j: int| Some(assignments@[j] == group)),
        decreases assignments@.len() - i,
    {
        mask.push(Some(assignments[i] == group));
        assert(mask@ =~= Seq::new((i + 1) as nat, |j: int| Some(assignments@[j] == group)));
        i = i + 1;
    }
    mask
}

/// The table of one group: the key columns at the group's first row, then
/// every column of the source whose name no key column has, with the rows
/// of the group.
pub fn group_table(table: &Table, keys: &Table, assignments: &Vec<usize>, group: usize, first: usize) -> (r:
    Table)
    requires
        table@.wf(),
        keys@.wf(),
    ensures
        r@ == group_view(table@, keys@, assignments@, group, first),
        r@.wf(),
{
    let mut key_table = keys.row(first);
    let mask = selector(assignments, group);
    let selected_rows = table.where_(&mask);
    proof {
        assert(selected_rows@.columns =~= kept_rows(table@, mask@).columns);
    }
    let ghost base = key_table@;
    let ghost other = selected_rows@;
    let width: usize = selected_rows.columns.len();
    let mut j: usize = 0;
    while j < width
        invariant
            j <= width,
            width == selected_rows.columns@.len(),
            selected_rows@.wf(),
            other == selected_rows@,
            key_table@.wf(),
            key_table@ == unknown_pushed(base, other, j as nat),
        decreases width - j,
    {
        let name = selected_rows.column_names[j].clone();
        let known = key_table.column_search(name.as_str()).is_ok();
        if !known {
            let column = NamedColumn { name, column: selected_rows.columns[j].clone() };
            key_table.push(column, None);
        }
        j = j + 1;
    }
    key_table
}

/// What a grouping stands for.
pub open spec fn groups_outcome(r: SqlResult<Grouped>) -> Gives<Seq<TableView>> {
    match r {
        Ok(g) => Ok(table_views(g.groups@)),
        Err(e) => Err(e.type_),
    }
}

/// The views of a list of tables.
pub open spec fn table_views(tables: Seq<Table>) -> Seq<TableView> {
    Seq::new(tables.len(), |i: int| tables[i]@)
}

/// Groups the rows of `table` by the keys of the clause.
///
/// The keys are evaluated against the table; a key of one row stands for
/// every row, and keys of any other length than the table are a `Runtime`
/// error, as is a clause without keys. A table without rows has no
/// groups.
pub fn eval(
    node: &ParserNode,
    table: &Table,
    op_context: &OpContext,
    store: &Store,
    written: &mut Vec<FileOutput>,
) -> (r: SqlResult<Grouped>)
    requires
        table@.wf(),
        table@.rectangular(),
        store.wf(),
    ensures
        grows(old(written)@, final(written)@),
        groups_give(*node, *op_context, table@, *store, groups_outcome(r)),
        r matches Ok(groups) ==> (forall|j: int|
            0 <= j < groups.groups@.len() ==> (#[trigger] groups.groups@[j])@.wf())
            && groups.groups@.len() <= table@.rows() && exists|
            keys: TableView,
            assignments: Seq<usize>,
            representatives: Seq<usize>,
        |
            #[trigger] grouped(keys, table@.rows(), assignments, representatives) && groups.groups@.len()
                == representatives.len(),
        r matches Ok(groups) ==> exists|keys: TableView| #[trigger]
            keys_given(*node, *op_context, table@, *store, keys) && groups.groups@.len() == key_hashes(
                keys,
                table@.rows(),
            ).len(),
    decreases *node, 1nat,
{
    if node.children.len() == 0 {
        return Err(SqlError::new("group by needs items to group by", ErrorType::Runtime));
    }
    proof {
        axiom_vec_dequeue_index_decreases(node.children, 0);
    }
    let rows: usize = table.len();
    let key_columns = columns::eval(&node.children[0], op_context, table, store, written);
    let ghost given = table_outcome(key_columns);
    assert(is_given(given));
    let evaluated = match key_columns {
        Ok(evaluated) => evaluated,
        Err(e) => {
            return Err(e);
        },
    };
    let keys = if evaluated.len() == rows {
        evaluated
    } else if evaluated.len() == 1 {
        proof {
            lemma_rows_keep_rectangular(evaluated@, RowsOp::Repeat(rows));
            lemma_repeat_rows(evaluated@, rows);
        }
        evaluated.transformed(&RowsOp::Repeat(rows))
    } else {
        return Err(
            SqlError::new("the keys of a group by must have one row for every row", ErrorType::Runtime),
        );
    };
    let (assignments, representative_rows) = keys_to_assignments(&keys);
    let mut groups: Vec<Table> = Vec::new();
    let mut g: usize = 0;
    proof {
        lemma_groups_bound(keys@, keys@.rows(), assignments@, representative_rows@);
    }
    while g < representative_rows.len()
        invariant
            g <= representative_rows@.len(),
            table@.wf(),
            keys@.wf(),
            groups@.len() == g,
            forall|j: int| 0 <= j < g ==> (#[trigger] groups@[j])@.wf(),
            forall|j: int|
                0 <= j < g ==> (#[trigger] groups@[j])@ == group_view(
                    table@,
                    keys@,
                    assignments@,
                    j as usize,
                    representative_rows@[j],
                ),
        decreases representative_rows@.len() - g,
    {
        let group = group_table(table, &keys, &assignments, g, representative_rows[g]);
        groups.push(group);
        g = g + 1;
    }
    let r: SqlResult<Grouped> = Ok(Grouped { groups });
    proof {
        assert(table_views(groups@) =~= groups_of(table@, keys@, assignments@, representative_rows@));
        assert(keys_of(given->Ok_0, rows) == Some(keys@));
        assert(grouping_gives(table@, keys@, groups_outcome(r)));
        lemma_one_group_for_each_key(keys@, table@.rows(), assignments@, representative_rows@);
        assert(keys_given(*node, *op_context, table@, *store, keys@));
    }
    r
}

/// The grouped result: the projection of every group, one row each, one
/// under the other in the order of the groups.
///
/// A group whose projection is not exactly one row is a `Runtime` error:
/// the projection of a grouped query must reduce every group, by
/// aggregates, constants or the keys. The result has one row for each
/// group, so one for each distinct key.
pub fn project(
    node: &ParserNode,
    groups: &Grouped,
    op_context: &OpContext,
    store: &Store,
    written: &mut Vec<FileOutput>,
) -> (r: SqlResult<Table>)
    requires
        store.wf(),
        forall|j: int| 0 <= j < groups.groups@.len() ==> (#[trigger] groups.groups@[j])@.wf(),
    ensures
        grows(old(written)@, final(written)@),
        projected_gives(*node, *op_context, table_views(groups.groups@), *store, table_outcome(r)),
        r matches Ok(t) ==> t@.wf() && t@.rectangular() && (t@.columns.len() > 0 ==> t@.rows()
            == groups.groups@.len()) && (groups.groups@.len() == 0 ==> t@.columns.len() == 0),
    decreases *node, 1nat,
{
    let mut evaluated: Vec<Table> = Vec::new();
    let mut k: usize = 0;
    let ghost views = table_views(groups.groups@);
    assert(table_views(evaluated@) =~= Seq::<TableView>::empty());
    while k < groups.groups.len()
        invariant
            k <= groups.groups@.len(),
            store.wf(),
            views == table_views(groups.groups@),
            projections_give(
                *node,
                *op_context,
                views,
                *store,
                k as nat,
                Ok::<Seq<TableView>, ErrorType>(table_views(evaluated@)),
            ),
            grows(old(written)@, written@),
            forall|j: int| 0 <= j < groups.groups@.len() ==> (#[trigger] groups.groups@[j])@.wf(),
            evaluated@.len() == k,
            forall|j: int|
                0 <= j < k ==> (#[trigger] evaluated@[j])@.wf() && evaluated@[j]@.rectangular()
                    && evaluated@[j]@.rows() == 1,
        decreases groups.groups@.len() - k,
    {
        let ghost before = written@;
        let ghost done = Ok::<Seq<TableView>, ErrorType>(table_views(evaluated@));
        let projection = columns::eval(node, op_context, &groups.groups[k], store, written);
        proof {
            lemma_grows_chain(old(written)@, before, written@);
            assert(is_given(done));
            assert(is_given(table_outcome(projection)));
            assert(views[k as int] == groups.groups@[k as int]@);
        }
        let selected = match projection {
            Ok(selected) => selected,
            Err(e) => {
                proof {
                    assert(projections_give(
                        *node,
                        *op_context,
                        views,
                        *store,
                        (k + 1) as nat,
                        Err::<Seq<TableView>, ErrorType>(e.type_),
                    ));
                    lemma_projections_fail(
                        *node,
                        *op_context,
                        views,
                        *store,
                        (k + 1) as nat,
                        views.len(),
                        e.type_,
                    );
                    assert(is_given(Err::<Seq<TableView>, ErrorType>(e.type_)));
                }
                return Err(e);
            },
        };
        if selected.len() != 1 {
            let e = SqlError::new(
                "a group does not reduce to one row, are you sure you used aggregate functions?",
                ErrorType::Runtime,
            );
            proof {
                assert(projections_give(
                    *node,
                    *op_context,
                    views,
                    *store,
                    (k + 1) as nat,
                    Err::<Seq<TableView>, ErrorType>(e.type_),
                ));
                lemma_projections_fail(
                    *node,
                    *op_context,
                    views,
                    *store,
                    (k + 1) as nat,
                    views.len(),
                    e.type_,
                );
                assert(is_given(Err::<Seq<TableView>, ErrorType>(e.type_)));
            }
            return Err(e);
        }
        let ghost so_far = table_views(evaluated@);
        let ghost added = selected@;
        evaluated.push(selected);
        proof {
            assert(table_views(evaluated@) =~= so_far.push(added));
        }
        k = k + 1;
    }
    proof {
        assert(is_given(Ok::<Seq<TableView>, ErrorType>(table_views(evaluated@))));
    }
    let ghost tables = evaluated@;
    proof {
        assert forall|i: int| 1 <= i < tables.len() implies (stackable(tables[0]@, tables[i]@)
            <==> stackable(table_views(tables)[0], #[trigger] table_views(tables)[i])) by {}
        if tables.len() > 0 {
            lemma_stacked_views(tables, tables.len());
        }
    }
    let merged = match Table::from_tables(evaluated) {
        Ok(merged) => merged,
        Err(e) => {
            proof {
                let p = table_views(tables);
                if forall|i: int| 1 <= i < p.len() ==> stackable(p[0], #[trigger] p[i]) {
                    assert forall|i: int| 1 <= i < tables.len() implies stackable(
                        tables[0]@,
                        #[trigger] tables[i]@,
                    ) by {
                        assert(stackable(p[0], p[i]));
                    }
                }
            }
            return Err(e);
        },
    };
    proof {
        let p = table_views(tables);
        assert forall|i: int| 1 <= i < p.len() implies stackable(p[0], #[trigger] p[i]) by {
            assert(stackable(tables[0]@, tables[i]@));
        }
        if tables.len() > 0 {
            lemma_stacked_rows(tables, tables.len());
        } else {
            assert(merged@.rows() == 0);
            assert(merged@ == empty_table());
        }
    }
    Ok(merged)
}

/// Once the projection of a group fails, the projection of the groups
/// fails with it.
pub proof fn lemma_projections_fail(
    columns: ParserNode,
    ops: OpContext,
    groups: Seq<TableView>,
    store: Store,
    k: nat,
    m: nat,
    kind: ErrorType,
)
    requires
        1 <= k <= m <= groups.len(),
        projections_give(columns, ops, groups, store, k, Err::<Seq<TableView>, ErrorType>(kind)),
    ensures
        projections_give(columns, ops, groups, store, m, Err::<Seq<TableView>, ErrorType>(kind)),
    decreases m,
{
    if k < m {
        lemma_projections_fail(columns, ops, groups, store, k, (m - 1) as nat, kind);
        assert(is_given(Err::<Seq<TableView>, ErrorType>(kind)));
    }
}

/// Stacking tables is stacking their views.
pub proof fn lemma_stacked_views(tables: Seq<Table>, n: nat)
    requires
        1 <= n <= tables.len(),
    ensures
        stacked_all(tables, n) == stacked_views(table_views(tables), n),
    decreases n,
{
    if n > 1 {
        lemma_stacked_views(tables, (n - 1) as nat);
    }
}

/// The grouped projection of a table: its rows grouped by the keys of the
/// GROUP BY clause `node`, and the projection `columns` of every group,
/// one row each, one under the other.
#[verifier::rlimit(40)]
pub fn eval_grouped(
    root: &ParserNode,
    group: usize,
    projection: usize,
    table: &Table,
    op_context: &OpContext,
    store: &Store,
    written: &mut Vec<FileOutput>,
) -> (r: SqlResult<Table>)
    requires
        group < root.children.len(),
        projection < root.children.len(),
        table@.wf(),
        table@.rectangular(),
        store.wf(),
    ensures
        grows(old(written)@, final(written)@),
        grouped_gives(*root, group, projection, *op_context, table@, *store, table_outcome(r)),
        r matches Ok(t) ==> t@.wf() && t@.rectangular(),
        r is Ok && table@.rows() == 0 ==> r->Ok_0@.columns.len() == 0,
        r matches Ok(t) ==> exists|keys: TableView, assignments: Seq<usize>, representatives: Seq<usize>|
            #[trigger] grouped(keys, table@.rows(), assignments, representatives) && (t@.columns.len() > 0
                ==> t@.rows() == representatives.len()),
        r matches Ok(t) ==> one_row_for_each_key(root.children@[group as int], *op_context, table@, *store, t@),
        r matches Ok(t) ==> (table@.rows() == 0 ==> t@.rows() == 0),
    decreases *root, 3nat,
{
    proof {
        axiom_vec_dequeue_index_decreases(root.children, group as int);
        axiom_vec_dequeue_index_decreases(root.children, projection as int);
    }
    let node = &root.children[group];
    let columns = &root.children[projection];
    let grouping = eval(node, table, op_context, store, written);
    assert(is_given(groups_outcome(grouping)));
    let groups = match grouping {
        Ok(groups) => groups,
        Err(e) => {
            return Err(e);
        },
    };
    let ghost before = written@;
    let ghost keys = choose|keys: TableView| #[trigger]
        keys_given(*node, *op_context, table@, *store, keys) && groups.groups@.len() == key_hashes(
            keys,
            table@.rows(),
        ).len();
    let merged = project(columns, &groups, op_context, store, written);
    proof {
        lemma_grows_chain(old(written)@, before, written@);
        if merged is Ok {
            assert(keys_given(*node, *op_context, table@, *store, keys));
            if table@.rows() == 0 {
                lemma_longest_of_equal(merged->Ok_0@.columns, 0, 0);
            }
        }
    }
    merged
}

/// Repeating the one row of a table gives a table of so many rows.
pub proof fn lemma_repeat_rows(t: TableView, n: usize)
    requires
        t.rectangular(),
        t.rows() == 1,
    ensures
        with_rows(t, RowsOp::Repeat(n)).rows() == n,
{
    let r = with_rows(t, RowsOp::Repeat(n));
    if t.columns.len() > 0 {
        assert forall|i: int| 0 <= i < r.columns.len() implies (#[trigger] r.columns[i]).cells.len()
            == n by {
            assert(t.columns[i].cells.len() == 1);
        }
        lemma_longest_of_equal(r.columns, r.columns.len(), n as nat);
    } else {
        assert(t.rows() == 0);
    }
}

/// There are no more groups than rows.
pub proof fn lemma_groups_bound(keys: TableView, n: nat, assignments: Seq<usize>, representatives: Seq<usize>)
    requires
        grouped(keys, n, assignments, representatives),
    ensures
        representatives.len() <= n,
    decreases representatives.len(),
{
    if representatives.len() > 0 {
        lemma_ascending_bound(representatives, representatives.len() as int - 1);
    }
}

/// The entry at place `k` of an ascending list is at least `k`.
pub proof fn lemma_ascending_bound(rows: Seq<usize>, k: int)
    requires
        0 <= k < rows.len(),
        forall|g: int, h: int| 0 <= g < h < rows.len() ==> rows[g] < rows[h],
    ensures
        rows[k] >= k,
    decreases k,
{
    if k > 0 {
        lemma_ascending_bound(rows, k - 1);
    }
}

/// One-row tables with columns of one length, stacked, give a table with
/// columns of one length that has one row for each of them.
pub proof fn lemma_stacked_rows(tables: Seq<Table>, n: nat)
    requires
        1 <= n <= tables.len(),
        forall|j: int| 0 <= j < tables.len() ==> (#[trigger] tables[j])@.rectangular() && tables[j]@.rows() == 1,
        forall|j: int| 1 <= j < tables.len() ==> stackable(tables[0]@, #[trigger] tables[j]@),
    ensures
        stacked_all(tables, n).rectangular(),
        stacked_all(tables, n).columns.len() == tables[0]@.columns.len(),
        tables[0]@.columns.len() > 0 ==> stacked_all(tables, n).rows() == n,
    decreases n,
{
    let width = tables[0]@.columns.len();
    if n > 1 {
        lemma_stacked_rows(tables, (n - 1) as nat);
        let below = stacked_all(tables, (n - 1) as nat);
        let top = tables[n - 1]@;
        let all = stacked_all(tables, n);
        assert(stackable(tables[0]@, tables[n - 1]@));
        if width > 0 {
            assert forall|c: int| 0 <= c < all.columns.len() implies (#[trigger] all.columns[c]).cells.len()
                == n by {
                assert(below.columns[c].cells.len() == below.rows());
                assert(top.columns[c].cells.len() == top.rows());
            }
            lemma_longest_of_equal(all.columns, all.columns.len(), n);
        }
    } else {
        if width > 0 {
            assert(tables[0]@.columns[0].cells.len() == 1);
        }
    }
}

} // verus!
