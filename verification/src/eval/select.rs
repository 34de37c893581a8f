//! A query: its clauses in the order of evaluation.

use vstd::prelude::*;
use vstd::std_specs::vecdeque::axiom_vec_dequeue_index_decreases;
use crate::eval::columns::lemma_grows_chain;
use crate::eval::columns::is_star;
use crate::eval::meaning::{
    Gives, answer_gives, clause, empty_table, order_gives, file_gives, file_of, is_given, kept_gives, limited_gives,
    query_gives, selected_gives, source_gives, table_outcome, written_gives,
};
use crate::table::TableView;
use crate::eval::from::names_one_table;
use crate::eval::group_by::{key_hashes, keys_given, one_row_for_each_key};
use crate::eval::split::{SplitAst, clauses_of, last_of, split};
use crate::eval::{FileOutput, columns, from, group_by, grows, into, limit, order_by, where_};
use crate::ops::OpContext;
use crate::parser::{ParserNode, ParserNodeType};
use crate::result::{ErrorType, SqlError, SqlResult};
use crate::converters::usize_of_text;
use crate::eval::limit::limit_text;
use crate::table::impl_table::{RowsOp, with_rows};
use crate::table::laws::lemma_limit_beyond;
use crate::table::{Store, Table};

verus! {

/// Whether a query is `select * from t` for a table `t`, and nothing more:
/// the text of `t`.
pub open spec fn selects_all_of(root: ParserNode) -> Option<Seq<char>> {
    let children = root.children@;
    let n = children.len();
    let columns = last_of(children, ParserNodeType::Columns, n);
    let from = last_of(children, ParserNodeType::From, n);
    if root.node_type == ParserNodeType::Query && n <= usize::MAX && columns is Some && from is Some
        && is_star(children[columns->Some_0 as int]) && names_one_table(children[from->Some_0 as int])
        && last_of(children, ParserNodeType::Where, n) is None && last_of(
        children,
        ParserNodeType::GroupBy,
        n,
    ) is None && last_of(children, ParserNodeType::OrderBy, n) is None && last_of(
        children,
        ParserNodeType::Limit,
        n,
    ) is None && last_of(children, ParserNodeType::Into, n) is None {
        Some(children[from->Some_0 as int].children@[0].tokens@[0]@.text)
    } else {
        None
    }
}

/// Whether a query is `select * from t` for a table `t`, with a WHERE and
/// a LIMIT clause at most: the text of `t`.
pub open spec fn selects_rows_of(root: ParserNode) -> Option<Seq<char>> {
    let children = root.children@;
    let n = children.len();
    let columns = last_of(children, ParserNodeType::Columns, n);
    let from = last_of(children, ParserNodeType::From, n);
    if root.node_type == ParserNodeType::Query && n <= usize::MAX && columns is Some && from is Some
        && is_star(children[columns->Some_0 as int]) && names_one_table(children[from->Some_0 as int])
        && last_of(children, ParserNodeType::GroupBy, n) is None && last_of(
        children,
        ParserNodeType::OrderBy,
        n,
    ) is None && last_of(children, ParserNodeType::Into, n) is None {
        Some(children[from->Some_0 as int].children@[0].tokens@[0]@.text)
    } else {
        None
    }
}

/// What `select * from t`, with a WHERE and a LIMIT clause at most, gives
/// of the table `t`.
///
/// Without a WHERE clause it is the table, or the first rows of it that
/// the LIMIT clause counts: no rows for a count of 0, all rows for a
/// count beyond them, and the names and types of the columns in either
/// case. With a WHERE clause the result has the names of the table, and
/// no rows where the table has none.
pub open spec fn rows_given(root: ParserNode, source: TableView, r: SqlResult<Table>) -> bool {
    if clause(root, ParserNodeType::Where) is Some {
        r matches Ok(t) ==> t@.names == source.names && (source.rows() == 0 ==> t@.rows() == 0)
    } else {
        match clause(root, ParserNodeType::Limit) {
            None => r is Ok && r->Ok_0@.names == source.names && r->Ok_0@.columns == source.columns,
            Some(l) => match limit_text(root.children@[l as int]) {
                None => r is Err && r->Err_0.type_ == ErrorType::Runtime,
                Some(text) => match usize_of_text(text) {
                    None => r is Err && r->Err_0.type_ == ErrorType::Type,
                    Some(n) => r is Ok && r->Ok_0@.names == source.names && r->Ok_0@.columns == with_rows(
                        source,
                        RowsOp::Limit(n),
                    ).columns,
                },
            },
        }
    }
}

/// What a query that [`selects_rows_of`] a table gives: a `Lookup` error
/// for a table that the store does not hold.
pub open spec fn rows_of_store(root: ParserNode, store: Store, r: SqlResult<Table>) -> bool {
    selects_rows_of(root) matches Some(name) ==> match store.find(name) {
        None => r is Err && r->Err_0.type_ == ErrorType::Lookup,
        Some(place) => place < store.tables@.len() && rows_given(root, store.tables@[place as int]@, r),
    }
}

/// Whether a query groups the rows of one table `t`, without a WHERE and
/// an INTO clause: the text of `t`.
pub open spec fn groups_rows_of(root: ParserNode) -> Option<Seq<char>> {
    let children = root.children@;
    let n = children.len();
    let from = last_of(children, ParserNodeType::From, n);
    if root.node_type == ParserNodeType::Query && n <= usize::MAX && last_of(
        children,
        ParserNodeType::Columns,
        n,
    ) is Some && from is Some && names_one_table(children[from->Some_0 as int]) && last_of(
        children,
        ParserNodeType::GroupBy,
        n,
    ) is Some && last_of(children, ParserNodeType::Where, n) is None && last_of(
        children,
        ParserNodeType::Into,
        n,
    ) is None {
        Some(children[from->Some_0 as int].children@[0].tokens@[0]@.text)
    } else {
        None
    }
}

/// What a query that [`groups_rows_of`] a table gives, where it gives a
/// table: no rows of a table without rows, and, without a LIMIT clause,
/// one row for each distinct hash of the rows of the key table, which is
/// what the keys of the GROUP BY clause evaluate to against the table
/// under the name that the query gives it.
pub open spec fn groups_given(root: ParserNode, ops: OpContext, store: Store, held: TableView, t: TableView) -> bool {
    &&& held.rows() == 0 ==> t.rows() == 0
    &&& clause(root, ParserNodeType::Limit) is None ==> clause(root, ParserNodeType::GroupBy) is Some
        && exists|source: TableView| #[trigger]
        is_given(source) && source.names == held.names && source.columns == held.columns
            && one_row_for_each_key(
            root.children@[clause(root, ParserNodeType::GroupBy)->Some_0 as int],
            ops,
            source,
            store,
            t,
        )
}

/// What a query that [`groups_rows_of`] a table gives: a `Lookup` error
/// for a table that the store does not hold.
pub open spec fn groups_of_store(root: ParserNode, ops: OpContext, store: Store, r: SqlResult<Table>) -> bool {
    groups_rows_of(root) matches Some(name) ==> match store.find(name) {
        None => r is Err && r->Err_0.type_ == ErrorType::Lookup,
        Some(place) => place < store.tables@.len() && (r matches Ok(t) ==> groups_given(
            root,
            ops,
            store,
            store.tables@[place as int]@,
            t@,
        )),
    }
}

/// Whether a query is `select * from t order by ..` for a table `t`, and
/// nothing more: the text of `t`.
pub open spec fn orders_rows_of(root: ParserNode) -> Option<Seq<char>> {
    let children = root.children@;
    let n = children.len();
    let columns = last_of(children, ParserNodeType::Columns, n);
    let from = last_of(children, ParserNodeType::From, n);
    if root.node_type == ParserNodeType::Query && n <= usize::MAX && columns is Some && from is Some
        && is_star(children[columns->Some_0 as int]) && names_one_table(children[from->Some_0 as int])
        && last_of(children, ParserNodeType::OrderBy, n) is Some && last_of(
        children,
        ParserNodeType::Where,
        n,
    ) is None && last_of(children, ParserNodeType::GroupBy, n) is None && last_of(
        children,
        ParserNodeType::Limit,
        n,
    ) is None && last_of(children, ParserNodeType::Into, n) is None {
        Some(children[from->Some_0 as int].children@[0].tokens@[0]@.text)
    } else {
        None
    }
}

/// Whether `r` has the names and the columns of what the ORDER BY clause
/// `node` makes of a table: its rows, stably sorted by the columns that
/// the clause names, or the error of the clause.
pub open spec fn ordered_given(node: ParserNode, source: TableView, r: SqlResult<Table>) -> bool {
    exists|ordered: Gives<TableView>| #[trigger]
        is_given(ordered) && order_gives(node, source, ordered) && match ordered {
            Err(kind) => r is Err && r->Err_0.type_ == kind,
            Ok(t) => r is Ok && r->Ok_0@.names == t.names && r->Ok_0@.columns == t.columns,
        }
}

/// What a query that [`orders_rows_of`] a table gives: the rows of the
/// table in the order that the clause asks for, and a `Lookup` error for
/// a table that the store does not hold.
pub open spec fn orders_of_store(root: ParserNode, store: Store, r: SqlResult<Table>) -> bool {
    orders_rows_of(root) matches Some(name) ==> match store.find(name) {
        None => r is Err && r->Err_0.type_ == ErrorType::Lookup,
        Some(place) => place < store.tables@.len() && clause(root, ParserNodeType::OrderBy) is Some
            && exists|source: TableView| #[trigger]
            is_given(source) && source.names == store.tables@[place as int]@.names && source.columns
                == store.tables@[place as int]@.columns && ordered_given(
                root.children@[clause(root, ParserNodeType::OrderBy)->Some_0 as int],
                source,
                r,
            ),
    }
}

fn source(
    root: &ParserNode,
    parts: &SplitAst,
    op_context: &OpContext,
    table_context: &Store,
    written: &mut Vec<FileOutput>,
) -> (r: SqlResult<Table>)
    requires
        table_context.wf(),
        clauses_of(*root, *parts),
        root.children@.len() <= usize::MAX,
    ensures
        grows(old(written)@, final(written)@),
        source_gives(*root, *op_context, *table_context, table_outcome(r)),
        r matches Ok(t) ==> t@.wf() && t@.rectangular(),
        parts.from is Some && names_one_table(root.children@[parts.from->Some_0 as int])
            ==> match table_context.find(
            root.children@[parts.from->Some_0 as int].children@[0].tokens@[0]@.text,
        ) {
            None => r is Err && r->Err_0.type_ == ErrorType::Lookup,
            Some(place) => place < table_context.tables@.len() && r is Ok && r->Ok_0@.columns
                == table_context.tables@[place as int]@.columns && r->Ok_0@.names
                == table_context.tables@[place as int]@.names,
        },
    decreases *root, 4nat,
{
    match parts.from {
        Some(i) => {
            proof {
                axiom_vec_dequeue_index_decreases(root.children, i as int);
            }
            from::eval(&root.children[i], op_context, table_context, written)
        },
        None => {
            let empty = Table::new();
            assert(empty@ == empty_table());
            Ok(empty)
        },
    }
}

fn kept(
    root: &ParserNode,
    parts: &SplitAst,
    table: Table,
    op_context: &OpContext,
    table_context: &Store,
    written: &mut Vec<FileOutput>,
) -> (r: SqlResult<Table>)
    requires
        table_context.wf(),
        table@.wf(),
        table@.rectangular(),
        clauses_of(*root, *parts),
    ensures
        grows(old(written)@, final(written)@),
        kept_gives(*root, *op_context, *table_context, table@, table_outcome(r)),
        r matches Ok(t) ==> t@.wf() && t@.rectangular(),
        r matches Ok(t) ==> t@.names == table@.names && (table@.rows() == 0 ==> t@.rows() == 0),
        parts.where_ is None ==> r is Ok && r->Ok_0@ == table@,
    decreases *root, 4nat,
{
    match parts.where_ {
        Some(i) => {
            proof {
                axiom_vec_dequeue_index_decreases(root.children, i as int);
            }
            where_::eval(&root.children[i], &table, op_context, table_context, written)
        },
        None => Ok(table),
    }
}

fn selected(
    root: &ParserNode,
    parts: &SplitAst,
    columns_place: usize,
    table: Table,
    op_context: &OpContext,
    table_context: &Store,
    written: &mut Vec<FileOutput>,
) -> (r: SqlResult<Table>)
    requires
        table_context.wf(),
        table@.wf(),
        table@.rectangular(),
        clauses_of(*root, *parts),
        parts.columns == Some(columns_place),
    ensures
        grows(old(written)@, final(written)@),
        selected_gives(*root, *op_context, *table_context, columns_place, table@, table_outcome(r)),
        r matches Ok(t) ==> t@.wf() && t@.rectangular(),
        parts.group_by matches Some(g) ==> (r matches Ok(t) ==> (table@.rows() == 0 ==> t@.rows() == 0)
            && one_row_for_each_key(root.children@[g as int], *op_context, table@, *table_context, t@)),
        parts.group_by is None && parts.order_by is Some && is_star(root.children@[columns_place as int])
            ==> ordered_given(root.children@[parts.order_by->Some_0 as int], table@, r),
        parts.group_by is None && parts.order_by is None && is_star(root.children@[columns_place as int])
            ==> r is Ok && r->Ok_0@.names == table@.names && r->Ok_0@.columns == table@.columns,
    decreases *root, 4nat,
{
    proof {
        axiom_vec_dequeue_index_decreases(root.children, columns_place as int);
    }
    if let Some(g) = parts.group_by {
        let merged = group_by::eval_grouped(root, g, columns_place, &table, op_context, table_context, written);
        proof {
            assert(is_given(table_outcome(merged)));
        }
        match merged {
            Ok(merged_table) => {
                let ghost keys = choose|keys: TableView| #[trigger]
                    keys_given(root.children@[g as int], *op_context, table@, *table_context, keys) && (
                    merged_table@.columns.len() > 0 ==> merged_table@.rows() == key_hashes(
                        keys,
                        table@.rows(),
                    ).len());
                let ordered = if let Some(o) = parts.order_by {
                    order_by::eval(&root.children[o], &merged_table)
                } else {
                    Ok(merged_table)
                };
                proof {
                    if ordered is Ok {
                        assert(keys_given(root.children@[g as int], *op_context, table@, *table_context, keys));
                    }
                }
                ordered
            },
            Err(e) => Err(e),
        }
    } else {
        let ordered: SqlResult<Table> = if let Some(o) = parts.order_by {
            order_by::eval(&root.children[o], &table)
        } else {
            Ok(table)
        };
        proof {
            assert(is_given(table_outcome(ordered)));
        }
        match ordered {
            Ok(ordered_table) => columns::eval(
                &root.children[columns_place],
                op_context,
                &ordered_table,
                table_context,
                written,
            ),
            Err(e) => Err(e),
        }
    }
}

fn limited(root: &ParserNode, parts: &SplitAst, table: Table) -> (r: SqlResult<Table>)
    requires
        table@.wf(),
        table@.rectangular(),
        clauses_of(*root, *parts),
    ensures
        limited_gives(*root, table@, table_outcome(r)),
        r matches Ok(t) ==> t@.wf() && t@.rectangular(),
        parts.limit is None ==> r is Ok && r->Ok_0@ == table@,
        parts.limit matches Some(l) ==> match limit_text(root.children@[l as int]) {
            None => r is Err && r->Err_0.type_ == ErrorType::Runtime,
            Some(text) => match usize_of_text(text) {
                None => r is Err && r->Err_0.type_ == ErrorType::Type,
                Some(n) => r is Ok && r->Ok_0@ == with_rows(table@, RowsOp::Limit(n)),
            },
        },
{
    match parts.limit {
        Some(l) => limit::eval(&root.children[l], &table),
        None => Ok(table),
    }
}

fn delivered(
    root: &ParserNode,
    parts: &SplitAst,
    table: Table,
    op_context: &OpContext,
    written: &mut Vec<FileOutput>,
) -> (r: SqlResult<Table>)
    requires
        table@.wf(),
        table@.rectangular(),
        clauses_of(*root, *parts),
    ensures
        grows(old(written)@, final(written)@),
        written_gives(*root, table@, table_outcome(r)),
        r matches Ok(t) ==> t@.wf() && t@.rectangular(),
        parts.into is None ==> r is Ok && r->Ok_0@ == table@ && final(written)@ == old(written)@,
        parts.into is Some && r is Ok ==> final(written)@.len() == old(written)@.len() + 1 && file_of(
            *root,
            table@,
            final(written)@.last(),
        ),
{
    match parts.into {
        Some(t) => {
            let output = match into::eval(&root.children[t], &table, &*op_context.floats) {
                Ok(output) => output,
                Err(e) => {
                    return Err(e);
                },
            };
            written.push(output);
            let empty = Table::new();
            assert(empty@ == empty_table());
            Ok(empty)
        },
        None => Ok(table),
    }
}

/// The table of a query before its INTO clause.
fn answer(root: &ParserNode, parts: &SplitAst, op_context: &OpContext, table_context: &Store, written: &mut Vec<
    FileOutput,
>) -> (r: SqlResult<Table>)
    requires
        table_context.wf(),
        clauses_of(*root, *parts),
        root.node_type == ParserNodeType::Query,
        root.children@.len() <= usize::MAX,
    ensures
        grows(old(written)@, final(written)@),
        answer_gives(*root, *op_context, *table_context, table_outcome(r)),
        r matches Ok(t) ==> t@.wf() && t@.rectangular(),
        rows_of_store(*root, *table_context, r),
        groups_of_store(*root, *op_context, *table_context, r),
        orders_of_store(*root, *table_context, r),
        selects_all_of(*root) matches Some(name) ==> match table_context.find(name) {
            None => r is Err && r->Err_0.type_ == ErrorType::Lookup,
            Some(place) => place < table_context.tables@.len() && r is Ok && r->Ok_0@.names
                == table_context.tables@[place as int]@.names && r->Ok_0@.columns
                == table_context.tables@[place as int]@.columns,
        },
    decreases *root, 5nat,
{
    let sourced = source(root, parts, op_context, table_context, written);
    let ghost first = table_outcome(sourced);
    proof {
        assert(is_given(first));
    }
    let table = match sourced {
        Ok(table) => table,
        Err(e) => {
            return Err(e);
        },
    };
    let ghost given = table@;
    proof {
        assert(is_given(given));
    }
    let ghost before = written@;
    let filtered = kept(root, parts, table, op_context, table_context, written);
    let ghost second = table_outcome(filtered);
    proof {
        lemma_grows_chain(old(written)@, before, written@);
        assert(is_given(second));
    }
    let table = match filtered {
        Ok(table) => table,
        Err(e) => {
            return Err(e);
        },
    };
    let columns_place = match parts.columns {
        Some(i) => i,
        None => {
            return Err(SqlError::new("no columns provided", ErrorType::Runtime));
        },
    };
    let ghost before = written@;
    let projected = selected(root, parts, columns_place, table, op_context, table_context, written);
    let ghost third = table_outcome(projected);
    proof {
        lemma_grows_chain(old(written)@, before, written@);
        assert(is_given(third));
    }
    let table = match projected {
        Ok(table) => table,
        Err(e) => {
            return Err(e);
        },
    };
    let ghost chosen = table@;
    let r = limited(root, parts, table);
    proof {
        if r is Ok && chosen.rows() == 0 && parts.limit is Some {
            let l = parts.limit->Some_0;
            let n = usize_of_text(limit_text(root.children@[l as int])->Some_0)->Some_0;
            lemma_limit_beyond(chosen, n);
        }
    }
    r
}

/// Evaluates a query: FROM, WHERE, then GROUP BY with one projection for
/// each group, or ORDER BY and the projection, then LIMIT and INTO.
///
/// Every table that a stage gives has columns of one length. A query
/// with an INTO clause gives the empty table, and the file it asks for is
/// the last of `written`.
pub fn eval(root: &ParserNode, op_context: &OpContext, table_context: &Store, written: &mut Vec<FileOutput>) -> (r:
    SqlResult<Table>)
    requires
        table_context.wf(),
    ensures
        grows(old(written)@, final(written)@),
        query_gives(*root, *op_context, *table_context, table_outcome(r)),
        r matches Ok(t) ==> t@.wf() && t@.rectangular(),
        rows_of_store(*root, *table_context, r),
        groups_of_store(*root, *op_context, *table_context, r),
        orders_of_store(*root, *table_context, r),
        r is Ok && clause(*root, ParserNodeType::Into) is Some ==> final(written)@.len() > 0 && file_gives(
            *root,
            *op_context,
            *table_context,
            final(written)@.last(),
        ),
        selects_all_of(*root) matches Some(name) ==> match table_context.find(name) {
            None => r is Err && r->Err_0.type_ == ErrorType::Lookup,
            Some(place) => place < table_context.tables@.len() && r is Ok && r->Ok_0@.names
                == table_context.tables@[place as int]@.names && r->Ok_0@.columns
                == table_context.tables@[place as int]@.columns,
        },
    decreases *root, 6nat,
{
    let parts = match split(root) {
        Ok(parts) => parts,
        Err(e) => {
            proof {
                assert(is_given(Err::<TableView, ErrorType>(ErrorType::Syntax)));
            }
            return Err(e);
        },
    };
    let children: usize = root.children.len();
    let found = answer(root, &parts, op_context, table_context, written);
    let ghost given = table_outcome(found);
    proof {
        assert(is_given(given));
    }
    let table = match found {
        Ok(table) => table,
        Err(e) => {
            return Err(e);
        },
    };
    let ghost before = written@;
    let r = delivered(root, &parts, table, op_context, written);
    proof {
        lemma_grows_chain(old(written)@, before, written@);
    }
    r
}

} // verus!
