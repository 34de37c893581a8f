//! The expression evaluator and the projection.

use vstd::prelude::*;
use vstd::std_specs::vecdeque::axiom_vec_dequeue_index_decreases;
use std::rc::Rc;
use crate::build_column::{build_column, built, texts_of};
use crate::eval::project::{broadcast, lemma_equal_lengths, names_of, projected, target_len, views_of};
use crate::eval::meaning::{
    NamedView, applied_gives, chain_gives, column_outcome, columns_gives, dispatched_gives,
    entries_give, entry_columns, entry_names, expression_gives, function_gives, identifier_gives,
    is_given, level_gives, literal_gives, named_columns, operand_gives, primary_gives, subquery_gives,
    table_outcome, token_shown, unary_gives,
};
use crate::eval::{FileOutput, grows, select};
use crate::ops::OpContext;
use crate::parser::{ParserNode, ParserNodeType};
use crate::result::{ErrorType, SqlError, SqlResult};
use crate::table::{Column, NamedColumn, Store, Table, TableView};
use crate::text::{chars_of, lowercase, text_of};

verus! {

/// A text without one single quote at its front and one at its end.
pub open spec fn stripped(text: Seq<char>) -> Seq<char> {
    let front = if text.len() > 0 && text[0] == '\'' {
        text.subrange(1, text.len() as int)
    } else {
        text
    };
    if front.len() > 0 && front.last() == '\'' {
        front.subrange(0, front.len() - 1)
    } else {
        front
    }
}

fn strip(text: &str) -> (r: String)
    ensures
        r@ == stripped(text@),
{
    let chars = chars_of(text);
    let from: usize = if chars.len() > 0 && chars[0] == '\'' {
        1
    } else {
        0
    };
    let to: usize = if chars.len() > from && chars[chars.len() - 1] == '\'' {
        chars.len() - 1
    } else {
        chars.len()
    };
    let r = text_of(&chars, from, to);
    proof {
        let front = if text@.len() > 0 && text@[0] == '\'' {
            text@.subrange(1, text@.len() as int)
        } else {
            text@
        };
        assert(front =~= chars@.subrange(from as int, chars@.len() as int));
        assert(r@ =~= stripped(text@));
    }
    r
}

/// The texts of the tokens of a literal, each without its quotes.
pub open spec fn literal_texts(node: ParserNode) -> Seq<Seq<char>> {
    Seq::new(node.tokens@.len(), |i: int| stripped(node.tokens@[i]@.text))
}

/// A literal: the typed column of its text. The text `nan` gives a null.
pub fn eval_literal(node: &ParserNode, op_context: &OpContext) -> (r: SqlResult<NamedColumn>)
    ensures
        literal_gives(*node, column_outcome(r)),
{
    let mut raw: Vec<String> = Vec::new();
    let mut i: usize = 0;
    while i < node.tokens.len()
        invariant
            i <= node.tokens@.len(),
            raw@.len() == i,
            forall|j: int| 0 <= j < i ==> raw@[j]@ == stripped(node.tokens@[j]@.text),
        decreases node.tokens@.len() - i,
    {
        raw.push(strip(node.tokens[i].get_text().as_str()));
        i = i + 1;
    }
    let ghost texts = raw@;
    assert(texts_of(texts) =~= literal_texts(*node));
    let column = build_column(raw, "nan", &*op_context.floats);
    let r = NamedColumn { name: String::new(), column: Rc::new(column) };
    assert(built(texts, "nan"@, (*r.column)@));
    Ok(r)
}

/// What an identifier names in a table: the place of its column, or the
/// kind of error. One token is a display name, which must be the name of
/// exactly one column; two tokens are a qualifier and a name, which the
/// index of the table must hold. Both failures are `Lookup` errors; any
/// other number of tokens is a `Runtime` error.
pub open spec fn named_place(node: ParserNode, t: TableView) -> Result<nat, ErrorType> {
    if node.tokens@.len() == 1 {
        if t.found(node.tokens@[0]@.text).len() == 1 {
            Ok(t.found(node.tokens@[0]@.text)[0])
        } else {
            Err(ErrorType::Lookup)
        }
    } else if node.tokens@.len() == 2 {
        match t.lookup(lowercase(node.tokens@[0]@.text), node.tokens@[1]@.text) {
            Some(place) => Ok(place),
            None => Err(ErrorType::Lookup),
        }
    } else {
        Err(ErrorType::Runtime)
    }
}

/// An identifier: the column that it names, under the name of the column.
pub fn eval_identifier(node: &ParserNode, table: &Table) -> (r: SqlResult<NamedColumn>)
    requires
        table@.wf(),
    ensures
        identifier_gives(*node, table@, column_outcome(r)),
{
    proof {
        if node.tokens@.len() == 1 {
            crate::table::impl_table::lemma_positions_bound(
                table@.names,
                node.tokens@[0]@.text,
                table@.names.len(),
            );
        }
        if node.tokens@.len() == 2 {
            crate::table::impl_table::lemma_lookup_bound(
                table@.index,
                lowercase(node.tokens@[0]@.text),
                node.tokens@[1]@.text,
            );
        }
    }
    if node.tokens.len() == 1 {
        let name = &node.tokens[0];
        match table.column_search(name.get_text().as_str()) {
            Ok(column) => Ok(NamedColumn { column, name: name.get_text().clone() }),
            Err(e) => Err(e),
        }
    } else if node.tokens.len() == 2 {
        let qualifier = &node.tokens[0];
        let name = &node.tokens[1];
        match table.column(qualifier.get_text().as_str(), name.get_text().as_str()) {
            Some(column) => Ok(NamedColumn { column, name: name.get_text().clone() }),
            None => Err(SqlError::new("column not found", ErrorType::Lookup)),
        }
    } else {
        Err(
            SqlError::new(
                "identifier can have either 1 or 2 related tokens a | a.b",
                ErrorType::Runtime,
            ),
        )
    }
}

/// Whether a columns node is a single `*`.
pub open spec fn is_star(node: ParserNode) -> bool {
    node.children@.len() == 1 && node.children@[0].node_type == ParserNodeType::StarOperator
}

/// A projection: the table of the evaluated columns.
///
/// A `*` stands for all columns of `table`, in their order. Columns of
/// one row are repeated to the length of the others.
pub fn eval(
    node: &ParserNode,
    op_context: &OpContext,
    table: &Table,
    store: &Store,
    written: &mut Vec<FileOutput>,
) -> (r: SqlResult<Table>)
    requires
        table@.wf(),
        store.wf(),
    ensures
        grows(old(written)@, final(written)@),
        columns_gives(*node, *op_context, table@, *store, table_outcome(r)),
        r matches Ok(t) ==> t@.wf() && t@.rectangular(),
        is_star(*node) && table@.rectangular() ==> r is Ok && r->Ok_0@.names == table@.names
            && r->Ok_0@.columns == table@.columns,
    decreases *node, 0nat,
{
    let mut columns: Vec<NamedColumn> = Vec::new();
    let mut i: usize = 0;
    assert(named_views(columns@) =~= Seq::<NamedView>::empty());
    while i < node.children.len()
        invariant
            i <= node.children@.len(),
            table@.wf(),
            store.wf(),
            grows(old(written)@, written@),
            entries_give(
                *node,
                *op_context,
                table@,
                *store,
                i as nat,
                Ok::<Seq<NamedView>, ErrorType>(named_views(columns@)),
            ),
            is_star(*node) && i == 0 ==> columns@.len() == 0,
            is_star(*node) && i == 1 ==> names_of(columns@) == table@.names && views_of(columns@)
                == table@.columns,
        decreases node.children@.len() - i,
    {
        let child = &node.children[i];
        if child.node_type == ParserNodeType::StarOperator {
            let mut all = table.to_columns();
            let ghost added = all@;
            let ghost before = columns@;
            columns.append(&mut all);
            proof {
                if is_star(*node) {
                    assert(columns@ =~= added);
                    assert(names_of(columns@) =~= table@.names);
                    assert(views_of(columns@) =~= table@.columns);
                }
                assert(named_views(columns@) =~= named_views(before) + named_columns(table@));
                assert(is_given(Ok::<Seq<NamedView>, ErrorType>(named_views(before))));
                assert(entries_give(
                    *node,
                    *op_context,
                    table@,
                    *store,
                    i as nat,
                    Ok::<Seq<NamedView>, ErrorType>(named_views(before)),
                ));
            }
        } else {
            proof {
                axiom_vec_dequeue_index_decreases(node.children, i as int);
            }
            let ghost before = written@;
            let ghost so_far = columns@;
            match eval_expression(child, op_context, table, store, written) {
                Ok(column) => {
                    let ghost entry = column@;
                    columns.push(column);
                    proof {
                        assert(named_views(columns@) =~= named_views(so_far).push(entry));
                        assert(is_given(Ok::<NamedView, ErrorType>(entry)));
                        assert(is_given(Ok::<Seq<NamedView>, ErrorType>(named_views(so_far))));
                        assert(expression_gives(
                            node.children@[i as int],
                            *op_context,
                            table@,
                            *store,
                            Ok::<NamedView, ErrorType>(entry),
                        ));
                        assert(entries_give(
                            *node,
                            *op_context,
                            table@,
                            *store,
                            i as nat,
                            Ok::<Seq<NamedView>, ErrorType>(named_views(so_far)),
                        ));
                    }
                },
                Err(e) => {
                    proof {
                        lemma_grows_chain(old(written)@, before, written@);
                        assert(is_given(Err::<NamedView, ErrorType>(e.type_)));
                        assert(is_given(Ok::<Seq<NamedView>, ErrorType>(named_views(so_far))));
                        assert(expression_gives(
                            node.children@[i as int],
                            *op_context,
                            table@,
                            *store,
                            Err::<NamedView, ErrorType>(e.type_),
                        ));
                        assert(entries_give(
                            *node,
                            *op_context,
                            table@,
                            *store,
                            i as nat,
                            Ok::<Seq<NamedView>, ErrorType>(named_views(so_far)),
                        ));
                        assert(entries_give(
                            *node,
                            *op_context,
                            table@,
                            *store,
                            (i + 1) as nat,
                            Err::<Seq<NamedView>, ErrorType>(e.type_),
                        ));
                        lemma_entries_fail(
                            *node,
                            *op_context,
                            table@,
                            *store,
                            (i + 1) as nat,
                            node.children@.len(),
                            e.type_,
                        );
                        assert(is_given(Err::<Seq<NamedView>, ErrorType>(e.type_)));
                    }
                    return Err(e);
                },
            }
            proof {
                lemma_grows_chain(old(written)@, before, written@);
            }
        }
        i = i + 1;
    }
    proof {
        if is_star(*node) && table@.rectangular() {
            let views = views_of(columns@);
            assert forall|c: int| 0 <= c < views.len() implies (#[trigger] views[c]).cells.len()
                == table@.rows() by {
                assert(table@.columns[c].cells.len() == table@.rows());
            }
            lemma_equal_lengths(views, views.len(), table@.rows());
            let target = target_len(views)->Some_0;
            let goal = projected(names_of(columns@), views, target);
            assert forall|c: int| 0 <= c < views.len() implies goal.columns[c] == views[c] by {
                assert(views[c].cells.len() == table@.rows());
                if views[c].cells.len() == 1 {
                    assert(goal.columns[c].cells =~= views[c].cells);
                }
            }
            assert(goal.columns =~= views);
        }
        assert(entry_names(named_views(columns@)) =~= names_of(columns@));
        assert(entry_columns(named_views(columns@)) =~= views_of(columns@));
        assert(is_given(Ok::<Seq<NamedView>, ErrorType>(named_views(columns@))));
    }
    broadcast(columns)
}

/// The views of a list of named columns.
pub open spec fn named_views(columns: Seq<NamedColumn>) -> Seq<NamedView> {
    Seq::new(columns.len(), |i: int| columns[i]@)
}

/// Once an entry of a projection fails, the projection fails with it.
pub proof fn lemma_entries_fail(
    node: ParserNode,
    ops: OpContext,
    table: TableView,
    store: Store,
    k: nat,
    m: nat,
    kind: ErrorType,
)
    requires
        1 <= k <= m <= node.children@.len(),
        entries_give(node, ops, table, store, k, Err::<Seq<NamedView>, ErrorType>(kind)),
    ensures
        entries_give(node, ops, table, store, m, Err::<Seq<NamedView>, ErrorType>(kind)),
    decreases m,
{
    if k < m {
        lemma_entries_fail(node, ops, table, store, k, (m - 1) as nat, kind);
        assert(is_given(Err::<Seq<NamedView>, ErrorType>(kind)));
    }
}

/// Once a step of a chain fails, the chain fails with it.
pub proof fn lemma_chain_fails(
    node: ParserNode,
    level: u8,
    ops: OpContext,
    table: TableView,
    store: Store,
    k: nat,
    m: nat,
    kind: ErrorType,
)
    requires
        k <= m,
        chain_gives(node, level, ops, table, store, k, Err::<NamedView, ErrorType>(kind)),
    ensures
        chain_gives(node, level, ops, table, store, m, Err::<NamedView, ErrorType>(kind)),
    decreases m,
{
    if k < m {
        lemma_chain_fails(node, level, ops, table, store, k, (m - 1) as nat, kind);
        assert(is_given(Err::<NamedView, ErrorType>(kind)));
    }
}

/// The files asked for grow step by step.
pub proof fn lemma_grows_chain(a: Seq<FileOutput>, b: Seq<FileOutput>, c: Seq<FileOutput>)
    requires
        grows(a, b),
        grows(b, c),
    ensures
        grows(a, c),
{
    assert forall|i: int| 0 <= i < a.len() implies #[trigger] c[i] == a[i] by {
        assert(b[i] == a[i]);
    }
}

/// An expression with its optional name: the column of the expression,
/// under the name that an `as` clause gives it.
pub fn eval_expression(
    node: &ParserNode,
    op_context: &OpContext,
    table: &Table,
    store: &Store,
    written: &mut Vec<FileOutput>,
) -> (r: SqlResult<NamedColumn>)
    requires
        table@.wf(),
        store.wf(),
    ensures
        grows(old(written)@, final(written)@),
        expression_gives(*node, *op_context, table@, *store, column_outcome(r)),
    decreases *node, 0nat,
{
    if node.children.len() == 0 {
        return Err(SqlError::new("empty expression", ErrorType::Runtime));
    }
    proof {
        axiom_vec_dequeue_index_decreases(node.children, 0);
    }
    let inner = eval_level(&node.children[0], 0, op_context, table, store, written);
    let ghost given = column_outcome(inner);
    assert(is_given(given));
    let named_column = match inner {
        Ok(column) => column,
        Err(e) => {
            return Err(e);
        },
    };
    if node.children.len() > 1 {
        let name = &node.children[1];
        if name.tokens.len() == 0 {
            return Err(SqlError::new("as must be followed by identifier", ErrorType::Runtime));
        }
        Ok(NamedColumn { name: name.tokens[0].get_text().clone(), column: named_column.column })
    } else {
        Ok(named_column)
    }
}

/// A chain of operands of one level, combined from left to right by the
/// operators between them. The levels are equality (0), comparison (1),
/// term (2) and factor (3); the operands of a factor are unary
/// expressions.
pub fn eval_level(
    node: &ParserNode,
    level: u8,
    op_context: &OpContext,
    table: &Table,
    store: &Store,
    written: &mut Vec<FileOutput>,
) -> (r: SqlResult<NamedColumn>)
    requires
        table@.wf(),
        store.wf(),
    ensures
        grows(old(written)@, final(written)@),
        level_gives(*node, level, *op_context, table@, *store, column_outcome(r)),
    decreases *node, 0nat,
{
    if node.children.len() == 0 {
        return Err(SqlError::new("left operand missing", ErrorType::Syntax));
    }
    proof {
        axiom_vec_dequeue_index_decreases(node.children, 0);
    }
    let first = eval_operand(&node.children[0], level, op_context, table, store, written);
    let mut left_result = match first {
        Ok(column) => column,
        Err(e) => {
            proof {
                lemma_chain_fails(*node, level, *op_context, table@, *store, 0, node.tokens@.len(), e.type_);
            }
            return Err(e);
        },
    };
    let mut i: usize = 0;
    while i < node.tokens.len()
        invariant
            i <= node.tokens@.len(),
            node.children@.len() > 0,
            table@.wf(),
            store.wf(),
            grows(old(written)@, written@),
            chain_gives(
                *node,
                level,
                *op_context,
                table@,
                *store,
                i as nat,
                Ok::<NamedView, ErrorType>(left_result@),
            ),
        decreases node.tokens@.len() - i,
    {
        let op = &node.tokens[i];
        let ghost left = Ok::<NamedView, ErrorType>(left_result@);
        assert(is_given(left));
        if i + 1 >= node.children.len() {
            proof {
                assert(chain_gives(*node, level, *op_context, table@, *store, i as nat, left));
                assert(chain_gives(
                    *node,
                    level,
                    *op_context,
                    table@,
                    *store,
                    (i + 1) as nat,
                    Err::<NamedView, ErrorType>(ErrorType::Syntax),
                ));
                lemma_chain_fails(
                    *node,
                    level,
                    *op_context,
                    table@,
                    *store,
                    (i + 1) as nat,
                    node.tokens@.len(),
                    ErrorType::Syntax,
                );
            }
            return Err(SqlError::new("right operand missing", ErrorType::Syntax));
        }
        proof {
            axiom_vec_dequeue_index_decreases(node.children, i + 1);
        }
        let ghost before = written@;
        let second = eval_operand(&node.children[i + 1], level, op_context, table, store, written);
        let ghost right = column_outcome(second);
        proof {
            lemma_grows_chain(old(written)@, before, written@);
            assert(is_given(right));
        }
        let right_result = match second {
            Ok(column) => column,
            Err(e) => {
                proof {
                    assert(chain_gives(*node, level, *op_context, table@, *store, i as nat, left));
                    assert(chain_gives(
                        *node,
                        level,
                        *op_context,
                        table@,
                        *store,
                        (i + 1) as nat,
                        Err::<NamedView, ErrorType>(e.type_),
                    ));
                    lemma_chain_fails(
                        *node,
                        level,
                        *op_context,
                        table@,
                        *store,
                        (i + 1) as nat,
                        node.tokens@.len(),
                        e.type_,
                    );
                }
                return Err(e);
            },
        };
        let mut arguments: Vec<&Column> = Vec::new();
        arguments.push(&*left_result.column);
        arguments.push(&*right_result.column);
        let applied = op_context.apply(op.get_text().as_str(), &arguments);
        let ghost shown = token_shown(node.tokens@[i as int]@);
        let ghost views = seq![left_result@.column, right_result@.column];
        let combined: SqlResult<NamedColumn> = match applied {
            Ok(column) => Ok(NamedColumn { column: Rc::new(column), name: op.to_string() }),
            Err(e) => Err(e),
        };
        proof {
            assert(op_context.apply_allows(node.tokens@[i as int]@.text, arguments@, applied));
            assert(arguments@.len() == views.len());
            assert forall|j: int| 0 <= j < arguments@.len() implies (#[trigger] arguments@[j])@
                == views[j] by {}
            assert(applied_gives(
                *op_context,
                node.tokens@[i as int]@.text,
                views,
                shown,
                column_outcome(combined),
            ));
            assert(chain_gives(*node, level, *op_context, table@, *store, i as nat, left));
            assert(chain_gives(
                *node,
                level,
                *op_context,
                table@,
                *store,
                (i + 1) as nat,
                column_outcome(combined),
            ));
        }
        left_result = match combined {
            Ok(column) => column,
            Err(e) => {
                proof {
                    lemma_chain_fails(
                        *node,
                        level,
                        *op_context,
                        table@,
                        *store,
                        (i + 1) as nat,
                        node.tokens@.len(),
                        e.type_,
                    );
                }
                return Err(e);
            },
        };
        i = i + 1;
    }
    Ok(left_result)
}

fn eval_operand(
    node: &ParserNode,
    level: u8,
    op_context: &OpContext,
    table: &Table,
    store: &Store,
    written: &mut Vec<FileOutput>,
) -> (r: SqlResult<NamedColumn>)
    requires
        table@.wf(),
        store.wf(),
    ensures
        grows(old(written)@, final(written)@),
        operand_gives(*node, level, *op_context, table@, *store, column_outcome(r)),
    decreases *node, 1nat,
{
    if level >= 3 {
        eval_unary(node, op_context, table, store, written)
    } else {
        eval_level(node, level + 1, op_context, table, store, written)
    }
}

/// A unary expression: an operator applied to a unary expression, or a
/// primary.
pub fn eval_unary(
    node: &ParserNode,
    op_context: &OpContext,
    table: &Table,
    store: &Store,
    written: &mut Vec<FileOutput>,
) -> (r: SqlResult<NamedColumn>)
    requires
        table@.wf(),
        store.wf(),
    ensures
        grows(old(written)@, final(written)@),
        unary_gives(*node, *op_context, table@, *store, column_outcome(r)),
    decreases *node, 0nat,
{
    if node.children.len() == 0 {
        return Err(SqlError::new("expected value", ErrorType::Syntax));
    }
    proof {
        axiom_vec_dequeue_index_decreases(node.children, 0);
    }
    let next_node = &node.children[0];
    if node.tokens.len() > 0 {
        let inner = eval_unary(next_node, op_context, table, store, written);
        let ghost given = column_outcome(inner);
        assert(is_given(given));
        let evaluated = match inner {
            Ok(column) => column,
            Err(e) => {
                return Err(e);
            },
        };
        let op = node.tokens[0].get_text();
        let mut arguments: Vec<&Column> = Vec::new();
        arguments.push(&*evaluated.column);
        let applied = op_context.apply(op.as_str(), &arguments);
        let ghost views = seq![evaluated@.column];
        let r: SqlResult<NamedColumn> = match applied {
            Ok(column) => Ok(NamedColumn { column: Rc::new(column), name: op.clone() }),
            Err(e) => Err(e),
        };
        proof {
            assert(op_context.apply_allows(node.tokens@[0]@.text, arguments@, applied));
            assert(arguments@.len() == views.len());
            assert forall|j: int| 0 <= j < arguments@.len() implies (#[trigger] arguments@[j])@
                == views[j] by {}
            assert(applied_gives(
                *op_context,
                node.tokens@[0]@.text,
                views,
                node.tokens@[0]@.text,
                column_outcome(r),
            ));
        }
        r
    } else {
        eval_primary(next_node, op_context, table, store, written)
    }
}

/// A primary: a literal, a column, a function call, or a query or an
/// expression in parentheses. A query must give exactly one column.
pub fn eval_primary(
    node: &ParserNode,
    op_context: &OpContext,
    table: &Table,
    store: &Store,
    written: &mut Vec<FileOutput>,
) -> (r: SqlResult<NamedColumn>)
    requires
        table@.wf(),
        store.wf(),
    ensures
        grows(old(written)@, final(written)@),
        primary_gives(*node, *op_context, table@, *store, column_outcome(r)),
    decreases *node, 0nat,
{
    if node.children.len() == 0 {
        return Err(SqlError::new("expected value", ErrorType::Syntax));
    }
    proof {
        axiom_vec_dequeue_index_decreases(node.children, 0);
    }
    let next_node = &node.children[0];
    match next_node.node_type {
        ParserNodeType::Identifier => eval_identifier(next_node, table),
        ParserNodeType::Function => eval_function(next_node, op_context, table, store, written),
        ParserNodeType::Literal => eval_literal(next_node, op_context),
        ParserNodeType::Query => {
            let selected = select::eval(next_node, op_context, store, written);
            let ghost sub = table_outcome(selected);
            assert(is_given(sub));
            let result = match selected {
                Ok(result) => result,
                Err(e) => {
                    assert(subquery_gives(sub, Err::<NamedView, ErrorType>(e.type_)));
                    return Err(e);
                },
            };
            let mut columns = result.into_columns();
            if columns.len() != 1 {
                let e = SqlError::new(
                    "evaluated select does not have exactly one column, and cannot be used as an expression",
                    ErrorType::Runtime,
                );
                assert(subquery_gives(sub, Err::<NamedView, ErrorType>(e.type_)));
                Err(e)
            } else {
                let column = columns.pop().unwrap();
                assert(subquery_gives(sub, Ok::<NamedView, ErrorType>(column@)));
                Ok(column)
            }
        },
        ParserNodeType::Expression => eval_expression(next_node, op_context, table, store, written),
        _ => Err(SqlError::new("only identifiers currently supported", ErrorType::Runtime)),
    }
}

/// A function call: the function of the registry under the name of the
/// call, applied to the evaluated arguments.
pub fn eval_function(
    node: &ParserNode,
    op_context: &OpContext,
    table: &Table,
    store: &Store,
    written: &mut Vec<FileOutput>,
) -> (r: SqlResult<NamedColumn>)
    requires
        table@.wf(),
        store.wf(),
    ensures
        grows(old(written)@, final(written)@),
        function_gives(*node, *op_context, table@, *store, column_outcome(r)),
    decreases *node, 0nat,
{
    if node.children.len() == 0 {
        return Err(SqlError::new("no columns provided", ErrorType::Runtime));
    }
    proof {
        axiom_vec_dequeue_index_decreases(node.children, 0);
    }
    let evaluated = eval(&node.children[0], op_context, table, store, written);
    let ghost given = table_outcome(evaluated);
    assert(is_given(given));
    let arguments_table = match evaluated {
        Ok(arguments_table) => arguments_table,
        Err(e) => {
            return Err(e);
        },
    };
    let ghost views = arguments_table@.columns;
    let columns = arguments_table.into_columns();
    if node.tokens.len() == 0 {
        return Err(SqlError::new("function without name", ErrorType::Syntax));
    }
    let op = &node.tokens[0];
    let mut arguments: Vec<&Column> = Vec::new();
    let mut i: usize = 0;
    while i < columns.len()
        invariant
            i <= columns@.len(),
            columns@.len() == views.len(),
            arguments@.len() == i,
            forall|j: int| 0 <= j < columns@.len() ==> (*(#[trigger] columns@[j]).column)@ == views[j],
            forall|j: int| 0 <= j < i ==> (#[trigger] arguments@[j])@ == views[j],
        decreases columns@.len() - i,
    {
        arguments.push(&*columns[i].column);
        i = i + 1;
    }
    let applied = op_context.dispatch(op.get_text().as_str(), &arguments);
    let r: SqlResult<NamedColumn> = match applied {
        Ok(column) => Ok(NamedColumn { column: Rc::new(column), name: op.get_text().clone() }),
        Err(e) => Err(e),
    };
    proof {
        assert(op_context.dispatch_allows(node.tokens@[0]@.text, arguments@, applied));
        assert(dispatched_gives(*op_context, node.tokens@[0]@.text, views, column_outcome(r)));
    }
    r
}

} // verus!
