//! The query tree as text, one line for each depth, every node above its
//! children.

use vstd::prelude::*;
use vstd::std_specs::vecdeque::axiom_vec_dequeue_index_decreases;
use crate::parser::{ParserNode, ParserNodeType};
use crate::table::render::{padded, spaces};
use crate::text::push_text;

verus! {

/// A text as the `Debug` form of `str` shows it: in double quotes, with
/// the characters that need it escaped.
pub uninterp spec fn debug_text(text: Seq<char>) -> Seq<char>;

/// Formats a text with `{:?}`, the `Debug` form of `str`; the result is
/// named by [`debug_text`].
#[verifier::external_body]
fn debug_of(text: &str) -> (r: String)
    ensures
        r@ == debug_text(text@),
{
    format!("{:?}", text)
}

/// The name of a kind of node.
pub open spec fn kind_name(kind: ParserNodeType) -> Seq<char> {
    match kind {
        ParserNodeType::Query => "Query"@,
        ParserNodeType::Columns => "Columns"@,
        ParserNodeType::Expression => "Expression"@,
        ParserNodeType::Equality => "Equality"@,
        ParserNodeType::Comparison => "Comparison"@,
        ParserNodeType::Term => "Term"@,
        ParserNodeType::Factor => "Factor"@,
        ParserNodeType::Unary => "Unary"@,
        ParserNodeType::Function => "Function"@,
        ParserNodeType::Primary => "Primary"@,
        ParserNodeType::Literal => "Literal"@,
        ParserNodeType::Identifier => "Identifier"@,
        ParserNodeType::From => "From"@,
        ParserNodeType::FromStatement => "FromStatement"@,
        ParserNodeType::Where => "Where"@,
        ParserNodeType::GroupBy => "GroupBy"@,
        ParserNodeType::OrderBy => "OrderBy"@,
        ParserNodeType::OrderByStatement => "OrderByStatement"@,
        ParserNodeType::Into => "Into"@,
        ParserNodeType::Limit => "Limit"@,
        ParserNodeType::StarOperator => "StarOperator"@,
    }
}

fn name_of(kind: ParserNodeType) -> (r: &'static str)
    ensures
        r@ == kind_name(kind),
{
    match kind {
        ParserNodeType::Query => "Query",
        ParserNodeType::Columns => "Columns",
        ParserNodeType::Expression => "Expression",
        ParserNodeType::Equality => "Equality",
        ParserNodeType::Comparison => "Comparison",
        ParserNodeType::Term => "Term",
        ParserNodeType::Factor => "Factor",
        ParserNodeType::Unary => "Unary",
        ParserNodeType::Function => "Function",
        ParserNodeType::Primary => "Primary",
        ParserNodeType::Literal => "Literal",
        ParserNodeType::Identifier => "Identifier",
        ParserNodeType::From => "From",
        ParserNodeType::FromStatement => "FromStatement",
        ParserNodeType::Where => "Where",
        ParserNodeType::GroupBy => "GroupBy",
        ParserNodeType::OrderBy => "OrderBy",
        ParserNodeType::OrderByStatement => "OrderByStatement",
        ParserNodeType::Into => "Into",
        ParserNodeType::Limit => "Limit",
        ParserNodeType::StarOperator => "StarOperator",
    }
}

/// The first `k` tokens of a node, each in its `Debug` form and followed
/// by a space.
pub open spec fn token_text(n: ParserNode, k: nat) -> Seq<char>
    decreases k,
{
    if k == 0 {
        Seq::empty()
    } else {
        (token_text(n, (k - 1) as nat) + debug_text(n.tokens@[k - 1]@.text)).push(' ')
    }
}

/// The text of one node: the name of its kind and a space, then its
/// tokens.
pub open spec fn node_text(n: ParserNode) -> Seq<char> {
    kind_name(n.node_type).push(' ') + token_text(n, n.tokens@.len())
}

/// The sum of the sizes of the first `k` children.
pub open spec fn sizes_before(n: ParserNode, k: nat) -> nat
    decreases n, 0nat, k,
    via sizes_before_decreases
{
    if k == 0 || k > n.children@.len() {
        0
    } else {
        sizes_before(n, (k - 1) as nat) + node_size(n.children@[k - 1])
    }
}

/// The room that a node takes in its line: the length of its text, or the
/// room of its children where that is more.
pub open spec fn node_size(n: ParserNode) -> nat
    decreases n, 1nat, 0nat,
{
    if node_text(n).len() > sizes_before(n, n.children@.len()) {
        node_text(n).len()
    } else {
        sizes_before(n, n.children@.len())
    }
}

#[via_fn]
proof fn sizes_before_decreases(n: ParserNode, k: nat) {
    if !(k == 0 || k > n.children@.len()) {
        axiom_vec_dequeue_index_decreases(n.children, k - 1);
    }
}

/// The lines with empty lines added up to `count` lines.
pub open spec fn grown(lines: Seq<Seq<char>>, count: nat) -> Seq<Seq<char>> {
    if lines.len() >= count {
        lines
    } else {
        lines + Seq::new((count - lines.len()) as nat, |i: int| Seq::<char>::empty())
    }
}

/// The lines with the text of a node put into line `depth` at `offset`.
pub open spec fn placed(lines: Seq<Seq<char>>, n: ParserNode, depth: nat, offset: nat) -> Seq<Seq<char>> {
    let enough = grown(lines, depth + 1);
    enough.update(depth as int, padded(enough[depth as int], offset) + node_text(n))
}

/// The lines with the first `k` children of a node written, each with its
/// subtree, one after the other from `offset` on.
pub open spec fn written_children(lines: Seq<Seq<char>>, n: ParserNode, depth: nat, offset: nat, k: nat) -> Seq<
    Seq<char>,
>
    decreases n, 0nat, k,
    via written_children_decreases
{
    if k == 0 || k > n.children@.len() {
        lines
    } else {
        written(
            written_children(lines, n, depth, offset, (k - 1) as nat),
            n.children@[k - 1],
            depth + 1,
            offset + sizes_before(n, (k - 1) as nat),
        )
    }
}

/// The lines with a node written into line `depth` at `offset`, and its
/// children below it, the first at the same offset and each of the others
/// after the room of the one before.
pub open spec fn written(lines: Seq<Seq<char>>, n: ParserNode, depth: nat, offset: nat) -> Seq<Seq<char>>
    decreases n, 1nat, 0nat,
{
    written_children(placed(lines, n, depth, offset), n, depth, offset, n.children@.len())
}

#[via_fn]
proof fn written_children_decreases(lines: Seq<Seq<char>>, n: ParserNode, depth: nat, offset: nat, k: nat) {
    if !(k == 0 || k > n.children@.len()) {
        axiom_vec_dequeue_index_decreases(n.children, k - 1);
    }
}

/// The first `k` lines, each with a line break after it.
pub open spec fn lines_text(lines: Seq<Seq<char>>, k: nat) -> Seq<char>
    decreases k,
{
    if k == 0 {
        Seq::empty()
    } else {
        (lines_text(lines, (k - 1) as nat) + lines[k - 1]).push('\n')
    }
}

/// The texts of a list of strings.
pub open spec fn line_views(lines: Seq<String>) -> Seq<Seq<char>> {
    Seq::new(lines.len(), |i: int| lines[i]@)
}

/// Writes the text of one node.
fn write_once(node: &ParserNode, f: &mut String)
    ensures
        final(f)@ == old(f)@ + node_text(*node),
{
    push_text(f, name_of(node.node_type));
    f.push(' ');
    let ghost start = f@;
    let mut i: usize = 0;
    assert(f@ =~= start + token_text(*node, 0));
    while i < node.tokens.len()
        invariant
            i <= node.tokens@.len(),
            f@ == start + token_text(*node, i as nat),
        decreases node.tokens@.len() - i,
    {
        let shown = debug_of(node.tokens[i].get_text().as_str());
        push_text(f, shown.as_str());
        f.push(' ');
        assert(f@ =~= start + token_text(*node, (i + 1) as nat));
        i = i + 1;
    }
    assert(f@ =~= old(f)@ + node_text(*node));
}

/// The length of the text of one node.
fn node_print_size(node: &ParserNode) -> (r: usize)
    ensures
        r == node_text(*node).len(),
{
    let mut printable = String::new();
    write_once(node, &mut printable);
    assert(printable@ =~= node_text(*node));
    printable.as_str().unicode_len()
}

/// The room that a node takes in its line; `None` where it does not fit
/// the machine's word.
fn find_node_size(node: &ParserNode) -> (r: Option<usize>)
    ensures
        match r {
            Some(size) => size == node_size(*node),
            None => node_size(*node) > usize::MAX,
        },
    decreases *node,
{
    let own: usize = node_print_size(node);
    let mut total: usize = 0;
    let mut i: usize = 0;
    while i < node.children.len()
        invariant
            i <= node.children@.len(),
            total == sizes_before(*node, i as nat),
        decreases node.children@.len() - i,
    {
        proof {
            axiom_vec_dequeue_index_decreases(node.children, i as int);
        }
        let size = match find_node_size(&node.children[i]) {
            Some(size) => size,
            None => {
                proof {
                    lemma_sizes_grow(*node, (i + 1) as nat, node.children@.len());
                }
                return None;
            },
        };
        total = match total.checked_add(size) {
            Some(total) => total,
            None => {
                proof {
                    lemma_sizes_grow(*node, (i + 1) as nat, node.children@.len());
                }
                return None;
            },
        };
        i = i + 1;
    }
    if own > total {
        Some(own)
    } else {
        Some(total)
    }
}

/// The room of more children is not less.
pub proof fn lemma_sizes_grow(n: ParserNode, k: nat, m: nat)
    requires
        k <= m <= n.children@.len(),
    ensures
        sizes_before(n, k) <= sizes_before(n, m),
    decreases m,
{
    if k < m {
        lemma_sizes_grow(n, k, (m - 1) as nat);
    }
}

fn grow(writes: &mut Vec<String>, row: usize)
    ensures
        line_views(final(writes)@) == grown(line_views(old(writes)@), (row + 1) as nat),
        final(writes)@.len() > row,
{
    let ghost start = line_views(writes@);
    let ghost mut added: nat = 0;
    assert(line_views(writes@) =~= start + Seq::new(added, |i: int| Seq::<char>::empty()));
    while writes.len() <= row
        invariant
            writes@.len() == start.len() + added,
            added == 0 || writes@.len() <= row + 1,
            line_views(writes@) == start + Seq::new(added, |i: int| Seq::<char>::empty()),
        decreases row + 1 - writes@.len(),
    {
        let ghost before = line_views(writes@);
        writes.push(String::new());
        proof {
            assert(line_views(writes@) =~= before.push(Seq::<char>::empty()));
            assert(before.push(Seq::<char>::empty()) =~= start + Seq::new(
                added + 1,
                |i: int| Seq::<char>::empty(),
            ));
            added = added + 1;
        }
    }
    proof {
        if added == 0 {
            assert(line_views(writes@) =~= start);
        }
    }
}

/// Writes a node and its subtree into the lines: the node into line `row`
/// at `offset`, every child one line below.
fn write_to_vec(writes: &mut Vec<String>, node: &ParserNode, row: usize, offset: usize)
    requires
        offset + node_size(*node) <= usize::MAX,
    ensures
        line_views(final(writes)@) == written(line_views(old(writes)@), *node, row as nat, offset as nat),
        final(writes)@.len() > row,
        final(writes)@.len() >= old(writes)@.len(),
    decreases *node,
{
    let ghost start = line_views(writes@);
    grow(writes, row);
    let ghost enough = line_views(writes@);
    let mut line = String::new();
    std::mem::swap(&mut line, &mut writes[row]);
    let ghost before = line@;
    let mut length: usize = line.as_str().unicode_len();
    while length < offset
        invariant
            before.len() <= length,
            length <= offset || length == before.len(),
            line@ == before + spaces((length - before.len()) as nat),
        decreases offset - length,
    {
        line.push(' ');
        assert(line@ =~= before + spaces((length + 1 - before.len()) as nat));
        length = length + 1;
    }
    assert(line@ =~= padded(before, offset as nat));
    write_once(node, &mut line);
    writes[row] = line;
    proof {
        assert(line_views(writes@) =~= placed(start, *node, row as nat, offset as nat));
    }
    let mut child_offset: usize = offset;
    let mut i: usize = 0;
    while i < node.children.len()
        invariant
            i <= node.children@.len(),
            row < writes@.len(),
            old(writes)@.len() <= writes@.len(),
            offset + node_size(*node) <= usize::MAX,
            child_offset == offset + sizes_before(*node, i as nat),
            line_views(writes@) == written_children(
                placed(start, *node, row as nat, offset as nat),
                *node,
                row as nat,
                offset as nat,
                i as nat,
            ),
        decreases node.children@.len() - i,
    {
        proof {
            axiom_vec_dequeue_index_decreases(node.children, i as int);
            lemma_sizes_grow(*node, (i + 1) as nat, node.children@.len());
        }
        let lines: usize = writes.len();
        assert(row < lines);
        write_to_vec(writes, &node.children[i], row + 1, child_offset);
        let size = match find_node_size(&node.children[i]) {
            Some(size) => size,
            None => 0,
        };
        child_offset = child_offset + size;
        i = i + 1;
    }
}

impl ParserNode {
    /// The tree as text; `None` for a tree so wide in characters that its
    /// room does not fit the machine's word.
    pub fn to_string(&self) -> (r: Option<String>)
        ensures
            match r {
                Some(text) => node_size(*self) <= usize::MAX && text@ == lines_text(
                    written(Seq::empty(), *self, 0, 0),
                    written(Seq::empty(), *self, 0, 0).len(),
                ),
                None => node_size(*self) > usize::MAX,
            },
    {
        match find_node_size(self) {
            Some(_) => {},
            None => {
                return None;
            },
        }
        let mut writes: Vec<String> = Vec::new();
        assert(line_views(writes@) =~= Seq::<Seq<char>>::empty());
        write_to_vec(&mut writes, self, 0, 0);
        let ghost lines = line_views(writes@);
        let mut text = String::new();
        let mut i: usize = 0;
        while i < writes.len()
            invariant
                i <= writes@.len(),
                lines == line_views(writes@),
                text@ == lines_text(lines, i as nat),
            decreases writes@.len() - i,
        {
            push_text(&mut text, writes[i].as_str());
            text.push('\n');
            i = i + 1;
        }
        Some(text)
    }
}

} // verus!
