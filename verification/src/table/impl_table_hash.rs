//! The hash that gives a row its identity when rows are grouped.

use vstd::prelude::*;
use vstd::bytes::{spec_u64_to_le_bytes, u64_to_le_bytes};
use vstd::std_specs::hash::DefaultHasherAdditionalSpecFns;
use vstd::string::StringSliceAdditionalSpecFns;
use std::collections::hash_map::DefaultHasher;
use std::hash::Hasher;
use crate::floats::hash_bits;
use crate::table::{Cell, Column, ColumnView, Table, TableView};

verus! {

/// The cell of a column at a row, or null past the column's end.
pub open spec fn cell_at(column: ColumnView, row: nat) -> Cell {
    if row < column.cells.len() {
        column.cells[row as int]
    } else {
        Cell::Null
    }
}

/// The bytes under which a cell is hashed: a first byte that tells null
/// from the five types, then the value. Floats that are equal as numbers
/// have the same bytes; a text gives its UTF-8 bytes.
pub open spec fn cell_bytes(cell: Cell) -> Seq<u8> {
    match cell {
        Cell::Null => seq![0u8],
        Cell::Boolean(b) => seq![1u8, if b {
            1u8
        } else {
            0u8
        }],
        Cell::Int(i) => seq![2u8] + spec_u64_to_le_bytes(i as u64),
        Cell::Float(bits) => seq![3u8] + spec_u64_to_le_bytes(hash_bits(bits)),
        Cell::Text(s) => seq![4u8] + vstd::utf8::encode_utf8(s),
        Cell::Date(d) => seq![5u8] + spec_u64_to_le_bytes(d as u64),
    }
}

/// What is fed to the hasher for a row: the bytes of its cell in each of
/// the first `n` columns, in order.
pub open spec fn row_bytes(columns: Seq<ColumnView>, row: nat, n: nat) -> Seq<Seq<u8>>
    decreases n,
{
    if n == 0 {
        Seq::empty()
    } else {
        row_bytes(columns, row, (n - 1) as nat).push(cell_bytes(cell_at(columns[n - 1], row)))
    }
}

/// The hash of a row: what the standard hasher makes of the row's bytes.
pub open spec fn row_hash(t: TableView, row: nat) -> u64 {
    DefaultHasher::spec_finish(row_bytes(t.columns, row, t.columns.len()))
}

fn append_bytes(out: &mut Vec<u8>, bytes: &[u8])
    ensures
        final(out)@ == old(out)@ + bytes@,
{
    let mut i: usize = 0;
    while i < bytes.len()
        invariant
            i <= bytes.len(),
            out@ =~= old(out)@ + bytes@.take(i as int),
        decreases bytes.len() - i,
    {
        out.push(bytes[i]);
        i = i + 1;
    }
    assert(bytes@.take(bytes@.len() as int) =~= bytes@);
}

fn encode_cell(column: &Column, row: usize) -> (out: Vec<u8>)
    ensures
        out@ == cell_bytes(cell_at(column@, row as nat)),
{
    let mut out: Vec<u8> = Vec::new();
    if row >= column.len() {
        out.push(0u8);
        assert(out@ =~= seq![0u8]);
        return out;
    }
    match column {
        Column::Booleans(v) => match v[row] {
            Some(b) => {
                out.push(1u8);
                out.push(if b {
                    1u8
                } else {
                    0u8
                });
                assert(out@ =~= cell_bytes(Cell::Boolean(b)));
            },
            None => {
                out.push(0u8);
                assert(out@ =~= seq![0u8]);
            },
        },
        Column::Ints(v) => match v[row] {
            Some(i) => {
                out.push(2u8);
                let bytes = u64_to_le_bytes(i as u64);
                append_bytes(&mut out, bytes.as_slice());
                assert(out@ =~= cell_bytes(Cell::Int(i)));
            },
            None => {
                out.push(0u8);
                assert(out@ =~= seq![0u8]);
            },
        },
        Column::Dates(v) => match v[row] {
            Some(d) => {
                out.push(5u8);
                let bytes = u64_to_le_bytes(d as u64);
                append_bytes(&mut out, bytes.as_slice());
                assert(out@ =~= cell_bytes(Cell::Date(d)));
            },
            None => {
                out.push(0u8);
                assert(out@ =~= seq![0u8]);
            },
        },
        Column::Floats(v) => match v[row] {
            Some(f) => {
                out.push(3u8);
                let bytes = u64_to_le_bytes(f.hash_bits());
                append_bytes(&mut out, bytes.as_slice());
                assert(out@ =~= cell_bytes(Cell::Float(f.bits)));
            },
            None => {
                out.push(0u8);
                assert(out@ =~= seq![0u8]);
            },
        },
        Column::Strings(v) => match &v[row] {
            Some(s) => {
                out.push(4u8);
                append_bytes(&mut out, s.as_str().as_bytes());
                assert(out@ =~= cell_bytes(Cell::Text(s@)));
            },
            None => {
                out.push(0u8);
                assert(out@ =~= seq![0u8]);
            },
        },
    }
    out
}

impl Table {
    /// A 64-bit hash of the values of row `idx` across all columns. Rows
    /// whose cells are equal, floats as numbers, have the same hash.
    pub fn hash_row(&self, idx: usize) -> (h: u64)
        ensures
            h == row_hash(self@, idx as nat),
    {
        let mut hasher = DefaultHasher::new();
        let mut i: usize = 0;
        while i < self.columns.len()
            invariant
                i <= self.columns.len(),
                hasher@ == row_bytes(self@.columns, idx as nat, i as nat),
            decreases self.columns.len() - i,
        {
            let bytes = encode_cell(&self.columns[i], idx);
            hasher.write(bytes.as_slice());
            i = i + 1;
        }
        hasher.finish()
    }
}

} // verus!
