//! The names of tables and columns as text.

use vstd::prelude::*;
use crate::table::{Store, Table};
use crate::text::push_text;

verus! {

/// The names of the columns of a table.
pub struct PrintableColumns {
    pub names: Vec<String>,
}

/// The tables of a store, each with the names of its columns.
pub struct PrintableTables {
    pub tables: Vec<(String, PrintableColumns)>,
}

/// The aliases of the tables of a store.
pub struct PrintableTableNames {
    pub tables: Vec<String>,
}

/// The first `n` texts with one space between each two.
pub open spec fn spaced(texts: Seq<String>, n: nat) -> Seq<char>
    decreases n,
{
    if n == 0 {
        Seq::empty()
    } else if n == 1 {
        texts[0]@
    } else {
        spaced(texts, (n - 1) as nat).push(' ') + texts[n - 1]@
    }
}

/// The first `n` tables, each as its alias, a colon and the names of its
/// columns, with an empty line between each two.
pub open spec fn listed(tables: Seq<(String, PrintableColumns)>, n: nat) -> Seq<char>
    decreases n,
{
    if n == 0 {
        Seq::empty()
    } else {
        let entry = tables[n - 1].0@ + ": "@ + spaced(tables[n - 1].1.names@, tables[n - 1].1.names@.len());
        if n == 1 {
            entry
        } else {
            listed(tables, (n - 1) as nat) + "\n\n"@ + entry
        }
    }
}

fn join_spaced(texts: &Vec<String>) -> (r: String)
    ensures
        r@ == spaced(texts@, texts@.len()),
{
    let mut r = String::new();
    let mut num: usize = 0;
    while num < texts.len()
        invariant
            num <= texts@.len(),
            r@ == spaced(texts@, num as nat),
        decreases texts@.len() - num,
    {
        if num > 0 {
            r.push(' ');
        }
        push_text(&mut r, texts[num].as_str());
        num = num + 1;
    }
    r
}

impl PrintableColumns {
    pub fn from(table: &Table) -> (r: Self)
        ensures
            r.names@.len() == table@.names.len(),
            forall|i: int| 0 <= i < r.names@.len() ==> r.names@[i]@ == table@.names[i],
    {
        Self { names: table.column_names() }
    }

    /// The names with a space between each two.
    pub fn to_string(&self) -> (r: String)
        ensures
            r@ == spaced(self.names@, self.names@.len()),
    {
        join_spaced(&self.names)
    }
}

impl PrintableTableNames {
    pub fn from(store: &Store) -> (r: Self)
        ensures
            r.tables@.len() == store.tables@.len(),
            forall|i: int| 0 <= i < r.tables@.len() ==> (#[trigger] r.tables@[i])@ == store.tables@[i]@.alias,
    {
        let mut tables: Vec<String> = Vec::new();
        let mut i: usize = 0;
        while i < store.tables.len()
            invariant
                i <= store.tables@.len(),
                tables@.len() == i,
                forall|j: int| 0 <= j < i ==> (#[trigger] tables@[j])@ == store.tables@[j]@.alias,
            decreases store.tables@.len() - i,
        {
            tables.push(store.tables[i].alias());
            i = i + 1;
        }
        Self { tables }
    }

    /// The aliases with a space between each two.
    pub fn to_string(&self) -> (r: String)
        ensures
            r@ == spaced(self.tables@, self.tables@.len()),
    {
        join_spaced(&self.tables)
    }
}

impl PrintableTables {
    pub fn from(store: &Store) -> (r: Self)
        ensures
            r.tables@.len() == store.tables@.len(),
            forall|i: int|
                0 <= i < r.tables@.len() ==> (#[trigger] r.tables@[i]).0@ == store.tables@[i]@.alias
                    && r.tables@[i].1.names@.len() == store.tables@[i]@.names.len(),
    {
        let mut tables: Vec<(String, PrintableColumns)> = Vec::new();
        let mut i: usize = 0;
        while i < store.tables.len()
            invariant
                i <= store.tables@.len(),
                tables@.len() == i,
                forall|j: int|
                    0 <= j < i ==> (#[trigger] tables@[j]).0@ == store.tables@[j]@.alias
                        && tables@[j].1.names@.len() == store.tables@[j]@.names.len(),
            decreases store.tables@.len() - i,
        {
            tables.push((store.tables[i].alias(), PrintableColumns::from(&store.tables[i])));
            i = i + 1;
        }
        Self { tables }
    }

    /// Every table on a line of its own, with an empty line between each
    /// two tables.
    pub fn to_string(&self) -> (r: String)
        ensures
            r@ == listed(self.tables@, self.tables@.len()),
    {
        let mut r = String::new();
        let mut num: usize = 0;
        while num < self.tables.len()
            invariant
                num <= self.tables@.len(),
                r@ == listed(self.tables@, num as nat),
            decreases self.tables@.len() - num,
        {
            if num > 0 {
                push_text(&mut r, "\n\n");
            }
            push_text(&mut r, self.tables[num].0.as_str());
            push_text(&mut r, ": ");
            let columns = self.tables[num].1.to_string();
            push_text(&mut r, columns.as_str());
            proof {
                let entry = self.tables@[num as int].0@ + ": "@ + spaced(
                    self.tables@[num as int].1.names@,
                    self.tables@[num as int].1.names@.len(),
                );
                if num == 0 {
                    assert(r@ =~= entry);
                } else {
                    assert(r@ =~= listed(self.tables@, num as nat) + "\n\n"@ + entry);
                }
            }
            num = num + 1;
        }
        r
    }
}

} // verus!
