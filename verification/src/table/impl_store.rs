//! The store of tables: the environment a query is evaluated in.

use vstd::prelude::*;
use crate::result::{ErrorType, SqlError, SqlResult};
use crate::table::{Store, Table};

verus! {

/// The position of the first of the first `n` tables under `alias`.
pub open spec fn position_of(tables: Seq<Table>, alias: Seq<char>, n: nat) -> Option<nat>
    decreases n,
{
    if n == 0 {
        None
    } else {
        match position_of(tables, alias, (n - 1) as nat) {
            Some(p) => Some(p),
            None => if tables[n - 1]@.alias == alias {
                Some((n - 1) as nat)
            } else {
                None
            },
        }
    }
}

impl Store {
    /// The position of the table under `alias`, if there is one.
    pub open spec fn find(&self, alias: Seq<char>) -> Option<nat> {
        position_of(self.tables@, alias, self.tables@.len())
    }

    /// Every table is well formed and has columns of one length.
    pub open spec fn wf(&self) -> bool {
        forall|i: int|
            0 <= i < self.tables@.len() ==> (#[trigger] self.tables@[i])@.wf() && self.tables@[i]@.rectangular()
    }

    /// The empty store.
    pub fn new() -> (s: Self)
        ensures
            s.tables@.len() == 0,
            s.wf(),
    {
        Store { tables: Vec::new() }
    }

    fn locate(&self, alias: &str) -> (r: Option<usize>)
        ensures
            r matches Some(i) ==> i < self.tables@.len() && self.find(alias@) == Some(i as nat),
            r is None ==> self.find(alias@) is None,
    {
        let mut i: usize = 0;
        while i < self.tables.len()
            invariant
                i <= self.tables.len(),
                position_of(self.tables@, alias@, i as nat) is None,
            decreases self.tables.len() - i,
        {
            if *self.tables[i].alias.as_str() == *alias {
                proof {
                    assert(position_of(self.tables@, alias@, (i + 1) as nat) == Some(i as nat));
                    lemma_position_stays(self.tables@, alias@, (i + 1) as nat, self.tables@.len());
                }
                return Some(i);
            }
            i = i + 1;
        }
        None
    }

    /// The table under `alias`; a `Lookup` error where there is none.
    pub fn get(&self, alias: &str) -> (r: SqlResult<&Table>)
        ensures
            match self.find(alias@) {
                Some(p) => r is Ok && *r->Ok_0 == self.tables@[p as int],
                None => r is Err && r->Err_0.type_ == ErrorType::Lookup,
            },
    {
        match self.locate(alias) {
            Some(i) => Ok(&self.tables[i]),
            None => {
                let mut message = String::new();
                crate::text::push_text(&mut message, "alias ");
                crate::text::push_text(&mut message, alias);
                crate::text::push_text(&mut message, " not found in store");
                Err(SqlError::new(message.as_str(), ErrorType::Lookup))
            },
        }
    }

    /// Puts `table` under its alias, in place of the table that was there.
    pub fn set(&mut self, table: Table)
        ensures
            final(self).find(table@.alias) is Some,
            final(self).tables@[final(self).find(table@.alias)->Some_0 as int] == table,
            match old(self).find(table@.alias) {
                Some(p) => final(self).tables@ == old(self).tables@.update(p as int, table),
                None => final(self).tables@ == old(self).tables@.push(table),
            },
            old(self).wf() && table@.wf() && table@.rectangular() ==> final(self).wf(),
    {
        let ghost alias = table@.alias;
        match self.locate(table.alias.as_str()) {
            Some(i) => {
                self.tables[i] = table;
                proof {
                    lemma_position_update(old(self).tables@, alias, i as nat, table, self.tables@.len());
                }
            },
            None => {
                self.tables.push(table);
                proof {
                    lemma_position_prefix(old(self).tables@, self.tables@, alias, old(self).tables@.len());
                }
            },
        }
    }

    /// The tables of the store.
    pub fn list(&self) -> (r: Vec<&Table>)
        ensures
            r@.len() == self.tables@.len(),
            forall|i: int| 0 <= i < r@.len() ==> *r@[i] == self.tables@[i],
    {
        let mut r: Vec<&Table> = Vec::new();
        let mut i: usize = 0;
        while i < self.tables.len()
            invariant
                i <= self.tables.len(),
                r@.len() == i,
                forall|j: int| 0 <= j < i ==> *r@[j] == self.tables@[j],
            decreases self.tables.len() - i,
        {
            r.push(&self.tables[i]);
            i = i + 1;
        }
        r
    }
}

/// A position found among the first `n` tables is the one found among more.
pub proof fn lemma_position_stays(tables: Seq<Table>, alias: Seq<char>, n: nat, m: nat)
    requires
        n <= m,
        position_of(tables, alias, n) is Some,
    ensures
        position_of(tables, alias, m) == position_of(tables, alias, n),
    decreases m,
{
    if n < m {
        lemma_position_stays(tables, alias, n, (m - 1) as nat);
    }
}

/// The search sees only the tables below `n`.
pub proof fn lemma_position_prefix(a: Seq<Table>, b: Seq<Table>, alias: Seq<char>, n: nat)
    requires
        n <= a.len(),
        n <= b.len(),
        forall|i: int| 0 <= i < n ==> a[i]@.alias == b[i]@.alias,
    ensures
        position_of(a, alias, n) == position_of(b, alias, n),
    decreases n,
{
    if n > 0 {
        lemma_position_prefix(a, b, alias, (n - 1) as nat);
    }
}

/// Replacing the table found under an alias by one of the same alias leaves
/// it where it is found.
pub proof fn lemma_position_update(tables: Seq<Table>, alias: Seq<char>, p: nat, table: Table, m: nat)
    requires
        m <= tables.len(),
        p < tables.len(),
        position_of(tables, alias, tables.len()) == Some(p),
        table@.alias == alias,
    ensures
        position_of(tables.update(p as int, table), alias, m) == position_of(tables, alias, m),
    decreases m,
{
    if m > 0 {
        lemma_position_update(tables, alias, p, table, (m - 1) as nat);
        if (m - 1) as nat == p {
            lemma_position_found(tables, alias, tables.len());
        }
    }
}

/// The table at a position found under an alias has that alias.
pub proof fn lemma_position_found(tables: Seq<Table>, alias: Seq<char>, n: nat)
    requires
        n <= tables.len(),
    ensures
        match position_of(tables, alias, n) {
            Some(p) => p < n && tables[p as int]@.alias == alias,
            None => true,
        },
    decreases n,
{
    if n > 0 {
        lemma_position_found(tables, alias, (n - 1) as nat);
    }
}

} // verus!
