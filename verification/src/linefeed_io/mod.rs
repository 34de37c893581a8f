//! Completion of table and column names at the prompt.

use vstd::prelude::*;
use crate::table::{ColumnType, TableMeta};
use crate::text::chars_of;

verus! {

/// Completes a word to the aliases and column names of the loaded tables.
pub struct TableCompleter {
    pub tables: Vec<TableMeta>,
}

/// The names among the first `n` columns of a table that begin with `word`.
pub open spec fn column_candidates(columns: Seq<(String, ColumnType)>, word: Seq<char>, n: nat) -> Seq<Seq<char>>
    decreases n,
{
    if n == 0 {
        Seq::empty()
    } else if word.is_prefix_of(columns[n - 1].0@) {
        column_candidates(columns, word, (n - 1) as nat).push(columns[n - 1].0@)
    } else {
        column_candidates(columns, word, (n - 1) as nat)
    }
}

/// The candidates that one table gives: its alias, then its column names,
/// each where it begins with `word`.
pub open spec fn table_candidates(table: TableMeta, word: Seq<char>) -> Seq<Seq<char>> {
    let names = column_candidates(table.columns@, word, table.columns@.len());
    if word.is_prefix_of(table.alias@) {
        seq![table.alias@] + names
    } else {
        names
    }
}

/// The candidates that the first `n` tables give, table after table.
pub open spec fn candidates(tables: Seq<TableMeta>, word: Seq<char>, n: nat) -> Seq<Seq<char>>
    decreases n,
{
    if n == 0 {
        Seq::empty()
    } else {
        candidates(tables, word, (n - 1) as nat) + table_candidates(tables[n - 1], word)
    }
}

fn begins_with(text: &str, word: &Vec<char>) -> (r: bool)
    ensures
        r == word@.is_prefix_of(text@),
{
    let chars = chars_of(text);
    if word.len() > chars.len() {
        return false;
    }
    let mut i: usize = 0;
    while i < word.len()
        invariant
            i <= word@.len() <= chars@.len(),
            chars@ == text@,
            forall|j: int| 0 <= j < i ==> word@[j] == chars@[j],
        decreases word@.len() - i,
    {
        if word[i] != chars[i] {
            assert(text@.subrange(0, word@.len() as int)[i as int] != word@[i as int]);
            return false;
        }
        i = i + 1;
    }
    assert(text@.subrange(0, word@.len() as int) =~= word@);
    true
}

impl TableCompleter {
    pub fn new(tables: Vec<TableMeta>) -> (c: Self)
        ensures
            c.tables == tables,
    {
        Self { tables }
    }

    /// The aliases and column names that begin with `word`, table after
    /// table; `None` where there is none.
    pub fn complete(&self, word: &str) -> (r: Option<Vec<String>>)
        ensures
            match r {
                Some(found) => found@.len() > 0 && found@.len() == candidates(
                    self.tables@,
                    word@,
                    self.tables@.len(),
                ).len() && forall|i: int|
                    0 <= i < found@.len() ==> (#[trigger] found@[i])@ == candidates(
                        self.tables@,
                        word@,
                        self.tables@.len(),
                    )[i],
                None => candidates(self.tables@, word@, self.tables@.len()).len() == 0,
            },
    {
        let letters = chars_of(word);
        let mut completions: Vec<String> = Vec::new();
        let mut t: usize = 0;
        while t < self.tables.len()
            invariant
                t <= self.tables@.len(),
                letters@ == word@,
                completions@.len() == candidates(self.tables@, word@, t as nat).len(),
                forall|i: int|
                    0 <= i < completions@.len() ==> (#[trigger] completions@[i])@ == candidates(
                        self.tables@,
                        word@,
                        t as nat,
                    )[i],
            decreases self.tables@.len() - t,
        {
            let metadata = &self.tables[t];
            let ghost before = candidates(self.tables@, word@, t as nat);
            let ghost mut own: Seq<Seq<char>> = Seq::empty();
            if begins_with(metadata.alias.as_str(), &letters) {
                completions.push(metadata.alias.clone());
                proof {
                    own = seq![metadata.alias@];
                }
            }
            let ghost head = own;
            let mut c: usize = 0;
            while c < metadata.columns.len()
                invariant
                    c <= metadata.columns@.len(),
                    letters@ == word@,
                    completions@.len() == before.len() + head.len() + column_candidates(
                        metadata.columns@,
                        word@,
                        c as nat,
                    ).len(),
                    forall|i: int|
                        0 <= i < completions@.len() ==> (#[trigger] completions@[i])@ == (before + head
                            + column_candidates(metadata.columns@, word@, c as nat))[i],
                decreases metadata.columns@.len() - c,
            {
                if begins_with(metadata.columns[c].0.as_str(), &letters) {
                    completions.push(metadata.columns[c].0.clone());
                }
                c = c + 1;
            }
            proof {
                assert(head + column_candidates(metadata.columns@, word@, metadata.columns@.len())
                    =~= table_candidates(*metadata, word@));
                assert(before + head + column_candidates(
                    metadata.columns@,
                    word@,
                    metadata.columns@.len(),
                ) =~= candidates(self.tables@, word@, (t + 1) as nat));
            }
            t = t + 1;
        }
        if completions.len() > 0 {
            Some(completions)
        } else {
            None
        }
    }
}

} // verus!
