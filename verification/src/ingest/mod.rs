//! Reading the fields of one line of a separated text file.

use vstd::prelude::*;
use crate::text::chars_of;

verus! {

pub type Index = usize;

/// How the fields of a line are told apart.
pub trait SepFinder {
    /// Whether a separator begins at `index`.
    spec fn separator_at(&self, chars: Seq<char>, index: int, length: int) -> bool;

    /// The place after the separator that begins at `index`.
    spec fn after_separator(&self, chars: Seq<char>, index: int, length: int) -> int;

    /// Consumes the characters of a separator and returns the new index. A
    /// separator that begins at `index` has at least one character.
    fn consume_sep(&self, chars: &Vec<char>, index: Index, length: Index) -> (r: Index)
        requires
            index <= length <= chars@.len(),
        ensures
            r == self.after_separator(chars@, index as int, length as int),
            index <= r <= length,
            self.separator_at(chars@, index as int, length as int) ==> index < r,
    ;

    /// Whether the characters from `index` on begin with a separator.
    fn at_sep(&self, chars: &Vec<char>, index: Index, length: Index) -> (r: bool)
        requires
            index <= length <= chars@.len(),
        ensures
            r == self.separator_at(chars@, index as int, length as int),
    ;
}

/// The first place from `index` on that holds no space.
pub open spec fn after_spaces(chars: Seq<char>, index: int, length: int) -> int
    decreases length - index,
{
    if index < length && chars[index] == ' ' {
        after_spaces(chars, index + 1, length)
    } else {
        index
    }
}

/// The first place from `index` on that holds neither a space nor `mark`.
pub open spec fn after_marks(chars: Seq<char>, mark: char, index: int, length: int) -> int
    decreases length - index,
{
    if index < length && (chars[index] == ' ' || chars[index] == mark) {
        after_marks(chars, mark, index + 1, length)
    } else {
        index
    }
}

/// Whether, after spaces, `mark` stands at `index`.
pub open spec fn mark_at(chars: Seq<char>, mark: char, index: int, length: int) -> bool {
    after_spaces(chars, index, length) < length && chars[after_spaces(chars, index, length)] == mark
}

/// Spaces and marks are passed over together, and a mark that stands
/// after spaces is passed over with them.
pub proof fn lemma_after_marks(chars: Seq<char>, mark: char, index: int, length: int)
    requires
        index <= length,
    ensures
        index <= after_marks(chars, mark, index, length) <= length,
        mark_at(chars, mark, index, length) ==> index < after_marks(chars, mark, index, length),
    decreases length - index,
{
    if index < length && (chars[index] == ' ' || chars[index] == mark) {
        lemma_after_marks(chars, mark, index + 1, length);
    }
}

fn skip_spaces(chars: &Vec<char>, index: Index, length: Index) -> (r: Index)
    requires
        index <= length <= chars@.len(),
    ensures
        r == after_spaces(chars@, index as int, length as int),
        index <= r <= length,
{
    let mut i: usize = index;
    while i < length && chars[i] == ' '
        invariant
            index <= i <= length <= chars@.len(),
            after_spaces(chars@, index as int, length as int) == after_spaces(
                chars@,
                i as int,
                length as int,
            ),
        decreases length - i,
    {
        i = i + 1;
    }
    i
}

fn skip_marks(chars: &Vec<char>, mark: char, index: Index, length: Index) -> (r: Index)
    requires
        index <= length <= chars@.len(),
    ensures
        r == after_marks(chars@, mark, index as int, length as int),
        index <= r <= length,
        mark_at(chars@, mark, index as int, length as int) ==> index < r,
{
    let mut i: usize = index;
    while i < length && (chars[i] == ' ' || chars[i] == mark)
        invariant
            index <= i <= length <= chars@.len(),
            after_marks(chars@, mark, index as int, length as int) == after_marks(
                chars@,
                mark,
                i as int,
                length as int,
            ),
        decreases length - i,
    {
        i = i + 1;
    }
    proof {
        lemma_after_marks(chars@, mark, index as int, length as int);
    }
    i
}

fn mark_follows(chars: &Vec<char>, mark: char, index: Index, length: Index) -> (r: bool)
    requires
        index <= length <= chars@.len(),
    ensures
        r == mark_at(chars@, mark, index as int, length as int),
{
    let i = skip_spaces(chars, index, length);
    i < length && chars[i] == mark
}

/// Reads files whose fields are separated by commas.
pub struct CsvFinder {}

/// Reads files whose fields are separated by tabs.
pub struct TsvFinder {}

/// Reads files whose fields are separated by two or more spaces.
pub struct SpacesFinder {}

impl SepFinder for CsvFinder {
    open spec fn separator_at(&self, chars: Seq<char>, index: int, length: int) -> bool {
        mark_at(chars, ',', index, length)
    }

    open spec fn after_separator(&self, chars: Seq<char>, index: int, length: int) -> int {
        after_marks(chars, ',', index, length)
    }

    fn consume_sep(&self, chars: &Vec<char>, index: Index, length: Index) -> (r: Index) {
        skip_marks(chars, ',', index, length)
    }

    fn at_sep(&self, chars: &Vec<char>, index: Index, length: Index) -> (r: bool) {
        mark_follows(chars, ',', index, length)
    }
}

impl SepFinder for TsvFinder {
    open spec fn separator_at(&self, chars: Seq<char>, index: int, length: int) -> bool {
        mark_at(chars, '\t', index, length)
    }

    open spec fn after_separator(&self, chars: Seq<char>, index: int, length: int) -> int {
        after_marks(chars, '\t', index, length)
    }

    fn consume_sep(&self, chars: &Vec<char>, index: Index, length: Index) -> (r: Index) {
        skip_marks(chars, '\t', index, length)
    }

    fn at_sep(&self, chars: &Vec<char>, index: Index, length: Index) -> (r: bool) {
        mark_follows(chars, '\t', index, length)
    }
}

impl SepFinder for SpacesFinder {
    open spec fn separator_at(&self, chars: Seq<char>, index: int, length: int) -> bool {
        after_spaces(chars, index, length) - index >= 2
    }

    open spec fn after_separator(&self, chars: Seq<char>, index: int, length: int) -> int {
        after_spaces(chars, index, length)
    }

    fn consume_sep(&self, chars: &Vec<char>, index: Index, length: Index) -> (r: Index) {
        skip_spaces(chars, index, length)
    }

    fn at_sep(&self, chars: &Vec<char>, index: Index, length: Index) -> (r: bool) {
        let end = skip_spaces(chars, index, length);
        end - index >= 2
    }
}

/// The text from `index` up to the next `character`, and the place after
/// that character, or the end where there is none.
pub open spec fn until(chars: Seq<char>, character: char, index: int, length: int) -> (Seq<char>, int)
    decreases length - index,
{
    if index >= length {
        (Seq::empty(), index)
    } else if chars[index] == character {
        (Seq::empty(), index + 1)
    } else {
        let (rest, end) = until(chars, character, index + 1, length);
        (seq![chars[index]] + rest, end)
    }
}

/// The field that begins at `index`, and the place where it ends: at the
/// next separator outside quotes, or at the end. A part in single or
/// double quotes is taken without its quotes, separators in it included.
pub open spec fn field<S: SepFinder + ?Sized>(finder: &S, chars: Seq<char>, index: int, length: int) -> (
    Seq<char>,
    int,
)
    decreases length - index,
{
    if index >= length || index < 0 || finder.separator_at(chars, index, length) {
        (Seq::empty(), index)
    } else if chars[index] == '"' || chars[index] == '\'' {
        let quoted = until(chars, chars[index], index + 1, length).0;
        let end = until(chars, chars[index], index + 1, length).1;
        if end <= index || end > length {
            (quoted, end)
        } else {
            (quoted + field(finder, chars, end, length).0, field(finder, chars, end, length).1)
        }
    } else {
        (
            seq![chars[index]] + field(finder, chars, index + 1, length).0,
            field(finder, chars, index + 1, length).1,
        )
    }
}

/// The fields of the line from `index` on.
pub open spec fn fields<S: SepFinder + ?Sized>(finder: &S, chars: Seq<char>, index: int, length: int) -> Seq<
    Seq<char>,
>
    decreases length - index,
{
    if index >= length || index < 0 {
        Seq::empty()
    } else if finder.separator_at(chars, index, length) {
        let next = finder.after_separator(chars, index, length);
        if next <= index || next > length {
            Seq::empty()
        } else {
            fields(finder, chars, next, length)
        }
    } else {
        let text = field(finder, chars, index, length).0;
        let end = field(finder, chars, index, length).1;
        if end <= index || end > length {
            Seq::empty()
        } else {
            seq![text] + fields(finder, chars, end, length)
        }
    }
}

/// A quoted part ends after its start and not past the end of the line.
pub proof fn lemma_until_bounds(chars: Seq<char>, character: char, index: int, length: int)
    requires
        index <= length,
    ensures
        index <= until(chars, character, index, length).1 <= length,
    decreases length - index,
{
    if index < length && chars[index] != character {
        lemma_until_bounds(chars, character, index + 1, length);
    }
}

/// A field that is not empty of characters ends after its start and not
/// past the end of the line.
pub proof fn lemma_field_bounds<S: SepFinder + ?Sized>(finder: &S, chars: Seq<char>, index: int, length: int)
    requires
        0 <= index <= length,
    ensures
        index <= field(finder, chars, index, length).1 <= length,
        index < length && !finder.separator_at(chars, index, length) ==> index < field(
            finder,
            chars,
            index,
            length,
        ).1,
    decreases length - index,
{
    if index >= length || finder.separator_at(chars, index, length) {
    } else if chars[index] == '"' || chars[index] == '\'' {
        lemma_until_bounds(chars, chars[index], index + 1, length);
        let end = until(chars, chars[index], index + 1, length).1;
        lemma_field_bounds(finder, chars, end, length);
    } else {
        lemma_field_bounds(finder, chars, index + 1, length);
    }
}

fn read_until(character: char, characters: &Vec<char>, index: usize, length: usize, target: &mut String) -> (r:
    Index)
    requires
        index <= length <= characters@.len(),
    ensures
        r == until(characters@, character, index as int, length as int).1,
        final(target)@ == old(target)@ + until(characters@, character, index as int, length as int).0,
        index <= r <= length,
{
    let mut i: usize = index;
    let ghost mut taken: Seq<char> = Seq::empty();
    proof {
        assert(target@ =~= old(target)@ + taken);
    }
    while i < length
        invariant
            index <= i <= length <= characters@.len(),
            target@ == old(target)@ + taken,
            until(characters@, character, index as int, length as int).0 == taken + until(
                characters@,
                character,
                i as int,
                length as int,
            ).0,
            until(characters@, character, index as int, length as int).1 == until(
                characters@,
                character,
                i as int,
                length as int,
            ).1,
        decreases length - i,
    {
        if characters[i] == character {
            proof {
                assert(taken + Seq::<char>::empty() =~= taken);
            }
            return i + 1;
        } else {
            target.push(characters[i]);
            proof {
                let rest = until(characters@, character, i + 1, length as int).0;
                assert(taken + (seq![characters@[i as int]] + rest) =~= taken.push(characters@[i as int])
                    + rest);
                taken = taken.push(characters@[i as int]);
                assert(target@ =~= old(target)@ + taken);
            }
            i = i + 1;
        }
    }
    proof {
        assert(taken + Seq::<char>::empty() =~= taken);
    }
    i
}

/// Reads the field that begins at `index`: its text and the place where
/// it ends.
pub fn read_field(chars: &Vec<char>, index: Index, length: Index, separator_reader: &Box<dyn SepFinder>) -> (r:
    (String, Index))
    requires
        index <= length <= chars@.len(),
    ensures
        (r.0@, r.1 as int) == field(&**separator_reader, chars@, index as int, length as int),
        index <= r.1 <= length,
{
    read_field_with(chars, index, length, &**separator_reader)
}

/// Reads a field with any way of telling fields apart.
pub fn read_field_with<S: SepFinder + ?Sized>(chars: &Vec<char>, index: Index, length: Index, separator_reader: &S) -> (r:
    (String, Index))
    requires
        index <= length <= chars@.len(),
    ensures
        (r.0@, r.1 as int) == field(separator_reader, chars@, index as int, length as int),
        index <= r.1 <= length,
{
    let mut s = String::new();
    let mut i: usize = index;
    let ghost whole = field(separator_reader, chars@, index as int, length as int);
    proof {
        assert(s@ + whole.0 =~= whole.0);
    }
    while i < length && !separator_reader.at_sep(chars, i, length)
        invariant
            index <= i <= length <= chars@.len(),
            whole == field(separator_reader, chars@, index as int, length as int),
            whole.0 == s@ + field(separator_reader, chars@, i as int, length as int).0,
            whole.1 == field(separator_reader, chars@, i as int, length as int).1,
        decreases length - i,
    {
        let c: char = chars[i];
        let ghost before = s@;
        let ghost here = field(separator_reader, chars@, i as int, length as int);
        assert(!separator_reader.separator_at(chars@, i as int, length as int));
        if c == '"' || c == '\'' {
            proof {
                lemma_until_bounds(chars@, c, i + 1, length as int);
            }
            let end = read_until(c, chars, i + 1, length, &mut s);
            proof {
                let quoted = until(chars@, c, i + 1, length as int).0;
                let rest = field(separator_reader, chars@, end as int, length as int);
                assert(here == (quoted + rest.0, rest.1));
                assert(before + (quoted + rest.0) =~= (before + quoted) + rest.0);
            }
            i = end;
        } else {
            s.push(c);
            proof {
                let rest = field(separator_reader, chars@, i + 1, length as int);
                assert(here == (seq![c] + rest.0, rest.1));
                assert(before + (seq![c] + rest.0) =~= before.push(c) + rest.0);
            }
            i = i + 1;
        }
    }
    proof {
        let last = field(separator_reader, chars@, i as int, length as int);
        assert(last == (Seq::<char>::empty(), i as int));
        assert(s@ + Seq::<char>::empty() =~= s@);
    }
    (s, i)
}

/// The fields of a line.
pub fn read_line(line: String, separator_reader: &Box<dyn SepFinder>) -> (r: Vec<String>)
    ensures
        r@.len() == fields(&**separator_reader, line@, 0, line@.len() as int).len(),
        forall|i: int|
            0 <= i < r@.len() ==> (#[trigger] r@[i])@ == fields(
                &**separator_reader,
                line@,
                0,
                line@.len() as int,
            )[i],
{
    read_line_with(line.as_str(), &**separator_reader)
}

/// The fields of a line, with any way of telling fields apart.
pub fn read_line_with<S: SepFinder + ?Sized>(line: &str, separator_reader: &S) -> (r: Vec<String>)
    ensures
        r@.len() == fields(separator_reader, line@, 0, line@.len() as int).len(),
        forall|i: int|
            0 <= i < r@.len() ==> (#[trigger] r@[i])@ == fields(
                separator_reader,
                line@,
                0,
                line@.len() as int,
            )[i],
{
    let chars: Vec<char> = chars_of(line);
    let mut found: Vec<String> = Vec::new();
    let mut index: usize = 0;
    let length: usize = chars.len();
    let ghost whole = fields(separator_reader, chars@, 0, length as int);
    let ghost mut done: Seq<Seq<char>> = Seq::empty();
    proof {
        assert(done + whole =~= whole);
    }
    while index < length
        invariant
            index <= length,
            length == chars@.len(),
            whole == done + fields(separator_reader, chars@, index as int, length as int),
            found@.len() == done.len(),
            forall|i: int| 0 <= i < found@.len() ==> (#[trigger] found@[i])@ == done[i],
        decreases length - index,
    {
        let ghost here = fields(separator_reader, chars@, index as int, length as int);
        if separator_reader.at_sep(&chars, index, length) {
            let next = separator_reader.consume_sep(&chars, index, length);
            proof {
                assert(separator_reader.separator_at(chars@, index as int, length as int));
                assert(here == fields(separator_reader, chars@, next as int, length as int));
            }
            index = next;
        } else {
            proof {
                lemma_field_bounds(separator_reader, chars@, index as int, length as int);
            }
            let (text, new_index) = read_field_with(&chars, index, length, separator_reader);
            proof {
                let rest = fields(separator_reader, chars@, new_index as int, length as int);
                assert(!separator_reader.separator_at(chars@, index as int, length as int));
                assert(here == seq![text@] + rest);
                assert(done + (seq![text@] + rest) =~= done.push(text@) + rest);
                done = done.push(text@);
            }
            index = new_index;
            found.push(text);
        }
    }
    proof {
        assert(fields(separator_reader, chars@, index as int, length as int) == Seq::<Seq<char>>::empty());
        assert(done + Seq::<Seq<char>>::empty() =~= done);
    }
    found
}

} // verus!

