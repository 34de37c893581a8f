//! INTO: the result as the text of a file.

use vstd::prelude::*;
use crate::eval::FileOutput;
use crate::floats::FloatMath;
use crate::parser::ParserNode;
use crate::result::{ErrorType, SqlError, SqlResult};
use crate::table::impl_table_display::{
    ends_in_tsv, file_text, has_floats, separator_for, table_text, writes,
};
use crate::table::{Table, TableView};
use crate::text::chars_of;

verus! {

/// A text without its single quotes.
pub open spec fn unquoted(text: Seq<char>) -> Seq<char> {
    text.filter(|c: char| c != '\'')
}

fn strip_quotes(text: &str) -> (r: String)
    ensures
        r@ == unquoted(text@),
{
    let chars = chars_of(text);
    let mut r = String::new();
    let mut i: usize = 0;
    assert(chars@.take(0) =~= Seq::<char>::empty());
    while i < chars.len()
        invariant
            i <= chars@.len(),
            r@ == chars@.take(i as int).filter(|c: char| c != '\''),
        decreases chars@.len() - i,
    {
        if chars[i] != '\'' {
            r.push(chars[i]);
        }
        proof {
            assert(chars@.take(i + 1).drop_last() =~= chars@.take(i as int));
            reveal(Seq::filter);
        }
        i = i + 1;
    }
    assert(chars@.take(chars@.len() as int) =~= chars@);
    r
}

fn ends_with_tsv(name: &str) -> (r: bool)
    ensures
        r == ends_in_tsv(name@),
{
    let chars = chars_of(name);
    let n: usize = chars.len();
    proof {
        reveal_strlit(".tsv");
    }
    if n < 4 {
        return false;
    }
    let r = chars[n - 4] == '.' && chars[n - 3] == 't' && chars[n - 2] == 's' && chars[n - 1] == 'v';
    proof {
        let tail = name@.subrange(n - 4, n as int);
        if r {
            assert(tail =~= ".tsv"@);
        } else {
            assert(tail[0] == chars@[n - 4] && tail[1] == chars@[n - 3] && tail[2] == chars@[n - 2]
                && tail[3] == chars@[n - 1]);
        }
    }
    r
}

/// Whether the text of a file is the text of a table, with a tab between
/// the fields for a name that ends in `.tsv` and a comma otherwise: the
/// header and the rows, a float written as the embedding program formats
/// it. A table without a float column has one text.
pub open spec fn file_holds(table: TableView, file: FileOutput) -> bool {
    &&& exists|lines: Seq<Seq<Seq<char>>>| #[trigger]
        writes(table, lines) && file.content@ == table_text(
            table.names,
            lines,
            separator_for(file.filename@),
            table.rows(),
        )
    &&& !has_floats(table) ==> file.content@ == file_text(table, separator_for(file.filename@), table.rows())
}

/// Makes the file that the clause asks for: its name is the clause's token
/// without quotes, its separator a tab for a name that ends in `.tsv` and
/// a comma otherwise. A clause without a token is a `Runtime` error.
pub fn eval<F: FloatMath + ?Sized>(node: &ParserNode, table: &Table, floats: &F) -> (r: SqlResult<FileOutput>)
    requires
        table@.wf(),
    ensures
        node.tokens@.len() == 0 ==> r is Err && r->Err_0.type_ == ErrorType::Runtime,
        node.tokens@.len() > 0 ==> r is Ok && r->Ok_0.filename@ == unquoted(node.tokens@[0]@.text)
            && file_holds(table@, r->Ok_0),
{
    if node.tokens.len() == 0 {
        return Err(SqlError::new("into needs a target", ErrorType::Runtime));
    }
    let filename = strip_quotes(node.tokens[0].get_text().as_str());
    let content = if ends_with_tsv(filename.as_str()) {
        table.write_to_string("\t", floats)
    } else {
        table.write_to_string(",", floats)
    };
    Ok(FileOutput { filename, content })
}

} // verus!
