//! The lines that show rows as a table: a header, a rule under it, and one
//! line for each row, in columns of 5, 20 and 30 characters.

use vstd::prelude::*;
use vstd::string::*;
use crate::number::{decimal, numeral_of};
use crate::row::{views, Row, RowView};

verus! {

/// Width of the id column, in characters.
pub const ID_WIDTH: usize = 5;

/// Width of the username column, in characters.
pub const USERNAME_WIDTH: usize = 20;

/// Width of the email column, in characters.
pub const EMAIL_WIDTH: usize = 30;

/// `text`, followed by as many spaces as it lacks characters to `width`. A
/// longer text is left whole.
pub open spec fn pad_right(text: Seq<char>, width: nat) -> Seq<char> {
    if text.len() >= width {
        text
    } else {
        text + Seq::new((width - text.len()) as nat, |i: int| ' ')
    }
}

/// Three cells in their columns, a space between them.
pub open spec fn columns(id: Seq<char>, username: Seq<char>, email: Seq<char>) -> Seq<char> {
    pad_right(id, ID_WIDTH as nat) + seq![' '] + pad_right(username, USERNAME_WIDTH as nat)
        + seq![' '] + pad_right(email, EMAIL_WIDTH as nat)
}

/// The line that names the columns.
pub open spec fn header_line() -> Seq<char> {
    columns("ID"@, "Username"@, "Email"@)
}

/// The rule under the header: a dash for each of its characters.
pub open spec fn separator_line() -> Seq<char> {
    Seq::new(header_line().len(), |i: int| '-')
}

/// The line that shows a row: its id in decimal, its username and its email.
pub open spec fn row_line(row: RowView) -> Seq<char> {
    columns(decimal(row.id as int), row.username, row.email)
}

/// The lines that show `rows`: the header, the rule, then the rows in their
/// order.
pub open spec fn printout(rows: Seq<RowView>) -> Seq<Seq<char>> {
    seq![header_line(), separator_line()] + Seq::new(rows.len(), |i: int| row_line(rows[i]))
}

/// The characters of each line of `lines`.
pub open spec fn texts(lines: Seq<String>) -> Seq<Seq<char>> {
    Seq::new(lines.len(), |i: int| lines[i]@)
}

/// Appends `count` times the character of `piece` to `line`.
fn repeat(line: &mut String, piece: &str, count: usize)
    requires
        piece@.len() == 1,
    ensures
        final(line)@ == old(line)@ + Seq::new(count as nat, |i: int| piece@[0]),
{
    let mut done: usize = 0;
    while done < count
        invariant
            done <= count,
            piece@.len() == 1,
            line@ == old(line)@ + Seq::new(done as nat, |i: int| piece@[0]),
        decreases count - done,
    {
        line.append(piece);
        done += 1;
        assert(line@ =~= old(line)@ + Seq::new(done as nat, |i: int| piece@[0]));
    }
    assert(line@ =~= old(line)@ + Seq::new(count as nat, |i: int| piece@[0]));
}

/// Appends `cell` to `line`, padded with spaces to `width` characters.
fn put_cell(line: &mut String, cell: &str, width: usize)
    ensures
        final(line)@ == old(line)@ + pad_right(cell@, width as nat),
{
    proof {
        reveal_strlit(" ");
    }
    line.append(cell);
    let length = cell.unicode_len();
    if length < width {
        repeat(line, " ", width - length);
        assert(line@ =~= old(line)@ + pad_right(cell@, width as nat));
    }
}

/// The line of three cells in their columns.
fn put_columns(id: &str, username: &str, email: &str) -> (line: String)
    ensures
        line@ == columns(id@, username@, email@),
{
    proof {
        reveal_strlit(" ");
    }
    let mut line = String::new();
    put_cell(&mut line, id, ID_WIDTH);
    line.append(" ");
    put_cell(&mut line, username, USERNAME_WIDTH);
    line.append(" ");
    put_cell(&mut line, email, EMAIL_WIDTH);
    assert(line@ =~= columns(id@, username@, email@));
    line
}

/// The line that shows `row`.
pub fn render_row(row: &Row) -> (line: String)
    ensures
        line@ == row_line(row@),
{
    let id = numeral_of(row.id);
    put_columns(id.as_str(), row.username.as_str(), row.email.as_str())
}

/// The lines that show `rows` as a table.
pub fn render_table(rows: &Vec<Row>) -> (lines: Vec<String>)
    ensures
        texts(lines@) == printout(views(rows@)),
{
    proof {
        reveal_strlit("-");
    }
    let mut lines: Vec<String> = Vec::new();
    let header = put_columns("ID", "Username", "Email");
    let mut separator = String::new();
    repeat(&mut separator, "-", header.as_str().unicode_len());
    assert(separator@ =~= separator_line());
    lines.push(header);
    lines.push(separator);
    let mut i: usize = 0;
    while i < rows.len()
        invariant
            i <= rows@.len(),
            lines@.len() == 2 + i,
            lines@[0]@ == header_line(),
            lines@[1]@ == separator_line(),
            forall|k: int| 0 <= k < i ==> (#[trigger] lines@[2 + k])@ == row_line(rows@[k]@),
        decreases rows@.len() - i,
    {
        lines.push(render_row(&rows[i]));
        i += 1;
    }
    proof {
        let shown = printout(views(rows@));
        assert(texts(lines@).len() == shown.len());
        assert forall|j: int| 0 <= j < shown.len() implies texts(lines@)[j] == shown[j] by {
            if j >= 2 {
                let k = j - 2;
                assert(lines@[2 + k]@ == row_line(rows@[k]@));
            }
        }
        assert(texts(lines@) =~= shown);
    }
    lines
}

} // verus!
