//! What the command layer decides: how a line that was read is kept, which
//! statement it holds, and what a statement does to a table. Reading the
//! line and showing the result are the caller's.
//!
//! A line is a meta command if it starts with a dot; `.exit` is the only one.
//! Any other line is a statement: `select`, or a line that starts with
//! `insert` and goes on, after whitespace, with an id, a username and an
//! email.

use vstd::prelude::*;
use vstd::slice::*;
use vstd::string::*;
use vstd::utf8::*;
use crate::error::StoreError;
use crate::layout::{page_of, MAX_ROWS};
use crate::number::{parse_i32, parse_numeral};
use crate::row::{encode_row, Row, RowView};
use crate::report::{printout, texts};
use crate::table::{decoded, grown_count, readable, Table};
use crate::text::{
    chars_of, lemma_encoding_len, split_words, starts_with, strip_line_end, words,
};

verus! {

/// The line that was read last, without its line ending.
#[derive(Debug, Clone, PartialEq, Eq)]
pub struct InputBuffer {
    /// The line.
    pub buffer: String,
    /// Bytes of `buffer`.
    pub buffer_length: usize,
    /// Bytes that were read, less one for the line feed.
    pub input_length: usize,
}

/// What a meta command asks for.
#[derive(Debug, Clone, Copy, PartialEq, Eq, Structural)]
pub enum MetaCommandResult {
    /// `.exit`: the session ends.
    MetaCommandExit,
    /// Any other line.
    MetaCommandUnrecognizedCommand,
}

/// How preparing a statement ended.
#[derive(Debug, Clone, Copy, PartialEq, Eq, Structural)]
pub enum PrepareResult {
    /// The line is a statement, and the statement is ready.
    PrepareSuccess,
    /// The line is neither an insert nor a select.
    PrepareUnrecognizedCommand,
    /// The line is an insert that lacks an argument or has an id that is no
    /// number.
    PrepareSyntaxError,
}

/// The kinds of statement.
#[derive(Debug, Clone, Copy, PartialEq, Eq, Structural)]
pub enum StatementType {
    StatementInsert,
    StatementSelect,
}

/// A statement, ready to be executed.
#[derive(Debug, Clone, PartialEq, Eq)]
pub struct Statement {
    pub type_t: StatementType,
    /// The row of an insert; a select does not read it.
    pub row_to_insert: Row,
}

/// What a statement has done.
#[derive(Debug, Clone, PartialEq, Eq)]
pub enum Executed {
    /// The row is stored.
    Inserted,
    /// The lines that show the table, for the caller to print.
    Selected(Vec<String>),
}

/// What a line holds.
pub ghost enum Prepared {
    /// An insert of this row.
    Insert(RowView),
    /// A select.
    Select,
    /// An insert without an id, a username and an email, or with an id that
    /// is no numeral of an `i32`.
    SyntaxError,
    /// Neither.
    Unrecognized,
}

/// The statement in `line`. A line that starts with `insert` is an insert,
/// whatever follows the word directly; its second, third and fourth words
/// are the id, the username and the email, and further words are ignored.
pub open spec fn prepare(line: Seq<char>) -> Prepared {
    if "insert"@.is_prefix_of(line) {
        let args = words(line);
        if args.len() >= 4 && parse_i32(args[1]) is Some {
            Prepared::Insert(
                RowView { id: parse_i32(args[1])->0, username: args[2], email: args[3] },
            )
        } else {
            Prepared::SyntaxError
        }
    } else if line == "select"@ {
        Prepared::Select
    } else {
        Prepared::Unrecognized
    }
}

impl InputBuffer {
    /// A buffer that holds no line yet.
    pub fn new() -> (fresh: InputBuffer)
        ensures
            fresh.buffer@ == Seq::<char>::empty(),
            fresh.buffer_length == 0,
            fresh.input_length == 0,
    {
        InputBuffer { buffer: String::new(), buffer_length: 0, input_length: 0 }
    }

    /// Keeps `line`, as it was read, in place of the line before it. The
    /// line ending is dropped: a final line feed, then a final carriage
    /// return. An empty `line` means that the input has ended: the answer is
    /// `false` then, and the buffer is empty.
    pub fn accept_line(&mut self, line: &str) -> (accepted: bool)
        ensures
            accepted == (line@.len() > 0),
            final(self).buffer@ == strip_line_end(line@),
            final(self).buffer_length == encode_utf8(strip_line_end(line@)).len(),
            accepted ==> final(self).input_length == encode_utf8(line@).len() - 1,
            !accepted ==> final(self).input_length == 0,
    {
        let count = line.unicode_len();
        let mut keep: usize = count;
        if keep > 0 && line.get_char(keep - 1) == '\n' {
            keep -= 1;
        }
        if keep > 0 && line.get_char(keep - 1) == '\r' {
            keep -= 1;
        }
        assert(line@.subrange(0, keep as int) =~= strip_line_end(line@)) by {
            assert(line@.subrange(0, count as int) =~= line@);
            if count >= 1 {
                assert(line@.subrange(0, count - 1) =~= line@.drop_last());
            }
            if count >= 2 {
                assert(line@.drop_last().drop_last() =~= line@.subrange(0, count - 2));
            }
        }
        self.buffer = line.substring_char(0, keep).to_owned();
        self.buffer_length = self.buffer.as_str().as_bytes().len();
        if count == 0 {
            self.input_length = 0;
            false
        } else {
            proof {
                lemma_encoding_len(line@);
            }
            self.input_length = line.as_bytes().len() - 1;
            true
        }
    }

    /// Tells whether the line is a meta command: whether it starts with a
    /// dot.
    pub fn is_meta_command(&self) -> (meta: bool)
        ensures
            meta == (self.buffer@.len() > 0 && self.buffer@[0] == '.'),
    {
        let line = self.buffer.as_str();
        !line.is_empty() && line.get_char(0) == '.'
    }

    /// Which meta command the line is.
    pub fn do_meta_command(&self) -> (result: MetaCommandResult)
        ensures
            self.buffer@ == ".exit"@ ==> result == MetaCommandResult::MetaCommandExit,
            self.buffer@ != ".exit"@ ==> result == MetaCommandResult::MetaCommandUnrecognizedCommand,
    {
        if self.buffer == String::from_str(".exit") {
            MetaCommandResult::MetaCommandExit
        } else {
            MetaCommandResult::MetaCommandUnrecognizedCommand
        }
    }
}

/// Reads the statement in the line of `input_buffer` into `statement`.
///
/// On success `statement` holds the statement: for an insert its row, for a
/// select the row that it held before. On a syntax error `statement` is an
/// insert with the row that it held before; a line that is no statement
/// leaves it as it was.
pub fn prepare_statement(input_buffer: &InputBuffer, statement: &mut Statement) -> (result:
    PrepareResult)
    ensures
        match prepare(input_buffer.buffer@) {
            Prepared::Insert(row) => {
                &&& result == PrepareResult::PrepareSuccess
                &&& final(statement).type_t == StatementType::StatementInsert
                &&& final(statement).row_to_insert@ == row
            },
            Prepared::Select => {
                &&& result == PrepareResult::PrepareSuccess
                &&& final(statement).type_t == StatementType::StatementSelect
                &&& final(statement).row_to_insert == old(statement).row_to_insert
            },
            Prepared::SyntaxError => {
                &&& result == PrepareResult::PrepareSyntaxError
                &&& final(statement).type_t == StatementType::StatementInsert
                &&& final(statement).row_to_insert == old(statement).row_to_insert
            },
            Prepared::Unrecognized => {
                &&& result == PrepareResult::PrepareUnrecognizedCommand
                &&& *final(statement) == *old(statement)
            },
        },
{
    let line = input_buffer.buffer.as_str();
    let chars = chars_of(line);
    let keyword = chars_of("insert");
    if starts_with(&chars, &keyword) {
        statement.type_t = StatementType::StatementInsert;
        let args = split_words(&chars);
        if args.len() < 4 {
            return PrepareResult::PrepareSyntaxError;
        }
        let id = match parse_numeral(slice_subrange(chars.as_slice(), args[1].0, args[1].1)) {
            Some(id) => id,
            None => {
                return PrepareResult::PrepareSyntaxError;
            },
        };
        statement.row_to_insert.id = id;
        statement.row_to_insert.username = line.substring_char(args[2].0, args[2].1).to_owned();
        statement.row_to_insert.email = line.substring_char(args[3].0, args[3].1).to_owned();
        PrepareResult::PrepareSuccess
    } else if input_buffer.buffer == String::from_str("select") {
        statement.type_t = StatementType::StatementSelect;
        PrepareResult::PrepareSuccess
    } else {
        PrepareResult::PrepareUnrecognizedCommand
    }
}

impl Statement {
    /// Executes the statement on `table`.
    ///
    /// An insert stores the row as `Table::insert` does, or fails with
    /// `TableFull` on a full table, which it leaves as it was. A select
    /// leaves the table as it was and gives the lines that show its rows, or
    /// fails with `CorruptRow` if one of them cannot be decoded.
    pub fn execute_statement(&self, table: &mut Table) -> (done: Result<Executed, StoreError>)
        requires
            old(table).wf(),
        ensures
            final(table).wf(),
            self.type_t == StatementType::StatementInsert && old(table)@.len() < MAX_ROWS ==> {
                &&& done == Ok::<Executed, StoreError>(Executed::Inserted)
                &&& final(table)@ == old(table)@.push(encode_row(self.row_to_insert@))
                &&& final(table).has_storage(old(table)@.len() as int)
                &&& final(table).page_count() == grown_count(
                    old(table).page_count(),
                    old(table)@.len() as int,
                )
                &&& forall|r: int|
                    0 <= r && page_of(r) != page_of(old(table)@.len() as int)
                        ==> #[trigger] final(table).has_storage(r) == old(table).has_storage(r)
                &&& forall|r: int|
                    0 <= r && r != old(table)@.len() ==> #[trigger] final(table).slot_at(r)
                        == old(table).slot_at(r)
            },
            self.type_t == StatementType::StatementInsert && old(table)@.len() >= MAX_ROWS ==> {
                &&& done == Err::<Executed, StoreError>(StoreError::TableFull)
                &&& *final(table) == *old(table)
            },
            self.type_t == StatementType::StatementSelect ==> *final(table) == *old(table),
            self.type_t == StatementType::StatementSelect && readable(old(table)@) ==> {
                &&& done matches Ok(Executed::Selected(lines))
                &&& texts(lines@) == printout(decoded(old(table)@))
            },
            self.type_t == StatementType::StatementSelect && !readable(old(table)@) ==> done
                == Err::<Executed, StoreError>(StoreError::CorruptRow),
    {
        match self.type_t {
            StatementType::StatementInsert => match table.insert(&self.row_to_insert) {
                Ok(()) => Ok(Executed::Inserted),
                Err(e) => Err(e),
            },
            StatementType::StatementSelect => match table.print() {
                Ok(lines) => Ok(Executed::Selected(lines)),
                Err(e) => Err(e),
            },
        }
    }
}

} // verus!
