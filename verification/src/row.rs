//! The row and its encoding into a slot.
//!
//! A slot is `ROW_SIZE` bytes: the id as four little-endian bytes in two's
//! complement, then the username and the email as UTF-8, each cut to the width
//! of its field and padded with zero bytes.

use vstd::prelude::*;
use vstd::slice::*;
use vstd::string::*;
use vstd::utf8::*;
use crate::error::StoreError;
use crate::layout::{EMAIL_OFFSET, EMAIL_SIZE, ID_SIZE, ROW_SIZE, USERNAME_OFFSET, USERNAME_SIZE};

verus! {

/// One record of the table.
#[derive(Debug, Clone, PartialEq, Eq)]
pub struct Row {
    pub id: i32,
    pub username: String,
    pub email: String,
}

/// A row as a mathematical value: the id and the characters of the two texts.
pub ghost struct RowView {
    pub id: i32,
    pub username: Seq<char>,
    pub email: Seq<char>,
}

impl View for Row {
    type V = RowView;

    open spec fn view(&self) -> RowView {
        RowView { id: self.id, username: self.username@, email: self.email@ }
    }
}

/// The rows of `rows` as mathematical values.
pub open spec fn views(rows: Seq<Row>) -> Seq<RowView> {
    Seq::new(rows.len(), |i: int| rows[i]@)
}

impl Row {
    /// Tells whether encoding would cut a text: `FieldTooLong` if the username
    /// or the email has more bytes than its field.
    pub fn check_lengths(&self) -> (checked: Result<(), StoreError>)
        ensures
            self@.fits() ==> checked is Ok,
            !self@.fits() ==> checked == Err::<(), StoreError>(StoreError::FieldTooLong),
    {
        if self.username.as_str().as_bytes().len() > USERNAME_SIZE
            || self.email.as_str().as_bytes().len() > EMAIL_SIZE {
            Err(StoreError::FieldTooLong)
        } else {
            Ok(())
        }
    }
}

impl RowView {
    /// Both texts fit their fields, so encoding drops no byte.
    pub open spec fn fits(self) -> bool {
        &&& encode_utf8(self.username).len() <= USERNAME_SIZE
        &&& encode_utf8(self.email).len() <= EMAIL_SIZE
    }

    /// Neither text ends in a NUL character, which decoding would take for
    /// padding.
    pub open spec fn unpadded(self) -> bool {
        &&& self.username.len() > 0 ==> self.username.last() != '\0'
        &&& self.email.len() > 0 ==> self.email.last() != '\0'
    }
}

/// The four bytes of `id`, least significant first, in two's complement.
pub open spec fn id_to_bytes(id: i32) -> Seq<u8> {
    let u: int = if id >= 0 { id as int } else { id + 0x1_0000_0000 };
    seq![
        (u % 256) as u8,
        (u / 0x100 % 256) as u8,
        (u / 0x1_0000 % 256) as u8,
        (u / 0x100_0000 % 256) as u8,
    ]
}

/// The id that four little-endian bytes in two's complement stand for.
pub open spec fn id_from_bytes(bytes: Seq<u8>) -> i32 {
    let u: int = bytes[0] + 0x100 * bytes[1] + 0x1_0000 * bytes[2] + 0x100_0000 * bytes[3];
    if u < 0x8000_0000 { u as i32 } else { (u - 0x1_0000_0000) as i32 }
}

/// A field of `width` bytes that holds `text`: the bytes of `text` as far as
/// they fit, then zero bytes.
pub open spec fn pad_field(text: Seq<u8>, width: nat) -> Seq<u8> {
    Seq::new(width, |i: int| if i < text.len() { text[i] } else { 0u8 })
}

/// `bytes` without the zero bytes at its end.
pub open spec fn strip_zeros(bytes: Seq<u8>) -> Seq<u8>
    decreases bytes.len(),
{
    if bytes.len() > 0 && bytes.last() == 0 {
        strip_zeros(bytes.drop_last())
    } else {
        bytes
    }
}

/// What a field of `width` bytes keeps of `text`: the bytes that fit.
pub open spec fn kept(text: Seq<u8>, width: nat) -> Seq<u8> {
    if text.len() <= width {
        text
    } else {
        text.take(width as int)
    }
}

/// The slot that a row is encoded into.
pub open spec fn encode_row(row: RowView) -> Seq<u8> {
    id_to_bytes(row.id) + pad_field(encode_utf8(row.username), USERNAME_SIZE as nat) + pad_field(
        encode_utf8(row.email),
        EMAIL_SIZE as nat,
    )
}

/// The bytes of the username in a slot, padding removed.
pub open spec fn username_bytes(slot: Seq<u8>) -> Seq<u8> {
    strip_zeros(slot.subrange(USERNAME_OFFSET as int, EMAIL_OFFSET as int))
}

/// The bytes of the email in a slot, padding removed.
pub open spec fn email_bytes(slot: Seq<u8>) -> Seq<u8> {
    strip_zeros(slot.subrange(EMAIL_OFFSET as int, ROW_SIZE as int))
}

/// A slot can be decoded: it has the size of a row and both texts are UTF-8
/// once their padding is removed.
pub open spec fn decodable(slot: Seq<u8>) -> bool {
    &&& slot.len() == ROW_SIZE
    &&& valid_utf8(username_bytes(slot))
    &&& valid_utf8(email_bytes(slot))
}

/// The row that a decodable slot holds.
pub open spec fn decode_row(slot: Seq<u8>) -> RowView {
    RowView {
        id: id_from_bytes(slot.subrange(0, ID_SIZE as int)),
        username: decode_utf8(username_bytes(slot)),
        email: decode_utf8(email_bytes(slot)),
    }
}

/// `String::from_utf8`: the text that `bytes` encode, if they are valid UTF-8.
/// Trusted: it succeeds exactly on valid UTF-8, and the UTF-8 encoding of the
/// text it returns is `bytes`.
#[verifier::external_body]
fn string_from_utf8(bytes: Vec<u8>) -> (text: Option<String>)
    ensures
        text is Some <==> valid_utf8(bytes@),
        text matches Some(s) ==> encode_utf8(s@) == bytes@,
{
    match String::from_utf8(bytes) {
        Ok(s) => Some(s),
        Err(_) => None,
    }
}

/// The four bytes of `id`.
fn id_bytes(id: i32) -> (bytes: [u8; 4])
    ensures
        bytes@ == id_to_bytes(id),
{
    let u: u32 = if id >= 0 {
        id as u32
    } else {
        (id as i64 + 0x1_0000_0000) as u32
    };
    let bytes: [u8; 4] = [
        (u % 256) as u8,
        (u / 0x100 % 256) as u8,
        (u / 0x1_0000 % 256) as u8,
        (u / 0x100_0000 % 256) as u8,
    ];
    assert(bytes@ =~= id_to_bytes(id));
    bytes
}

/// The id that the four bytes stand for, the least significant first.
fn id_of_bytes(b0: u8, b1: u8, b2: u8, b3: u8) -> (id: i32)
    ensures
        id == id_from_bytes(seq![b0, b1, b2, b3]),
{
    let u: u32 = b0 as u32 + 0x100 * (b1 as u32) + 0x1_0000 * (b2 as u32) + 0x100_0000 * (b3 as u32);
    if u < 0x8000_0000 {
        u as i32
    } else {
        (u as i64 - 0x1_0000_0000) as i32
    }
}

/// Appends to `data` the field of `width` bytes that holds `text`.
fn put_field(data: &mut Vec<u8>, text: &[u8], width: usize)
    ensures
        final(data)@ == old(data)@ + pad_field(text@, width as nat),
{
    let mut i: usize = 0;
    while i < width
        invariant
            i <= width,
            data@ == old(data)@ + pad_field(text@, i as nat),
        decreases width - i,
    {
        let byte: u8 = if i < text.len() { text[i] } else { 0 };
        data.push(byte);
        i += 1;
        assert(data@ =~= old(data)@ + pad_field(text@, i as nat));
    }
}

/// Encodes a row into its slot. A text that is longer than its field loses
/// the bytes that do not fit; `Row::check_lengths` tells beforehand.
pub fn serialize_row(row: &Row) -> (data: Vec<u8>)
    ensures
        data@ == encode_row(row@),
        data@.len() == ROW_SIZE,
{
    let mut data: Vec<u8> = Vec::new();
    let id = id_bytes(row.id);
    data.push(id[0]);
    data.push(id[1]);
    data.push(id[2]);
    data.push(id[3]);
    assert(data@ =~= id_to_bytes(row.id));
    put_field(&mut data, row.username.as_str().as_bytes(), USERNAME_SIZE);
    put_field(&mut data, row.email.as_str().as_bytes(), EMAIL_SIZE);
    data
}

/// The text in `data[start..end]`, padding removed, if it is UTF-8.
fn read_text(data: &[u8], start: usize, end: usize) -> (text: Option<String>)
    requires
        start <= end <= data@.len(),
    ensures
        text is Some <==> valid_utf8(strip_zeros(data@.subrange(start as int, end as int))),
        text matches Some(s) ==> s@ == decode_utf8(
            strip_zeros(data@.subrange(start as int, end as int)),
        ),
{
    let ghost field = data@.subrange(start as int, end as int);
    let mut stop: usize = end;
    while stop > start && data[stop - 1] == 0
        invariant
            start <= stop <= end <= data@.len(),
            field == data@.subrange(start as int, end as int),
            strip_zeros(field) == strip_zeros(data@.subrange(start as int, stop as int)),
        decreases stop,
    {
        assert(data@.subrange(start as int, stop as int).drop_last() =~= data@.subrange(
            start as int,
            stop - 1,
        ));
        stop -= 1;
    }
    let ghost stripped = data@.subrange(start as int, stop as int);
    assert(strip_zeros(stripped) == stripped);
    let mut bytes: Vec<u8> = Vec::new();
    let mut i: usize = start;
    while i < stop
        invariant
            start <= i <= stop <= data@.len(),
            bytes@ == data@.subrange(start as int, i as int),
        decreases stop - i,
    {
        bytes.push(data[i]);
        i += 1;
        assert(bytes@ =~= data@.subrange(start as int, i as int));
    }
    let text = string_from_utf8(bytes);
    proof {
        if text is Some {
            encode_utf8_decode_utf8(text->0@);
        }
    }
    text
}

/// Decodes a slot into the row it holds.
///
/// Fails with `CorruptRow` when `data` does not have the size of a row or one
/// of its texts is not UTF-8, and only then.
pub fn deserialize_row(data: &[u8]) -> (row: Result<Row, StoreError>)
    ensures
        decodable(data@) ==> row is Ok && row.unwrap()@ == decode_row(data@),
        !decodable(data@) ==> row == Err::<Row, StoreError>(StoreError::CorruptRow),
{
    if data.len() != ROW_SIZE {
        return Err(StoreError::CorruptRow);
    }
    let id = id_of_bytes(data[0], data[1], data[2], data[3]);
    assert(data@.subrange(0, ID_SIZE as int) =~= seq![data@[0], data@[1], data@[2], data@[3]]);
    let username = match read_text(data, USERNAME_OFFSET, EMAIL_OFFSET) {
        Some(text) => text,
        None => {
            return Err(StoreError::CorruptRow);
        },
    };
    let email = match read_text(data, EMAIL_OFFSET, ROW_SIZE) {
        Some(text) => text,
        None => {
            return Err(StoreError::CorruptRow);
        },
    };
    Ok(Row { id, username, email })
}

/// An id comes back from its four bytes.
pub proof fn lemma_id_round_trip(id: i32)
    ensures
        id_to_bytes(id).len() == ID_SIZE,
        id_from_bytes(id_to_bytes(id)) == id,
{
}

/// Removing the padding of a field leaves what the field kept of the text,
/// less the zero bytes that the text itself ended in.
pub proof fn lemma_strip_pad_field(text: Seq<u8>, width: nat)
    ensures
        strip_zeros(pad_field(text, width)) == strip_zeros(kept(text, width)),
    decreases width,
{
    if text.len() >= width {
        assert(pad_field(text, width) =~= kept(text, width));
    } else {
        let field = pad_field(text, width);
        assert(field.last() == 0);
        assert(field.drop_last() =~= pad_field(text, (width - 1) as nat));
        lemma_strip_pad_field(text, (width - 1) as nat);
    }
}

/// The encoding of a text that does not end in NUL does not end in a zero
/// byte.
pub proof fn lemma_encoding_unpadded(chars: Seq<char>)
    requires
        chars.len() > 0,
        chars.last() != '\0',
    ensures
        encode_utf8(chars).len() > 0,
        encode_utf8(chars).last() != 0,
        strip_zeros(encode_utf8(chars)) == encode_utf8(chars),
    decreases chars.len(),
{
    let scalar = chars[0] as u32;
    let rest = chars.drop_first();
    char_is_scalar(chars[0]);
    if rest.len() == 0 {
        assert(encode_utf8(rest) =~= Seq::<u8>::empty());
        assert(encode_utf8(chars) =~= encode_scalar(scalar));
        assert(scalar != 0) by {
            char_u32_cast(chars[0], scalar);
            assert(0u32 as char == '\0');
        }
        assert(has_width_1_encoding(scalar) ==> leading_byte_width_1(scalar) != 0) by (bit_vector)
            requires
                scalar != 0,
        ;
        assert(last_continuation_byte(scalar) != 0) by (bit_vector);
    } else {
        assert(rest.last() == chars.last());
        lemma_encoding_unpadded(rest);
    }
}

/// Encoding keeps of each text the bytes that fit its field: what a decoder
/// finds in the field, padding removed, is that prefix, less any zero bytes
/// it ends in. A username of 25 bytes, none of them zero, comes back as its
/// first 20.
pub proof fn lemma_encode_keeps_prefix(row: RowView)
    ensures
        encode_row(row).len() == ROW_SIZE,
        encode_row(row).subrange(0, ID_SIZE as int) == id_to_bytes(row.id),
        username_bytes(encode_row(row)) == strip_zeros(
            kept(encode_utf8(row.username), USERNAME_SIZE as nat),
        ),
        email_bytes(encode_row(row)) == strip_zeros(
            kept(encode_utf8(row.email), EMAIL_SIZE as nat),
        ),
{
    let slot = encode_row(row);
    assert(slot.subrange(0, ID_SIZE as int) =~= id_to_bytes(row.id));
    assert(slot.subrange(USERNAME_OFFSET as int, EMAIL_OFFSET as int) =~= pad_field(
        encode_utf8(row.username),
        USERNAME_SIZE as nat,
    ));
    assert(slot.subrange(EMAIL_OFFSET as int, ROW_SIZE as int) =~= pad_field(
        encode_utf8(row.email),
        EMAIL_SIZE as nat,
    ));
    lemma_strip_pad_field(encode_utf8(row.username), USERNAME_SIZE as nat);
    lemma_strip_pad_field(encode_utf8(row.email), EMAIL_SIZE as nat);
}

/// Truncation: of a username that has more bytes than its field, and whose
/// last byte within the field is not zero, the slot holds the first
/// `USERNAME_SIZE` bytes, and if the slot can be decoded, they are the bytes of
/// the decoded username. The same holds of the email and `EMAIL_SIZE`.
pub proof fn lemma_long_text_is_cut(row: RowView)
    ensures
        encode_utf8(row.username).len() > USERNAME_SIZE && encode_utf8(row.username)[USERNAME_SIZE
            - 1] != 0 ==> {
            &&& username_bytes(encode_row(row)) == encode_utf8(row.username).take(
                USERNAME_SIZE as int,
            )
            &&& decodable(encode_row(row)) ==> encode_utf8(decode_row(encode_row(row)).username)
                == encode_utf8(row.username).take(USERNAME_SIZE as int)
        },
        encode_utf8(row.email).len() > EMAIL_SIZE && encode_utf8(row.email)[EMAIL_SIZE - 1] != 0
            ==> {
            &&& email_bytes(encode_row(row)) == encode_utf8(row.email).take(EMAIL_SIZE as int)
            &&& decodable(encode_row(row)) ==> encode_utf8(decode_row(encode_row(row)).email)
                == encode_utf8(row.email).take(EMAIL_SIZE as int)
        },
{
    lemma_encode_keeps_prefix(row);
    if decodable(encode_row(row)) {
        decode_utf8_encode_utf8(username_bytes(encode_row(row)));
        decode_utf8_encode_utf8(email_bytes(encode_row(row)));
    }
}

/// Round trip: a row whose texts fit their fields and do not end in NUL is
/// what decoding its slot gives.
pub proof fn lemma_round_trip(row: RowView)
    requires
        row.fits(),
        row.unpadded(),
    ensures
        decodable(encode_row(row)),
        decode_row(encode_row(row)) == row,
{
    lemma_encode_keeps_prefix(row);
    lemma_id_round_trip(row.id);
    lemma_text_round_trip(row.username);
    lemma_text_round_trip(row.email);
    assert(decode_row(encode_row(row)).username =~= row.username);
    assert(decode_row(encode_row(row)).email =~= row.email);
}

/// The encoding of a text that does not end in NUL is valid UTF-8, loses
/// nothing when zero bytes are removed from its end, and decodes to the text.
pub proof fn lemma_text_round_trip(chars: Seq<char>)
    requires
        chars.len() > 0 ==> chars.last() != '\0',
    ensures
        strip_zeros(encode_utf8(chars)) == encode_utf8(chars),
        valid_utf8(encode_utf8(chars)),
        decode_utf8(encode_utf8(chars)) == chars,
{
    if chars.len() > 0 {
        lemma_encoding_unpadded(chars);
    } else {
        assert(encode_utf8(chars) =~= Seq::<u8>::empty());
    }
    encode_utf8_valid_utf8(chars);
    encode_utf8_decode_utf8(chars);
}

} // verus!
