//! Sizes and offsets of the slot and page layout, and the addressing of slots.

use vstd::prelude::*;

verus! {

/// Bytes of one encoded row.
pub const ROW_SIZE: usize = 48;

/// Bytes of the id at the start of a slot.
pub const ID_SIZE: usize = 4;

/// Where the username starts in a slot.
pub const USERNAME_OFFSET: usize = 4;

/// Bytes of the username field, and so the most bytes a username keeps.
pub const USERNAME_SIZE: usize = 20;

/// Where the email starts in a slot.
pub const EMAIL_OFFSET: usize = 24;

/// Bytes of the email field: what is left of the slot after the id and the
/// username, and so the most bytes an email keeps. An email of 25 bytes loses
/// its tail like any longer one.
pub const EMAIL_SIZE: usize = 24;

/// Bytes of one page.
pub const PAGE_SIZE: usize = 4096;

/// Slots of one page: as many whole slots as fit.
pub const ROWS_PER_PAGE: usize = 85;

/// Most rows a table holds.
pub const MAX_ROWS: u32 = 10000;

/// Index of the page that holds the slot of row `row_num`.
pub open spec fn page_of(row_num: int) -> int {
    row_num / (ROWS_PER_PAGE as int)
}

/// Offset within its page of the slot of row `row_num`.
pub open spec fn offset_of(row_num: int) -> int {
    (row_num % (ROWS_PER_PAGE as int)) * (ROW_SIZE as int)
}

/// The slots of a page tile it from its start without overlap, and the fields
/// of a slot tile the slot.
pub proof fn lemma_layout_consistent()
    ensures
        ROWS_PER_PAGE == PAGE_SIZE / ROW_SIZE,
        ROWS_PER_PAGE * ROW_SIZE <= PAGE_SIZE,
        USERNAME_OFFSET == ID_SIZE,
        EMAIL_OFFSET == USERNAME_OFFSET + USERNAME_SIZE,
        ROW_SIZE == EMAIL_OFFSET + EMAIL_SIZE,
{
}

/// Two rows share a slot only if they are the same row, and every slot lies
/// within its page.
pub proof fn lemma_slots_disjoint(a: int, b: int)
    requires
        0 <= a,
        0 <= b,
    ensures
        0 <= offset_of(a),
        offset_of(a) + ROW_SIZE <= PAGE_SIZE,
        0 <= page_of(a),
        (page_of(a) == page_of(b) && offset_of(a) == offset_of(b)) ==> a == b,
        (page_of(a) == page_of(b) && a != b) ==> (offset_of(a) + ROW_SIZE <= offset_of(b)
            || offset_of(b) + ROW_SIZE <= offset_of(a)),
{
}

/// The page and the offset of the slot of row `row_num`.
pub fn locate(row_num: u32) -> (at: (usize, usize))
    ensures
        at.0 == page_of(row_num as int),
        at.1 == offset_of(row_num as int),
        at.1 + ROW_SIZE <= PAGE_SIZE,
{
    let page: usize = row_num as usize / ROWS_PER_PAGE;
    let offset: usize = (row_num as usize % ROWS_PER_PAGE) * ROW_SIZE;
    (page, offset)
}

} // verus!
