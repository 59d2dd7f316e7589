//! The table: slots in pages, filled in order of insertion.
//!
//! Row `r` lives in page `r / ROWS_PER_PAGE`, at offset
//! `(r % ROWS_PER_PAGE) * ROW_SIZE`. The list of pages is sparse: a page gets
//! its storage, zeroed, when a slot in it is first asked for, and a page
//! without storage reads as zeros.

use vstd::prelude::*;
use vstd::slice::*;
use crate::error::StoreError;
use crate::layout::{lemma_slots_disjoint, locate, offset_of, page_of, MAX_ROWS, PAGE_SIZE, ROW_SIZE};
use crate::report::{printout, render_table, texts};
use crate::row::{
    decodable, decode_row, deserialize_row, encode_row, lemma_round_trip, serialize_row, views,
    Row, RowView,
};

verus! {

/// An in-memory table of rows.
#[derive(Debug, Clone)]
pub struct Table {
    num_rows: u32,
    pages: Vec<Option<Vec<u8>>>,
}

/// Every slot of `slots` can be decoded.
pub open spec fn readable(slots: Seq<Seq<u8>>) -> bool {
    forall|i: int| 0 <= i < slots.len() ==> decodable(#[trigger] slots[i])
}

/// The rows that `slots` hold, in their order.
pub open spec fn decoded(slots: Seq<Seq<u8>>) -> Seq<RowView> {
    Seq::new(slots.len(), |i: int| decode_row(slots[i]))
}

/// How many entries a list of pages that had `count` has once it reaches the
/// page of row `row_num`: as many as before if it reached that page, else
/// just enough.
pub open spec fn grown_count(count: nat, row_num: int) -> nat {
    if count > page_of(row_num) {
        count
    } else {
        (page_of(row_num) + 1) as nat
    }
}

/// The slots that `rows` are encoded into, in their order: the slots of a
/// table into which they were inserted one after another, starting empty.
pub open spec fn encoded(rows: Seq<RowView>) -> Seq<Seq<u8>> {
    Seq::new(rows.len(), |i: int| encode_row(rows[i]))
}

/// Ordering: rows whose texts fit their fields and do not end in NUL come
/// back from their slots as they went in, each at its place in the order of
/// insertion, whatever their ids.
pub proof fn lemma_scan_yields_insertion_order(rows: Seq<RowView>)
    requires
        forall|i: int| 0 <= i < rows.len() ==> (#[trigger] rows[i]).fits() && rows[i].unpadded(),
    ensures
        readable(encoded(rows)),
        decoded(encoded(rows)) == rows,
{
    assert forall|i: int| 0 <= i < rows.len() implies decodable(#[trigger] encoded(rows)[i])
        && decode_row(encoded(rows)[i]) == rows[i] by {
        lemma_round_trip(rows[i]);
    }
    assert(decoded(encoded(rows)) =~= rows);
}

/// Insert, then scan: after the slot of a row whose texts fit their fields
/// and do not end in NUL has been added, the slots can be read if they could
/// before, and they hold the rows they held, in their order, and then the new
/// row.
pub proof fn lemma_scan_after_insert(slots: Seq<Seq<u8>>, row: RowView)
    requires
        row.fits(),
        row.unpadded(),
    ensures
        readable(slots.push(encode_row(row))) == readable(slots),
        decoded(slots.push(encode_row(row))) == decoded(slots).push(row),
{
    let longer = slots.push(encode_row(row));
    lemma_round_trip(row);
    if readable(longer) {
        assert forall|i: int| 0 <= i < slots.len() implies decodable(#[trigger] slots[i]) by {
            assert(slots[i] == longer[i]);
        }
    }
    assert(decoded(longer) =~= decoded(slots).push(row));
}

impl View for Table {
    type V = Seq<Seq<u8>>;

    /// The slots of the stored rows, in order of insertion.
    open spec fn view(&self) -> Seq<Seq<u8>> {
        Seq::new(self.count(), |r: int| self.slot_at(r))
    }
}

impl Table {
    /// How many rows are stored.
    pub closed spec fn count(self) -> nat {
        self.num_rows as nat
    }

    /// The bytes of page `p`; zeros where the page has no storage.
    pub closed spec fn page_bytes(self, p: int) -> Seq<u8> {
        if 0 <= p < self.pages@.len() && self.pages@[p] is Some {
            self.pages@[p]->0@
        } else {
            Seq::new(PAGE_SIZE as nat, |i: int| 0u8)
        }
    }

    /// The bytes in the slot of row `row_num`, stored or not.
    pub open spec fn slot_at(self, row_num: int) -> Seq<u8> {
        self.page_bytes(page_of(row_num)).subrange(
            offset_of(row_num),
            offset_of(row_num) + ROW_SIZE,
        )
    }

    /// How many entries the list of pages has, with storage or without.
    pub closed spec fn page_count(self) -> nat {
        self.pages@.len()
    }

    /// The page of row `row_num` has storage.
    pub closed spec fn has_storage(self, row_num: int) -> bool {
        0 <= page_of(row_num) < self.pages@.len() && self.pages@[page_of(row_num)] is Some
    }

    /// The table is well formed: it holds no more rows than it may, every page
    /// that has storage has a page's size, and the page of every stored row
    /// has storage.
    pub closed spec fn wf(self) -> bool {
        &&& self.num_rows <= MAX_ROWS
        &&& forall|p: int|
            0 <= p < self.pages@.len() ==> (#[trigger] self.pages@[p] matches Some(page)
                ==> page@.len() == PAGE_SIZE)
        &&& forall|r: int|
            0 <= r < self.num_rows ==> page_of(r) < self.pages@.len() && self.pages@[#[trigger] page_of(
                r,
            )] is Some
    }

    /// A well-formed table is within its capacity, each of its slots has the
    /// size of a row, and the page of every stored row has storage.
    pub proof fn lemma_wf_view(self)
        requires
            self.wf(),
        ensures
            self@.len() <= MAX_ROWS,
            forall|r: int| 0 <= r ==> (#[trigger] self.slot_at(r)).len() == ROW_SIZE,
            forall|r: int| 0 <= r < self@.len() ==> #[trigger] self.has_storage(r),
    {
        assert forall|r: int| 0 <= r implies (#[trigger] self.slot_at(r)).len() == ROW_SIZE by {
            lemma_slots_disjoint(r, r);
            assert(self.page_bytes(page_of(r)).len() == PAGE_SIZE);
        }
    }

    /// An empty table. It holds no row, and its list of pages has one entry,
    /// which has no storage yet: nothing is allocated before a slot is asked
    /// for, and every slot reads as zeros.
    pub fn new() -> (table: Table)
        ensures
            table.wf(),
            table@ == Seq::<Seq<u8>>::empty(),
            table.page_count() == 1,
            forall|r: int| !#[trigger] table.has_storage(r),
            forall|r: int|
                0 <= r ==> #[trigger] table.slot_at(r) == Seq::new(ROW_SIZE as nat, |i: int| 0u8),
    {
        let mut pages: Vec<Option<Vec<u8>>> = Vec::new();
        pages.push(None);
        let table = Table { num_rows: 0, pages };
        proof {
            assert(table@ =~= Seq::<Seq<u8>>::empty());
            assert forall|r: int| 0 <= r implies #[trigger] table.slot_at(r) == Seq::new(
                ROW_SIZE as nat,
                |i: int| 0u8,
            ) by {
                lemma_slots_disjoint(r, r);
                assert(table.slot_at(r) =~= Seq::new(ROW_SIZE as nat, |i: int| 0u8));
            }
        }
        table
    }

    /// How many rows are stored.
    pub fn num_rows(&self) -> (n: u32)
        ensures
            n == self@.len(),
    {
        self.num_rows
    }

    /// Tells whether the table is full: whether it holds `MAX_ROWS` rows, so
    /// that it refuses another.
    pub fn is_full(&self) -> (full: bool)
        requires
            self.wf(),
        ensures
            full == (self@.len() == MAX_ROWS),
    {
        self.num_rows >= MAX_ROWS
    }

    /// The slot of row `row_num`, for writing. The list of pages grows to
    /// reach the slot's page, by entries without storage, and that page gets
    /// zeroed storage if it has none; no other page gains or loses storage.
    /// Whatever is written, no other slot changes.
    fn row_slot(&mut self, row_num: u32) -> (slot: &mut [u8])
        requires
            old(self).wf(),
            row_num < MAX_ROWS,
        ensures
            slot@ == old(self).slot_at(row_num as int),
            final(slot)@.len() == ROW_SIZE ==> final(self).wf(),
            final(slot)@.len() == ROW_SIZE ==> final(self).count() == old(self).count(),
            final(slot)@.len() == ROW_SIZE ==> final(self).has_storage(row_num as int),
            final(slot)@.len() == ROW_SIZE ==> final(self).slot_at(row_num as int) == final(slot)@,
            final(slot)@.len() == ROW_SIZE ==> forall|r: int|
                0 <= r && r != row_num ==> #[trigger] final(self).slot_at(r) == old(self).slot_at(r),
            final(slot)@.len() == ROW_SIZE ==> final(self).page_count() == grown_count(
                old(self).page_count(),
                row_num as int,
            ),
            final(slot)@.len() == ROW_SIZE ==> forall|r: int|
                0 <= r && page_of(r) != page_of(row_num as int) ==> #[trigger] final(self).has_storage(r)
                    == old(self).has_storage(r),
    {
        let (page_num, offset) = locate(row_num);
        while self.pages.len() <= page_num
            invariant
                self.num_rows == old(self).num_rows,
                self.pages@.len() >= old(self).pages@.len(),
                self.pages@.len() == old(self).pages@.len() || self.pages@.len() <= page_num + 1,
                forall|p: int|
                    0 <= p < old(self).pages@.len() ==> #[trigger] self.pages@[p] == old(
                        self,
                    ).pages@[p],
                forall|p: int|
                    old(self).pages@.len() <= p < self.pages@.len() ==> #[trigger] self.pages@[p]
                        is None,
            decreases page_num + 1 - self.pages.len(),
        {
            self.pages.push(None);
        }
        if self.pages[page_num].is_none() {
            self.pages[page_num] = Some(vec![0u8; PAGE_SIZE]);
        }
        let ghost grown = *self;
        proof {
            assert(grown.wf());
            assert forall|p: int| #[trigger] grown.page_bytes(p) == old(self).page_bytes(p) by {
                assert(grown.page_bytes(p) =~= old(self).page_bytes(p));
            }
            assert forall|r: int| 0 <= r && r != row_num implies (page_of(r) == page_num ==> (
                offset_of(r) + ROW_SIZE <= offset || offset + ROW_SIZE <= offset_of(r))) && 0
                <= offset_of(r) && offset_of(r) + ROW_SIZE <= PAGE_SIZE by {
                lemma_slots_disjoint(r, row_num as int);
            }
        }
        let page = self.pages[page_num].as_mut().unwrap();
        let (_, tail) = page.as_mut_slice().split_at_mut(offset);
        let (slot, _) = tail.split_at_mut(ROW_SIZE);
        slot
    }

    /// The slot of the stored row `row_num`, for reading.
    fn slot(&self, row_num: u32) -> (slot: &[u8])
        requires
            self.wf(),
            row_num < self@.len(),
        ensures
            slot@ == self@[row_num as int],
    {
        let (page_num, offset) = locate(row_num);
        assert(self.has_storage(row_num as int));
        let page = self.pages[page_num].as_ref().unwrap();
        slice_subrange(page.as_slice(), offset, offset + ROW_SIZE)
    }

    /// Stores a row after those already stored.
    ///
    /// A table that holds `MAX_ROWS` rows is full: it refuses the row with
    /// `TableFull` and stays as it was. Otherwise the row is encoded, with
    /// texts cut to their fields, and its slot becomes the last one. The list
    /// of pages then reaches the page of the new row, which has storage; no
    /// other page gains or loses storage, and every other slot, stored or
    /// not, reads as before.
    pub fn insert(&mut self, row: &Row) -> (done: Result<(), StoreError>)
        requires
            old(self).wf(),
        ensures
            final(self).wf(),
            old(self)@.len() < MAX_ROWS ==> done is Ok && final(self)@ == old(self)@.push(
                encode_row(row@),
            ),
            old(self)@.len() < MAX_ROWS ==> final(self).has_storage(old(self)@.len() as int),
            old(self)@.len() < MAX_ROWS ==> final(self).page_count() == grown_count(
                old(self).page_count(),
                old(self)@.len() as int,
            ),
            old(self)@.len() < MAX_ROWS ==> forall|r: int|
                0 <= r && page_of(r) != page_of(old(self)@.len() as int) ==> #[trigger] final(self).has_storage(r)
                    == old(self).has_storage(r),
            old(self)@.len() < MAX_ROWS ==> forall|r: int|
                0 <= r && r != old(self)@.len() ==> #[trigger] final(self).slot_at(r) == old(self).slot_at(r),
            old(self)@.len() >= MAX_ROWS ==> done == Err::<(), StoreError>(StoreError::TableFull)
                && *final(self) == *old(self),
    {
        if self.num_rows >= MAX_ROWS {
            return Err(StoreError::TableFull);
        }
        let data = serialize_row(row);
        let row_num = self.num_rows;
        let slot = self.row_slot(row_num);
        let mut i: usize = 0;
        while i < ROW_SIZE
            invariant
                i <= ROW_SIZE,
                slot@.len() == ROW_SIZE,
                data@.len() == ROW_SIZE,
                forall|k: int| 0 <= k < i ==> slot@[k] == data@[k],
            decreases ROW_SIZE - i,
        {
            slot[i] = data[i];
            i += 1;
        }
        assert(slot@ =~= data@);
        let ghost written = *self;
        self.num_rows = row_num + 1;
        proof {
            assert forall|r: int| #[trigger] self.slot_at(r) == written.slot_at(r) by {
                assert(self.page_bytes(page_of(r)) == written.page_bytes(page_of(r)));
            }
            assert forall|r: int| #[trigger] self.has_storage(r) == written.has_storage(r) by {}
            assert(self@ =~= old(self)@.push(encode_row(row@)));
        }
        Ok(())
    }

    /// The stored row `row_num`, decoded; `None` if there is no such row.
    /// A row whose slot cannot be decoded is `CorruptRow`; the rows around it
    /// can still be read.
    pub fn get(&self, row_num: u32) -> (found: Option<Result<Row, StoreError>>)
        requires
            self.wf(),
        ensures
            row_num >= self@.len() ==> found is None,
            row_num < self@.len() ==> found is Some,
            row_num < self@.len() && decodable(self@[row_num as int]) ==> found->0 is Ok
                && found->0->Ok_0@ == decode_row(self@[row_num as int]),
            row_num < self@.len() && !decodable(self@[row_num as int]) ==> found->0 == Err::<
                Row,
                StoreError,
            >(StoreError::CorruptRow),
    {
        if row_num >= self.num_rows {
            return None;
        }
        Some(deserialize_row(self.slot(row_num)))
    }

    /// All stored rows, decoded, in order of insertion.
    ///
    /// The scan fails as a whole, with `CorruptRow`, if any slot cannot be
    /// decoded; `get` reads the rows one at a time.
    pub fn scan(&self) -> (rows: Result<Vec<Row>, StoreError>)
        requires
            self.wf(),
        ensures
            readable(self@) ==> rows is Ok && views(rows->Ok_0@) == decoded(self@),
            !readable(self@) ==> rows == Err::<Vec<Row>, StoreError>(StoreError::CorruptRow),
    {
        let mut rows: Vec<Row> = Vec::new();
        let mut row_num: u32 = 0;
        while row_num < self.num_rows
            invariant
                self.wf(),
                row_num <= self.num_rows,
                rows@.len() == row_num,
                forall|i: int| 0 <= i < row_num ==> decodable(#[trigger] self@[i]),
                forall|i: int| 0 <= i < row_num ==> (#[trigger] rows@[i])@ == decode_row(self@[i]),
            decreases self.num_rows - row_num,
        {
            match deserialize_row(self.slot(row_num)) {
                Ok(row) => {
                    rows.push(row);
                },
                Err(_) => {
                    assert(!decodable(self@[row_num as int]));
                    return Err(StoreError::CorruptRow);
                },
            }
            row_num += 1;
        }
        assert(views(rows@) =~= decoded(self@));
        Ok(rows)
    }

    /// The lines that show the table, for the caller to print: a header, a
    /// rule, and a line for each stored row in order of insertion. Fails
    /// with `CorruptRow`, like a scan, if a slot cannot be decoded.
    pub fn print(&self) -> (lines: Result<Vec<String>, StoreError>)
        requires
            self.wf(),
        ensures
            readable(self@) ==> lines is Ok && texts(lines->Ok_0@) == printout(decoded(self@)),
            !readable(self@) ==> lines == Err::<Vec<String>, StoreError>(StoreError::CorruptRow),
    {
        match self.scan() {
            Ok(rows) => Ok(render_table(&rows)),
            Err(e) => Err(e),
        }
    }
}

} // verus!
