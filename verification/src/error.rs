//! The errors of the row store.

use vstd::prelude::*;

verus! {

/// What an operation of the store can fail with. Every error is local to the
/// operation that returned it; the table stays usable.
#[derive(Debug, Clone, Copy, PartialEq, Eq, Structural)]
pub enum StoreError {
    /// The table already holds as many rows as it can; the row was not stored.
    TableFull,
    /// A slot does not have the size of a row, or a text field in it is not
    /// UTF-8 once its padding is removed.
    CorruptRow,
    /// A text field has more bytes than its place in the slot; encoding the
    /// row would drop the excess.
    FieldTooLong,
}

} // verus!
