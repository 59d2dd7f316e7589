//! A fixed-slot, paged, in-memory row store.
//!
//! A row is an id and two short texts. It is packed into a slot of 48 bytes;
//! slots fill pages of 4096 bytes, which a table allocates as rows arrive, up
//! to a fixed number of rows.

pub mod command;
pub mod error;
pub mod layout;
pub mod number;
pub mod report;
pub mod row;
pub mod table;
pub mod text;
