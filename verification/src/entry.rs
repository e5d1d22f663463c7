//! One record of the entry table.

use vstd::prelude::*;

verus! {

/// Where one named payload lies inside the archive.
#[derive(Debug, PartialEq, Eq)]
pub struct BigEntry {
    /// Byte offset of the payload, counted from the start of the archive.
    pub offset: u32,
    /// Length of the payload in bytes.
    pub data_len: u32,
    /// The entry's name; `/` separates the parts of a nested path.
    pub name: String,
}

/// A `BigEntry` as a mathematical value.
pub struct EntryView {
    pub offset: u32,
    pub data_len: u32,
    pub name: Seq<char>,
}

impl View for BigEntry {
    type V = EntryView;

    open spec fn view(&self) -> EntryView {
        EntryView { offset: self.offset, data_len: self.data_len, name: self.name@ }
    }
}

} // verus!
