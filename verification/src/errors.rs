//! What can go wrong while an archive is decoded.

use vstd::prelude::*;

verus! {

/// Why a run of bytes was not accepted as an archive.
#[derive(Debug, PartialEq, Eq)]
pub enum ReadError {
    /// The bytes end inside the magic, the header or an entry record.
    Truncated,
    /// The first four bytes are no known magic; they are carried as found.
    UnknownArchiveFormat(Vec<u8>),
    /// The header puts the first payload before the end of the entry table.
    StructuralInconsistency,
}

/// A `ReadError` as a mathematical value.
pub enum ReadErrorView {
    Truncated,
    UnknownArchiveFormat(Seq<u8>),
    StructuralInconsistency,
}

impl View for ReadError {
    type V = ReadErrorView;

    open spec fn view(&self) -> ReadErrorView {
        match self {
            ReadError::Truncated => ReadErrorView::Truncated,
            ReadError::UnknownArchiveFormat(magic) => ReadErrorView::UnknownArchiveFormat(magic@),
            ReadError::StructuralInconsistency => ReadErrorView::StructuralInconsistency,
        }
    }
}

} // verus!
