//! Telling the archive formats apart by their magic.

use crate::errors::ReadError;
use vstd::prelude::*;
use vstd::slice::{slice_subrange, slice_to_vec};

verus! {

/// The number of bytes in a magic.
pub const MAGIC_LEN: usize = 4;

/// The format that a magic announces.
#[derive(Debug, PartialEq, Eq)]
pub enum Format {
    /// No known format; the bytes that stood in the magic's place.
    Unknown(Vec<u8>),
    Big4,
    BigF,
}

/// A `Format` as a mathematical value.
pub enum FormatView {
    Unknown(Seq<u8>),
    Big4,
    BigF,
}

impl View for Format {
    type V = FormatView;

    open spec fn view(&self) -> FormatView {
        match self {
            Format::Unknown(magic) => FormatView::Unknown(magic@),
            Format::Big4 => FormatView::Big4,
            Format::BigF => FormatView::BigF,
        }
    }
}

/// Which spellings of the second magic stand for `BigF`. Bytes are compared
/// as they are: neither choice folds case.
#[derive(Clone, Copy, Debug, PartialEq, Eq, Structural)]
pub enum BigfSpelling {
    /// `BIGF` alone.
    UpperOnly,
    /// `BIGF`, and `BIGf` as some writers spelled it.
    UpperOrLower,
}

/// The bytes of `BIG4`.
pub open spec fn magic_big4() -> Seq<u8> {
    seq![0x42u8, 0x49u8, 0x47u8, 0x34u8]
}

/// The bytes of `BIGF`.
pub open spec fn magic_bigf() -> Seq<u8> {
    seq![0x42u8, 0x49u8, 0x47u8, 0x46u8]
}

/// The bytes of `BIGf`.
pub open spec fn magic_bigf_lower() -> Seq<u8> {
    seq![0x42u8, 0x49u8, 0x47u8, 0x66u8]
}

/// The bytes of `data` that stand in the magic's place.
pub open spec fn magic_of(data: Seq<u8>) -> Seq<u8>
    recommends
        data.len() >= MAGIC_LEN,
{
    data.subrange(0, MAGIC_LEN as int)
}

/// The format that `magic` announces under `spelling`.
pub open spec fn format_of(magic: Seq<u8>, spelling: BigfSpelling) -> FormatView {
    if magic == magic_big4() {
        FormatView::Big4
    } else if magic == magic_bigf() {
        FormatView::BigF
    } else if spelling == BigfSpelling::UpperOrLower && magic == magic_bigf_lower() {
        FormatView::BigF
    } else {
        FormatView::Unknown(magic)
    }
}

/// Whether `magic` is the four bytes `b0 b1 b2 b3`.
fn spells(magic: &[u8], b0: u8, b1: u8, b2: u8, b3: u8) -> (same: bool)
    ensures
        same == (magic@ == seq![b0, b1, b2, b3]),
{
    let ghost word = seq![b0, b1, b2, b3];
    let same = magic.len() == 4 && magic[0] == b0 && magic[1] == b1 && magic[2] == b2 && magic[3]
        == b3;
    assert(same ==> magic@ =~= word);
    same
}

impl Format {
    /// Classifies a magic. Bytes that spell no accepted magic come back in
    /// `Unknown`, whatever their number.
    pub fn from_magic(magic: &[u8], spelling: BigfSpelling) -> (format: Format)
        ensures
            format@ == format_of(magic@, spelling),
    {
        if spells(magic, 0x42, 0x49, 0x47, 0x34) {
            Format::Big4
        } else if spells(magic, 0x42, 0x49, 0x47, 0x46) {
            Format::BigF
        } else {
            let lower = match spelling {
                BigfSpelling::UpperOnly => false,
                BigfSpelling::UpperOrLower => spells(magic, 0x42, 0x49, 0x47, 0x66),
            };
            if lower {
                Format::BigF
            } else {
                Format::Unknown(slice_to_vec(magic))
            }
        }
    }
}

/// Classifies the magic at the start of `data`. Data too short to hold a
/// magic is truncated, not of unknown format.
pub fn read_format(data: &[u8], spelling: BigfSpelling) -> (format: Result<Format, ReadError>)
    ensures
        data@.len() < MAGIC_LEN ==> format == Err::<Format, ReadError>(ReadError::Truncated),
        data@.len() >= MAGIC_LEN ==> format is Ok && format->Ok_0@ == format_of(
            magic_of(data@),
            spelling,
        ),
{
    if data.len() < MAGIC_LEN {
        return Err(ReadError::Truncated);
    }
    Ok(Format::from_magic(slice_subrange(data, 0, MAGIC_LEN), spelling))
}

} // verus!
