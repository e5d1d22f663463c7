//! The two encodings the archive format is built from: big-endian 32-bit
//! integers and NUL-terminated names.

use byteorder::ByteOrder;
use vstd::prelude::*;
use vstd::slice::slice_subrange;
use vstd::utf8::{decode_utf8, valid_utf8};

verus! {

/// The unsigned integer that four bytes spell in big-endian order.
pub open spec fn u32_be(b: Seq<u8>) -> u32
    recommends
        b.len() >= 4,
{
    (b[0] as int * 0x100_0000 + b[1] as int * 0x1_0000 + b[2] as int * 0x100 + b[3] as int) as u32
}

/// The big-endian integer in `data` at `pos`.
pub open spec fn u32_at(data: Seq<u8>, pos: int) -> u32
    recommends
        0 <= pos,
        pos + 4 <= data.len(),
{
    u32_be(data.subrange(pos, pos + 4))
}

/// Calls `byteorder::BigEndian::read_u32`. Taken on trust: the call gives
/// the first four bytes of `buf`, read as a big-endian integer. It panics on
/// a shorter slice, which the precondition keeps out.
#[verifier::external_body]
fn be_u32(buf: &[u8]) -> (value: u32)
    requires
        buf@.len() >= 4,
    ensures
        value == u32_be(buf@),
{
    byteorder::BigEndian::read_u32(buf)
}

/// Reads the big-endian integer at `pos`, or nothing where fewer than four
/// bytes are left.
pub fn read_u32_at(data: &[u8], pos: usize) -> (value: Option<u32>)
    ensures
        pos + 4 <= data@.len() ==> value == Some(u32_at(data@, pos as int)),
        pos + 4 > data@.len() ==> value is None,
{
    if data.len() < 4 || pos > data.len() - 4 {
        return None;
    }
    let field = slice_subrange(data, pos, pos + 4);
    Some(be_u32(field))
}

/// What `String::from_utf8_lossy` makes of bytes that are not valid UTF-8:
/// their text with U+FFFD wherever the bytes encode none. Nothing here says
/// more of it than that it depends on the bytes alone.
pub uninterp spec fn lossy_utf8(bytes: Seq<u8>) -> Seq<char>;

/// The name that a record's name bytes stand for: the text they encode where
/// they are valid UTF-8, and the lossy reading otherwise.
pub open spec fn decoded_name(bytes: Seq<u8>) -> Seq<char> {
    if valid_utf8(bytes) {
        decode_utf8(bytes)
    } else {
        lossy_utf8(bytes)
    }
}

/// Calls `String::from_utf8_lossy`. Taken on trust: valid UTF-8 comes back
/// as the text it encodes; of other bytes the contract gives the result its
/// name, `lossy_utf8`, and no more.
#[verifier::external_body]
pub(crate) fn decode_name(bytes: &[u8]) -> (name: String)
    ensures
        valid_utf8(bytes@) ==> name@ == decode_utf8(bytes@),
        !valid_utf8(bytes@) ==> name@ == lossy_utf8(bytes@),
{
    String::from_utf8_lossy(bytes).into_owned()
}

} // verus!
