//! The archive's header and entry table, as they lie in the bytes.
//!
//! | at   | field                | size            |
//! |------|----------------------|-----------------|
//! | 0    | magic                | 4               |
//! | 4    | total size           | 4, big-endian   |
//! | 8    | entry count          | 4, big-endian   |
//! | 12   | first payload offset | 4, big-endian   |
//! | 16   | entry records        | one after another |
//!
//! A record is the payload's offset and length, four big-endian bytes each,
//! and the entry's name, closed by a NUL byte.

use crate::entry::{BigEntry, EntryView};
use crate::errors::ReadError;
use crate::index::EntryIndex;
use crate::wire::{decode_name, decoded_name, read_u32_at, u32_at};
use vstd::prelude::*;
use vstd::slice::slice_subrange;

verus! {

/// The number of bytes before the first entry record.
pub const HEADER_LEN: usize = 16;

/// The number of bytes in a record before its name.
pub const RECORD_FIELDS_LEN: usize = 8;

/// The three numbers that follow the magic.
#[derive(Clone, Copy, Debug, PartialEq, Eq, Structural)]
pub struct ArchiveHeader {
    /// The length in bytes that the archive states of itself.
    pub total_size: u32,
    /// The number of records in the entry table.
    pub entry_count: u32,
    /// The offset at which the first payload starts.
    pub first_entry_offset: u32,
}

/// The header that `data` starts with.
pub open spec fn header_of(data: Seq<u8>) -> ArchiveHeader
    recommends
        data.len() >= HEADER_LEN,
{
    ArchiveHeader {
        total_size: u32_at(data, 4),
        entry_count: u32_at(data, 8),
        first_entry_offset: u32_at(data, 12),
    }
}

/// Reads the header. The magic before it is passed over, not judged.
pub fn read_header(data: &[u8]) -> (header: Result<ArchiveHeader, ReadError>)
    ensures
        data@.len() >= HEADER_LEN ==> header == Ok::<ArchiveHeader, ReadError>(header_of(data@)),
        data@.len() < HEADER_LEN ==> header == Err::<ArchiveHeader, ReadError>(
            ReadError::Truncated,
        ),
{
    if data.len() < HEADER_LEN {
        return Err(ReadError::Truncated);
    }
    let total_size = read_u32_at(data, 4).unwrap();
    let entry_count = read_u32_at(data, 8).unwrap();
    let first_entry_offset = read_u32_at(data, 12).unwrap();
    Ok(ArchiveHeader { total_size, entry_count, first_entry_offset })
}

/// `end` is where the name that starts at `start` is closed: the first NUL
/// byte at or after `start`.
pub open spec fn is_name_end(data: Seq<u8>, start: int, end: int) -> bool {
    &&& 0 <= start <= end < data.len()
    &&& data[end] == 0
    &&& forall|i: int| start <= i < end ==> data[i] != 0
}

/// Where the name that starts at `start` is closed, if it is closed at all.
pub open spec fn name_end(data: Seq<u8>, start: int) -> Option<int> {
    if exists|end: int| is_name_end(data, start, end) {
        Some(choose|end: int| is_name_end(data, start, end))
    } else {
        None
    }
}

/// A name is closed in one place only.
pub proof fn lemma_name_end_unique(data: Seq<u8>, start: int, end: int)
    requires
        is_name_end(data, start, end),
    ensures
        name_end(data, start) == Some(end),
{
    let chosen = choose|end: int| is_name_end(data, start, end);
    if chosen < end {
        assert(data[chosen] != 0);
    } else if end < chosen {
        assert(data[end] != 0);
    }
}

/// Finds the NUL byte that closes the name starting at `start`.
pub fn find_name_end(data: &[u8], start: usize) -> (end: Option<usize>)
    ensures
        match name_end(data@, start as int) {
            Some(at) => end == Some(at as usize) && at < data@.len(),
            None => end is None,
        },
{
    let mut i: usize = start;
    while i < data.len()
        invariant
            start <= i,
            forall|k: int| start <= k < i && k < data@.len() ==> data@[k] != 0,
        decreases data@.len() - i,
    {
        if data[i] == 0 {
            proof {
                lemma_name_end_unique(data@, start as int, i as int);
            }
            return Some(i);
        }
        i += 1;
    }
    assert forall|end: int| !is_name_end(data@, start as int, end) by {
        if is_name_end(data@, start as int, end) {
            assert(data@[end] != 0);
        }
    }
    None
}

/// The record that starts at `pos`, and the position just after it.
pub open spec fn record_at(data: Seq<u8>, pos: int) -> Option<(EntryView, int)> {
    if 0 <= pos && pos + RECORD_FIELDS_LEN <= data.len() {
        match name_end(data, pos + RECORD_FIELDS_LEN) {
            Some(end) => Some(
                (
                    EntryView {
                        offset: u32_at(data, pos),
                        data_len: u32_at(data, pos + 4),
                        name: decoded_name(data.subrange(pos + RECORD_FIELDS_LEN, end)),
                    },
                    end + 1,
                ),
            ),
            None => None,
        }
    } else {
        None
    }
}

/// Reads the record that starts at `pos`. There is none where the bytes end
/// before its two numbers are complete or before its name is closed.
pub fn read_record(data: &[u8], pos: usize) -> (record: Option<(BigEntry, usize)>)
    ensures
        match record_at(data@, pos as int) {
            Some((entry, next)) => record matches Some((read, after)) && read@ == entry && after
                == next && pos < next <= data@.len(),
            None => record is None,
        },
{
    if data.len() < RECORD_FIELDS_LEN || pos > data.len() - RECORD_FIELDS_LEN {
        return None;
    }
    let offset = read_u32_at(data, pos).unwrap();
    let data_len = read_u32_at(data, pos + 4).unwrap();
    let start = pos + RECORD_FIELDS_LEN;
    match find_name_end(data, start) {
        Some(end) => {
            let name = decode_name(slice_subrange(data, start, end));
            Some((BigEntry { offset, data_len, name }, end + 1))
        },
        None => None,
    }
}

/// The first `count` records of the entry table, in the order in which they
/// lie, and the position just after the last of them. There is no such prefix
/// where the bytes end inside one of the records.
pub open spec fn table_prefix(data: Seq<u8>, count: nat) -> Option<(Seq<EntryView>, int)>
    decreases count,
{
    if count == 0 {
        Some((Seq::empty(), HEADER_LEN as int))
    } else {
        match table_prefix(data, (count - 1) as nat) {
            Some((entries, pos)) => match record_at(data, pos) {
                Some((entry, next)) => Some((entries.push(entry), next)),
                None => None,
            },
            None => None,
        }
    }
}

/// The index that holds `entries`: each under its name, a later one in place
/// of an earlier one of the same name.
pub open spec fn index_of(entries: Seq<EntryView>) -> Map<Seq<char>, EntryView>
    decreases entries.len(),
{
    if entries.len() == 0 {
        Map::empty()
    } else {
        index_of(entries.drop_last()).insert(entries.last().name, entries.last())
    }
}

/// Once the bytes have ended inside a record, no longer prefix exists either.
pub proof fn lemma_table_prefix_fails_on(data: Seq<u8>, short: nat, long: nat)
    requires
        short <= long,
        table_prefix(data, short) is None,
    ensures
        table_prefix(data, long) is None,
    decreases long,
{
    if short < long {
        lemma_table_prefix_fails_on(data, short, (long - 1) as nat);
    }
}

/// Reads a table of `count` records and builds the index of its entries.
/// Gives the index and the position just after the table, or nothing where
/// the bytes end inside the table.
pub fn read_table(data: &[u8], count: u32) -> (table: Option<(EntryIndex, usize)>)
    ensures
        match table_prefix(data@, count as nat) {
            Some((entries, end)) => table matches Some((index, after)) && index@ == index_of(
                entries,
            ) && after == end && HEADER_LEN <= end,
            None => table is None,
        },
{
    let mut index = EntryIndex::new();
    let mut pos: usize = HEADER_LEN;
    let mut read: u32 = 0;
    let ghost mut entries: Seq<EntryView> = Seq::empty();
    while read < count
        invariant
            read <= count,
            HEADER_LEN <= pos,
            table_prefix(data@, read as nat) == Some((entries, pos as int)),
            index@ == index_of(entries),
        decreases count - read,
    {
        match read_record(data, pos) {
            Some((entry, next)) => {
                proof {
                    assert(entries.push(entry@).drop_last() =~= entries);
                    entries = entries.push(entry@);
                }
                index.insert(entry);
                pos = next;
                read += 1;
            },
            None => {
                proof {
                    lemma_table_prefix_fails_on(data@, (read + 1) as nat, count as nat);
                }
                return None;
            },
        }
    }
    Some((index, pos))
}

} // verus!
