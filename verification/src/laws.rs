//! What holds of every index and of every decoded archive.

use crate::archive::{decode_archive, payload_at, ArchiveView, BigArchive};
use crate::entry::EntryView;
use crate::format::{format_of, magic_of, BigfSpelling};
use crate::table::{header_of, index_of, table_prefix, HEADER_LEN};
use vstd::prelude::*;

verus! {

/// No two of `entries` have the same name.
pub open spec fn names_differ(entries: Seq<EntryView>) -> bool {
    forall|i: int, j: int|
        0 <= i < j < entries.len() ==> (#[trigger] entries[i]).name != (#[trigger] entries[j]).name
}

/// `entries[at]` is the last of `entries` with its name.
pub open spec fn is_last_of_name(entries: Seq<EntryView>, at: int) -> bool {
    &&& 0 <= at < entries.len()
    &&& forall|j: int| at < j < entries.len() ==> (#[trigger] entries[j]).name != entries[at].name
}

/// An index holds the names of its entries and no others, each entry under
/// its own name, and never more names than there were entries.
pub proof fn lemma_index_of_names(entries: Seq<EntryView>)
    ensures
        index_of(entries).dom().finite(),
        index_of(entries).dom().len() <= entries.len(),
        forall|name: Seq<char>|
            index_of(entries).contains_key(name) <==> exists|i: int|
                0 <= i < entries.len() && (#[trigger] entries[i]).name == name,
        forall|name: Seq<char>|
            index_of(entries).contains_key(name) ==> (#[trigger] index_of(entries)[name]).name
                == name,
    decreases entries.len(),
{
    if entries.len() > 0 {
        let front = entries.drop_last();
        let last = entries.last();
        lemma_index_of_names(front);
        assert forall|name: Seq<char>| index_of(entries).contains_key(name) implies exists|i: int|
            0 <= i < entries.len() && (#[trigger] entries[i]).name == name by {
            if name == last.name {
                assert(entries[entries.len() - 1].name == name);
            } else {
                let i = choose|i: int| 0 <= i < front.len() && (#[trigger] front[i]).name == name;
                assert(entries[i].name == name);
            }
        }
        assert forall|name: Seq<char>|
            (exists|i: int|
                0 <= i < entries.len() && (#[trigger] entries[i]).name
                    == name) implies index_of(entries).contains_key(name) by {
            let i = choose|i: int| 0 <= i < entries.len() && (#[trigger] entries[i]).name == name;
            if i < entries.len() - 1 {
                assert(front[i].name == name);
            }
        }
    }
}

/// Under a name stands the last entry that has it.
pub proof fn lemma_index_of_last_wins(entries: Seq<EntryView>, at: int)
    requires
        is_last_of_name(entries, at),
    ensures
        index_of(entries).contains_key(entries[at].name),
        index_of(entries)[entries[at].name] == entries[at],
    decreases entries.len(),
{
    if at < entries.len() - 1 {
        let front = entries.drop_last();
        assert(entries.last().name != entries[at].name);
        assert(is_last_of_name(front, at)) by {
            assert forall|j: int| at < j < front.len() implies (#[trigger] front[j]).name
                != front[at].name by {
                assert(entries[j].name != entries[at].name);
            }
        }
        lemma_index_of_last_wins(front, at);
    }
}

/// Where no two entries share a name, the index holds as many names as
/// there are entries.
pub proof fn lemma_index_of_distinct_names(entries: Seq<EntryView>)
    requires
        names_differ(entries),
    ensures
        index_of(entries).dom().len() == entries.len(),
    decreases entries.len(),
{
    if entries.len() > 0 {
        let front = entries.drop_last();
        let last = entries.last();
        assert(names_differ(front)) by {
            assert forall|i: int, j: int| 0 <= i < j < front.len() implies (
            #[trigger] front[i]).name != (#[trigger] front[j]).name by {
                assert(entries[i].name != entries[j].name);
            }
        }
        lemma_index_of_distinct_names(front);
        lemma_index_of_names(front);
        assert(!index_of(front).contains_key(last.name)) by {
            if index_of(front).contains_key(last.name) {
                let i = choose|i: int|
                    0 <= i < front.len() && (#[trigger] front[i]).name == last.name;
                assert(entries[i].name != entries[entries.len() - 1].name);
            }
        }
    }
}

/// Where two entries share a name, the index holds fewer names than there
/// are entries.
pub proof fn lemma_index_of_shared_name(entries: Seq<EntryView>, first: int, second: int)
    requires
        0 <= first < second < entries.len(),
        entries[first].name == entries[second].name,
    ensures
        index_of(entries).dom().len() < entries.len(),
    decreases entries.len(),
{
    let front = entries.drop_last();
    lemma_index_of_names(front);
    if second == entries.len() - 1 {
        assert(front[first].name == entries.last().name);
    } else {
        assert(front[first].name == front[second].name);
        lemma_index_of_shared_name(front, first, second);
    }
}

/// The records of the entry table of `data`, in the order in which they lie.
pub open spec fn table_entries(data: Seq<u8>) -> Seq<EntryView>
    recommends
        table_prefix(data, header_of(data).entry_count as nat) is Some,
{
    table_prefix(data, header_of(data).entry_count as nat).unwrap().0
}

/// The position just after the entry table of `data`.
pub open spec fn table_end(data: Seq<u8>) -> int
    recommends
        table_prefix(data, header_of(data).entry_count as nat) is Some,
{
    table_prefix(data, header_of(data).entry_count as nat).unwrap().1
}

/// A prefix of the table holds as many records as were asked for, and ends
/// after the header.
pub proof fn lemma_table_prefix_len(data: Seq<u8>, count: nat)
    ensures
        table_prefix(data, count) matches Some((entries, end)) ==> entries.len() == count
            && HEADER_LEN <= end,
    decreases count,
{
    if count > 0 {
        lemma_table_prefix_len(data, (count - 1) as nat);
    }
}

/// What a decoded archive has from its bytes: the bytes themselves, the
/// format that the magic announces, the header's total size, the padding
/// that lies between the table's end and the first payload, and the index of
/// the table's entries, each under its own name.
pub proof fn lemma_decoded_archive(data: Seq<u8>, spelling: BigfSpelling)
    requires
        decode_archive(data, spelling) is Ok,
    ensures
        ({
            let archive = decode_archive(data, spelling)->Ok_0;
            let header = header_of(data);
            &&& archive.data == data
            &&& archive.format == format_of(magic_of(data), spelling)
            &&& !(archive.format is Unknown)
            &&& archive.total_size == header.total_size
            &&& HEADER_LEN <= table_end(data) <= header.first_entry_offset
            &&& archive.junk_len == header.first_entry_offset - table_end(data)
            &&& archive.index == index_of(table_entries(data))
            &&& table_entries(data).len() == header.entry_count
            &&& archive.index.dom().finite()
            &&& archive.entry_count() <= header.entry_count
            &&& forall|name: Seq<char>|
                archive.contains(name) ==> (#[trigger] archive.index[name]).name == name
        }),
{
    lemma_table_prefix_len(data, header_of(data).entry_count as nat);
    lemma_index_of_names(table_entries(data));
}

/// An archive whose table names no entry twice has as many entries as its
/// header counts.
pub proof fn lemma_entry_count_of_distinct_names(data: Seq<u8>, spelling: BigfSpelling)
    requires
        decode_archive(data, spelling) is Ok,
        names_differ(table_entries(data)),
    ensures
        decode_archive(data, spelling)->Ok_0.entry_count() == header_of(data).entry_count,
{
    lemma_decoded_archive(data, spelling);
    lemma_index_of_distinct_names(table_entries(data));
}

/// An archive whose table names an entry twice has fewer entries than its
/// header counts.
pub proof fn lemma_entry_count_of_shared_name(
    data: Seq<u8>,
    spelling: BigfSpelling,
    first: int,
    second: int,
)
    requires
        decode_archive(data, spelling) is Ok,
        0 <= first < second < table_entries(data).len(),
        table_entries(data)[first].name == table_entries(data)[second].name,
    ensures
        decode_archive(data, spelling)->Ok_0.entry_count() < header_of(data).entry_count,
{
    lemma_decoded_archive(data, spelling);
    lemma_index_of_shared_name(table_entries(data), first, second);
}

/// Of the records that share a name, the last one in the table is the entry
/// that is found under the name, and its payload is the one that is read.
pub proof fn lemma_last_record_is_found(data: Seq<u8>, spelling: BigfSpelling, at: int)
    requires
        decode_archive(data, spelling) is Ok,
        is_last_of_name(table_entries(data), at),
    ensures
        ({
            let archive = decode_archive(data, spelling)->Ok_0;
            let record = table_entries(data)[at];
            &&& archive.contains(record.name)
            &&& archive.get_entry(record.name) == Some(record)
            &&& archive.payload(record.name) == payload_at(data, record.offset, record.data_len)
        }),
{
    lemma_decoded_archive(data, spelling);
    lemma_index_of_last_wins(table_entries(data), at);
}

/// A name is contained exactly where an entry is found under it.
pub proof fn lemma_contains_iff_get_entry(archive: ArchiveView, name: Seq<char>)
    ensures
        archive.contains(name) <==> archive.get_entry(name) is Some,
{
}

/// A payload that is read has the length that its entry records, and is
/// read only of an entry that is there.
pub proof fn lemma_payload_len(archive: ArchiveView, name: Seq<char>)
    ensures
        archive.payload(name) matches Some(bytes) ==> archive.contains(name) && bytes.len()
            == archive.index[name].data_len,
{
}

/// Reading is repeatable: whatever two reads of one name from one archive
/// give, they give the same, since no read changes the archive.
pub proof fn lemma_read_entry_repeats(
    archive: &BigArchive,
    entry_name: &str,
    first: Option<Vec<u8>>,
    second: Option<Vec<u8>>,
)
    requires
        call_ensures(BigArchive::read_entry, (archive, entry_name), first),
        call_ensures(BigArchive::read_entry, (archive, entry_name), second),
    ensures
        first is Some <==> second is Some,
        first matches Some(bytes) ==> second matches Some(again) && bytes@ == again@,
{
}

} // verus!
