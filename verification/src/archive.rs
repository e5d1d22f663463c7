//! The archive: its index of entries and the bytes that hold their payloads.

use crate::entry::{BigEntry, EntryView};
use crate::errors::{ReadError, ReadErrorView};
use crate::format::{
    format_of, magic_of, read_format, BigfSpelling, Format, FormatView, MAGIC_LEN,
};
use crate::index::{occurs_in, EntryIndex};
use crate::table::{header_of, index_of, read_header, read_table, table_prefix, HEADER_LEN};
use vstd::prelude::*;
use vstd::slice::{slice_subrange, slice_to_vec};

verus! {

/// A `BigArchive` as a mathematical value.
pub struct ArchiveView {
    /// The format that the magic announced; never `Unknown`.
    pub format: FormatView,
    /// The length that the header states of the archive.
    pub total_size: u32,
    /// The number of bytes between the entry table and the first payload.
    pub junk_len: u32,
    /// The entries, each under its name.
    pub index: Map<Seq<char>, EntryView>,
    /// The archive's bytes, header and table included.
    pub data: Seq<u8>,
}

/// The `len` bytes of `data` from `offset` on. There are none where the
/// bytes end before `offset + len`; an empty payload is read wherever it is
/// said to lie.
pub open spec fn payload_at(data: Seq<u8>, offset: u32, len: u32) -> Option<Seq<u8>> {
    if len == 0 {
        Some(Seq::empty())
    } else if offset + len <= data.len() {
        Some(data.subrange(offset as int, offset + len))
    } else {
        None
    }
}

impl ArchiveView {
    /// Whether an entry stands under `name`.
    pub open spec fn contains(self, name: Seq<char>) -> bool {
        self.index.contains_key(name)
    }

    /// The entry under `name`.
    pub open spec fn get_entry(self, name: Seq<char>) -> Option<EntryView> {
        if self.index.contains_key(name) {
            Some(self.index[name])
        } else {
            None
        }
    }

    /// The archive with `entry` under `name`, in place of what stood there.
    pub open spec fn with_entry(self, name: Seq<char>, entry: EntryView) -> ArchiveView {
        ArchiveView { index: self.index.insert(name, entry), ..self }
    }

    /// The number of entries that can be found by name.
    pub open spec fn entry_count(self) -> nat {
        self.index.dom().len()
    }

    /// The payload of the entry under `name`: none where there is no such
    /// entry, and none where the bytes end before the payload does.
    pub open spec fn payload(self, name: Seq<char>) -> Option<Seq<u8>> {
        match self.get_entry(name) {
            Some(entry) => payload_at(self.data, entry.offset, entry.data_len),
            None => None,
        }
    }
}

/// What `data` decodes to: the archive, or the reason why it is none.
///
/// The magic is judged first, then the header is read, then the table; the
/// first payload may not start before the table ends.
pub open spec fn decode_archive(data: Seq<u8>, spelling: BigfSpelling) -> Result<
    ArchiveView,
    ReadErrorView,
> {
    if data.len() < MAGIC_LEN {
        Err(ReadErrorView::Truncated)
    } else if format_of(magic_of(data), spelling) is Unknown {
        Err(ReadErrorView::UnknownArchiveFormat(magic_of(data)))
    } else if data.len() < HEADER_LEN {
        Err(ReadErrorView::Truncated)
    } else {
        let header = header_of(data);
        match table_prefix(data, header.entry_count as nat) {
            None => Err(ReadErrorView::Truncated),
            Some((entries, end)) => if header.first_entry_offset < end {
                Err(ReadErrorView::StructuralInconsistency)
            } else {
                Ok(
                    ArchiveView {
                        format: format_of(magic_of(data), spelling),
                        total_size: header.total_size,
                        junk_len: (header.first_entry_offset - end) as u32,
                        index: index_of(entries),
                        data,
                    },
                )
            },
        }
    }
}

/// The formats that an archive can have.
enum Known {
    Big4,
    BigF,
}

/// A decoded archive. It keeps the bytes it was decoded from and hands out
/// payloads on request.
pub struct BigArchive {
    format: Known,
    total_size: u32,
    junk_len: u32,
    index: EntryIndex,
    data: Vec<u8>,
}

impl View for BigArchive {
    type V = ArchiveView;

    closed spec fn view(&self) -> ArchiveView {
        ArchiveView {
            format: match self.format {
                Known::Big4 => FormatView::Big4,
                Known::BigF => FormatView::BigF,
            },
            total_size: self.total_size,
            junk_len: self.junk_len,
            index: self.index@,
            data: self.data@,
        }
    }
}

impl BigArchive {
    /// Decodes an archive, taking `BIGF` alone for the second magic.
    pub fn new(data: Vec<u8>) -> (archive: Result<BigArchive, ReadError>)
        ensures
            match decode_archive(data@, BigfSpelling::UpperOnly) {
                Ok(view) => archive matches Ok(decoded) && decoded@ == view,
                Err(error) => archive matches Err(reason) && reason@ == error,
            },
            archive matches Ok(decoded) ==> decoded@.format == format_of(
                magic_of(data@),
                BigfSpelling::UpperOnly,
            ),
            data@.len() >= MAGIC_LEN && format_of(magic_of(data@), BigfSpelling::UpperOnly)
                is Unknown ==> (archive matches Err(ReadError::UnknownArchiveFormat(magic))
                && magic@ == magic_of(data@)),
    {
        BigArchive::new_with_spelling(data, BigfSpelling::UpperOnly)
    }

    /// Decodes an archive, with the spellings of the second magic that
    /// `spelling` admits.
    pub fn new_with_spelling(data: Vec<u8>, spelling: BigfSpelling) -> (archive: Result<
        BigArchive,
        ReadError,
    >)
        ensures
            match decode_archive(data@, spelling) {
                Ok(view) => archive matches Ok(decoded) && decoded@ == view,
                Err(error) => archive matches Err(reason) && reason@ == error,
            },
            archive matches Ok(decoded) ==> decoded@.format == format_of(magic_of(data@), spelling),
            data@.len() >= MAGIC_LEN && format_of(magic_of(data@), spelling) is Unknown ==> (
            archive matches Err(ReadError::UnknownArchiveFormat(magic)) && magic@ == magic_of(
                data@,
            )),
    {
        let format = match read_format(data.as_slice(), spelling) {
            Ok(format) => format,
            Err(reason) => {
                return Err(reason);
            },
        };
        let format = match format {
            Format::Big4 => Known::Big4,
            Format::BigF => Known::BigF,
            Format::Unknown(magic) => {
                return Err(ReadError::UnknownArchiveFormat(magic));
            },
        };
        let header = match read_header(data.as_slice()) {
            Ok(header) => header,
            Err(reason) => {
                return Err(reason);
            },
        };
        let (index, table_end) = match read_table(data.as_slice(), header.entry_count) {
            Some(table) => table,
            None => {
                return Err(ReadError::Truncated);
            },
        };
        if (header.first_entry_offset as usize) < table_end {
            return Err(ReadError::StructuralInconsistency);
        }
        let junk_len = header.first_entry_offset - table_end as u32;
        Ok(BigArchive { format, total_size: header.total_size, junk_len, index, data })
    }

    /// The format that the magic announced.
    pub fn format(&self) -> (format: Format)
        ensures
            format@ == self@.format,
            !(format is Unknown),
    {
        match self.format {
            Known::Big4 => Format::Big4,
            Known::BigF => Format::BigF,
        }
    }

    /// The length that the header states of the archive. Nothing holds the
    /// archive's bytes to it.
    pub fn total_size(&self) -> (size: u32)
        ensures
            size == self@.total_size,
    {
        self.total_size
    }

    /// The number of bytes between the entry table and the first payload.
    pub fn junk_len(&self) -> (len: u32)
        ensures
            len == self@.junk_len,
    {
        self.junk_len
    }

    /// The number of entries that can be found by name.
    pub fn entry_count(&self) -> (count: usize)
        ensures
            self@.index.dom().finite(),
            count == self@.entry_count(),
    {
        self.index.len()
    }

    /// Whether an entry stands under `entry_name`.
    pub fn contains(&self, entry_name: &str) -> (found: bool)
        ensures
            found == self@.contains(entry_name@),
    {
        self.index.contains(entry_name)
    }

    /// The entry under `entry_name`, if there is one.
    pub fn get_entry(&self, entry_name: &str) -> (found: Option<&BigEntry>)
        ensures
            match self@.get_entry(entry_name@) {
                Some(entry) => found matches Some(held) && held@ == entry,
                None => found is None,
            },
    {
        self.index.get(entry_name)
    }

    /// Every entry name, each once, in no particular order.
    pub fn get_all_entry_names(&self) -> (names: Vec<&String>)
        ensures
            names@.len() == self@.entry_count(),
            forall|i: int| 0 <= i < names@.len() ==> self@.contains(#[trigger] names@[i]@),
            forall|i: int, j: int|
                0 <= i < j < names@.len() ==> (#[trigger] names@[i]@) != (#[trigger] names@[j]@),
            forall|name: Seq<char>|
                self@.contains(name) ==> exists|i: int|
                    0 <= i < names@.len() && (#[trigger] names@[i]@) == name,
    {
        self.index.names()
    }

    /// The entry under `entry_name`, to be written to. What the caller
    /// leaves in it is what is found under `entry_name` from then on; the
    /// rest of the archive stays as it is.
    pub fn get_entry_mut(&mut self, entry_name: &str) -> (found: Option<&mut BigEntry>)
        ensures
            match found {
                Some(held) => {
                    &&& old(self)@.get_entry(entry_name@) == Some(held@)
                    &&& final(self)@ == old(self)@.with_entry(entry_name@, final(held)@)
                },
                None => old(self)@.get_entry(entry_name@) is None && final(self)@ == old(self)@,
            },
    {
        self.index.get_mut(entry_name)
    }

    /// The entry names that contain `part`, each once, in no particular
    /// order.
    pub fn search(&self, part: &str) -> (found: Vec<&String>)
        ensures
            forall|i: int|
                0 <= i < found@.len() ==> self@.contains(#[trigger] found@[i]@) && occurs_in(
                    part@,
                    found@[i]@,
                ),
            forall|i: int, j: int|
                0 <= i < j < found@.len() ==> (#[trigger] found@[i]@) != (#[trigger] found@[j]@),
            forall|name: Seq<char>|
                self@.contains(name) && occurs_in(part@, name) ==> exists|i: int|
                    0 <= i < found@.len() && (#[trigger] found@[i]@) == name,
    {
        self.index.search(part)
    }

    /// The payload of the entry under `entry_name`, copied out of the
    /// archive's bytes. There is none where no entry has the name, and none
    /// where the bytes end before the payload does. The archive is left as it
    /// was, so the same name gives the same answer every time.
    pub fn read_entry(&self, entry_name: &str) -> (payload: Option<Vec<u8>>)
        ensures
            match self@.payload(entry_name@) {
                Some(bytes) => payload matches Some(read) && read@ == bytes,
                None => payload is None,
            },
            payload matches Some(read) ==> read@.len() == self@.index[entry_name@].data_len,
    {
        let entry = match self.index.get(entry_name) {
            Some(entry) => entry,
            None => {
                return None;
            },
        };
        let len = entry.data_len as usize;
        if len == 0 {
            return Some(Vec::new());
        }
        let offset = entry.offset as usize;
        let data = self.data.as_slice();
        if offset > data.len() || len > data.len() - offset {
            return None;
        }
        Some(slice_to_vec(slice_subrange(data, offset, offset + len)))
    }
}

} // verus!
