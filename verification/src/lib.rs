//! Reader for BIG archives: a header, a table of named entries, and the
//! entries' payloads, all in one run of bytes.
//!
//! [`BigArchive::new`] decodes the bytes of an archive. The archive then
//! answers by name: whether an entry is there, where its payload lies, and
//! what the payload is. Every multi-byte number in the format is big-endian.
//!
//! The modules, from the bytes up:
//! - [`wire`]: the big-endian integer and the decoding of names;
//! - [`format`]: the magic and the format it announces;
//! - [`table`]: the header, the entry records and the table they form;
//! - [`index`]: the entries by name;
//! - [`archive`]: decoding, lookup and payloads;
//! - [`extract`]: what unpacking does for an entry;
//! - [`laws`]: what holds of every index and every decoded archive.

pub mod archive;
pub mod entry;
pub mod errors;
pub mod extract;
pub mod format;
pub mod index;
pub mod laws;
pub mod table;
pub mod wire;

pub use archive::BigArchive;
pub use entry::BigEntry;
pub use format::Format;
