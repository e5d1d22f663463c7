//! Unpacking an archive into a directory, one entry at a time.
//!
//! The caller walks the entry names, joins each to the output directory, and
//! asks here what to do at the resulting path; creating directories and
//! writing files is the caller's part.
//!
//! Names are taken as they are. A name with `..` in it, or one that starts
//! at the root, leads out of the output directory: who unpacks an archive
//! that is not trusted has to look at the names first.

use crate::archive::{ArchiveView, BigArchive};
use vstd::prelude::*;

verus! {

/// What to do at the path that an entry is unpacked to.
#[derive(Debug, PartialEq, Eq)]
pub enum ExtractAction {
    /// The path has no parent directory. Unpacking stops here with an error;
    /// what was written before stays.
    InvalidPath,
    /// Create the path's parent directories where they are missing, then
    /// write these bytes to a new file at the path, in place of any file
    /// that is there.
    Write(Vec<u8>),
    /// Create the path's parent directories where they are missing. The
    /// entry's payload cannot be read, so no file is written.
    CreateDirectories,
}

/// An `ExtractAction` as a mathematical value.
pub enum ExtractActionView {
    InvalidPath,
    Write(Seq<u8>),
    CreateDirectories,
}

impl View for ExtractAction {
    type V = ExtractActionView;

    open spec fn view(&self) -> ExtractActionView {
        match self {
            ExtractAction::InvalidPath => ExtractActionView::InvalidPath,
            ExtractAction::Write(bytes) => ExtractActionView::Write(bytes@),
            ExtractAction::CreateDirectories => ExtractActionView::CreateDirectories,
        }
    }
}

impl ArchiveView {
    /// What to do for the entry under `name` at a path that has a parent
    /// directory or has none.
    pub open spec fn extract_action(self, name: Seq<char>, has_parent: bool) -> ExtractActionView {
        if !has_parent {
            ExtractActionView::InvalidPath
        } else {
            match self.payload(name) {
                Some(bytes) => ExtractActionView::Write(bytes),
                None => ExtractActionView::CreateDirectories,
            }
        }
    }
}

impl BigArchive {
    /// What to do for the entry under `entry_name` at the path it is
    /// unpacked to; `has_parent` says whether that path has a parent
    /// directory. A path without one is an error whatever the entry holds.
    pub fn extract_action(&self, entry_name: &str, has_parent: bool) -> (action: ExtractAction)
        ensures
            action@ == self@.extract_action(entry_name@, has_parent),
    {
        if !has_parent {
            return ExtractAction::InvalidPath;
        }
        match self.read_entry(entry_name) {
            Some(bytes) => ExtractAction::Write(bytes),
            None => ExtractAction::CreateDirectories,
        }
    }
}

} // verus!
