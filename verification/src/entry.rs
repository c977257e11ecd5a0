//! File entries and the metadata they are built from.

use vstd::prelude::*;

verus! {

/// One regular file found by a scan.
#[derive(Clone, Debug)]
pub struct FileEntry {
    /// Path of the file, built from the scan root and the names below it.
    pub path: String,
    /// Size in bytes; zero where the metadata could not be read.
    pub size: u64,
    /// Whole seconds since the Unix epoch; zero where unknown.
    pub mtime_s: u64,
}

/// A file entry with its path as a sequence of characters.
pub struct FileEntryView {
    pub path: Seq<char>,
    pub size: u64,
    pub mtime_s: u64,
}

impl View for FileEntry {
    type V = FileEntryView;

    open spec fn view(&self) -> FileEntryView {
        FileEntryView { path: self.path@, size: self.size, mtime_s: self.mtime_s }
    }
}

/// What a directory listing says an entry is. A symbolic link is reported as
/// such and never as what it points to.
#[derive(Clone, Copy, Debug, PartialEq, Eq, Structural)]
pub enum EntryKind {
    File,
    Dir,
    Symlink,
    Other,
}

/// When a file was last modified, as far as the platform could tell.
#[derive(Clone, Copy, Debug, PartialEq, Eq, Structural)]
pub enum ModifiedTime {
    /// The platform gave no modification time.
    Unknown,
    /// The modification time lies before the Unix epoch.
    BeforeEpoch,
    /// The modification time lies this many whole seconds after the epoch.
    SinceEpoch { secs: u64 },
}

/// The metadata of a file that a scan reads.
#[derive(Clone, Copy, Debug, PartialEq, Eq, Structural)]
pub struct FileStat {
    pub size: u64,
    pub modified: ModifiedTime,
}

/// The modification time in whole seconds since the epoch, zero where it is
/// unknown or lies before the epoch.
pub open spec fn mtime_seconds(modified: ModifiedTime) -> u64 {
    match modified {
        ModifiedTime::SinceEpoch { secs } => secs,
        _ => 0,
    }
}

/// The entry reported for a file at `path` whose metadata read gave `stat`.
pub open spec fn entry_for(path: Seq<char>, stat: Option<FileStat>) -> FileEntryView {
    match stat {
        Some(s) => FileEntryView { path, size: s.size, mtime_s: mtime_seconds(s.modified) },
        None => FileEntryView { path, size: 0, mtime_s: 0 },
    }
}

impl ModifiedTime {
    /// Whole seconds since the epoch, zero where unknown.
    pub fn seconds(&self) -> (secs: u64)
        ensures
            secs == mtime_seconds(*self),
    {
        match self {
            ModifiedTime::SinceEpoch { secs } => *secs,
            _ => 0,
        }
    }
}

/// Builds the entry for a regular file. A failed metadata read (`None`) does
/// not drop the file: it is reported with size and time zero.
pub fn file_entry(path: String, stat: Option<FileStat>) -> (entry: FileEntry)
    ensures
        entry@ == entry_for(path@, stat),
{
    match stat {
        Some(s) => FileEntry { path, size: s.size, mtime_s: s.modified.seconds() },
        None => FileEntry { path, size: 0, mtime_s: 0 },
    }
}

} // verus!
