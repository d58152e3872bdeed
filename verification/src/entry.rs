//! What a path turns out to be when the file system is asked about it.

use vstd::prelude::*;

verus! {

/// The type of a file-system object, as reported by a metadata probe or by a
/// directory listing.
#[derive(Clone, Copy, Debug, PartialEq, Eq, Structural)]
pub enum EntryKind {
    /// A regular file.
    File,
    /// A directory.
    Directory,
    /// A symbolic link that was not followed.
    Symlink,
    /// Anything else: a socket, a device, a pipe.
    Other,
}

impl EntryKind {
    /// Whether this is a regular file.
    pub fn is_file(&self) -> (r: bool)
        ensures
            r == (*self == EntryKind::File),
    {
        match self {
            EntryKind::File => true,
            _ => false,
        }
    }

    /// Whether this is a directory.
    pub fn is_dir(&self) -> (r: bool)
        ensures
            r == (*self == EntryKind::Directory),
    {
        match self {
            EntryKind::Directory => true,
            _ => false,
        }
    }
}

/// One entry of a directory listing: where it is, and what asking for its
/// type gave. `P` is the caller's path type and `E` its error type; the
/// library moves both through untouched.
#[derive(Debug, PartialEq, Eq)]
pub struct Entry<P, E> {
    /// The path of the entry.
    pub path: P,
    /// The type of the entry, or the error that asking for it raised.
    pub kind: Result<EntryKind, E>,
}

} // verus!
