//! How a file is opened, and what opening and writing do to its contents.
//!
//! A file is modelled as what a path holds: nothing (`None`) or a run of
//! bytes. The model follows what `std::fs::OpenOptions` documents for its
//! flags, for a handle that is opened, written to once and closed.

use vstd::prelude::*;

verus! {

/// The flags a file is opened with.
#[derive(Clone, Copy, Debug, PartialEq, Eq, Structural)]
pub struct OpenMode {
    /// Open for reading.
    pub read: bool,
    /// Open for writing; writes start at the beginning of the file.
    pub write: bool,
    /// Open for writing; every write goes to the end of the file.
    pub append: bool,
    /// Empty the file on opening it.
    pub truncate: bool,
    /// Create the file where there is none.
    pub create: bool,
}

impl OpenMode {
    /// Read-only access to a file that must be there.
    pub open spec fn spec_reading() -> OpenMode {
        OpenMode { read: true, write: false, append: false, truncate: false, create: false }
    }

    /// Write access that starts from an empty file, creating it if need be.
    pub open spec fn spec_replacing() -> OpenMode {
        OpenMode { read: false, write: true, append: false, truncate: true, create: true }
    }

    /// Write access that adds to the end of the file, creating it if need be.
    pub open spec fn spec_appending() -> OpenMode {
        OpenMode { read: false, write: true, append: true, truncate: false, create: true }
    }

    /// Read-only access to a file that must be there.
    #[verifier::when_used_as_spec(spec_reading)]
    pub fn reading() -> (r: OpenMode)
        ensures
            r == Self::spec_reading(),
    {
        OpenMode { read: true, write: false, append: false, truncate: false, create: false }
    }

    /// Write access that starts from an empty file, creating it if need be.
    #[verifier::when_used_as_spec(spec_replacing)]
    pub fn replacing() -> (r: OpenMode)
        ensures
            r == Self::spec_replacing(),
    {
        OpenMode { read: false, write: true, append: false, truncate: true, create: true }
    }

    /// Write access that adds to the end of the file, creating it if need be.
    #[verifier::when_used_as_spec(spec_appending)]
    pub fn appending() -> (r: OpenMode)
        ensures
            r == Self::spec_appending(),
    {
        OpenMode { read: false, write: true, append: true, truncate: false, create: true }
    }

    /// Whether the handle can be written to.
    pub open spec fn writes(self) -> bool {
        self.write || self.append
    }

    /// Whether the flags go together: some access is asked for, truncating
    /// comes with plain write access only, and creating with write access.
    #[verifier::when_used_as_spec(spec_is_valid)]
    pub fn is_valid(&self) -> (r: bool)
        ensures
            r == self.spec_is_valid(),
    {
        (self.read || self.write || self.append) && (!self.truncate || (self.write
            && !self.append)) && (!self.create || self.write || self.append)
    }

    /// Whether the flags go together.
    pub open spec fn spec_is_valid(&self) -> bool {
        &&& self.read || self.writes()
        &&& self.truncate ==> self.write && !self.append
        &&& self.create ==> self.writes()
    }

    /// What the file holds once it has been opened: `None` where opening
    /// fails, because the flags do not go together or because there is no
    /// file and none is to be created.
    pub open spec fn opened(self, existing: Option<Seq<u8>>) -> Option<Seq<u8>> {
        if !self.spec_is_valid() {
            None
        } else {
            match existing {
                None => if self.create {
                    Some(Seq::empty())
                } else {
                    None
                },
                Some(held) => if self.truncate {
                    Some(Seq::empty())
                } else {
                    Some(held)
                },
            }
        }
    }

    /// What reading the whole file through a fresh handle gives.
    pub open spec fn read_back(self, existing: Option<Seq<u8>>) -> Option<Seq<u8>> {
        if self.read {
            self.opened(existing)
        } else {
            None
        }
    }

    /// What the file holds once it has been opened and `data` written to it
    /// in full: `None` where opening fails or the handle cannot be written to.
    pub open spec fn written(self, existing: Option<Seq<u8>>, data: Seq<u8>) -> Option<Seq<u8>> {
        match self.opened(existing) {
            None => None,
            Some(held) => if self.append {
                Some(held + data)
            } else if self.write {
                if data.len() < held.len() {
                    Some(data + held.skip(data.len() as int))
                } else {
                    Some(data)
                }
            } else {
                None
            },
        }
    }
}

/// What a path holds, read as bytes: nothing counts as empty.
pub open spec fn held_bytes(existing: Option<Seq<u8>>) -> Seq<u8> {
    match existing {
        Some(held) => held,
        None => Seq::empty(),
    }
}

/// Replacing a file's contents leaves exactly what was written, whatever the
/// path held before, and reading the file then gives that back.
pub proof fn lemma_replace_then_read(existing: Option<Seq<u8>>, data: Seq<u8>)
    ensures
        OpenMode::replacing().written(existing, data) == Some(data),
        OpenMode::reading().read_back(OpenMode::replacing().written(existing, data)) == Some(data),
{
}

/// Appending adds to what the path held, and appending twice adds both
/// pieces in the order they were written.
pub proof fn lemma_append_twice(existing: Option<Seq<u8>>, first: Seq<u8>, second: Seq<u8>)
    ensures
        OpenMode::appending().written(existing, first) == Some(held_bytes(existing) + first),
        OpenMode::appending().written(OpenMode::appending().written(existing, first), second)
            == Some(held_bytes(existing) + first + second),
{
    assert(Seq::<u8>::empty() + first =~= first);
}

/// A file that is not there cannot be read.
pub proof fn lemma_read_needs_file()
    ensures
        OpenMode::reading().read_back(None) == None::<Seq<u8>>,
{
}

} // verus!
