//! One-call helpers for working with files and directories, written so that
//! every decision they take is stated in a contract and proved.
//!
//! The library never touches the disk itself. Each helper either describes
//! the operation to carry out (which bytes to write, in which open mode), or
//! interprets what an operation handed back (the bytes of a file, the entries
//! of a directory, the outcome of a metadata probe).

pub mod bytes;
pub mod directory;
pub mod entry;
pub mod file;
pub mod line;
pub mod mode;
pub mod path;
pub mod text;
