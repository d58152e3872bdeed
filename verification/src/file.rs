//! File helpers: what to write and in which mode, what to make of the bytes
//! that were read, whether a path is a file, and what its extension is.

use vstd::prelude::*;
use crate::bytes::{append_bytes, ByteView};
use crate::entry::EntryKind;
use crate::line::{byte_views, join, joined, LineEnding, Lines};
use crate::mode::{held_bytes, OpenMode};
use crate::path::{extension, file_name, name_has_extension};
use crate::text::{decode, decode_lossy, lemma_encoded_text_decodes, lossy_text, strict_text, TextError};
use vstd::utf8::{decode_utf8, encode_utf8, valid_utf8};

verus! {

/// One write to one file: the mode to open the file in, and the bytes to
/// write to it in full before closing it.
#[derive(Debug, PartialEq, Eq)]
pub struct WritePlan {
    /// How to open the file.
    pub mode: OpenMode,
    /// What to write.
    pub data: Vec<u8>,
}

impl WritePlan {
    /// What the file holds once the plan has been carried out on a path that
    /// held `existing`; `None` where it cannot be carried out.
    pub open spec fn outcome(self, existing: Option<Seq<u8>>) -> Option<Seq<u8>> {
        self.mode.written(existing, self.data@)
    }
}

/// Plans to make `contents` the whole of a file: the file is created where
/// there is none, and emptied first where there is one.
pub fn write<C: ByteView>(contents: C) -> (plan: WritePlan)
    ensures
        plan.mode == OpenMode::replacing(),
        plan.data@ == contents.byte_view(),
        forall|existing: Option<Seq<u8>>| #[trigger]
            plan.outcome(existing) == Some(contents.byte_view()),
{
    let mut data: Vec<u8> = Vec::new();
    append_bytes(&mut data, contents.as_byte_slice());
    assert(data@ =~= contents.byte_view());
    WritePlan { mode: OpenMode::replacing(), data }
}

/// Plans to make the given lines the whole of a file, each followed by the
/// line terminator.
pub fn write_lines<C: ByteView>(lines: &[C], ending: LineEnding) -> (plan: WritePlan)
    ensures
        plan.mode == OpenMode::replacing(),
        plan.data@ == joined(byte_views(lines@), ending),
        forall|existing: Option<Seq<u8>>| #[trigger]
            plan.outcome(existing) == Some(joined(byte_views(lines@), ending)),
{
    WritePlan { mode: OpenMode::replacing(), data: join(lines, ending) }
}

/// Plans to add `contents` behind what a file holds: the file is created
/// where there is none, and what it holds stays.
pub fn append<C: ByteView>(contents: C) -> (plan: WritePlan)
    ensures
        plan.mode == OpenMode::appending(),
        plan.data@ == contents.byte_view(),
        forall|existing: Option<Seq<u8>>| #[trigger]
            plan.outcome(existing) == Some(held_bytes(existing) + contents.byte_view()),
{
    let mut data: Vec<u8> = Vec::new();
    append_bytes(&mut data, contents.as_byte_slice());
    assert(data@ =~= contents.byte_view());
    WritePlan { mode: OpenMode::appending(), data }
}

/// Plans to add `contents` and one line terminator behind what a file holds.
pub fn append_line<C: ByteView>(contents: C, ending: LineEnding) -> (plan: WritePlan)
    ensures
        plan.mode == OpenMode::appending(),
        plan.data@ == contents.byte_view() + ending.bytes(),
        forall|existing: Option<Seq<u8>>| #[trigger]
            plan.outcome(existing) == Some(
                held_bytes(existing) + contents.byte_view() + ending.bytes(),
            ),
{
    let mut data: Vec<u8> = Vec::new();
    append_bytes(&mut data, contents.as_byte_slice());
    ending.append_to(&mut data);
    assert(data@ =~= contents.byte_view() + ending.bytes());
    let plan = WritePlan { mode: OpenMode::appending(), data };
    assert forall|existing: Option<Seq<u8>>| #[trigger]
        plan.outcome(existing) == Some(
            held_bytes(existing) + contents.byte_view() + ending.bytes(),
        ) by {
        assert(held_bytes(existing) + (contents.byte_view() + ending.bytes()) =~= held_bytes(
            existing,
        ) + contents.byte_view() + ending.bytes());
    }
    plan
}

/// Text written as the whole of a file reads back, strictly decoded, as the
/// same text.
pub proof fn lemma_written_text_reads_back(existing: Option<Seq<u8>>, text: Seq<char>)
    ensures
        OpenMode::reading().read_back(OpenMode::replacing().written(existing, encode_utf8(text)))
            == Some(encode_utf8(text)),
        strict_text(encode_utf8(text)) == Ok::<Seq<char>, Seq<u8>>(text),
{
    lemma_encoded_text_decodes(text);
}

/// What a strict text read returned, with text and bytes as sequences.
pub open spec fn text_view<E>(r: Result<String, TextError<E>>) -> Result<
    Seq<char>,
    Result<E, Seq<u8>>,
> {
    match r {
        Ok(text) => Ok(text@),
        Err(TextError::Io(e)) => Err(Ok(e)),
        Err(TextError::Decode(e)) => Err(Err(e.bytes@)),
    }
}

/// Makes text of what reading a file gave. A read that failed stays the
/// failure it was; bytes that are not UTF-8 become a decode error that holds
/// them; anything else is the text that the bytes encode.
pub fn read_string_utf8<E>(read: Result<Vec<u8>, E>) -> (r: Result<String, TextError<E>>)
    ensures
        text_view(r) == match read {
            Err(e) => Err::<Seq<char>, Result<E, Seq<u8>>>(Ok(e)),
            Ok(bytes) => match strict_text(bytes@) {
                Ok(text) => Ok(text),
                Err(rejected) => Err(Err(rejected)),
            },
        },
{
    match read {
        Ok(bytes) => match decode(bytes) {
            Ok(text) => Ok(text),
            Err(e) => Err(TextError::Decode(e)),
        },
        Err(e) => Err(TextError::Io(e)),
    }
}

/// Makes text of what reading a file gave, whatever the bytes are: what is
/// not UTF-8 is replaced, never refused. Only a read that failed is an error.
pub fn read_string_utf8_lossy<E>(read: Result<Vec<u8>, E>) -> (r: Result<String, E>)
    ensures
        match read {
            Err(e) => r == Err::<String, E>(e),
            Ok(bytes) => {
                &&& r is Ok
                &&& r->Ok_0@ == lossy_text(bytes@)
                &&& valid_utf8(bytes@) ==> r->Ok_0@ == decode_utf8(bytes@)
            },
        },
{
    match read {
        Ok(bytes) => Ok(decode_lossy(bytes.as_slice())),
        Err(e) => Err(e),
    }
}

/// Makes a line reader of what reading a file gave. A read that failed stays
/// the failure it was.
pub fn read_lines<E>(read: Result<Vec<u8>, E>) -> (r: Result<Lines, E>)
    ensures
        match read {
            Err(e) => r == Err::<Lines, E>(e),
            Ok(bytes) => r is Ok && r->Ok_0.pending() == bytes@,
        },
{
    match read {
        Ok(bytes) => Ok(Lines::over(bytes)),
        Err(e) => Err(e),
    }
}

/// True exactly when the probe found a regular file. A probe that failed,
/// for whatever reason, counts as "not there".
pub fn is_present<E>(probe: &Result<EntryKind, E>) -> (r: bool)
    ensures
        r == (*probe == Ok::<EntryKind, E>(EntryKind::File)),
{
    match probe {
        Ok(kind) => kind.is_file(),
        Err(_) => false,
    }
}

/// Whether the file that `path` leads to has the extension `ext`, compared
/// character by character. A path without an extension has none to match.
pub fn has_extension(path: &str, ext: &str) -> (r: bool)
    ensures
        r == (extension(path@) == Some(ext@)),
{
    match file_name(path) {
        Some(name) => name_has_extension(name.as_str(), ext),
        None => false,
    }
}

} // verus!
