//! Lines: how they are terminated when written, and how a run of bytes is
//! cut back into lines when read.
//!
//! Reading cuts after every line feed. A line loses its line feed, and then
//! one carriage return if it ends in one. Bytes after the last line feed form
//! a last line of their own, which loses nothing.

use vstd::prelude::*;
use crate::bytes::{append_bytes, ByteView};
use crate::text::{decode, decoded_view, lemma_encoded_text_decodes, strict_text, InvalidUtf8};
use vstd::utf8::encode_utf8;

verus! {

/// The line feed byte.
pub const LF: u8 = 0x0A;

/// The carriage return byte.
pub const CR: u8 = 0x0D;

/// The terminator that line-writing puts after each line.
#[derive(Clone, Copy, Debug, PartialEq, Eq, Structural)]
pub enum LineEnding {
    /// A line feed alone.
    Lf,
    /// A carriage return and a line feed.
    CrLf,
}

impl LineEnding {
    /// The bytes of the terminator.
    pub open spec fn bytes(self) -> Seq<u8> {
        match self {
            LineEnding::Lf => seq![LF],
            LineEnding::CrLf => seq![CR, LF],
        }
    }

    /// The terminator in use on Windows (`true`) or anywhere else (`false`).
    pub fn for_platform(windows: bool) -> (r: LineEnding)
        ensures
            r == if windows { LineEnding::CrLf } else { LineEnding::Lf },
    {
        if windows {
            LineEnding::CrLf
        } else {
            LineEnding::Lf
        }
    }

    /// Appends the terminator to `out`.
    pub fn append_to(self, out: &mut Vec<u8>)
        ensures
            final(out)@ == old(out)@ + self.bytes(),
    {
        match self {
            LineEnding::Lf => {
                out.push(LF);
                assert(out@ =~= old(out)@ + self.bytes());
            },
            LineEnding::CrLf => {
                out.push(CR);
                out.push(LF);
                assert(out@ =~= old(out)@ + self.bytes());
            },
        }
    }
}

/// A line followed by its terminator.
pub open spec fn terminated(line: Seq<u8>, ending: LineEnding) -> Seq<u8> {
    line + ending.bytes()
}

/// The lines, each followed by the terminator, one after another.
pub open spec fn joined(lines: Seq<Seq<u8>>, ending: LineEnding) -> Seq<u8> {
    lines.map_values(|line: Seq<u8>| terminated(line, ending)).flatten()
}

/// The byte views of a run of values, in order.
pub open spec fn byte_views<C: ByteView>(lines: Seq<C>) -> Seq<Seq<u8>> {
    lines.map_values(|line: C| line.byte_view())
}

/// Joining one line more appends that line and its terminator.
pub proof fn lemma_joined_push(lines: Seq<Seq<u8>>, line: Seq<u8>, ending: LineEnding)
    ensures
        joined(lines.push(line), ending) == joined(lines, ending) + line + ending.bytes(),
{
    let close = |l: Seq<u8>| terminated(l, ending);
    assert(lines.push(line).map_values(close) =~= lines.map_values(close).push(close(line)));
    lines.map_values(close).lemma_flatten_push(close(line));
    assert(joined(lines, ending) + (line + ending.bytes()) =~= joined(lines, ending) + line
        + ending.bytes());
}

/// Writes the lines out one after another, each followed by the terminator.
pub fn join<C: ByteView>(lines: &[C], ending: LineEnding) -> (out: Vec<u8>)
    ensures
        out@ == joined(byte_views(lines@), ending),
{
    let mut out: Vec<u8> = Vec::new();
    let mut i: usize = 0;
    assert(byte_views(lines@.take(0)) =~= Seq::<Seq<u8>>::empty());
    while i < lines.len()
        invariant
            i <= lines.len(),
            out@ == joined(byte_views(lines@.take(i as int)), ending),
        decreases lines.len() - i,
    {
        proof {
            let done = byte_views(lines@.take(i as int));
            assert(lines@.take(i + 1) =~= lines@.take(i as int).push(lines@[i as int]));
            assert(byte_views(lines@.take(i + 1)) =~= done.push(lines@[i as int].byte_view()));
            lemma_joined_push(done, lines@[i as int].byte_view(), ending);
        }
        append_bytes(&mut out, lines[i].as_byte_slice());
        ending.append_to(&mut out);
        i += 1;
    }
    assert(lines@.take(lines.len() as int) =~= lines@);
    out
}

/// Where the first line of `bytes` stops: at its first line feed, or at the
/// end where it holds none.
pub open spec fn first_break(bytes: Seq<u8>) -> int {
    match bytes.index_of_first(LF) {
        Some(at) => at,
        None => bytes.len() as int,
    }
}

/// The first line of `bytes`, without its terminator.
pub open spec fn first_line(bytes: Seq<u8>) -> Seq<u8> {
    let stop = first_break(bytes);
    let raw = bytes.take(stop);
    if stop < bytes.len() && raw.len() > 0 && raw.last() == CR {
        raw.drop_last()
    } else {
        raw
    }
}

/// What follows the first line of `bytes` and its line feed.
pub open spec fn after_first_line(bytes: Seq<u8>) -> Seq<u8> {
    let stop = first_break(bytes);
    if stop < bytes.len() {
        bytes.skip(stop + 1)
    } else {
        Seq::empty()
    }
}

/// The lines of `bytes`, in order, each without its terminator.
pub open spec fn split_lines(bytes: Seq<u8>) -> Seq<Seq<u8>>
    decreases bytes.len(),
    via split_lines_shortens
{
    if bytes.len() == 0 {
        Seq::empty()
    } else {
        seq![first_line(bytes)] + split_lines(after_first_line(bytes))
    }
}

#[via_fn]
proof fn split_lines_shortens(bytes: Seq<u8>) {
    bytes.index_of_first_ensures(LF);
}

/// What reading makes of each line of `bytes`: its text, or the line's bytes
/// where they are not UTF-8.
pub open spec fn texts(bytes: Seq<u8>) -> Seq<Result<Seq<char>, Seq<u8>>> {
    split_lines(bytes).map_values(|line: Seq<u8>| strict_text(line))
}

/// The first line stops inside the bytes or at their end, and no line feed
/// comes before that.
pub proof fn lemma_first_break(bytes: Seq<u8>)
    ensures
        0 <= first_break(bytes) <= bytes.len(),
        forall|j: int| 0 <= j < first_break(bytes) ==> bytes[j] != LF,
        first_break(bytes) < bytes.len() ==> bytes[first_break(bytes)] == LF,
        first_break(bytes) < bytes.len() <==> bytes.contains(LF),
{
    bytes.index_of_first_ensures(LF);
}

/// A position that holds a line feed, with none before it, is where the
/// first line stops.
pub proof fn lemma_first_break_at(bytes: Seq<u8>, at: int)
    requires
        0 <= at <= bytes.len(),
        forall|j: int| 0 <= j < at ==> bytes[j] != LF,
        at < bytes.len() ==> bytes[at] == LF,
    ensures
        first_break(bytes) == at,
{
    lemma_first_break(bytes);
    let stop = first_break(bytes);
    if stop < at {
        assert(bytes[stop] == LF);
    } else if at < stop {
        assert(bytes[at] == LF);
    }
}

/// Whether a line comes back from reading as it was written: it holds no
/// line feed and, where the terminator is a bare line feed, does not end in a
/// carriage return.
pub open spec fn survives(line: Seq<u8>, ending: LineEnding) -> bool {
    &&& forall|j: int| 0 <= j < line.len() ==> line[j] != LF
    &&& ending == LineEnding::Lf ==> line.len() == 0 || line.last() != CR
}

/// Joined lines start with the first line and its terminator; the other
/// lines, joined, follow.
pub proof fn lemma_joined_first(lines: Seq<Seq<u8>>, ending: LineEnding)
    requires
        lines.len() > 0,
    ensures
        joined(lines, ending) == lines[0] + ending.bytes() + joined(lines.drop_first(), ending),
{
    let close = |l: Seq<u8>| terminated(l, ending);
    assert(lines.map_values(close).drop_first() =~= lines.drop_first().map_values(close));
}

/// Writing lines and reading them back gives the same lines, as long as each
/// of them survives.
pub proof fn lemma_split_joined(lines: Seq<Seq<u8>>, ending: LineEnding)
    requires
        forall|i: int| 0 <= i < lines.len() ==> survives(#[trigger] lines[i], ending),
    ensures
        split_lines(joined(lines, ending)) == lines,
    decreases lines.len(),
{
    let all = joined(lines, ending);
    if lines.len() == 0 {
        assert(all =~= Seq::<u8>::empty());
        assert(split_lines(all) =~= lines);
    } else {
        let first = lines[0];
        let rest = lines.drop_first();
        let later = joined(rest, ending);
        lemma_joined_first(lines, ending);
        assert(survives(first, ending));
        let stop = first.len() + ending.bytes().len() - 1;
        assert(all.len() == first.len() + ending.bytes().len() + later.len());
        assert(all[stop] == LF);
        assert forall|j: int| 0 <= j < stop implies all[j] != LF by {
            if j < first.len() {
                assert(all[j] == first[j]);
            } else {
                assert(all[j] == CR);
            }
        }
        lemma_first_break_at(all, stop);
        assert(first_line(all) =~= first) by {
            let raw = all.take(stop);
            if ending == LineEnding::Lf {
                assert(raw =~= first);
            } else {
                assert(raw =~= first.push(CR));
                assert(raw.drop_last() =~= first);
            }
        }
        assert(after_first_line(all) =~= later);
        assert forall|i: int| 0 <= i < rest.len() implies survives(#[trigger] rest[i], ending) by {
            assert(rest[i] == lines[i + 1]);
        }
        lemma_split_joined(rest, ending);
        assert(split_lines(all) =~= lines);
    }
}

/// Lines of text that are written and read back come out as the same text,
/// as long as the encoding of each of them survives.
pub proof fn lemma_text_lines_read_back(lines: Seq<Seq<char>>, ending: LineEnding)
    requires
        forall|i: int| 0 <= i < lines.len() ==> survives(encode_utf8(#[trigger] lines[i]), ending),
    ensures
        texts(joined(lines.map_values(|line: Seq<char>| encode_utf8(line)), ending))
            == lines.map_values(|line: Seq<char>| Ok::<Seq<char>, Seq<u8>>(line)),
{
    let encoded = lines.map_values(|line: Seq<char>| encode_utf8(line));
    assert forall|i: int| 0 <= i < encoded.len() implies survives(#[trigger] encoded[i], ending) by {
        assert(encoded[i] == encode_utf8(lines[i]));
    }
    lemma_split_joined(encoded, ending);
    assert forall|i: int| 0 <= i < lines.len() implies strict_text(#[trigger] encoded[i]) == Ok::<
        Seq<char>,
        Seq<u8>,
    >(lines[i]) by {
        lemma_encoded_text_decodes(lines[i]);
    }
    assert(texts(joined(encoded, ending)) =~= lines.map_values(
        |line: Seq<char>| Ok::<Seq<char>, Seq<u8>>(line),
    ));
}

/// A complete line is settled: input that arrives behind it changes neither
/// the line nor where the next one starts.
pub proof fn lemma_line_settled(fed: Seq<u8>, more: Seq<u8>)
    requires
        fed.contains(LF),
    ensures
        first_line(fed + more) == first_line(fed),
        after_first_line(fed + more) == after_first_line(fed) + more,
{
    lemma_first_break(fed);
    let stop = first_break(fed);
    let all = fed + more;
    assert forall|j: int| 0 <= j < stop implies all[j] != LF by {
        assert(all[j] == fed[j]);
    }
    assert(all[stop] == fed[stop]);
    lemma_first_break_at(all, stop);
    assert(all.take(stop) =~= fed.take(stop));
    assert(all.skip(stop + 1) =~= fed.skip(stop + 1) + more);
}

/// A forward-only reader of lines. Bytes are fed in at one end, in chunks of
/// any size, and lines are taken out at the other, each decoded on its own: a
/// line that is not UTF-8 is handed out as an error and the next call goes on
/// with the line after it.
pub struct Lines {
    buf: Vec<u8>,
    start: usize,
    clean: usize,
}

impl Lines {
    /// What has been taken out lies before `start`; the `clean` bytes from
    /// there on have been searched and hold no line feed.
    #[verifier::type_invariant]
    spec fn well_formed(self) -> bool {
        &&& self.start + self.clean <= self.buf@.len()
        &&& forall|j: int| self.start <= j < self.start + self.clean ==> self.buf@[j] != LF
    }

    /// The bytes fed so far that no line has been made of yet.
    pub closed spec fn pending(&self) -> Seq<u8> {
        self.buf@.skip(self.start as int)
    }

    /// A reader with nothing to read yet.
    pub fn new() -> (r: Lines)
        ensures
            r.pending() == Seq::<u8>::empty(),
    {
        let r = Lines { buf: Vec::new(), start: 0, clean: 0 };
        assert(r.pending() =~= Seq::<u8>::empty());
        r
    }

    /// A reader over the given bytes.
    pub fn over(bytes: Vec<u8>) -> (r: Lines)
        ensures
            r.pending() == bytes@,
    {
        let r = Lines { buf: bytes, start: 0, clean: 0 };
        assert(r.pending() =~= bytes@);
        r
    }

    /// Whether nothing is left to make a line of.
    pub fn is_empty(&self) -> (r: bool)
        ensures
            r == (self.pending().len() == 0),
    {
        proof {
            use_type_invariant(self);
        }
        self.start == self.buf.len()
    }

    /// Adds a chunk of input behind what is pending.
    pub fn feed(self, chunk: &[u8]) -> (r: Lines)
        ensures
            r.pending() == self.pending() + chunk@,
    {
        proof {
            use_type_invariant(&self);
        }
        let ghost pending = self.pending();
        let Lines { buf, start, clean } = self;
        let len: usize = buf.len();
        if start < len - start {
            // Most of the buffer is still pending: keep it where it is.
            let mut buf = buf;
            append_bytes(&mut buf, chunk);
            let r = Lines { buf, start, clean };
            assert(r.pending() =~= pending + chunk@);
            r
        } else {
            // Most of the buffer has been handed out: start a fresh one.
            let mut fresh: Vec<u8> = Vec::new();
            let mut i: usize = start;
            while i < len
                invariant
                    start <= i <= len,
                    len == buf@.len(),
                    fresh@ == buf@.subrange(start as int, i as int),
                decreases len - i,
            {
                fresh.push(buf[i]);
                assert(fresh@ =~= buf@.subrange(start as int, i + 1));
                i += 1;
            }
            assert(fresh@ =~= pending);
            append_bytes(&mut fresh, chunk);
            let r = Lines { buf: fresh, start: 0, clean };
            assert(r.pending() =~= pending + chunk@);
            r
        }
    }

    /// Takes the first pending line out, if it is complete: `None` says that
    /// more input is needed before the next line can be told.
    pub fn next_line(&mut self) -> (r: Option<Result<String, InvalidUtf8>>)
        ensures
            match r {
                Some(line) => {
                    &&& old(self).pending().contains(LF)
                    &&& decoded_view(line) == strict_text(first_line(old(self).pending()))
                    &&& final(self).pending() == after_first_line(old(self).pending())
                },
                None => {
                    &&& !old(self).pending().contains(LF)
                    &&& final(self).pending() == old(self).pending()
                },
            },
    {
        self.take_line(false)
    }

    /// Takes the first pending line out, given that no more input will come:
    /// what is left after the last line feed counts as a line. `None` says
    /// that every line has been taken.
    pub fn next_line_at_end(&mut self) -> (r: Option<Result<String, InvalidUtf8>>)
        ensures
            match r {
                Some(line) => {
                    &&& old(self).pending().len() > 0
                    &&& decoded_view(line) == strict_text(first_line(old(self).pending()))
                    &&& final(self).pending() == after_first_line(old(self).pending())
                },
                None => {
                    &&& old(self).pending().len() == 0
                    &&& final(self).pending() == old(self).pending()
                },
            },
    {
        self.take_line(true)
    }

    /// Takes out every line that is left, given that no more input will
    /// come.
    pub fn rest(&mut self) -> (r: Vec<Result<String, InvalidUtf8>>)
        ensures
            r@.map_values(|line: Result<String, InvalidUtf8>| decoded_view(line)) == texts(
                old(self).pending(),
            ),
            final(self).pending().len() == 0,
    {
        let ghost view = |line: Result<String, InvalidUtf8>| decoded_view(line);
        let ghost text = |line: Seq<u8>| strict_text(line);
        let mut out: Vec<Result<String, InvalidUtf8>> = Vec::new();
        assert(out@.map_values(view) + texts(self.pending()) =~= texts(old(self).pending()));
        loop
            invariant
                view == |line: Result<String, InvalidUtf8>| decoded_view(line),
                text == |line: Seq<u8>| strict_text(line),
                out@.map_values(view) + texts(self.pending()) == texts(old(self).pending()),
            ensures
                out@.map_values(view) == texts(old(self).pending()),
                self.pending().len() == 0,
            decreases self.pending().len(),
        {
            let ghost before = self.pending();
            let ghost done = out@.map_values(view);
            proof {
                lemma_first_break(before);
            }
            match self.next_line_at_end() {
                Some(line) => {
                    out.push(line);
                    proof {
                        let lines = split_lines(before);
                        let later = split_lines(self.pending());
                        assert(lines.map_values(text) =~= seq![strict_text(first_line(before))]
                            + later.map_values(text));
                        assert(out@.map_values(view) =~= done.push(decoded_view(line)));
                        assert(out@.map_values(view) + texts(self.pending()) =~= done + texts(
                            before,
                        ));
                    }
                },
                None => {
                    assert(texts(before) =~= Seq::empty());
                    assert(done + texts(before) =~= done);
                    break ;
                },
            }
        }
        out
    }

    fn take_line(&mut self, at_end: bool) -> (r: Option<Result<String, InvalidUtf8>>)
        ensures
            match r {
                Some(line) => {
                    &&& old(self).pending().contains(LF) || (at_end && old(self).pending().len() > 0)
                    &&& decoded_view(line) == strict_text(first_line(old(self).pending()))
                    &&& final(self).pending() == after_first_line(old(self).pending())
                },
                None => {
                    &&& !old(self).pending().contains(LF)
                    &&& at_end ==> old(self).pending().len() == 0
                    &&& final(self).pending() == old(self).pending()
                },
            },
    {
        proof {
            use_type_invariant(&*self);
        }
        let ghost pending = self.pending();
        let start: usize = self.start;
        let len: usize = self.buf.len();
        let mut at: usize = start + self.clean;
        while at < len && self.buf[at] != LF
            invariant
                len == self.buf@.len(),
                start <= at <= len,
                forall|j: int| start <= j < at ==> self.buf@[j] != LF,
            decreases len - at,
        {
            at += 1;
        }
        proof {
            assert forall|j: int| 0 <= j < at - start implies pending[j] != LF by {
                assert(pending[j] == self.buf@[start + j]);
            }
            lemma_first_break_at(pending, at - start);
            lemma_first_break(pending);
        }
        if at == len && (!at_end || start == len) {
            self.clean = at - start;
            return None;
        }
        let stop: usize = if at < len && at > start && self.buf[at - 1] == CR {
            at - 1
        } else {
            at
        };
        let mut line: Vec<u8> = Vec::new();
        let mut i: usize = start;
        while i < stop
            invariant
                start <= i <= stop <= self.buf@.len(),
                line@ == self.buf@.subrange(start as int, i as int),
            decreases stop - i,
        {
            line.push(self.buf[i]);
            assert(line@ =~= self.buf@.subrange(start as int, i + 1));
            i += 1;
        }
        assert(line@ =~= first_line(pending));
        self.clean = 0;
        self.start = if at < len { at + 1 } else { len };
        assert(self.pending() =~= after_first_line(pending));
        Some(decode(line))
    }
}

} // verus!
