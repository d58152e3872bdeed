//! Anything that can be written to a file: byte buffers and text alike.

use vstd::prelude::*;
use vstd::utf8::encode_utf8;

verus! {

/// A value that can be looked at as a run of bytes. Text is seen as its
/// UTF-8 encoding.
pub trait ByteView {
    /// The bytes that the value stands for.
    spec fn byte_view(&self) -> Seq<u8>;

    /// The value's bytes, borrowed.
    fn as_byte_slice(&self) -> (r: &[u8])
        ensures
            r@ == self.byte_view(),
    ;
}

impl ByteView for [u8] {
    open spec fn byte_view(&self) -> Seq<u8> {
        self@
    }

    fn as_byte_slice(&self) -> (r: &[u8]) {
        self
    }
}

impl<const N: usize> ByteView for [u8; N] {
    open spec fn byte_view(&self) -> Seq<u8> {
        self@
    }

    fn as_byte_slice(&self) -> (r: &[u8]) {
        self.as_slice()
    }
}

impl ByteView for Vec<u8> {
    open spec fn byte_view(&self) -> Seq<u8> {
        self@
    }

    fn as_byte_slice(&self) -> (r: &[u8]) {
        self.as_slice()
    }
}

impl ByteView for str {
    open spec fn byte_view(&self) -> Seq<u8> {
        encode_utf8(self@)
    }

    fn as_byte_slice(&self) -> (r: &[u8]) {
        self.as_bytes()
    }
}

impl ByteView for String {
    open spec fn byte_view(&self) -> Seq<u8> {
        encode_utf8(self@)
    }

    fn as_byte_slice(&self) -> (r: &[u8]) {
        self.as_str().as_bytes()
    }
}

impl<'a, T: ByteView + ?Sized> ByteView for &'a T {
    open spec fn byte_view(&self) -> Seq<u8> {
        (**self).byte_view()
    }

    fn as_byte_slice(&self) -> (r: &[u8]) {
        (**self).as_byte_slice()
    }
}

/// Appends the bytes of `src` to `out`.
pub fn append_bytes(out: &mut Vec<u8>, src: &[u8])
    ensures
        final(out)@ == old(out)@ + src@,
{
    let ghost before = out@;
    let mut i: usize = 0;
    while i < src.len()
        invariant
            i <= src.len(),
            out@ == before + src@.take(i as int),
        decreases src.len() - i,
    {
        out.push(src[i]);
        assert(src@.take(i + 1) =~= src@.take(i as int).push(src@[i as int]));
        assert(out@ =~= before + src@.take(i + 1));
        i += 1;
    }
    assert(src@.take(src.len() as int) =~= src@);
}

} // verus!
