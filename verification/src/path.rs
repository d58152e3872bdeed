//! The part of path handling that the library decides for itself: what the
//! extension of a file name is.

use vstd::prelude::*;

verus! {

/// The final component of a path, as the platform's path syntax has it: the
/// name of the file or directory that the path leads to. A path that ends in
/// `..`, or that names a root, has none.
pub uninterp spec fn final_component(path: Seq<char>) -> Option<Seq<char>>;

/// `Path::file_name`, on a path that is text. Trusted: the result is a
/// function of the path's text alone.
#[verifier::external_body]
pub(crate) fn file_name(path: &str) -> (r: Option<String>)
    ensures
        r is Some <==> final_component(path@) is Some,
        r matches Some(name) ==> final_component(path@) == Some(name@),
{
    std::path::Path::new(path).file_name().and_then(|name| name.to_str()).map(|name| name.to_owned())
}

/// The extension of a file name: what follows its last dot. A name without a
/// dot has none, and neither has a name whose only dot comes first.
pub open spec fn extension_of(name: Seq<char>) -> Option<Seq<char>> {
    match name.index_of_last('.') {
        Some(dot) => if dot > 0 {
            Some(name.skip(dot + 1))
        } else {
            None
        },
        None => None,
    }
}

/// The extension of the file that a path leads to.
pub open spec fn extension(path: Seq<char>) -> Option<Seq<char>> {
    match final_component(path) {
        Some(name) => extension_of(name),
        None => None,
    }
}

/// The characters of a text, one by one.
fn chars_of(text: &str) -> (r: Vec<char>)
    ensures
        r@ == text@,
{
    let mut r: Vec<char> = Vec::new();
    for c in it: text.chars()
        invariant
            it.seq() == text@,
            r@ == text@.take(it.index() as int),
    {
        r.push(c);
        assert(text@.take(it.index() + 1) =~= text@.take(it.index() as int).push(c));
    }
    assert(text@.take(text@.len() as int) =~= text@);
    r
}

/// Whether the extension of the file name `name` is exactly `ext`.
pub fn name_has_extension(name: &str, ext: &str) -> (r: bool)
    ensures
        r == (extension_of(name@) == Some(ext@)),
{
    let name_chars = chars_of(name);
    let ext_chars = chars_of(ext);
    let len: usize = name_chars.len();
    proof {
        name@.index_of_last_ensures('.');
    }
    let mut dot: usize = len;
    while dot > 0 && name_chars[dot - 1] != '.'
        invariant
            dot <= len,
            len == name_chars@.len(),
            forall|j: int| dot <= j < len ==> name_chars@[j] != '.',
        decreases dot,
    {
        dot -= 1;
    }
    // `dot` is one past the last dot, or 0 where the name holds none.
    if dot <= 1 {
        proof {
            if dot == 1 {
                assert(name@[0] == '.');
            }
        }
        return false;
    }
    proof {
        assert(name@[dot - 1] == '.');
        assert(name@.index_of_last('.') == Some(dot - 1));
    }
    let ghost found = name@.skip(dot as int);
    if len - dot != ext_chars.len() {
        return false;
    }
    let mut i: usize = 0;
    while i < ext_chars.len()
        invariant
            i <= ext_chars@.len(),
            len == name_chars@.len(),
            dot <= len,
            len - dot == ext_chars@.len(),
            ext_chars@ == ext@,
            found == name_chars@.skip(dot as int),
            extension_of(name@) == Some(found),
            forall|j: int| 0 <= j < i ==> found[j] == ext_chars@[j],
        decreases ext_chars.len() - i,
    {
        if name_chars[dot + i] != ext_chars[i] {
            assert(found[i as int] != ext@[i as int]);
            return false;
        }
        i += 1;
    }
    assert(found =~= ext@);
    true
}

} // verus!
