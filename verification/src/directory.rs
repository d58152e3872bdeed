//! Directory helpers: whether a path is a directory, and which of a
//! directory's entries to hand out.
//!
//! A listing arrives as the caller enumerated it: one item per entry, in
//! enumeration order, each either an entry or the error that reading it
//! raised. The helpers keep that order and stop at the first error.

use vstd::prelude::*;
use crate::entry::{Entry, EntryKind};

verus! {

/// The error that an item of a listing carries, if any: the item's own, or
/// else the one raised when its type was asked for.
pub open spec fn failure<P, E>(item: Result<Entry<P, E>, E>) -> Option<E> {
    match item {
        Err(e) => Some(e),
        Ok(entry) => match entry.kind {
            Err(e) => Some(e),
            Ok(_) => None,
        },
    }
}

/// The first error met when walking a listing front to back.
pub open spec fn first_failure<P, E>(items: Seq<Result<Entry<P, E>, E>>) -> Option<E>
    decreases items.len(),
{
    if items.len() == 0 {
        None
    } else if failure(items[0]) is Some {
        failure(items[0])
    } else {
        first_failure(items.drop_first())
    }
}

/// Whether an item is an entry of the given type.
pub open spec fn has_kind<P, E>(item: Result<Entry<P, E>, E>, kind: EntryKind) -> bool {
    item matches Ok(entry) && entry.kind == Ok::<EntryKind, E>(kind)
}

/// The paths of the entries of the given type, in listing order.
pub open spec fn paths_of_kind<P, E>(items: Seq<Result<Entry<P, E>, E>>, kind: EntryKind) -> Seq<P> {
    items.filter(|item: Result<Entry<P, E>, E>| has_kind(item, kind)).map_values(
        |item: Result<Entry<P, E>, E>| item->Ok_0.path,
    )
}

/// The first error among plain listing items.
pub open spec fn first_error<P, E>(items: Seq<Result<P, E>>) -> Option<E>
    decreases items.len(),
{
    if items.len() == 0 {
        None
    } else if items[0] is Err {
        Some(items[0]->Err_0)
    } else {
        first_error(items.drop_first())
    }
}

/// Walking a listing finds no error before the first item that carries one.
proof fn lemma_first_failure_skips<P, E>(items: Seq<Result<Entry<P, E>, E>>, n: int)
    requires
        0 <= n <= items.len(),
        forall|j: int| 0 <= j < n ==> failure(#[trigger] items[j]) is None,
    ensures
        first_failure(items) == first_failure(items.skip(n)),
    decreases n,
{
    if n == 0 {
        assert(items.skip(0) =~= items);
    } else {
        let rest = items.drop_first();
        assert forall|j: int| 0 <= j < n - 1 implies failure(#[trigger] rest[j]) is None by {
            assert(rest[j] == items[j + 1]);
        }
        lemma_first_failure_skips(rest, n - 1);
        assert(rest.skip(n - 1) =~= items.skip(n));
    }
}

proof fn lemma_first_error_skips<P, E>(items: Seq<Result<P, E>>, n: int)
    requires
        0 <= n <= items.len(),
        forall|j: int| 0 <= j < n ==> #[trigger] items[j] is Ok,
    ensures
        first_error(items) == first_error(items.skip(n)),
    decreases n,
{
    if n == 0 {
        assert(items.skip(0) =~= items);
    } else {
        let rest = items.drop_first();
        assert forall|j: int| 0 <= j < n - 1 implies #[trigger] rest[j] is Ok by {
            assert(rest[j] == items[j + 1]);
        }
        lemma_first_error_skips(rest, n - 1);
        assert(rest.skip(n - 1) =~= items.skip(n));
    }
}

/// True exactly when the probe found a directory. A probe that failed, for
/// whatever reason, counts as "not there".
pub fn is_present<E>(probe: &Result<EntryKind, E>) -> (r: bool)
    ensures
        r == (*probe == Ok::<EntryKind, E>(EntryKind::Directory)),
{
    match probe {
        Ok(kind) => kind.is_dir(),
        Err(_) => false,
    }
}

/// Every entry of a listing, in listing order, or the first error that
/// reading the listing raised.
pub fn children<P, E>(entries: Vec<Result<P, E>>) -> (r: Result<Vec<P>, E>)
    ensures
        match first_error(entries@) {
            Some(e) => r == Err::<Vec<P>, E>(e),
            None => r is Ok && r->Ok_0@ == entries@.map_values(|item: Result<P, E>| item->Ok_0),
        },
{
    let ghost items = entries@;
    let mut out: Vec<P> = Vec::new();
    for item in it: entries.into_iter()
        invariant
            it.seq() == items,
            forall|j: int| 0 <= j < it.index() ==> #[trigger] items[j] is Ok,
            out@ == items.take(it.index() as int).map_values(|item: Result<P, E>| item->Ok_0),
    {
        match item {
            Ok(path) => {
                out.push(path);
                proof {
                    let n = it.index() as int;
                    assert(items.take(n + 1) =~= items.take(n).push(items[n]));
                    assert(items.take(n + 1).map_values(|item: Result<P, E>| item->Ok_0)
                        =~= items.take(n).map_values(|item: Result<P, E>| item->Ok_0).push(path));
                }
            },
            Err(e) => {
                proof {
                    lemma_first_error_skips(items, it.index() as int);
                }
                return Err(e);
            },
        }
    }
    proof {
        lemma_first_error_skips(items, items.len() as int);
        assert(items.take(items.len() as int) =~= items);
    }
    Ok(out)
}

/// The paths of the entries of one type, in listing order, or the first
/// error met on the way. An entry whose type could not be read is an error
/// even where the entry itself was read.
fn of_kind<P, E>(entries: Vec<Result<Entry<P, E>, E>>, kind: EntryKind) -> (r: Result<Vec<P>, E>)
    ensures
        match first_failure(entries@) {
            Some(e) => r == Err::<Vec<P>, E>(e),
            None => r is Ok && r->Ok_0@ == paths_of_kind(entries@, kind),
        },
{
    let ghost items = entries@;
    let ghost wanted = |item: Result<Entry<P, E>, E>| has_kind(item, kind);
    let ghost path_of = |item: Result<Entry<P, E>, E>| item->Ok_0.path;
    let mut out: Vec<P> = Vec::new();
    for item in it: entries.into_iter()
        invariant
            it.seq() == items,
            wanted == |item: Result<Entry<P, E>, E>| has_kind(item, kind),
            path_of == |item: Result<Entry<P, E>, E>| item->Ok_0.path,
            forall|j: int| 0 <= j < it.index() ==> failure(#[trigger] items[j]) is None,
            out@ == items.take(it.index() as int).filter(wanted).map_values(path_of),
    {
        let ghost n = it.index() as int;
        proof {
            assert(items.take(n + 1) =~= items.take(n).push(items[n]));
            items.take(n).lemma_filter_push(items[n], wanted);
        }
        match item {
            Ok(entry) => {
                match entry.kind {
                    Ok(found) => {
                        if found == kind {
                            out.push(entry.path);
                            assert(out@ =~= items.take(n + 1).filter(wanted).map_values(path_of));
                        }
                    },
                    Err(e) => {
                        proof {
                            lemma_first_failure_skips(items, n);
                        }
                        return Err(e);
                    },
                }
            },
            Err(e) => {
                proof {
                    lemma_first_failure_skips(items, n);
                }
                return Err(e);
            },
        }
    }
    proof {
        lemma_first_failure_skips(items, items.len() as int);
        assert(items.take(items.len() as int) =~= items);
    }
    Ok(out)
}

/// The regular files of a listing, in listing order. Symbolic links are left
/// out, whatever they point to.
pub fn files<P, E>(entries: Vec<Result<Entry<P, E>, E>>) -> (r: Result<Vec<P>, E>)
    ensures
        match first_failure(entries@) {
            Some(e) => r == Err::<Vec<P>, E>(e),
            None => r is Ok && r->Ok_0@ == paths_of_kind(entries@, EntryKind::File),
        },
{
    of_kind(entries, EntryKind::File)
}

/// The directories of a listing, in listing order. Symbolic links are left
/// out, whatever they point to.
pub fn sub_directories<P, E>(entries: Vec<Result<Entry<P, E>, E>>) -> (r: Result<Vec<P>, E>)
    ensures
        match first_failure(entries@) {
            Some(e) => r == Err::<Vec<P>, E>(e),
            None => r is Ok && r->Ok_0@ == paths_of_kind(entries@, EntryKind::Directory),
        },
{
    of_kind(entries, EntryKind::Directory)
}

} // verus!
