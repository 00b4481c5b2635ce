//! Byte-string helpers shared by the path grammar, the comma-separated value
//! editor and the serializer: equality, copying, splitting on a separator and
//! joining with one.

use vstd::prelude::*;

verus! {

/// The views of a sequence of byte vectors.
pub open spec fn views(parts: Seq<Vec<u8>>) -> Seq<Seq<u8>> {
    parts.map_values(|p: Vec<u8>| p@)
}

/// Whether `sep` occurs nowhere in `s`.
pub open spec fn free_of(s: Seq<u8>, sep: u8) -> bool {
    forall|i: int| 0 <= i < s.len() ==> s[i] != sep
}

/// The state of a left-to-right scan of `s`: the pieces closed so far by a
/// separator, and the piece that is still open.
pub open spec fn scan(s: Seq<u8>, sep: u8) -> (Seq<Seq<u8>>, Seq<u8>)
    decreases s.len(),
{
    if s.len() == 0 {
        (Seq::empty(), Seq::empty())
    } else {
        let (closed, open) = scan(s.drop_last(), sep);
        if s.last() == sep {
            (closed.push(open), Seq::empty())
        } else {
            (closed, open.push(s.last()))
        }
    }
}

/// The pieces of `s` between occurrences of `sep`. There is always at least
/// one piece: the empty string splits into one empty piece.
pub open spec fn split(s: Seq<u8>, sep: u8) -> Seq<Seq<u8>> {
    scan(s, sep).0.push(scan(s, sep).1)
}

/// The pieces put together again, with `sep` between neighbours.
pub open spec fn join<T>(parts: Seq<Seq<T>>, sep: T) -> Seq<T>
    decreases parts.len(),
{
    if parts.len() == 0 {
        Seq::empty()
    } else if parts.len() == 1 {
        parts[0]
    } else {
        join(parts.drop_last(), sep).push(sep) + parts.last()
    }
}

/// Scanning past a separator-free tail only lengthens the open piece.
pub proof fn lemma_scan_tail(s: Seq<u8>, t: Seq<u8>, sep: u8)
    requires
        free_of(t, sep),
    ensures
        scan(s + t, sep) == (scan(s, sep).0, scan(s, sep).1 + t),
    decreases t.len(),
{
    if t.len() != 0 {
        let t0 = t.drop_last();
        lemma_scan_tail(s, t0, sep);
        assert((s + t).drop_last() =~= s + t0);
    }
}

/// Every piece that `split` returns is free of the separator.
pub proof fn lemma_split_pieces_free(s: Seq<u8>, sep: u8)
    ensures
        forall|k: int| 0 <= k < split(s, sep).len() ==> free_of(#[trigger] split(s, sep)[k], sep),
        free_of(scan(s, sep).1, sep),
        split(s, sep).len() >= 1,
    decreases s.len(),
{
    if s.len() != 0 {
        let s0 = s.drop_last();
        lemma_split_pieces_free(s0, sep);
        let closed = scan(s0, sep).0;
        assert forall|k: int| 0 <= k < split(s, sep).len() implies free_of(
            #[trigger] split(s, sep)[k],
            sep,
        ) by {
            if s.last() != sep && k < closed.len() {
                assert(split(s, sep)[k] == split(s0, sep)[k]);
            }
        }
    }
}

/// Joining what `split` returns gives the string back.
pub proof fn lemma_join_split(s: Seq<u8>, sep: u8)
    ensures
        join(split(s, sep), sep) == s,
    decreases s.len(),
{
    if s.len() != 0 {
        let s0 = s.drop_last();
        lemma_join_split(s0, sep);
        let (closed, open) = scan(s0, sep);
        if s.last() == sep {
            let parts = closed.push(open).push(Seq::<u8>::empty());
            assert(parts.drop_last() =~= closed.push(open));
        } else {
            let parts = closed.push(open.push(s.last()));
            let before = closed.push(open);
            assert(before.drop_last() =~= closed);
            assert(parts.drop_last() =~= closed);
            if closed.len() != 0 {
                assert(join(parts, sep) =~= (join(closed, sep).push(sep) + open).push(s.last()));
            }
        }
    }
}

/// Splitting the join of separator-free pieces gives the pieces back, as long
/// as there is at least one piece.
pub proof fn lemma_split_join(parts: Seq<Seq<u8>>, sep: u8)
    requires
        parts.len() >= 1,
        forall|k: int| 0 <= k < parts.len() ==> free_of(#[trigger] parts[k], sep),
    ensures
        split(join(parts, sep), sep) == parts,
    decreases parts.len(),
{
    if parts.len() == 1 {
        lemma_scan_tail(Seq::empty(), parts[0], sep);
    } else {
        let init = parts.drop_last();
        lemma_split_join(init, sep);
        let head = join(init, sep).push(sep);
        assert(head.drop_last() =~= join(init, sep));
        lemma_scan_tail(head, parts.last(), sep);
    }
}

/// Whether two byte strings hold the same bytes.
pub fn bytes_eq(a: &[u8], b: &[u8]) -> (same: bool)
    ensures
        same == (a@ == b@),
{
    if a.len() != b.len() {
        return false;
    }
    let mut i: usize = 0;
    while i < a.len()
        invariant
            a.len() == b.len(),
            i <= a.len(),
            forall|j: int| 0 <= j < i ==> a@[j] == b@[j],
        decreases a.len() - i,
    {
        if a[i] != b[i] {
            return false;
        }
        i += 1;
    }
    assert(a@ =~= b@);
    true
}

/// A fresh copy of a byte string.
pub fn copy_bytes(a: &[u8]) -> (out: Vec<u8>)
    ensures
        out@ == a@,
{
    let mut out: Vec<u8> = Vec::new();
    let mut i: usize = 0;
    while i < a.len()
        invariant
            i <= a.len(),
            out@ == a@.take(i as int),
        decreases a.len() - i,
    {
        out.push(a[i]);
        i += 1;
    }
    out
}

/// Appends `tail` to `out`.
pub fn push_bytes(out: &mut Vec<u8>, tail: &[u8])
    ensures
        final(out)@ == old(out)@ + tail@,
{
    let mut i: usize = 0;
    while i < tail.len()
        invariant
            i <= tail.len(),
            out@ == old(out)@ + tail@.take(i as int),
        decreases tail.len() - i,
    {
        out.push(tail[i]);
        i += 1;
    }
}

/// Cuts `s` at every occurrence of `sep`.
pub fn split_bytes(s: &[u8], sep: u8) -> (parts: Vec<Vec<u8>>)
    ensures
        views(parts@) == split(s@, sep),
{
    let mut closed: Vec<Vec<u8>> = Vec::new();
    let mut open: Vec<u8> = Vec::new();
    let mut i: usize = 0;
    while i < s.len()
        invariant
            i <= s.len(),
            (views(closed@), open@) == scan(s@.take(i as int), sep),
        decreases s.len() - i,
    {
        let ghost prefix = s@.take(i as int + 1);
        assert(prefix.drop_last() =~= s@.take(i as int));
        if s[i] == sep {
            closed.push(open);
            open = Vec::new();
        } else {
            open.push(s[i]);
        }
        i += 1;
    }
    assert(s@.take(s.len() as int) =~= s@);
    closed.push(open);
    closed
}

/// Puts the pieces together, with `sep` between neighbours.
pub fn join_bytes(parts: &Vec<Vec<u8>>, sep: u8) -> (out: Vec<u8>)
    ensures
        out@ == join(views(parts@), sep),
{
    let mut out: Vec<u8> = Vec::new();
    let mut i: usize = 0;
    while i < parts.len()
        invariant
            i <= parts.len(),
            out@ == join(views(parts@).take(i as int), sep),
        decreases parts.len() - i,
    {
        let ghost upto = views(parts@).take(i as int + 1);
        assert(upto.drop_last() =~= views(parts@).take(i as int));
        if i > 0 {
            out.push(sep);
        }
        push_bytes(&mut out, parts[i].as_slice());
        i += 1;
    }
    assert(views(parts@).take(parts.len() as int) =~= views(parts@));
    out
}

} // verus!
