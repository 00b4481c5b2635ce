//! Path expressions: the restricted addressing language of the instructions.
//!
//! A path is a chain of element names from the document down, separated by
//! `/`, with at most one attribute test on its last name:
//!
//! ```text
//! path      := [ "/" ] name { "/" name } [ predicate ]
//! name      := one or more bytes, none of them "/" or "["
//! predicate := "[@" key "=" quote value quote "]"
//! key       := one or more bytes, none of them "="
//! quote     := "'" | '"'            (the same at both ends)
//! value     := any bytes but the quote
//! ```

use crate::bytes::{lemma_split_pieces_free, split, split_bytes, views, free_of};
use crate::event::{Attribute, AttributeView};
use vstd::prelude::*;

verus! {

pub const SLASH: u8 = 0x2f;

pub const OPEN_BRACKET: u8 = 0x5b;

pub const CLOSE_BRACKET: u8 = 0x5d;

pub const AT_SIGN: u8 = 0x40;

pub const EQUALS: u8 = 0x3d;

pub const SINGLE_QUOTE: u8 = 0x27;

pub const DOUBLE_QUOTE: u8 = 0x22;

/// A parsed path expression.
#[derive(Debug, Clone, PartialEq, Eq)]
pub struct PathExpr {
    /// The element names, outermost first.
    pub segments: Vec<Vec<u8>>,
    /// The attribute that the last element must carry, with its value.
    pub predicate: Option<Attribute>,
}

/// The mathematical value of a [`PathExpr`].
pub struct PathView {
    pub segments: Seq<Seq<u8>>,
    pub predicate: Option<AttributeView>,
}

impl PathView {
    /// Whether the path can be walked: it has at least one name, and no name
    /// is empty. Every path that parses is such a path.
    pub open spec fn well_formed(self) -> bool {
        self.segments.len() >= 1 && names_ok(self.segments)
    }
}

impl View for PathExpr {
    type V = PathView;

    open spec fn view(&self) -> PathView {
        PathView {
            segments: views(self.segments@),
            predicate: match self.predicate {
                Some(a) => Some(a@),
                None => None,
            },
        }
    }
}

/// The index of the first `b` in `s`, or the length of `s` where there is none.
pub open spec fn index_of(s: Seq<u8>, b: u8) -> int
    decreases s.len(),
{
    if s.len() == 0 {
        0
    } else if s[0] == b {
        0
    } else {
        1 + index_of(s.drop_first(), b)
    }
}

/// `index_of` is within the string, nothing before it is `b`, and it points
/// at a `b` unless it is the length.
pub proof fn lemma_index_of(s: Seq<u8>, b: u8)
    ensures
        0 <= index_of(s, b) <= s.len(),
        forall|j: int| 0 <= j < index_of(s, b) ==> s[j] != b,
        index_of(s, b) < s.len() ==> s[index_of(s, b)] == b,
    decreases s.len(),
{
    if s.len() != 0 && s[0] != b {
        let rest = s.drop_first();
        lemma_index_of(rest, b);
        assert forall|j: int| 0 <= j < index_of(s, b) implies s[j] != b by {
            if j > 0 {
                assert(s[j] == rest[j - 1]);
            }
        }
    }
}

/// Whether every name of the chain is non-empty.
pub open spec fn names_ok(segments: Seq<Seq<u8>>) -> bool {
    forall|k: int| 0 <= k < segments.len() ==> (#[trigger] segments[k]).len() > 0
}

/// The attribute test that `tail` spells, where `tail` is everything from
/// the opening bracket to the end of the path.
pub open spec fn parse_predicate(tail: Seq<u8>) -> Option<AttributeView> {
    if tail.len() < 2 || tail[0] != OPEN_BRACKET || tail[1] != AT_SIGN {
        None
    } else {
        let rest = tail.skip(2);
        let eq = index_of(rest, EQUALS);
        let after = rest.skip(eq + 1);
        if eq == 0 || eq >= rest.len() || after.len() < 3 {
            None
        } else {
            let quote = after[0];
            let value = after.subrange(1, after.len() - 2);
            if (quote == SINGLE_QUOTE || quote == DOUBLE_QUOTE) && after[after.len() - 2] == quote
                && after.last() == CLOSE_BRACKET && free_of(value, quote) {
                Some(AttributeView { key: rest.take(eq), value })
            } else {
                None
            }
        }
    }
}

/// The path that `bytes` spells, or `None` where they do not follow the
/// grammar.
pub open spec fn parse_path(bytes: Seq<u8>) -> Option<PathView> {
    let body = if bytes.len() > 0 && bytes[0] == SLASH {
        bytes.skip(1)
    } else {
        bytes
    };
    let cut = index_of(body, OPEN_BRACKET);
    let segments = split(body.take(cut), SLASH);
    if !names_ok(segments) {
        None
    } else if cut == body.len() {
        Some(PathView { segments, predicate: None })
    } else {
        match parse_predicate(body.skip(cut)) {
            Some(test) => Some(PathView { segments, predicate: Some(test) }),
            None => None,
        }
    }
}

/// A path that parses has at least one name, and its names are non-empty
/// and hold neither `/` nor `[`.
pub proof fn lemma_parse_path_names(bytes: Seq<u8>)
    requires
        parse_path(bytes) is Some,
    ensures
        parse_path(bytes)->0.segments.len() >= 1,
        names_ok(parse_path(bytes)->0.segments),
        forall|k: int|
            0 <= k < parse_path(bytes)->0.segments.len() ==> free_of(
                #[trigger] parse_path(bytes)->0.segments[k],
                SLASH,
            ),
{
    let body = if bytes.len() > 0 && bytes[0] == SLASH {
        bytes.skip(1)
    } else {
        bytes
    };
    let cut = index_of(body, OPEN_BRACKET);
    lemma_index_of(body, OPEN_BRACKET);
    lemma_split_pieces_free(body.take(cut), SLASH);
}

/// The index of the first `b` at or after `from`, or the length of `s`.
pub fn find_byte(s: &[u8], from: usize, b: u8) -> (at: usize)
    requires
        from <= s.len(),
    ensures
        at == from + index_of(s@.skip(from as int), b),
        from <= at <= s.len(),
{
    let mut i: usize = from;
    proof {
        lemma_index_of(s@.skip(from as int), b);
    }
    while i < s.len() && s[i] != b
        invariant
            from <= i <= s.len(),
            from + index_of(s@.skip(from as int), b) == i + index_of(s@.skip(i as int), b),
        decreases s.len() - i,
    {
        assert(s@.skip(i as int).drop_first() =~= s@.skip(i as int + 1));
        i += 1;
    }
    proof {
        if i < s.len() {
        } else {
        }
    }
    i
}

/// A copy of the bytes from `from` up to `to`.
pub fn sub_bytes(s: &[u8], from: usize, to: usize) -> (out: Vec<u8>)
    requires
        from <= to <= s.len(),
    ensures
        out@ == s@.subrange(from as int, to as int),
{
    let mut out: Vec<u8> = Vec::new();
    let mut i: usize = from;
    while i < to
        invariant
            from <= i <= to,
            to <= s.len(),
            out@ == s@.subrange(from as int, i as int),
        decreases to - i,
    {
        out.push(s[i]);
        i += 1;
    }
    out
}

/// Whether `sep` occurs nowhere in `s` between `from` and `to`.
fn range_free_of(s: &[u8], from: usize, to: usize, sep: u8) -> (free: bool)
    requires
        from <= to <= s.len(),
    ensures
        free == free_of(s@.subrange(from as int, to as int), sep),
{
    let ghost part = s@.subrange(from as int, to as int);
    let mut i: usize = from;
    while i < to
        invariant
            from <= i <= to,
            to <= s.len(),
            part == s@.subrange(from as int, to as int),
            forall|j: int| 0 <= j < i - from ==> part[j] != sep,
        decreases to - i,
    {
        if s[i] == sep {
            assert(part[i - from] == sep);
            return false;
        }
        i += 1;
    }
    true
}

/// Whether every piece is non-empty.
fn all_non_empty(parts: &Vec<Vec<u8>>) -> (ok: bool)
    ensures
        ok == names_ok(views(parts@)),
{
    let mut i: usize = 0;
    while i < parts.len()
        invariant
            i <= parts.len(),
            forall|k: int| 0 <= k < i ==> (#[trigger] views(parts@)[k]).len() > 0,
        decreases parts.len() - i,
    {
        if parts[i].len() == 0 {
            assert(views(parts@)[i as int].len() == 0);
            return false;
        }
        i += 1;
    }
    true
}

/// Reads the attribute test that stands in `bytes` from `from` to the end.
fn parse_test(bytes: &[u8], from: usize) -> (test: Option<Attribute>)
    requires
        from <= bytes.len(),
    ensures
        match test {
            Some(t) => parse_predicate(bytes@.skip(from as int)) == Some(t@),
            None => parse_predicate(bytes@.skip(from as int)) is None,
        },
{
    let ghost tail = bytes@.skip(from as int);
    if bytes.len() - from < 2 || bytes[from] != OPEN_BRACKET || bytes[from + 1] != AT_SIGN {
        return None;
    }
    let key_from: usize = from + 2;
    let ghost rest = tail.skip(2);
    assert(rest =~= bytes@.skip(key_from as int));
    let eq = find_byte(bytes, key_from, EQUALS);
    if eq == key_from || eq >= bytes.len() {
        return None;
    }
    let ghost after = rest.skip(eq - key_from + 1);
    if bytes.len() - eq - 1 < 3 {
        return None;
    }
    let quote = bytes[eq + 1];
    let last: usize = bytes.len() - 1;
    if !(quote == SINGLE_QUOTE || quote == DOUBLE_QUOTE) || bytes[last - 1] != quote || bytes[last]
        != CLOSE_BRACKET {
        return None;
    }
    assert(after.subrange(1, after.len() - 2) =~= bytes@.subrange(eq as int + 2, last as int - 1));
    if !range_free_of(bytes, eq + 2, last - 1, quote) {
        return None;
    }
    let key = sub_bytes(bytes, key_from, eq);
    let value = sub_bytes(bytes, eq + 2, last - 1);
    assert(key@ =~= rest.take(eq - key_from));
    Some(Attribute { key, value })
}

impl PathExpr {
    /// Parses a path expression. Fails exactly where the bytes do not follow
    /// the grammar.
    pub fn parse(bytes: &[u8]) -> (path: Option<PathExpr>)
        ensures
            match path {
                Some(p) => parse_path(bytes@) == Some(p@) && p@.well_formed(),
                None => parse_path(bytes@) is None,
            },
    {
        proof {
            if parse_path(bytes@) is Some {
                lemma_parse_path_names(bytes@);
            }
        }
        let start: usize = if bytes.len() > 0 && bytes[0] == SLASH {
            1
        } else {
            0
        };
        let ghost body = bytes@.skip(start as int);
        assert(start == 0 ==> body =~= bytes@);
        let cut = find_byte(bytes, start, OPEN_BRACKET);
        let head = sub_bytes(bytes, start, cut);
        assert(head@ =~= body.take(cut - start));
        let segments = split_bytes(head.as_slice(), SLASH);
        if !all_non_empty(&segments) {
            return None;
        }
        if cut == bytes.len() {
            return Some(PathExpr { segments, predicate: None });
        }
        assert(body.skip(cut - start) =~= bytes@.skip(cut as int));
        match parse_test(bytes, cut) {
            Some(test) => Some(PathExpr { segments, predicate: Some(test) }),
            None => None,
        }
    }
}

} // verus!
