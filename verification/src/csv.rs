//! Comma-separated values: an attribute value or an element's text read as a
//! list of members with commas between them, and the two edits that a `csv`
//! instruction makes to it. Members keep the order in which they were added.

use crate::bytes::{
    bytes_eq, copy_bytes, free_of, join, join_bytes, lemma_join_split, lemma_scan_tail,
    lemma_split_join, lemma_split_pieces_free, push_bytes, split, split_bytes, views,
};
use crate::command::CsvInstruction;
use crate::text::char_bytes;
use vstd::prelude::*;
use vstd::utf8::encode_utf8;

verus! {

pub const COMMA: u8 = 0x2c;

/// The members of a value: none for the empty value, else the pieces between
/// its commas.
pub open spec fn members(value: Seq<u8>) -> Seq<Seq<u8>> {
    if value.len() == 0 {
        Seq::empty()
    } else {
        split(value, COMMA)
    }
}

/// Whether `member` is among the members of `value`.
pub open spec fn has_member(value: Seq<u8>, member: Seq<u8>) -> bool {
    members(value).contains(member)
}

/// The members with every occurrence of `member` left out.
pub open spec fn without(list: Seq<Seq<u8>>, member: Seq<u8>) -> Seq<Seq<u8>>
    decreases list.len(),
{
    if list.len() == 0 {
        Seq::empty()
    } else if list.last() == member {
        without(list.drop_last(), member)
    } else {
        without(list.drop_last(), member).push(list.last())
    }
}

/// The value with `member` added at its end, unless it is a member already.
pub open spec fn with_member(value: Seq<u8>, member: Seq<u8>) -> Seq<u8> {
    if has_member(value, member) {
        value
    } else if value.len() == 0 {
        member
    } else {
        value.push(COMMA) + member
    }
}

/// The value with every occurrence of `member` removed.
pub open spec fn without_member(value: Seq<u8>, member: Seq<u8>) -> Seq<u8> {
    join(without(members(value), member), COMMA)
}

/// The bytes that spell the member of a `csv` edit.
pub open spec fn member_of(op: CsvInstruction) -> Seq<u8> {
    match op {
        CsvInstruction::Add(c) => encode_utf8(seq![c]),
        CsvInstruction::Remove(c) => encode_utf8(seq![c]),
    }
}

/// The value after a `csv` edit.
pub open spec fn csv_applied(value: Seq<u8>, op: CsvInstruction) -> Seq<u8> {
    match op {
        CsvInstruction::Add(_) => with_member(value, member_of(op)),
        CsvInstruction::Remove(_) => without_member(value, member_of(op)),
    }
}

/// Leaving out a member that does not occur changes nothing.
pub proof fn lemma_without_absent(list: Seq<Seq<u8>>, member: Seq<u8>)
    requires
        !list.contains(member),
    ensures
        without(list, member) == list,
    decreases list.len(),
{
    if list.len() != 0 {
        let init = list.drop_last();
        assert forall|i: int| 0 <= i < init.len() implies init[i] != member by {
        }
        lemma_without_absent(init, member);
    }
}

/// What is left after leaving a member out holds it no more, and holds only
/// what the list held.
pub proof fn lemma_without_properties(list: Seq<Seq<u8>>, member: Seq<u8>)
    ensures
        !without(list, member).contains(member),
        forall|k: int|
            0 <= k < without(list, member).len() ==> list.contains(
                #[trigger] without(list, member)[k],
            ),
    decreases list.len(),
{
    if list.len() != 0 {
        let init = list.drop_last();
        lemma_without_properties(init, member);
        let kept = without(list, member);
        assert forall|k: int| 0 <= k < kept.len() implies list.contains(#[trigger] kept[k]) by {
            if k < without(init, member).len() {
                let j = choose|j: int| 0 <= j < init.len() && init[j] == without(init, member)[k];
                assert(list[j] == kept[k]);
            } else {
                assert(list[list.len() - 1] == kept[k]);
            }
        }
    }
}

/// The members of a value with one more member at its end.
pub proof fn lemma_members_added(value: Seq<u8>, member: Seq<u8>)
    requires
        free_of(member, COMMA),
        member.len() > 0,
    ensures
        value.len() == 0 ==> members(member) == seq![member],
        value.len() > 0 ==> members(value.push(COMMA) + member) == members(value).push(member),
{
    if value.len() == 0 {
        lemma_split_join(seq![member], COMMA);
    } else {
        let head = value.push(COMMA);
        assert(head.drop_last() =~= value);
        lemma_scan_tail(head, member, COMMA);
    }
}

/// Adding a member that the value does not hold and removing it again gives
/// the value back, as long as the member is not empty and holds no comma.
pub proof fn lemma_add_then_remove(value: Seq<u8>, member: Seq<u8>)
    requires
        !has_member(value, member),
        free_of(member, COMMA),
        member.len() > 0,
    ensures
        without_member(with_member(value, member), member) == value,
{
    lemma_members_added(value, member);
    if value.len() == 0 {
        let one = seq![member];
        assert(without(one.drop_last(), member) =~= Seq::<Seq<u8>>::empty());
    } else {
        let list = members(value);
        lemma_without_absent(list, member);
        assert(list.push(member).drop_last() =~= list);
        lemma_join_split(value, COMMA);
    }
}

/// After a member is added the value holds it, and adding it once more
/// changes nothing.
pub proof fn lemma_add_twice(value: Seq<u8>, member: Seq<u8>)
    requires
        free_of(member, COMMA),
        member.len() > 0,
    ensures
        has_member(with_member(value, member), member),
        with_member(with_member(value, member), member) == with_member(value, member),
{
    if !has_member(value, member) {
        lemma_members_added(value, member);
        if value.len() == 0 {
            assert(seq![member][0] == member);
        } else {
            let list = members(value).push(member);
            assert(list[list.len() - 1] == member);
        }
    }
}

/// After a member is removed the value holds it no more, and removing it
/// once more changes nothing.
pub proof fn lemma_remove_twice(value: Seq<u8>, member: Seq<u8>)
    requires
        member.len() > 0,
    ensures
        !has_member(without_member(value, member), member),
        without_member(without_member(value, member), member) == without_member(value, member),
{
    let list = members(value);
    let kept = without(list, member);
    lemma_without_properties(list, member);
    let after = join(kept, COMMA);
    if after.len() != 0 {
        lemma_split_pieces_free(value, COMMA);
        assert forall|k: int| 0 <= k < kept.len() implies free_of(#[trigger] kept[k], COMMA) by {
            let j = choose|j: int| 0 <= j < list.len() && list[j] == kept[k];
            assert(free_of(split(value, COMMA)[j], COMMA));
        }
        lemma_split_join(kept, COMMA);
        lemma_without_absent(kept, member);
    }
}

/// A character other than the comma is spelled by at least one byte, and by
/// no comma.
pub proof fn lemma_member_is_clean(c: char)
    requires
        c != ',',
    ensures
        encode_utf8(seq![c]).len() > 0,
        free_of(encode_utf8(seq![c]), COMMA),
{
    let s = c as u32;
    let one = seq![c];
    assert(encode_utf8(one.drop_first()) =~= Seq::<u8>::empty());
    vstd::utf8::char_is_scalar(c);
    assert(s != 0x2c) by {
        if s == 0x2c {
            vstd::utf8::char_u32_cast(c, s);
            vstd::utf8::char_u32_cast(',', 0x2cu32);
        }
    }
    assert(s <= 0x7f ==> (s & 0x7F) as u8 != 0x2cu8) by (bit_vector)
        requires
            s != 0x2c,
    ;
    assert((0xC0u8 | ((s >> 6) & 0x1F) as u8) != 0x2cu8) by (bit_vector);
    assert((0xE0u8 | ((s >> 12) & 0x0F) as u8) != 0x2cu8) by (bit_vector);
    assert((0xF0u8 | ((s >> 18) & 0x7) as u8) != 0x2cu8) by (bit_vector);
    assert((0x80u8 | (s & 0x3F) as u8) != 0x2cu8) by (bit_vector);
    assert((0x80u8 | ((s >> 6) & 0x3F) as u8) != 0x2cu8) by (bit_vector);
    assert((0x80u8 | ((s >> 12) & 0x3F) as u8) != 0x2cu8) by (bit_vector);
}

/// Whether `member` is among the pieces.
fn holds_piece(pieces: &Vec<Vec<u8>>, member: &[u8]) -> (found: bool)
    ensures
        found == views(pieces@).contains(member@),
{
    let mut i: usize = 0;
    while i < pieces.len()
        invariant
            i <= pieces.len(),
            forall|j: int| 0 <= j < i ==> views(pieces@)[j] != member@,
        decreases pieces.len() - i,
    {
        if bytes_eq(pieces[i].as_slice(), member) {
            assert(views(pieces@)[i as int] == member@);
            return true;
        }
        i += 1;
    }
    false
}

/// The members of a value.
fn members_of(value: &[u8]) -> (list: Vec<Vec<u8>>)
    ensures
        views(list@) == members(value@),
{
    if value.len() == 0 {
        let list: Vec<Vec<u8>> = Vec::new();
        list
    } else {
        split_bytes(value, COMMA)
    }
}

/// Adds `member` at the end of `value`, unless it is a member already.
pub fn add_member(value: &[u8], member: &[u8]) -> (out: Vec<u8>)
    ensures
        out@ == with_member(value@, member@),
{
    let list = members_of(value);
    if holds_piece(&list, member) {
        copy_bytes(value)
    } else if value.len() == 0 {
        copy_bytes(member)
    } else {
        let mut out = copy_bytes(value);
        out.push(COMMA);
        push_bytes(&mut out, member);
        out
    }
}

/// Removes every occurrence of `member` from `value`.
pub fn remove_member(value: &[u8], member: &[u8]) -> (out: Vec<u8>)
    ensures
        out@ == without_member(value@, member@),
{
    let list = members_of(value);
    let ghost all = views(list@);
    let mut kept: Vec<Vec<u8>> = Vec::new();
    let mut i: usize = 0;
    while i < list.len()
        invariant
            i <= list.len(),
            all == views(list@),
            views(kept@) == without(all.take(i as int), member@),
        decreases list.len() - i,
    {
        let ghost upto = all.take(i as int + 1);
        assert(upto.drop_last() =~= all.take(i as int));
        if !bytes_eq(list[i].as_slice(), member) {
            kept.push(copy_bytes(list[i].as_slice()));
        }
        i += 1;
    }
    assert(all.take(list.len() as int) =~= all);
    join_bytes(&kept, COMMA)
}

/// Applies a `csv` edit to a value.
pub fn apply_csv(value: &[u8], op: CsvInstruction) -> (out: Vec<u8>)
    ensures
        out@ == csv_applied(value@, op),
{
    match op {
        CsvInstruction::Add(c) => {
            let member = char_bytes(c);
            add_member(value, member.as_slice())
        },
        CsvInstruction::Remove(c) => {
            let member = char_bytes(c);
            remove_member(value, member.as_slice())
        },
    }
}

} // verus!
