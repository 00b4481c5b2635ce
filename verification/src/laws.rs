//! What holds of the engine whatever the document: instructions that can be
//! run again without harm, the later of two writes winning, a second removal
//! finding nothing, and unknown instructions being reported.

use crate::command::{CommandView, CsvInstruction, InstructionSetView};
use crate::csv::{
    csv_applied, has_member, lemma_add_then_remove, lemma_add_twice, lemma_member_is_clean,
    lemma_remove_twice,
};
use crate::engine::{
    applied, applied_all, edited, plan, rewrite_forest, rewrite_node, with_value, EditView,
    Failure, PatchError,
};
use crate::event::AttributeView;
use crate::matcher::{attribute_value, count_forest, count_node, test_holds};
use crate::path::parse_path;
use crate::tree::{events_of_forest, forest_of, lemma_forest_round_trip, NodeView};
use vstd::prelude::*;
use vstd::utf8::encode_utf8;

verus! {

/// One node alone counts as `count_node` counts it.
pub proof fn lemma_count_one(node: NodeView, segments: Seq<Seq<u8>>, test: Option<AttributeView>)
    ensures
        count_forest(seq![node], segments, test) == count_node(node, segments, test),
{
    let one = seq![node];
    assert(count_forest(one.drop_last(), segments, test) == 0);
}

/// Counting over two runs of nodes is counting over each.
pub proof fn lemma_count_concat(
    a: Seq<NodeView>,
    b: Seq<NodeView>,
    segments: Seq<Seq<u8>>,
    test: Option<AttributeView>,
)
    ensures
        count_forest(a + b, segments, test) == count_forest(a, segments, test) + count_forest(
            b,
            segments,
            test,
        ),
    decreases b.len(),
{
    if b.len() != 0 {
        lemma_count_concat(a, b.drop_last(), segments, test);
        assert((a + b).drop_last() =~= a + b.drop_last());
    }
}

/// One node alone is rewritten as `rewrite_node` rewrites it.
pub proof fn lemma_rewrite_one(
    node: NodeView,
    segments: Seq<Seq<u8>>,
    test: Option<AttributeView>,
    edit: EditView,
)
    ensures
        rewrite_forest(seq![node], segments, test, edit) == rewrite_node(
            node,
            segments,
            test,
            edit,
        ),
{
    let one = seq![node];
    assert(rewrite_forest(one.drop_last(), segments, test, edit) =~= Seq::<NodeView>::empty());
}

/// Rewriting two runs of nodes is rewriting each.
pub proof fn lemma_rewrite_concat(
    a: Seq<NodeView>,
    b: Seq<NodeView>,
    segments: Seq<Seq<u8>>,
    test: Option<AttributeView>,
    edit: EditView,
)
    ensures
        rewrite_forest(a + b, segments, test, edit) == rewrite_forest(a, segments, test, edit)
            + rewrite_forest(b, segments, test, edit),
    decreases b.len(),
{
    if b.len() != 0 {
        lemma_rewrite_concat(a, b.drop_last(), segments, test, edit);
        assert((a + b).drop_last() =~= a + b.drop_last());
    }
}

/// After a value is set, looking up the same key gives that value, and
/// looking up another key gives what it gave before.
pub proof fn lemma_lookup_after_set(
    attributes: Seq<AttributeView>,
    key: Seq<u8>,
    value: Seq<u8>,
    other: Seq<u8>,
)
    ensures
        attribute_value(with_value(attributes, key, value), other) == if other == key {
            Some(value)
        } else {
            attribute_value(attributes, other)
        },
    decreases attributes.len(),
{
    let set = with_value(attributes, key, value);
    if attributes.len() == 0 {
        assert(set.drop_first() =~= Seq::<AttributeView>::empty());
    } else if attributes[0].key == key {
        assert(set.drop_first() =~= attributes.drop_first());
    } else {
        lemma_lookup_after_set(attributes.drop_first(), key, value, other);
        assert(set.drop_first() =~= with_value(attributes.drop_first(), key, value));
    }
}

/// Of two values set for one key, the later stays.
pub proof fn lemma_set_twice(
    attributes: Seq<AttributeView>,
    key: Seq<u8>,
    first: Seq<u8>,
    second: Seq<u8>,
)
    ensures
        with_value(with_value(attributes, key, first), key, second) == with_value(
            attributes,
            key,
            second,
        ),
    decreases attributes.len(),
{
    let once = with_value(attributes, key, first);
    if attributes.len() != 0 && attributes[0].key != key {
        lemma_set_twice(attributes.drop_first(), key, first, second);
        assert(once.drop_first() =~= with_value(attributes.drop_first(), key, first));
    }
}

/// Whether `first` edits a selected element in place, so that the path
/// selects it as before, and `second` then makes of it what `both` makes of
/// the element as it was.
pub open spec fn composes(
    test: Option<AttributeView>,
    first: EditView,
    second: EditView,
    both: EditView,
) -> bool {
    forall|name: Seq<u8>, attributes: Seq<AttributeView>, children: Seq<NodeView>|
        test_holds(test, attributes) ==> {
            let once = #[trigger] edited(first, name, attributes, children);
            &&& once.len() == 1
            &&& once[0] matches NodeView::Element { name: n, attributes: a, children: c }
            &&& n == name
            &&& test_holds(test, a)
            &&& edited(second, n, a, c) == edited(both, name, attributes, children)
        }
}

/// Two edits in a row, under one path, on one node.
pub proof fn lemma_rewrite_node_twice(
    node: NodeView,
    segments: Seq<Seq<u8>>,
    test: Option<AttributeView>,
    first: EditView,
    second: EditView,
    both: EditView,
)
    requires
        composes(test, first, second, both),
    ensures
        rewrite_forest(rewrite_node(node, segments, test, first), segments, test, second)
            == rewrite_node(node, segments, test, both),
        count_forest(rewrite_node(node, segments, test, first), segments, test) == count_node(
            node,
            segments,
            test,
        ),
    decreases node, 0nat,
{
    let once = rewrite_node(node, segments, test, first);
    match node {
        NodeView::Element { name, attributes, children } => {
            if segments.len() >= 1 && name == segments[0] {
                if segments.len() == 1 {
                    if test_holds(test, attributes) {
                        assert(once =~= seq![once[0]]);
                        lemma_rewrite_one(once[0], segments, test, second);
                        lemma_count_one(once[0], segments, test);
                    } else {
                        lemma_rewrite_one(node, segments, test, second);
                        lemma_count_one(node, segments, test);
                    }
                } else {
                    let rest = segments.skip(1);
                    lemma_rewrite_forest_twice(children, rest, test, first, second, both);
                    let inner = NodeView::Element {
                        name,
                        attributes,
                        children: rewrite_forest(children, rest, test, first),
                    };
                    lemma_rewrite_one(inner, segments, test, second);
                    lemma_count_one(inner, segments, test);
                }
            } else {
                lemma_rewrite_one(node, segments, test, second);
                lemma_count_one(node, segments, test);
            }
        },
        _ => {
            lemma_rewrite_one(node, segments, test, second);
            lemma_count_one(node, segments, test);
        },
    }
}

/// Two edits in a row, under one path, on a run of nodes.
pub proof fn lemma_rewrite_forest_twice(
    nodes: Seq<NodeView>,
    segments: Seq<Seq<u8>>,
    test: Option<AttributeView>,
    first: EditView,
    second: EditView,
    both: EditView,
)
    requires
        composes(test, first, second, both),
    ensures
        rewrite_forest(rewrite_forest(nodes, segments, test, first), segments, test, second)
            == rewrite_forest(nodes, segments, test, both),
        count_forest(rewrite_forest(nodes, segments, test, first), segments, test) == count_forest(
            nodes,
            segments,
            test,
        ),
    decreases nodes, 1nat,
{
    if nodes.len() != 0 {
        broadcast use vstd::seq::axiom_seq_subrange_decreases;

        let init = nodes.drop_last();
        lemma_rewrite_forest_twice(init, segments, test, first, second, both);
        lemma_rewrite_node_twice(nodes.last(), segments, test, first, second, both);
        lemma_rewrite_concat(
            rewrite_forest(init, segments, test, first),
            rewrite_node(nodes.last(), segments, test, first),
            segments,
            test,
            second,
        );
        lemma_count_concat(
            rewrite_forest(init, segments, test, first),
            rewrite_node(nodes.last(), segments, test, first),
            segments,
            test,
        );
    }
}

/// After every selected element of one node has been removed, the path
/// selects nothing there.
pub proof fn lemma_removed_node(
    node: NodeView,
    segments: Seq<Seq<u8>>,
    test: Option<AttributeView>,
)
    ensures
        count_forest(rewrite_node(node, segments, test, EditView::Remove), segments, test) == 0,
    decreases node, 0nat,
{
    match node {
        NodeView::Element { name, attributes, children } => {
            if segments.len() >= 1 && name == segments[0] {
                if segments.len() == 1 {
                    if !test_holds(test, attributes) {
                        lemma_count_one(node, segments, test);
                    }
                } else {
                    let rest = segments.skip(1);
                    lemma_removed_forest(children, rest, test);
                    let inner = NodeView::Element {
                        name,
                        attributes,
                        children: rewrite_forest(children, rest, test, EditView::Remove),
                    };
                    lemma_count_one(inner, segments, test);
                }
            } else {
                lemma_count_one(node, segments, test);
            }
        },
        _ => {
            lemma_count_one(node, segments, test);
        },
    }
}

/// After every selected element of a run of nodes has been removed, the path
/// selects nothing there.
pub proof fn lemma_removed_forest(
    nodes: Seq<NodeView>,
    segments: Seq<Seq<u8>>,
    test: Option<AttributeView>,
)
    ensures
        count_forest(rewrite_forest(nodes, segments, test, EditView::Remove), segments, test) == 0,
    decreases nodes, 1nat,
{
    if nodes.len() != 0 {
        broadcast use vstd::seq::axiom_seq_subrange_decreases;

        let init = nodes.drop_last();
        lemma_removed_forest(init, segments, test);
        lemma_removed_node(nodes.last(), segments, test);
        lemma_count_concat(
            rewrite_forest(init, segments, test, EditView::Remove),
            rewrite_node(nodes.last(), segments, test, EditView::Remove),
            segments,
            test,
        );
    }
}

/// Where the path selects nothing at or below a node, the node stays as it
/// is, whatever the edit.
pub proof fn lemma_unselected_node(
    node: NodeView,
    segments: Seq<Seq<u8>>,
    test: Option<AttributeView>,
    edit: EditView,
)
    requires
        count_node(node, segments, test) == 0,
    ensures
        rewrite_node(node, segments, test, edit) == seq![node],
    decreases node, 0nat,
{
    match node {
        NodeView::Element { name, attributes, children } => {
            if segments.len() >= 2 && name == segments[0] {
                lemma_unselected_forest(children, segments.skip(1), test, edit);
            }
        },
        _ => {},
    }
}

/// Where the path selects nothing at or below a run of nodes, the nodes
/// stay as they are, whatever the edit.
pub proof fn lemma_unselected_forest(
    nodes: Seq<NodeView>,
    segments: Seq<Seq<u8>>,
    test: Option<AttributeView>,
    edit: EditView,
)
    requires
        count_forest(nodes, segments, test) == 0,
    ensures
        rewrite_forest(nodes, segments, test, edit) == nodes,
    decreases nodes, 1nat,
{
    if nodes.len() != 0 {
        broadcast use vstd::seq::axiom_seq_subrange_decreases;

        let init = nodes.drop_last();
        lemma_unselected_forest(init, segments, test, edit);
        lemma_unselected_node(nodes.last(), segments, test, edit);
    }
}

/// An `append` whose path selects nothing succeeds and leaves the document
/// as it is.
pub proof fn law_append_without_match_changes_nothing(
    document: Seq<NodeView>,
    set: InstructionSetView,
)
    requires
        plan(CommandView::Append(set)) matches Ok((path, _)) && count_forest(
            document,
            path.segments,
            path.predicate,
        ) == 0,
    ensures
        applied(document, CommandView::Append(set)) == Ok::<Seq<NodeView>, PatchError>(document),
{
    let (path, edit) = plan(CommandView::Append(set))->Ok_0;
    lemma_unselected_forest(document, path.segments, path.predicate, edit);
}

/// Whether setting `key` to `value` leaves the test of a path as it was:
/// there is no test, it asks about another attribute, or it asks for just
/// that value.
pub open spec fn test_allows(test: Option<AttributeView>, key: Seq<u8>, value: Seq<u8>) -> bool {
    match test {
        None => true,
        Some(t) => t.key != key || t.value == value,
    }
}

/// Setting an attribute that the test allows keeps the element selected,
/// and a second write to the same key overrides the first.
pub proof fn lemma_set_attribute_composes(
    test: Option<AttributeView>,
    key: Seq<u8>,
    first: Seq<u8>,
    second: Seq<u8>,
)
    requires
        test_allows(test, key, first),
    ensures
        composes(
            test,
            EditView::SetAttribute(AttributeView { key, value: first }),
            EditView::SetAttribute(AttributeView { key, value: second }),
            EditView::SetAttribute(AttributeView { key, value: second }),
        ),
{
    let e1 = EditView::SetAttribute(AttributeView { key, value: first });
    let e2 = EditView::SetAttribute(AttributeView { key, value: second });
    assert forall|name: Seq<u8>, attributes: Seq<AttributeView>, children: Seq<NodeView>|
        test_holds(test, attributes) implies {
        let once = #[trigger] edited(e1, name, attributes, children);
        &&& once.len() == 1
        &&& once[0] matches NodeView::Element { name: n, attributes: a, children: c }
        &&& n == name
        &&& test_holds(test, a)
        &&& edited(e2, n, a, c) == edited(e2, name, attributes, children)
    } by {
        lemma_set_twice(attributes, key, first, second);
        match test {
            Some(t) => {
                lemma_lookup_after_set(attributes, key, first, t.key);
            },
            None => {},
        }
    }
}

/// Setting the text keeps the element selected, and a second write
/// overrides the first.
pub proof fn lemma_set_text_composes(test: Option<AttributeView>, first: Seq<u8>, second: Seq<u8>)
    ensures
        composes(test, EditView::SetText(first), EditView::SetText(second), EditView::SetText(second)),
{
}

/// An instruction of unknown kind is reported and changes nothing: its
/// outcome is `UnrecognizedInstruction` on every document.
pub proof fn law_unknown_is_reported(document: Seq<NodeView>)
    ensures
        applied(document, CommandView::Unknown) == Err::<Seq<NodeView>, PatchError>(
            PatchError::UnrecognizedInstruction,
        ),
{
}

/// A removal that succeeded finds nothing when it is run again: the second
/// run fails with `NoMatchFound`.
pub proof fn law_remove_again_finds_nothing(document: Seq<NodeView>, set: InstructionSetView)
    requires
        applied(document, CommandView::Remove(set)) is Ok,
    ensures
        applied(applied(document, CommandView::Remove(set))->Ok_0, CommandView::Remove(set)) == Err::<
            Seq<NodeView>,
            PatchError,
        >(PatchError::NoMatchFound),
{
    let path = parse_path(set.xpath)->0;
    lemma_removed_forest(document, path.segments, path.predicate);
}

/// Setting the text of the selected elements can be run again without
/// harm: the second run succeeds and leaves the document as the first made
/// it.
pub proof fn law_set_value_is_idempotent(document: Seq<NodeView>, set: InstructionSetView)
    requires
        applied(document, CommandView::SetValue(set)) is Ok,
    ensures
        applied(applied(document, CommandView::SetValue(set))->Ok_0, CommandView::SetValue(set))
            == applied(document, CommandView::SetValue(set)),
{
    let command = CommandView::SetValue(set);
    let (path, edit) = plan(command)->Ok_0;
    let text = edit->SetText_0;
    lemma_set_text_composes(path.predicate, text, text);
    lemma_rewrite_forest_twice(document, path.segments, path.predicate, edit, edit, edit);
}

/// Setting an attribute of the selected elements can be run again without
/// harm, as long as the path does not test that very attribute for another
/// value: the second run succeeds and leaves the document as the first made
/// it.
pub proof fn law_set_attribute_is_idempotent(document: Seq<NodeView>, set: InstructionSetView)
    requires
        applied(document, CommandView::SetAttribute(set)) is Ok,
        plan(CommandView::SetAttribute(set)) matches Ok((path, EditView::SetAttribute(a)))
            && test_allows(path.predicate, a.key, a.value),
    ensures
        applied(
            applied(document, CommandView::SetAttribute(set))->Ok_0,
            CommandView::SetAttribute(set),
        ) == applied(document, CommandView::SetAttribute(set)),
{
    let command = CommandView::SetAttribute(set);
    let (path, edit) = plan(command)->Ok_0;
    let a = edit->SetAttribute_0;
    lemma_set_attribute_composes(path.predicate, a.key, a.value, a.value);
    lemma_rewrite_forest_twice(document, path.segments, path.predicate, edit, edit, edit);
}

/// Of two instructions that set the same attribute under the same path, the
/// later wins: after both the document is what the later alone would have
/// made of it. The path must not test that very attribute for another value
/// than the first writes.
pub proof fn law_last_writer_wins(
    document: Seq<NodeView>,
    first: InstructionSetView,
    second: InstructionSetView,
)
    requires
        first.xpath == second.xpath,
        first.attribute == second.attribute,
        applied(document, CommandView::SetAttribute(first)) is Ok,
        plan(CommandView::SetAttribute(first)) matches Ok((path, EditView::SetAttribute(a)))
            && test_allows(path.predicate, a.key, a.value),
    ensures
        applied(
            applied(document, CommandView::SetAttribute(first))->Ok_0,
            CommandView::SetAttribute(second),
        ) == applied(document, CommandView::SetAttribute(second)),
{
    let c1 = CommandView::SetAttribute(first);
    let c2 = CommandView::SetAttribute(second);
    let (path, e1) = plan(c1)->Ok_0;
    let a1 = e1->SetAttribute_0;
    if plan(c2) is Ok {
        let e2 = plan(c2)->Ok_0.1;
        let a2 = e2->SetAttribute_0;
        lemma_set_attribute_composes(path.predicate, a1.key, a1.value, a2.value);
        lemma_rewrite_forest_twice(document, path.segments, path.predicate, e1, e2, e2);
    }
}

/// Setting a key to the value that it has changes nothing.
pub proof fn lemma_set_same(attributes: Seq<AttributeView>, key: Seq<u8>, value: Seq<u8>)
    requires
        attribute_value(attributes, key) == Some(value),
    ensures
        with_value(attributes, key, value) == attributes,
    decreases attributes.len(),
{
    if attributes.len() != 0 && attributes[0].key != key {
        lemma_set_same(attributes.drop_first(), key, value);
    }
}

/// Adding a member to a comma-separated value and removing it again gives
/// the value back, as long as the value did not hold the member before and
/// the member is not the comma itself.
pub proof fn law_csv_add_then_remove(value: Seq<u8>, member: char)
    requires
        member != ',',
        !has_member(value, encode_utf8(seq![member])),
    ensures
        csv_applied(
            csv_applied(value, CsvInstruction::Add(member)),
            CsvInstruction::Remove(member),
        ) == value,
{
    lemma_member_is_clean(member);
    lemma_add_then_remove(value, encode_utf8(seq![member]));
}

/// A `csv` edit can be made again without harm, as long as its member is
/// not the comma itself: the second time it changes nothing.
pub proof fn law_csv_edit_is_idempotent(value: Seq<u8>, op: CsvInstruction)
    requires
        op != CsvInstruction::Add(','),
        op != CsvInstruction::Remove(','),
    ensures
        csv_applied(csv_applied(value, op), op) == csv_applied(value, op),
{
    match op {
        CsvInstruction::Add(member) => {
            lemma_member_is_clean(member);
            lemma_add_twice(value, encode_utf8(seq![member]));
        },
        CsvInstruction::Remove(member) => {
            lemma_member_is_clean(member);
            lemma_remove_twice(value, encode_utf8(seq![member]));
        },
    }
}

/// A `csv` instruction that adds a member to an attribute, followed by one
/// that removes it from the same attribute, leaves a selected element as it
/// was, as long as the attribute did not hold the member before and the
/// member is not the comma itself.
pub proof fn law_csv_restores_attribute(
    name: Seq<u8>,
    attributes: Seq<AttributeView>,
    children: Seq<NodeView>,
    key: Seq<u8>,
    member: char,
)
    requires
        member != ',',
        attribute_value(attributes, key) matches Some(value) && !has_member(
            value,
            encode_utf8(seq![member]),
        ),
    ensures
        edited(EditView::Csv(Some(key), CsvInstruction::Add(member)), name, attributes, children)
            == seq![
            NodeView::Element {
                name,
                attributes: with_value(
                    attributes,
                    key,
                    csv_applied(attribute_value(attributes, key)->0, CsvInstruction::Add(member)),
                ),
                children,
            },
        ],
        edited(
            EditView::Csv(Some(key), CsvInstruction::Remove(member)),
            name,
            with_value(
                attributes,
                key,
                csv_applied(attribute_value(attributes, key)->0, CsvInstruction::Add(member)),
            ),
            children,
        ) == seq![NodeView::Element { name, attributes, children }],
{
    let value = attribute_value(attributes, key)->0;
    let added = csv_applied(value, CsvInstruction::Add(member));
    law_csv_add_then_remove(value, member);
    lemma_lookup_after_set(attributes, key, added, key);
    lemma_set_twice(attributes, key, added, value);
    lemma_set_same(attributes, key, value);
}

/// Reading back the events that spell a document gives the document, so
/// that every instruction does to what was read back what it does to the
/// document itself.
pub proof fn law_reading_back_changes_nothing(document: Seq<NodeView>, command: CommandView)
    ensures
        forest_of(events_of_forest(document)) == Some(document),
        applied(forest_of(events_of_forest(document))->0, command) == applied(document, command),
{
    lemma_forest_round_trip(document);
}

/// A list of instructions that ran through can be run again without harm
/// where no instruction undoes what another did: if each of them leaves the
/// final document as it is, then so does the whole list.
pub proof fn law_rerun_is_idempotent(document: Seq<NodeView>, commands: Seq<CommandView>)
    requires
        applied_all(document, commands).1 is None,
        forall|k: int|
            0 <= k < commands.len() ==> applied(
                applied_all(document, commands).0,
                #[trigger] commands[k],
            ) == Ok::<Seq<NodeView>, PatchError>(applied_all(document, commands).0),
    ensures
        applied_all(applied_all(document, commands).0, commands) == (
            applied_all(document, commands).0,
            None::<Failure>,
        ),
{
    let done = applied_all(document, commands).0;
    lemma_rerun_prefix(done, commands, commands.len() as int);
    assert(commands.take(commands.len() as int) =~= commands);
}

/// Running a prefix of instructions that each leave `done` as it is leaves
/// `done` as it is.
proof fn lemma_rerun_prefix(done: Seq<NodeView>, commands: Seq<CommandView>, k: int)
    requires
        0 <= k <= commands.len(),
        forall|j: int|
            0 <= j < commands.len() ==> applied(done, #[trigger] commands[j]) == Ok::<
                Seq<NodeView>,
                PatchError,
            >(done),
    ensures
        applied_all(done, commands.take(k)) == (done, None::<Failure>),
    decreases k,
{
    if k > 0 {
        lemma_rerun_prefix(done, commands, k - 1);
        let upto = commands.take(k);
        assert(upto.drop_last() =~= commands.take(k - 1));
    }
}

} // verus!
