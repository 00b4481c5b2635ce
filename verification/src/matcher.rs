//! The path matcher: which nodes of a document a path expression selects.
//!
//! A path is walked from the document down. Its first name selects among the
//! top-level nodes, each further name among the children of what the name
//! before it selected, and the attribute test, where there is one, filters
//! what the last name selected. Matching reads the document and never
//! changes it.

use crate::bytes::{bytes_eq, views};
use crate::event::{attribute_views, Attribute, AttributeView};
use crate::path::{PathExpr};
use crate::tree::{lemma_node_views, node_view, node_views, Document, Node, NodeView};
use vstd::prelude::*;

verus! {

/// The value of the first attribute with the given key.
pub open spec fn attribute_value(attributes: Seq<AttributeView>, key: Seq<u8>) -> Option<Seq<u8>>
    decreases attributes.len(),
{
    if attributes.len() == 0 {
        None
    } else if attributes[0].key == key {
        Some(attributes[0].value)
    } else {
        attribute_value(attributes.drop_first(), key)
    }
}

/// Whether the attributes pass the test of a path: there is no test, or the
/// attribute it names has the value it asks for.
pub open spec fn test_holds(test: Option<AttributeView>, attributes: Seq<AttributeView>) -> bool {
    match test {
        None => true,
        Some(t) => attribute_value(attributes, t.key) == Some(t.value),
    }
}

/// The view of an optional attribute test.
pub open spec fn test_view(test: Option<Attribute>) -> Option<AttributeView> {
    match test {
        Some(a) => Some(a@),
        None => None,
    }
}

/// How many nodes the path selects at or below `node`, where the first name
/// of `segments` is to select `node` itself.
pub open spec fn count_node(
    node: NodeView,
    segments: Seq<Seq<u8>>,
    test: Option<AttributeView>,
) -> nat
    decreases node,
{
    match node {
        NodeView::Element { name, attributes, children } => if segments.len() >= 1 && name
            == segments[0] {
            if segments.len() == 1 {
                if test_holds(test, attributes) {
                    1
                } else {
                    0
                }
            } else {
                count_forest(children, segments.skip(1), test)
            }
        } else {
            0
        },
        _ => 0,
    }
}

/// How many nodes the path selects at or below `nodes`.
pub open spec fn count_forest(
    nodes: Seq<NodeView>,
    segments: Seq<Seq<u8>>,
    test: Option<AttributeView>,
) -> nat
    decreases nodes,
{
    if nodes.len() == 0 {
        0
    } else {
        proof {
            broadcast use vstd::seq::axiom_seq_subrange_decreases;

        }
        count_forest(nodes.drop_last(), segments, test) + count_node(nodes.last(), segments, test)
    }
}

/// Where the path selects nodes at or below `node`, which stands at `here`.
/// A place is the chain of child indices that leads to it from the document.
pub open spec fn locate_node(
    node: NodeView,
    segments: Seq<Seq<u8>>,
    test: Option<AttributeView>,
    here: Seq<usize>,
) -> Seq<Seq<usize>>
    decreases node,
{
    match node {
        NodeView::Element { name, attributes, children } => if segments.len() >= 1 && name
            == segments[0] {
            if segments.len() == 1 {
                if test_holds(test, attributes) {
                    seq![here]
                } else {
                    Seq::empty()
                }
            } else {
                locate_forest(children, segments.skip(1), test, here)
            }
        } else {
            Seq::empty()
        },
        _ => Seq::empty(),
    }
}

/// Where the path selects nodes at or below `nodes`, the children of the
/// node at `parent`, in document order.
pub open spec fn locate_forest(
    nodes: Seq<NodeView>,
    segments: Seq<Seq<u8>>,
    test: Option<AttributeView>,
    parent: Seq<usize>,
) -> Seq<Seq<usize>>
    decreases nodes,
{
    if nodes.len() == 0 {
        Seq::empty()
    } else {
        proof {
            broadcast use vstd::seq::axiom_seq_subrange_decreases;

        }
        locate_forest(nodes.drop_last(), segments, test, parent) + locate_node(
            nodes.last(),
            segments,
            test,
            parent.push((nodes.len() - 1) as usize),
        )
    }
}

/// There are as many places as `count_node` counts.
pub proof fn lemma_locate_node_len(
    node: NodeView,
    segments: Seq<Seq<u8>>,
    test: Option<AttributeView>,
    here: Seq<usize>,
)
    ensures
        locate_node(node, segments, test, here).len() == count_node(node, segments, test),
    decreases node, 0nat,
{
    match node {
        NodeView::Element { name, attributes, children } => {
            if segments.len() >= 2 && name == segments[0] {
                lemma_locate_forest_len(children, segments.skip(1), test, here);
            }
        },
        _ => {},
    }
}

/// There are as many places as `count_forest` counts.
pub proof fn lemma_locate_forest_len(
    nodes: Seq<NodeView>,
    segments: Seq<Seq<u8>>,
    test: Option<AttributeView>,
    parent: Seq<usize>,
)
    ensures
        locate_forest(nodes, segments, test, parent).len() == count_forest(nodes, segments, test),
    decreases nodes, 1nat,
{
    if nodes.len() != 0 {
        broadcast use vstd::seq::axiom_seq_subrange_decreases;

        lemma_locate_forest_len(nodes.drop_last(), segments, test, parent);
        lemma_locate_node_len(
            nodes.last(),
            segments,
            test,
            parent.push((nodes.len() - 1) as usize),
        );
    }
}

/// The views of a list of places.
pub open spec fn place_views(places: Seq<Vec<usize>>) -> Seq<Seq<usize>> {
    places.map_values(|p: Vec<usize>| p@)
}

/// The value of the first attribute with the given key.
pub fn find_value<'a>(attributes: &'a Vec<Attribute>, key: &[u8]) -> (value: Option<&'a Vec<u8>>)
    ensures
        match value {
            Some(v) => attribute_value(attribute_views(attributes@), key@) == Some(v@),
            None => attribute_value(attribute_views(attributes@), key@) is None,
        },
{
    let ghost all = attribute_views(attributes@);
    let mut i: usize = 0;
    assert(all.skip(0) =~= all);
    while i < attributes.len()
        invariant
            i <= attributes.len(),
            all == attribute_views(attributes@),
            attribute_value(all, key@) == attribute_value(all.skip(i as int), key@),
        decreases attributes.len() - i,
    {
        assert(all.skip(i as int).drop_first() =~= all.skip(i as int + 1));
        if bytes_eq(attributes[i].key.as_slice(), key) {
            return Some(&attributes[i].value);
        }
        i += 1;
    }
    None
}

/// Whether the attributes pass the test of a path.
pub fn passes(test: &Option<Attribute>, attributes: &Vec<Attribute>) -> (ok: bool)
    ensures
        ok == test_holds(test_view(*test), attribute_views(attributes@)),
{
    match test {
        None => true,
        Some(t) => match find_value(attributes, t.key.as_slice()) {
            Some(v) => bytes_eq(v.as_slice(), t.value.as_slice()),
            None => false,
        },
    }
}

/// A copy of `parent` with `index` at its end.
fn child_place(parent: &Vec<usize>, index: usize) -> (place: Vec<usize>)
    ensures
        place@ == parent@.push(index),
{
    let mut place: Vec<usize> = Vec::new();
    let mut i: usize = 0;
    while i < parent.len()
        invariant
            i <= parent.len(),
            place@ == parent@.take(i as int),
        decreases parent.len() - i,
    {
        place.push(parent[i]);
        i += 1;
    }
    place.push(index);
    place
}

/// Appends the places where the path selects nodes at or below `nodes`.
fn locate_into(
    nodes: &Vec<Node>,
    segments: &Vec<Vec<u8>>,
    depth: usize,
    test: &Option<Attribute>,
    parent: &Vec<usize>,
    out: &mut Vec<Vec<usize>>,
)
    requires
        depth < segments.len(),
    ensures
        place_views(final(out)@) == place_views(old(out)@) + locate_forest(
            node_views(nodes@),
            views(segments@).skip(depth as int),
            test_view(*test),
            parent@,
        ),
    decreases nodes,
{
    let ghost all = node_views(nodes@);
    let ghost segs = views(segments@).skip(depth as int);
    let ghost tv = test_view(*test);
    proof {
        lemma_node_views(nodes@);
    }
    let mut i: usize = 0;
    while i < nodes.len()
        invariant
            i <= nodes.len(),
            depth < segments.len(),
            all == node_views(nodes@),
            all.len() == nodes.len(),
            forall|j: int| 0 <= j < nodes.len() ==> #[trigger] all[j] == node_view(nodes@[j]),
            segs == views(segments@).skip(depth as int),
            tv == test_view(*test),
            place_views(out@) == place_views(old(out)@) + locate_forest(
                all.take(i as int),
                segs,
                tv,
                parent@,
            ),
        decreases nodes.len() - i,
    {
        let ghost before = place_views(out@);
        let ghost upto = all.take(i as int + 1);
        assert(upto.drop_last() =~= all.take(i as int));
        assert(segs.skip(1) =~= views(segments@).skip(depth as int + 1));
        match &nodes[i] {
            Node::Element { name, attributes, children } => {
                if bytes_eq(name.as_slice(), segments[depth].as_slice()) {
                    let here = child_place(parent, i);
                    if depth + 1 == segments.len() {
                        if passes(test, attributes) {
                            out.push(here);
                        }
                    } else {
                        locate_into(children, segments, depth + 1, test, &here, out);
                    }
                }
            },
            _ => {},
        }
        assert(place_views(out@) =~= before + locate_node(all[i as int], segs, tv, parent@.push(i)));
        i += 1;
    }
    assert(all.take(nodes.len() as int) =~= all);
}

impl Document {
    /// The places of the nodes that the path selects, in document order.
    /// A place is the chain of child indices that leads to the node from the
    /// document.
    pub fn find(&self, path: &PathExpr) -> (places: Vec<Vec<usize>>)
        ensures
            place_views(places@) == locate_forest(
                self@,
                path@.segments,
                path@.predicate,
                Seq::empty(),
            ),
            places.len() == count_forest(self@, path@.segments, path@.predicate),
    {
        let mut places: Vec<Vec<usize>> = Vec::new();
        let parent: Vec<usize> = Vec::new();
        proof {
            lemma_locate_forest_len(self@, path@.segments, path@.predicate, Seq::empty());
        }
        if path.segments.len() == 0 {
            proof {
                lemma_no_names(self@, path@.segments, path@.predicate, Seq::empty());
            }
            return places;
        }
        assert(views(path.segments@).skip(0) =~= path@.segments);
        locate_into(&self.nodes, &path.segments, 0, &path.predicate, &parent, &mut places);
        places
    }
}

/// A path without names selects nothing.
pub proof fn lemma_no_names(
    nodes: Seq<NodeView>,
    segments: Seq<Seq<u8>>,
    test: Option<AttributeView>,
    parent: Seq<usize>,
)
    requires
        segments.len() == 0,
    ensures
        locate_forest(nodes, segments, test, parent) == Seq::<Seq<usize>>::empty(),
    decreases nodes.len(),
{
    if nodes.len() != 0 {
        lemma_no_names(nodes.drop_last(), segments, test, parent);
        let here = parent.push((nodes.len() - 1) as usize);
        match nodes.last() {
            NodeView::Element { name, attributes, children } => {
                assert(locate_node(nodes.last(), segments, test, here) =~= Seq::<Seq<usize>>::empty());
            },
            _ => {},
        }
    }
}

} // verus!
