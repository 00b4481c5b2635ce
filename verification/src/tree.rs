//! The document tree: elements with attributes and children, text and
//! comments, and the passage between a tree and the flat stream of events
//! that it is read from and written as.

use crate::bytes::{bytes_eq, copy_bytes};
use crate::event::{
    attribute_views, duplicate_attributes, event_views, Attribute, AttributeView, EventView,
    XmlEvent,
};
use vstd::prelude::*;

verus! {

/// One node of a document.
#[derive(Debug, PartialEq, Eq)]
pub enum Node {
    Element { name: Vec<u8>, attributes: Vec<Attribute>, children: Vec<Node> },
    Text { data: Vec<u8> },
    Comment { data: Vec<u8> },
}

/// The mathematical value of a [`Node`].
pub enum NodeView {
    Element { name: Seq<u8>, attributes: Seq<AttributeView>, children: Seq<NodeView> },
    Text { data: Seq<u8> },
    Comment { data: Seq<u8> },
}

/// The mathematical value of a node.
pub open spec fn node_view(node: Node) -> NodeView
    decreases node,
{
    match node {
        Node::Element { name, attributes, children } => {
            proof {
                broadcast use vstd::std_specs::vec::axiom_vec_decreases_to_view;

            }
            NodeView::Element {
                name: name@,
                attributes: attribute_views(attributes@),
                children: node_views(children@),
            }
        },
        Node::Text { data } => NodeView::Text { data: data@ },
        Node::Comment { data } => NodeView::Comment { data: data@ },
    }
}

/// The mathematical values of a sequence of nodes, in order.
pub open spec fn node_views(nodes: Seq<Node>) -> Seq<NodeView>
    decreases nodes,
{
    if nodes.len() == 0 {
        Seq::empty()
    } else {
        proof {
            broadcast use vstd::seq::axiom_seq_subrange_decreases;

        }
        node_views(nodes.drop_last()).push(node_view(nodes.last()))
    }
}

impl View for Node {
    type V = NodeView;

    open spec fn view(&self) -> NodeView {
        node_view(*self)
    }
}

/// `node_views` maps `node_view` over the sequence.
pub proof fn lemma_node_views(nodes: Seq<Node>)
    ensures
        node_views(nodes).len() == nodes.len(),
        forall|i: int| 0 <= i < nodes.len() ==> #[trigger] node_views(nodes)[i] == node_view(nodes[i]),
    decreases nodes.len(),
{
    if nodes.len() != 0 {
        lemma_node_views(nodes.drop_last());
    }
}

/// The views of a sequence with one more node at its end.
pub proof fn lemma_node_views_push(nodes: Seq<Node>, node: Node)
    ensures
        node_views(nodes.push(node)) == node_views(nodes).push(node_view(node)),
{
    assert(nodes.push(node).drop_last() =~= nodes);
}

/// The views of two sequences of nodes, one after the other.
pub proof fn lemma_node_views_concat(a: Seq<Node>, b: Seq<Node>)
    ensures
        node_views(a + b) == node_views(a) + node_views(b),
{
    lemma_node_views(a);
    lemma_node_views(b);
    lemma_node_views(a + b);
}

/// An element that is still open while a stream of events is read: its tag,
/// and the children read so far. The lowest frame of the stack stands for
/// the document itself and has no tag.
pub struct FrameView {
    pub name: Seq<u8>,
    pub attributes: Seq<AttributeView>,
    pub children: Seq<NodeView>,
}

/// The stack before anything is read: the document, with no nodes yet.
pub open spec fn ground() -> Seq<FrameView> {
    seq![FrameView { name: Seq::empty(), attributes: Seq::empty(), children: Seq::empty() }]
}

/// The stack with one more child under its innermost open element.
pub open spec fn add_child(stack: Seq<FrameView>, node: NodeView) -> Seq<FrameView>
    recommends
        stack.len() >= 1,
{
    stack.update(
        stack.len() - 1,
        FrameView { children: stack.last().children.push(node), ..stack.last() },
    )
}

/// The stack with more children under its innermost open element.
pub open spec fn add_children(stack: Seq<FrameView>, nodes: Seq<NodeView>) -> Seq<FrameView>
    recommends
        stack.len() >= 1,
{
    stack.update(
        stack.len() - 1,
        FrameView { children: stack.last().children + nodes, ..stack.last() },
    )
}

/// The stack after one event, or `None` where the event closes an element
/// that is not the innermost open one.
pub open spec fn feed(stack: Seq<FrameView>, event: EventView) -> Option<Seq<FrameView>>
    recommends
        stack.len() >= 1,
{
    match event {
        EventView::Start { name, attributes } => Some(
            stack.push(FrameView { name, attributes, children: Seq::empty() }),
        ),
        EventView::Empty { name, attributes } => Some(
            add_child(stack, NodeView::Element { name, attributes, children: Seq::empty() }),
        ),
        EventView::Text { data } => Some(add_child(stack, NodeView::Text { data })),
        EventView::Comment { data } => Some(add_child(stack, NodeView::Comment { data })),
        EventView::End { name } => if stack.len() >= 2 && stack.last().name == name {
            Some(
                add_child(
                    stack.drop_last(),
                    NodeView::Element {
                        name: stack.last().name,
                        attributes: stack.last().attributes,
                        children: stack.last().children,
                    },
                ),
            )
        } else {
            None
        },
    }
}

/// The stack after a run of events, or `None` where one of them cannot be fed.
pub open spec fn feed_all(stack: Seq<FrameView>, events: Seq<EventView>) -> Option<Seq<FrameView>>
    decreases events.len(),
{
    if events.len() == 0 {
        Some(stack)
    } else {
        match feed_all(stack, events.drop_last()) {
            Some(s) => feed(s, events.last()),
            None => None,
        }
    }
}

/// The nodes that a stream of events spells, or `None` where the stream is
/// not balanced: an end tag without its start tag, an end tag with another
/// name than the open element, or an element left open at the end.
pub open spec fn forest_of(events: Seq<EventView>) -> Option<Seq<NodeView>> {
    match feed_all(ground(), events) {
        Some(stack) => if stack.len() == 1 {
            Some(stack[0].children)
        } else {
            None
        },
        None => None,
    }
}

/// The events that spell a node. An element without children is spelled as
/// one empty-element tag.
pub open spec fn events_of(node: NodeView) -> Seq<EventView>
    decreases node,
{
    match node {
        NodeView::Element { name, attributes, children } => if children.len() == 0 {
            seq![EventView::Empty { name, attributes }]
        } else {
            seq![EventView::Start { name, attributes }] + events_of_forest(children)
                + seq![EventView::End { name }]
        },
        NodeView::Text { data } => seq![EventView::Text { data }],
        NodeView::Comment { data } => seq![EventView::Comment { data }],
    }
}

/// The events that spell a sequence of nodes, in order.
pub open spec fn events_of_forest(nodes: Seq<NodeView>) -> Seq<EventView>
    decreases nodes,
{
    if nodes.len() == 0 {
        Seq::empty()
    } else {
        proof {
            broadcast use vstd::seq::axiom_seq_subrange_decreases;

        }
        events_of_forest(nodes.drop_last()) + events_of(nodes.last())
    }
}

/// Feeding two runs of events one after the other is feeding their
/// concatenation.
pub proof fn lemma_feed_all_concat(stack: Seq<FrameView>, a: Seq<EventView>, b: Seq<EventView>)
    ensures
        feed_all(stack, a + b) == match feed_all(stack, a) {
            Some(s) => feed_all(s, b),
            None => None,
        },
    decreases b.len(),
{
    if b.len() != 0 {
        lemma_feed_all_concat(stack, a, b.drop_last());
        assert((a + b).drop_last() =~= a + b.drop_last());
    }
}

/// Once a prefix of the events cannot be fed, the whole cannot.
pub proof fn lemma_feed_all_prefix(stack: Seq<FrameView>, events: Seq<EventView>, k: int)
    requires
        0 <= k <= events.len(),
        feed_all(stack, events.take(k)) is None,
    ensures
        feed_all(stack, events) is None,
{
    lemma_feed_all_concat(stack, events.take(k), events.skip(k));
    assert(events.take(k) + events.skip(k) =~= events);
}

/// The events of two runs of nodes, one after the other.
pub proof fn lemma_events_of_forest_concat(a: Seq<NodeView>, b: Seq<NodeView>)
    ensures
        events_of_forest(a + b) == events_of_forest(a) + events_of_forest(b),
    decreases b.len(),
{
    if b.len() == 0 {
        assert(a + b =~= a);
        assert(events_of_forest(a) + events_of_forest(b) =~= events_of_forest(a));
    } else {
        lemma_events_of_forest_concat(a, b.drop_last());
        assert((a + b).drop_last() =~= a + b.drop_last());
        assert(events_of_forest(a + b) =~= events_of_forest(a) + events_of_forest(b));
    }
}

/// One node alone is spelled as `events_of` spells it.
pub proof fn lemma_events_of_one(node: NodeView)
    ensures
        events_of_forest(seq![node]) == events_of(node),
{
    let one = seq![node];
    assert(one.drop_last() =~= Seq::<NodeView>::empty());
    assert(events_of_forest(one.drop_last()) =~= Seq::<EventView>::empty());
    assert(Seq::<EventView>::empty() + events_of(node) =~= events_of(node));
}

/// Feeding one event alone is one step.
pub proof fn lemma_feed_all_one(stack: Seq<FrameView>, event: EventView)
    ensures
        feed_all(stack, seq![event]) == feed(stack, event),
{
    let one = seq![event];
    assert(feed_all(stack, one.drop_last()) == Some(stack));
}

/// Feeding the events of a node adds that node under the innermost open
/// element.
pub proof fn lemma_feed_events_of(stack: Seq<FrameView>, node: NodeView)
    requires
        stack.len() >= 1,
    ensures
        feed_all(stack, events_of(node)) == Some(add_child(stack, node)),
    decreases node, 0nat,
{
    match node {
        NodeView::Element { name, attributes, children } => {
            if children.len() == 0 {
                lemma_feed_all_one(stack, EventView::Empty { name, attributes });
                assert(children =~= Seq::<NodeView>::empty());
            } else {
                let start = seq![EventView::Start { name, attributes }];
                let inner = events_of_forest(children);
                let end = seq![EventView::End { name }];
                let opened = stack.push(FrameView { name, attributes, children: Seq::empty() });
                lemma_feed_all_one(stack, EventView::Start { name, attributes });
                lemma_feed_events_of_forest(opened, children);
                lemma_feed_all_concat(stack, start, inner);
                let filled = add_children(opened, children);
                lemma_feed_all_concat(stack, start + inner, end);
                lemma_feed_all_one(filled, EventView::End { name });
            }
        },
        NodeView::Text { data } => {
            lemma_feed_all_one(stack, EventView::Text { data });
        },
        NodeView::Comment { data } => {
            lemma_feed_all_one(stack, EventView::Comment { data });
        },
    }
}

/// Feeding the events of a sequence of nodes adds those nodes, in order,
/// under the innermost open element.
pub proof fn lemma_feed_events_of_forest(stack: Seq<FrameView>, nodes: Seq<NodeView>)
    requires
        stack.len() >= 1,
    ensures
        feed_all(stack, events_of_forest(nodes)) == Some(add_children(stack, nodes)),
    decreases nodes, 1nat,
{
    if nodes.len() != 0 {
        broadcast use vstd::seq::axiom_seq_subrange_decreases;

        let init = nodes.drop_last();
        lemma_feed_events_of_forest(stack, init);
        let mid = add_children(stack, init);
        lemma_feed_events_of(mid, nodes.last());
        lemma_feed_all_concat(stack, events_of_forest(init), events_of(nodes.last()));
        assert(stack.last().children + nodes =~= (stack.last().children + init).push(
            nodes.last(),
        ));
    }
}

/// Reading back the events that spell a sequence of nodes gives those nodes.
pub proof fn lemma_forest_round_trip(nodes: Seq<NodeView>)
    ensures
        forest_of(events_of_forest(nodes)) == Some(nodes),
{
    lemma_feed_events_of_forest(ground(), nodes);
}

/// An element that is still open while events are read.
struct Frame {
    name: Vec<u8>,
    attributes: Vec<Attribute>,
    children: Vec<Node>,
}

spec fn frame_view(frame: Frame) -> FrameView {
    FrameView {
        name: frame.name@,
        attributes: attribute_views(frame.attributes@),
        children: node_views(frame.children@),
    }
}

spec fn frame_views(frames: Seq<Frame>) -> Seq<FrameView> {
    frames.map_values(|f: Frame| frame_view(f))
}

/// Puts a finished node under the innermost open element.
fn add_node(stack: &mut Vec<Frame>, node: Node)
    requires
        old(stack).len() >= 1,
    ensures
        final(stack).len() == old(stack).len(),
        frame_views(final(stack)@) == add_child(frame_views(old(stack)@), node@),
{
    let mut top = stack.pop().unwrap();
    proof {
        lemma_node_views_push(top.children@, node);
    }
    top.children.push(node);
    stack.push(top);
}

/// Builds the nodes that a stream of events spells. Fails exactly where the
/// stream is not balanced.
pub fn build_forest(events: &Vec<XmlEvent>) -> (forest: Option<Vec<Node>>)
    ensures
        match forest {
            Some(nodes) => forest_of(event_views(events@)) == Some(node_views(nodes@)),
            None => forest_of(event_views(events@)) is None,
        },
{
    let ghost all = event_views(events@);
    let mut stack: Vec<Frame> = Vec::new();
    stack.push(Frame { name: Vec::new(), attributes: Vec::new(), children: Vec::new() });
    proof {
        let bottom = frame_view(stack@[0]);
        assert(bottom.attributes =~= Seq::<AttributeView>::empty());
    }
    let mut i: usize = 0;
    while i < events.len()
        invariant
            i <= events.len(),
            all == event_views(events@),
            stack.len() >= 1,
            feed_all(ground(), all.take(i as int)) == Some(frame_views(stack@)),
        decreases events.len() - i,
    {
        let ghost upto = all.take(i as int + 1);
        assert(upto.drop_last() =~= all.take(i as int));
        match &events[i] {
            XmlEvent::Start { name, attributes } => {
                let frame = Frame {
                    name: copy_bytes(name.as_slice()),
                    attributes: duplicate_attributes(attributes),
                    children: Vec::new(),
                };
                stack.push(frame);
            },
            XmlEvent::Empty { name, attributes } => {
                let node = Node::Element {
                    name: copy_bytes(name.as_slice()),
                    attributes: duplicate_attributes(attributes),
                    children: Vec::new(),
                };
                add_node(&mut stack, node);
            },
            XmlEvent::Text { data } => {
                add_node(&mut stack, Node::Text { data: copy_bytes(data.as_slice()) });
            },
            XmlEvent::Comment { data } => {
                add_node(&mut stack, Node::Comment { data: copy_bytes(data.as_slice()) });
            },
            XmlEvent::End { name } => {
                if stack.len() < 2 {
                    proof {
                        lemma_feed_all_prefix(ground(), all, i as int + 1);
                    }
                    return None;
                }
                let top = stack.pop().unwrap();
                if !bytes_eq(top.name.as_slice(), name.as_slice()) {
                    proof {
                        lemma_feed_all_prefix(ground(), all, i as int + 1);
                    }
                    return None;
                }
                let node = Node::Element {
                    name: top.name,
                    attributes: top.attributes,
                    children: top.children,
                };
                add_node(&mut stack, node);
            },
        }
        i += 1;
    }
    assert(all.take(events.len() as int) =~= all);
    if stack.len() == 1 {
        let frame = stack.pop().unwrap();
        Some(frame.children)
    } else {
        None
    }
}

impl Clone for Node {
    fn clone(&self) -> (copy: Node)
        ensures
            copy@ == self@,
    {
        self.duplicate()
    }
}

impl Node {
    /// A copy of this node and of everything under it.
    pub fn duplicate(&self) -> (copy: Node)
        ensures
            copy@ == self@,
        decreases self,
    {
        match self {
            Node::Element { name, attributes, children } => Node::Element {
                name: copy_bytes(name.as_slice()),
                attributes: duplicate_attributes(attributes),
                children: duplicate_nodes(children),
            },
            Node::Text { data } => Node::Text { data: copy_bytes(data.as_slice()) },
            Node::Comment { data } => Node::Comment { data: copy_bytes(data.as_slice()) },
        }
    }

    /// Appends the events that spell this node.
    pub fn push_events(&self, out: &mut Vec<XmlEvent>)
        ensures
            event_views(final(out)@) == event_views(old(out)@) + events_of(self@),
        decreases self,
    {
        match self {
            Node::Element { name, attributes, children } => {
                proof {
                    lemma_node_views(children@);
                }
                if children.len() == 0 {
                    out.push(
                        XmlEvent::Empty {
                            name: copy_bytes(name.as_slice()),
                            attributes: duplicate_attributes(attributes),
                        },
                    );
                } else {
                    out.push(
                        XmlEvent::Start {
                            name: copy_bytes(name.as_slice()),
                            attributes: duplicate_attributes(attributes),
                        },
                    );
                    push_forest_events(children, out);
                    let ghost filled = event_views(out@);
                    out.push(XmlEvent::End { name: copy_bytes(name.as_slice()) });
                    assert(event_views(out@) =~= filled + seq![EventView::End { name: name@ }]);
                }
            },
            Node::Text { data } => {
                out.push(XmlEvent::Text { data: copy_bytes(data.as_slice()) });
            },
            Node::Comment { data } => {
                out.push(XmlEvent::Comment { data: copy_bytes(data.as_slice()) });
            },
        }
    }
}

/// A copy of a sequence of nodes.
pub fn duplicate_nodes(nodes: &Vec<Node>) -> (copy: Vec<Node>)
    ensures
        node_views(copy@) == node_views(nodes@),
    decreases nodes,
{
    let mut copy: Vec<Node> = Vec::new();
    let mut i: usize = 0;
    while i < nodes.len()
        invariant
            i <= nodes.len(),
            copy.len() == i,
            forall|j: int| 0 <= j < i ==> node_view(copy@[j]) == node_view(nodes@[j]),
        decreases nodes.len() - i,
    {
        let node = nodes[i].duplicate();
        copy.push(node);
        i += 1;
    }
    proof {
        lemma_node_views(copy@);
        lemma_node_views(nodes@);
    }
    copy
}

/// Appends the events that spell a sequence of nodes, in order.
pub fn push_forest_events(nodes: &Vec<Node>, out: &mut Vec<XmlEvent>)
    ensures
        event_views(final(out)@) == event_views(old(out)@) + events_of_forest(node_views(nodes@)),
    decreases nodes,
{
    let ghost all = node_views(nodes@);
    proof {
        lemma_node_views(nodes@);
    }
    let mut i: usize = 0;
    while i < nodes.len()
        invariant
            i <= nodes.len(),
            all == node_views(nodes@),
            all.len() == nodes.len(),
            forall|j: int| 0 <= j < nodes.len() ==> #[trigger] all[j] == node_view(nodes@[j]),
            event_views(out@) == event_views(old(out)@) + events_of_forest(all.take(i as int)),
        decreases nodes.len() - i,
    {
        let ghost upto = all.take(i as int + 1);
        assert(upto.drop_last() =~= all.take(i as int));
        nodes[i].push_events(out);
        i += 1;
    }
    assert(all.take(nodes.len() as int) =~= all);
}

/// A document: its top-level nodes, in order. The root element is the first
/// element among them.
#[derive(Debug, Clone, PartialEq, Eq)]
pub struct Document {
    pub nodes: Vec<Node>,
}

impl View for Document {
    type V = Seq<NodeView>;

    open spec fn view(&self) -> Seq<NodeView> {
        node_views(self.nodes@)
    }
}

impl Document {
    /// Builds the document that a stream of events spells. Fails exactly
    /// where the stream is not balanced.
    pub fn from_events(events: &Vec<XmlEvent>) -> (document: Option<Document>)
        ensures
            match document {
                Some(d) => forest_of(event_views(events@)) == Some(d@),
                None => forest_of(event_views(events@)) is None,
            },
    {
        match build_forest(events) {
            Some(nodes) => Some(Document { nodes }),
            None => None,
        }
    }

    /// The events that spell this document.
    pub fn to_events(&self) -> (events: Vec<XmlEvent>)
        ensures
            event_views(events@) == events_of_forest(self@),
    {
        let mut events: Vec<XmlEvent> = Vec::new();
        push_forest_events(&self.nodes, &mut events);
        events
    }

    /// A copy of this document.
    pub fn duplicate(&self) -> (copy: Document)
        ensures
            copy@ == self@,
    {
        Document { nodes: duplicate_nodes(&self.nodes) }
    }
}

} // verus!
