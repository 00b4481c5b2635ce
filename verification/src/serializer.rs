//! The serializer: the XML text of a stream of events and of a document.
//!
//! A document is written as the events that spell it, one after the other
//! and with nothing between them: no indentation is added and none is taken
//! away, so text nodes keep the white space that they hold. An element
//! without children is written as one empty-element tag. Attributes keep
//! their order; their values and the text nodes are escaped, comments are
//! written as they are.
//!
//! Names, attribute values, text and comments must be UTF-8; a document or
//! event that holds anything else has no text.

use crate::bytes::{copy_bytes, push_bytes};
use crate::event::{
    attribute_views, event_views, Attribute, AttributeView, EventView, XmlEvent,
};
use crate::text::utf8_str;
use crate::tree::{
    events_of_forest, lemma_events_of_forest_concat, lemma_events_of_one, Document, NodeView,
};
use crate::xml::{
    close_tag, close_tag_text, comment, comment_text, empty_tag, empty_tag_text, escape, escaped,
    open_tag, open_tag_text,
};
use vstd::prelude::*;
use vstd::utf8::valid_utf8;

verus! {

/// Whether every value among the attributes is UTF-8.
pub open spec fn values_are_text(attributes: Seq<AttributeView>) -> bool {
    forall|i: int| 0 <= i < attributes.len() ==> valid_utf8((#[trigger] attributes[i]).value)
}

/// The attributes with their values escaped.
pub open spec fn escaped_attributes(attributes: Seq<AttributeView>) -> Seq<AttributeView> {
    attributes.map_values(|a: AttributeView| AttributeView { key: a.key, value: escaped(a.value) })
}

/// Whether an event has a text: its name, its attribute values or its data
/// are UTF-8.
pub open spec fn event_is_text(event: EventView) -> bool {
    match event {
        EventView::Start { name, attributes } => valid_utf8(name) && values_are_text(attributes),
        EventView::End { name } => valid_utf8(name),
        EventView::Empty { name, attributes } => valid_utf8(name) && values_are_text(attributes),
        EventView::Text { data } => valid_utf8(data),
        EventView::Comment { data } => valid_utf8(data),
    }
}

/// The XML text of one event.
pub open spec fn event_text(event: EventView) -> Seq<u8> {
    match event {
        EventView::Start { name, attributes } => open_tag_text(
            name,
            escaped_attributes(attributes),
        ),
        EventView::End { name } => close_tag_text(name),
        EventView::Empty { name, attributes } => empty_tag_text(
            name,
            escaped_attributes(attributes),
        ),
        EventView::Text { data } => escaped(data),
        EventView::Comment { data } => comment_text(data),
    }
}

/// Whether every event of a stream has a text.
pub open spec fn events_are_text(events: Seq<EventView>) -> bool {
    forall|i: int| 0 <= i < events.len() ==> event_is_text(#[trigger] events[i])
}

/// The XML text of a stream of events: the texts of the events, one after
/// the other.
pub open spec fn events_text(events: Seq<EventView>) -> Seq<u8>
    decreases events.len(),
{
    if events.len() == 0 {
        Seq::empty()
    } else {
        events_text(events.drop_last()) + event_text(events.last())
    }
}

/// Whether a document has a text: every event that spells it has one.
pub open spec fn document_is_text(nodes: Seq<NodeView>) -> bool {
    events_are_text(events_of_forest(nodes))
}

/// The XML text of a document: the text of the events that spell it.
pub open spec fn document_text(nodes: Seq<NodeView>) -> Seq<u8> {
    events_text(events_of_forest(nodes))
}

/// The text of two streams, one after the other.
pub proof fn lemma_events_text_concat(a: Seq<EventView>, b: Seq<EventView>)
    ensures
        events_text(a + b) == events_text(a) + events_text(b),
    decreases b.len(),
{
    if b.len() == 0 {
        assert(a + b =~= a);
        assert(events_text(a) + events_text(b) =~= events_text(a));
    } else {
        lemma_events_text_concat(a, b.drop_last());
        assert((a + b).drop_last() =~= a + b.drop_last());
        assert(events_text(a + b) =~= events_text(a) + events_text(b));
    }
}

/// The text of one event alone.
pub proof fn lemma_events_text_one(event: EventView)
    ensures
        events_text(seq![event]) == event_text(event),
{
    let one = seq![event];
    assert(one.drop_last() =~= Seq::<EventView>::empty());
    assert(events_text(one.drop_last()) =~= Seq::<u8>::empty());
    assert(Seq::<u8>::empty() + event_text(event) =~= event_text(event));
}

/// The text of a document is the texts of its nodes, one after the other.
pub proof fn lemma_document_text_concat(a: Seq<NodeView>, b: Seq<NodeView>)
    ensures
        document_text(a + b) == document_text(a) + document_text(b),
{
    lemma_events_of_forest_concat(a, b);
    lemma_events_text_concat(events_of_forest(a), events_of_forest(b));
}

/// The text of an element: one empty-element tag where it has no children,
/// else its start tag, the text of its children and its end tag. The text of
/// a text node is its escaped data, that of a comment the comment as it is.
pub proof fn lemma_node_text(node: NodeView)
    ensures
        document_text(seq![node]) == match node {
            NodeView::Element { name, attributes, children } => if children.len() == 0 {
                empty_tag_text(name, escaped_attributes(attributes))
            } else {
                open_tag_text(name, escaped_attributes(attributes)) + document_text(children)
                    + close_tag_text(name)
            },
            NodeView::Text { data } => escaped(data),
            NodeView::Comment { data } => comment_text(data),
        },
{
    lemma_events_of_one(node);
    match node {
        NodeView::Element { name, attributes, children } => {
            if children.len() == 0 {
                lemma_events_text_one(EventView::Empty { name, attributes });
            } else {
                let start = seq![EventView::Start { name, attributes }];
                let inner = events_of_forest(children);
                let end = seq![EventView::End { name }];
                lemma_events_text_concat(start + inner, end);
                lemma_events_text_concat(start, inner);
                lemma_events_text_one(EventView::Start { name, attributes });
                lemma_events_text_one(EventView::End { name });
            }
        },
        NodeView::Text { data } => {
            lemma_events_text_one(EventView::Text { data });
        },
        NodeView::Comment { data } => {
            lemma_events_text_one(EventView::Comment { data });
        },
    }
}

/// The attributes with their values escaped, or `None` where a value is not
/// UTF-8.
fn escape_attributes(attributes: &Vec<Attribute>) -> (out: Option<Vec<Attribute>>)
    ensures
        match out {
            Some(list) => values_are_text(attribute_views(attributes@)) && attribute_views(list@)
                == escaped_attributes(attribute_views(attributes@)),
            None => !values_are_text(attribute_views(attributes@)),
        },
{
    let ghost all = attribute_views(attributes@);
    let mut list: Vec<Attribute> = Vec::new();
    let mut i: usize = 0;
    while i < attributes.len()
        invariant
            i <= attributes.len(),
            all == attribute_views(attributes@),
            list.len() == i,
            forall|j: int| 0 <= j < i ==> valid_utf8((#[trigger] all[j]).value),
            forall|j: int|
                0 <= j < i ==> (#[trigger] list@[j])@ == (AttributeView {
                    key: all[j].key,
                    value: escaped(all[j].value),
                }),
        decreases attributes.len() - i,
    {
        match utf8_str(attributes[i].value.as_slice()) {
            Some(value) => {
                let escaped_value = escape(value);
                list.push(
                    Attribute { key: copy_bytes(attributes[i].key.as_slice()), value: escaped_value },
                );
            },
            None => {
                assert(!valid_utf8(all[i as int].value));
                return None;
            },
        }
        i += 1;
    }
    Some(list)
}

/// The XML text of one event, or `None` where the event has none.
pub fn render_event(event: &XmlEvent) -> (out: Option<Vec<u8>>)
    ensures
        match out {
            Some(text) => event_is_text(event@) && text@ == event_text(event@),
            None => !event_is_text(event@),
        },
{
    match event {
        XmlEvent::Start { name, attributes } => match utf8_str(name.as_slice()) {
            Some(name_text) => match escape_attributes(attributes) {
                Some(list) => Some(open_tag(name_text, &list)),
                None => None,
            },
            None => None,
        },
        XmlEvent::End { name } => match utf8_str(name.as_slice()) {
            Some(name_text) => Some(close_tag(name_text)),
            None => None,
        },
        XmlEvent::Empty { name, attributes } => match utf8_str(name.as_slice()) {
            Some(name_text) => match escape_attributes(attributes) {
                Some(list) => Some(empty_tag(name_text, &list)),
                None => None,
            },
            None => None,
        },
        XmlEvent::Text { data } => match utf8_str(data.as_slice()) {
            Some(text) => Some(escape(text)),
            None => None,
        },
        XmlEvent::Comment { data } => match utf8_str(data.as_slice()) {
            Some(text) => Some(comment(text)),
            None => None,
        },
    }
}

/// The XML text of a stream of events, or `None` where one of them has
/// none.
pub fn render_events(events: &Vec<XmlEvent>) -> (out: Option<Vec<u8>>)
    ensures
        match out {
            Some(text) => events_are_text(event_views(events@)) && text@ == events_text(
                event_views(events@),
            ),
            None => !events_are_text(event_views(events@)),
        },
{
    let ghost all = event_views(events@);
    let mut text: Vec<u8> = Vec::new();
    let mut i: usize = 0;
    while i < events.len()
        invariant
            i <= events.len(),
            all == event_views(events@),
            forall|j: int| 0 <= j < i ==> event_is_text(#[trigger] all[j]),
            text@ == events_text(all.take(i as int)),
        decreases events.len() - i,
    {
        let ghost upto = all.take(i as int + 1);
        assert(upto.drop_last() =~= all.take(i as int));
        assert(upto.last() == events@[i as int]@);
        match render_event(&events[i]) {
            Some(piece) => {
                push_bytes(&mut text, piece.as_slice());
            },
            None => {
                return None;
            },
        }
        i += 1;
    }
    assert(all.take(events.len() as int) =~= all);
    Some(text)
}

impl Document {
    /// The XML text of this document, or `None` where it has none.
    pub fn serialize(&self) -> (out: Option<Vec<u8>>)
        ensures
            match out {
                Some(text) => document_is_text(self@) && text@ == document_text(self@),
                None => !document_is_text(self@),
            },
    {
        let events = self.to_events();
        render_events(&events)
    }
}

} // verus!
