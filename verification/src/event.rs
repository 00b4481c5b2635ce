//! The XML events that carry literal content: what stands in a patch file
//! between an instruction's start and end tag, and what a document is read
//! from and written as.

use crate::bytes::{copy_bytes, push_bytes};
use vstd::prelude::*;

verus! {

/// One attribute of a start tag: a key and its value.
#[derive(Debug, Clone, PartialEq, Eq)]
pub struct Attribute {
    pub key: Vec<u8>,
    pub value: Vec<u8>,
}

/// The mathematical value of an [`Attribute`].
pub struct AttributeView {
    pub key: Seq<u8>,
    pub value: Seq<u8>,
}

impl View for Attribute {
    type V = AttributeView;

    open spec fn view(&self) -> AttributeView {
        AttributeView { key: self.key@, value: self.value@ }
    }
}

/// The views of a sequence of attributes.
pub open spec fn attribute_views(attributes: Seq<Attribute>) -> Seq<AttributeView> {
    attributes.map_values(|a: Attribute| a@)
}

/// One event of an XML stream.
#[derive(Debug, Clone, PartialEq, Eq)]
pub enum XmlEvent {
    /// `<name key="value">`
    Start { name: Vec<u8>, attributes: Vec<Attribute> },
    /// `</name>`
    End { name: Vec<u8> },
    /// `<name key="value"/>`
    Empty { name: Vec<u8>, attributes: Vec<Attribute> },
    /// Character data, unescaped.
    Text { data: Vec<u8> },
    /// `<!--data-->`
    Comment { data: Vec<u8> },
}

/// The mathematical value of an [`XmlEvent`].
pub enum EventView {
    Start { name: Seq<u8>, attributes: Seq<AttributeView> },
    End { name: Seq<u8> },
    Empty { name: Seq<u8>, attributes: Seq<AttributeView> },
    Text { data: Seq<u8> },
    Comment { data: Seq<u8> },
}

impl View for XmlEvent {
    type V = EventView;

    open spec fn view(&self) -> EventView {
        match self {
            XmlEvent::Start { name, attributes } => EventView::Start {
                name: name@,
                attributes: attribute_views(attributes@),
            },
            XmlEvent::End { name } => EventView::End { name: name@ },
            XmlEvent::Empty { name, attributes } => EventView::Empty {
                name: name@,
                attributes: attribute_views(attributes@),
            },
            XmlEvent::Text { data } => EventView::Text { data: data@ },
            XmlEvent::Comment { data } => EventView::Comment { data: data@ },
        }
    }
}

/// The views of a sequence of events.
pub open spec fn event_views(events: Seq<XmlEvent>) -> Seq<EventView> {
    events.map_values(|e: XmlEvent| e@)
}

/// One attribute as it stands in a tag: a space, the key, `="`, the value, `"`.
pub open spec fn attribute_text(a: AttributeView) -> Seq<u8> {
    seq![0x20u8] + a.key + seq![0x3du8, 0x22u8] + a.value + seq![0x22u8]
}

/// The attributes of a tag as they stand in it, in order.
pub open spec fn attributes_text(attributes: Seq<AttributeView>) -> Seq<u8>
    decreases attributes.len(),
{
    if attributes.len() == 0 {
        Seq::empty()
    } else {
        attributes_text(attributes.drop_last()) + attribute_text(attributes.last())
    }
}

/// The text that an event holds: for a tag what stands between its angle
/// brackets, for text and comments their data.
pub open spec fn event_content(event: EventView) -> Seq<u8> {
    match event {
        EventView::Start { name, attributes } => name + attributes_text(attributes),
        EventView::End { name } => name,
        EventView::Empty { name, attributes } => name + attributes_text(attributes),
        EventView::Text { data } => data,
        EventView::Comment { data } => data,
    }
}

impl Attribute {
    /// A copy of this attribute.
    pub fn duplicate(&self) -> (copy: Attribute)
        ensures
            copy@ == self@,
    {
        Attribute { key: copy_bytes(self.key.as_slice()), value: copy_bytes(self.value.as_slice()) }
    }
}

/// A copy of a list of attributes.
pub fn duplicate_attributes(attributes: &Vec<Attribute>) -> (copy: Vec<Attribute>)
    ensures
        attribute_views(copy@) == attribute_views(attributes@),
{
    let mut copy: Vec<Attribute> = Vec::new();
    let mut i: usize = 0;
    while i < attributes.len()
        invariant
            i <= attributes.len(),
            copy.len() == i,
            forall|j: int| 0 <= j < i ==> copy@[j]@ == attributes@[j]@,
        decreases attributes.len() - i,
    {
        copy.push(attributes[i].duplicate());
        i += 1;
    }
    copy
}

/// Writes the attributes as they stand in a tag.
pub fn push_attributes_text(out: &mut Vec<u8>, attributes: &Vec<Attribute>)
    ensures
        final(out)@ == old(out)@ + attributes_text(attribute_views(attributes@)),
{
    let ghost all = attribute_views(attributes@);
    let mut i: usize = 0;
    while i < attributes.len()
        invariant
            i <= attributes.len(),
            all == attribute_views(attributes@),
            out@ == old(out)@ + attributes_text(all.take(i as int)),
        decreases attributes.len() - i,
    {
        let ghost upto = all.take(i as int + 1);
        assert(upto.drop_last() =~= all.take(i as int));
        out.push(0x20u8);
        push_bytes(out, attributes[i].key.as_slice());
        out.push(0x3du8);
        out.push(0x22u8);
        push_bytes(out, attributes[i].value.as_slice());
        out.push(0x22u8);
        i += 1;
    }
    assert(all.take(attributes.len() as int) =~= all);
}

impl XmlEvent {
    /// A copy of this event.
    pub fn duplicate(&self) -> (copy: XmlEvent)
        ensures
            copy@ == self@,
    {
        match self {
            XmlEvent::Start { name, attributes } => XmlEvent::Start {
                name: copy_bytes(name.as_slice()),
                attributes: duplicate_attributes(attributes),
            },
            XmlEvent::End { name } => XmlEvent::End { name: copy_bytes(name.as_slice()) },
            XmlEvent::Empty { name, attributes } => XmlEvent::Empty {
                name: copy_bytes(name.as_slice()),
                attributes: duplicate_attributes(attributes),
            },
            XmlEvent::Text { data } => XmlEvent::Text { data: copy_bytes(data.as_slice()) },
            XmlEvent::Comment { data } => XmlEvent::Comment { data: copy_bytes(data.as_slice()) },
        }
    }

    /// The text that this event holds: for a tag its name and attributes, for
    /// text and comments their data.
    pub fn content(&self) -> (out: Vec<u8>)
        ensures
            out@ == event_content(self@),
    {
        match self {
            XmlEvent::Start { name, attributes } => {
                let mut out = copy_bytes(name.as_slice());
                push_attributes_text(&mut out, attributes);
                out
            },
            XmlEvent::End { name } => copy_bytes(name.as_slice()),
            XmlEvent::Empty { name, attributes } => {
                let mut out = copy_bytes(name.as_slice());
                push_attributes_text(&mut out, attributes);
                out
            },
            XmlEvent::Text { data } => copy_bytes(data.as_slice()),
            XmlEvent::Comment { data } => copy_bytes(data.as_slice()),
        }
    }
}

/// A copy of a list of events.
pub fn duplicate_events(events: &Vec<XmlEvent>) -> (copy: Vec<XmlEvent>)
    ensures
        event_views(copy@) == event_views(events@),
{
    let mut copy: Vec<XmlEvent> = Vec::new();
    let mut i: usize = 0;
    while i < events.len()
        invariant
            i <= events.len(),
            copy.len() == i,
            forall|j: int| 0 <= j < i ==> copy@[j]@ == events@[j]@,
        decreases events.len() - i,
    {
        copy.push(events[i].duplicate());
        i += 1;
    }
    copy
}

} // verus!
