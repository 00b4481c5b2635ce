//! The XML text of events, written by `quick_xml`.
//!
//! Each function here makes one call into `quick_xml` and states what that
//! call returns; none of these contracts is proved. The writer is used
//! without indentation, so that it adds nothing between events.

use crate::event::{attribute_views, attributes_text, Attribute, AttributeView};
use vstd::prelude::*;
use vstd::string::StringSliceAdditionalSpecFns;

verus! {

pub const LESS_THAN: u8 = 0x3c;

pub const GREATER_THAN: u8 = 0x3e;

pub const AMPERSAND: u8 = 0x26;

pub const APOSTROPHE: u8 = 0x27;

pub const QUOTATION_MARK: u8 = 0x22;

/// What stands in escaped text for one byte of the raw text: `&lt;` for `<`,
/// `&gt;` for `>`, `&amp;` for `&`, `&apos;` for `'`, `&quot;` for `"`, and
/// the byte itself for every other byte.
pub open spec fn escaped_byte(b: u8) -> Seq<u8> {
    if b == LESS_THAN {
        seq![0x26u8, 0x6c, 0x74, 0x3b]
    } else if b == GREATER_THAN {
        seq![0x26u8, 0x67, 0x74, 0x3b]
    } else if b == AMPERSAND {
        seq![0x26u8, 0x61, 0x6d, 0x70, 0x3b]
    } else if b == APOSTROPHE {
        seq![0x26u8, 0x61, 0x70, 0x6f, 0x73, 0x3b]
    } else if b == QUOTATION_MARK {
        seq![0x26u8, 0x71, 0x75, 0x6f, 0x74, 0x3b]
    } else {
        seq![b]
    }
}

/// The escaped form of a text: each byte replaced by what stands for it.
pub open spec fn escaped(raw: Seq<u8>) -> Seq<u8>
    decreases raw.len(),
{
    if raw.len() == 0 {
        Seq::empty()
    } else {
        escaped(raw.drop_last()) + escaped_byte(raw.last())
    }
}

/// `<name key="value">`
pub open spec fn open_tag_text(name: Seq<u8>, attributes: Seq<AttributeView>) -> Seq<u8> {
    seq![LESS_THAN] + name + attributes_text(attributes) + seq![GREATER_THAN]
}

/// `<name key="value"/>`
pub open spec fn empty_tag_text(name: Seq<u8>, attributes: Seq<AttributeView>) -> Seq<u8> {
    seq![LESS_THAN] + name + attributes_text(attributes) + seq![0x2fu8, GREATER_THAN]
}

/// `</name>`
pub open spec fn close_tag_text(name: Seq<u8>) -> Seq<u8> {
    seq![LESS_THAN, 0x2fu8] + name + seq![GREATER_THAN]
}

/// `<!--data-->`
pub open spec fn comment_text(data: Seq<u8>) -> Seq<u8> {
    seq![LESS_THAN, 0x21u8, 0x2d, 0x2d] + data + seq![0x2du8, 0x2d, GREATER_THAN]
}

/// `quick_xml::escape::escape`, which `BytesText::new` applies to its
/// content: it replaces the five special characters of XML by their
/// entities and copies everything else.
#[verifier::external_body]
pub(crate) fn escape(raw: &str) -> (out: Vec<u8>)
    ensures
        out@ == escaped(raw.spec_bytes()),
{
    quick_xml::escape::escape(raw).into_owned().into_bytes()
}

/// `Writer::write_event` on a start tag made by `BytesStart::new` and
/// `BytesStart::with_attributes`: `<`, the name, then for each attribute a
/// space, the key, `="`, the value as it is given, `"`, and `>`.
#[verifier::external_body]
pub(crate) fn open_tag(name: &str, attributes: &Vec<Attribute>) -> (out: Vec<u8>)
    ensures
        out@ == open_tag_text(name.spec_bytes(), attribute_views(attributes@)),
{
    let pairs = attributes.iter().map(|a| (a.key.as_slice(), a.value.as_slice()));
    let tag = quick_xml::events::BytesStart::new(name).with_attributes(pairs);
    let mut writer = quick_xml::Writer::new(Vec::new());
    let _ = writer.write_event(quick_xml::events::Event::Start(tag));
    writer.into_inner()
}

/// `Writer::write_event` on an empty-element tag made by `BytesStart::new`
/// and `BytesStart::with_attributes`: as a start tag, but closed by `/>`.
#[verifier::external_body]
pub(crate) fn empty_tag(name: &str, attributes: &Vec<Attribute>) -> (out: Vec<u8>)
    ensures
        out@ == empty_tag_text(name.spec_bytes(), attribute_views(attributes@)),
{
    let pairs = attributes.iter().map(|a| (a.key.as_slice(), a.value.as_slice()));
    let tag = quick_xml::events::BytesStart::new(name).with_attributes(pairs);
    let mut writer = quick_xml::Writer::new(Vec::new());
    let _ = writer.write_event(quick_xml::events::Event::Empty(tag));
    writer.into_inner()
}

/// `Writer::write_event` on an end tag made by `BytesEnd::new`: `</`, the
/// name, `>`.
#[verifier::external_body]
pub(crate) fn close_tag(name: &str) -> (out: Vec<u8>)
    ensures
        out@ == close_tag_text(name.spec_bytes()),
{
    let mut writer = quick_xml::Writer::new(Vec::new());
    let _ = writer.write_event(
        quick_xml::events::Event::End(quick_xml::events::BytesEnd::new(name)),
    );
    writer.into_inner()
}

/// `Writer::write_event` on a comment made by `BytesText::from_escaped`:
/// `<!--`, the data as it is given, `-->`.
#[verifier::external_body]
pub(crate) fn comment(data: &str) -> (out: Vec<u8>)
    ensures
        out@ == comment_text(data.spec_bytes()),
{
    let mut writer = quick_xml::Writer::new(Vec::new());
    let _ = writer.write_event(
        quick_xml::events::Event::Comment(quick_xml::events::BytesText::from_escaped(data)),
    );
    writer.into_inner()
}

} // verus!
