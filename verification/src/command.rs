//! The patch instruction model: one instruction of a patch file, its kind and
//! its operands.

use crate::bytes::{copy_bytes, join, push_bytes};
use crate::event::{
    attribute_views, event_content, event_views, Attribute, AttributeView, EventView, XmlEvent,
};
use crate::serializer::{events_are_text, events_text, render_events};
use crate::text::{chars_or_empty, str_eq, str_or_empty};
use crate::xml::{
    close_tag, close_tag_text, comment, comment_text, escape, escaped, open_tag, open_tag_text,
};
use vstd::prelude::*;
use vstd::string::{StrSliceExecFns, StringExecFns, StringSliceAdditionalSpecFns};
use vstd::utf8::encode_utf8;

verus! {

/// The edit that a `csv` instruction makes to a comma-separated value: one
/// member to add or to remove.
#[derive(Debug, Clone, Copy, PartialEq, Eq, Structural)]
pub enum CsvInstruction {
    Add(char),
    Remove(char),
}

/// The operands of an instruction.
#[derive(Debug, Clone, PartialEq)]
pub struct InstructionSet {
    /// The attribute that the instruction addresses, where it addresses one.
    pub attribute: Option<Vec<u8>>,
    /// The edit of a `csv` instruction.
    pub csv_op: Option<CsvInstruction>,
    /// The literal content that stood inside the instruction's element.
    pub values: Vec<XmlEvent>,
    /// The path expression that selects the nodes to edit.
    pub xpath: Vec<u8>,
}

/// The mathematical value of an [`InstructionSet`].
pub struct InstructionSetView {
    pub attribute: Option<Seq<u8>>,
    pub csv_op: Option<CsvInstruction>,
    pub values: Seq<EventView>,
    pub xpath: Seq<u8>,
}

impl InstructionSetView {
    /// The operands of an instruction that has none yet.
    pub open spec fn empty() -> InstructionSetView {
        InstructionSetView {
            attribute: None,
            csv_op: None,
            values: Seq::empty(),
            xpath: Seq::empty(),
        }
    }
}

impl View for InstructionSet {
    type V = InstructionSetView;

    open spec fn view(&self) -> InstructionSetView {
        InstructionSetView {
            attribute: match self.attribute {
                Some(a) => Some(a@),
                None => None,
            },
            csv_op: self.csv_op,
            values: event_views(self.values@),
            xpath: self.xpath@,
        }
    }
}

/// What the content of an instruction reads as: the text of each event, or
/// nothing for one that is not UTF-8, with commas between them.
pub open spec fn joined_text(values: Seq<EventView>) -> Seq<char> {
    join(values.map_values(|e: EventView| chars_or_empty(event_content(e))), ',')
}

impl Default for InstructionSet {
    fn default() -> (set: InstructionSet)
        ensures
            set@ == InstructionSetView::empty(),
    {
        let set = InstructionSet {
            attribute: None,
            csv_op: None,
            values: Vec::new(),
            xpath: Vec::new(),
        };
        assert(set@.values =~= Seq::<EventView>::empty());
        set
    }
}

impl InstructionSet {
    /// Operands with no path, no attribute and no content.
    pub fn new() -> (set: InstructionSet)
        ensures
            set@ == InstructionSetView::empty(),
    {
        InstructionSet::default()
    }

    /// The content read as one string: the text of each event, with commas
    /// between them. An event whose text is not UTF-8 reads as empty.
    pub fn values_to_string(&self) -> (text: String)
        ensures
            text@ == joined_text(self@.values),
    {
        let ghost pieces = self@.values.map_values(|e: EventView| chars_or_empty(event_content(e)));
        let mut text = String::new();
        let mut i: usize = 0;
        while i < self.values.len()
            invariant
                i <= self.values.len(),
                pieces == self@.values.map_values(|e: EventView| chars_or_empty(event_content(e))),
                text@ == join(pieces.take(i as int), ','),
            decreases self.values.len() - i,
        {
            let ghost upto = pieces.take(i as int + 1);
            assert(upto.drop_last() =~= pieces.take(i as int));
            let content = self.values[i].content();
            let piece = str_or_empty(content.as_slice());
            if i > 0 {
                proof {
                    reveal_strlit(",");
                }
                text.append(",");
            }
            text.append(piece);
            i += 1;
        }
        assert(pieces.take(self.values.len() as int) =~= pieces);
        text
    }
}

/// The attribute that carries the path of a written instruction.
pub open spec fn path_attribute(xpath: Seq<u8>) -> AttributeView {
    AttributeView { key: encode_utf8("xpath"@), value: xpath }
}

/// Why an instruction could not be written.
#[derive(Debug, Clone, Copy, PartialEq, Eq, Structural)]
pub enum WriteError {
    /// Part of the content is not UTF-8.
    NotUtf8,
}

/// The attribute list of a written instruction: its path.
fn path_attributes(xpath: &Vec<u8>) -> (list: Vec<Attribute>)
    ensures
        attribute_views(list@) == seq![path_attribute(xpath@)],
{
    let mut list: Vec<Attribute> = Vec::new();
    list.push(Attribute { key: "xpath".as_bytes_vec(), value: copy_bytes(xpath.as_slice()) });
    list
}

/// One instruction of a patch file.
#[derive(Debug, Clone, PartialEq)]
pub enum Command {
    Append(InstructionSet),
    Comment(String),
    Csv(InstructionSet),
    InsertAfter(InstructionSet),
    InsertBefore(InstructionSet),
    NoOp,
    Remove(InstructionSet),
    RemoveAttribute(InstructionSet),
    SetValue(InstructionSet),
    SetAttribute(InstructionSet),
    StartTag(Option<String>),
    Unknown,
}

/// The mathematical value of a [`Command`].
pub enum CommandView {
    Append(InstructionSetView),
    Comment(Seq<char>),
    Csv(InstructionSetView),
    InsertAfter(InstructionSetView),
    InsertBefore(InstructionSetView),
    NoOp,
    Remove(InstructionSetView),
    RemoveAttribute(InstructionSetView),
    SetValue(InstructionSetView),
    SetAttribute(InstructionSetView),
    StartTag(Option<Seq<char>>),
    Unknown,
}

impl View for Command {
    type V = CommandView;

    open spec fn view(&self) -> CommandView {
        match self {
            Command::Append(set) => CommandView::Append(set@),
            Command::Comment(text) => CommandView::Comment(text@),
            Command::Csv(set) => CommandView::Csv(set@),
            Command::InsertAfter(set) => CommandView::InsertAfter(set@),
            Command::InsertBefore(set) => CommandView::InsertBefore(set@),
            Command::NoOp => CommandView::NoOp,
            Command::Remove(set) => CommandView::Remove(set@),
            Command::RemoveAttribute(set) => CommandView::RemoveAttribute(set@),
            Command::SetValue(set) => CommandView::SetValue(set@),
            Command::SetAttribute(set) => CommandView::SetAttribute(set@),
            Command::StartTag(root) => CommandView::StartTag(
                match root {
                    Some(name) => Some(name@),
                    None => None,
                },
            ),
            Command::Unknown => CommandView::Unknown,
        }
    }
}

impl CommandView {
    /// The tag name that selects this kind of instruction.
    pub open spec fn tag(self) -> Seq<char> {
        match self {
            CommandView::Append(_) => "append"@,
            CommandView::Comment(_) => "comment"@,
            CommandView::Csv(_) => "csv"@,
            CommandView::InsertAfter(_) => "insert_after"@,
            CommandView::InsertBefore(_) => "insert_before"@,
            CommandView::NoOp => "no_op"@,
            CommandView::Remove(_) => "remove"@,
            CommandView::RemoveAttribute(_) => "remove_attribute"@,
            CommandView::SetValue(_) => "set"@,
            CommandView::SetAttribute(_) => "set_attribute"@,
            CommandView::StartTag(_) => "start_tag"@,
            CommandView::Unknown => "unknown"@,
        }
    }

    /// The instruction that a tag name stands for, with no operands yet.
    /// A name outside the closed set stands for `Unknown`.
    pub open spec fn for_tag(tag: Seq<char>) -> CommandView {
        if tag == "append"@ {
            CommandView::Append(InstructionSetView::empty())
        } else if tag == "comment"@ {
            CommandView::Comment(Seq::empty())
        } else if tag == "csv"@ {
            CommandView::Csv(InstructionSetView::empty())
        } else if tag == "insert_after"@ {
            CommandView::InsertAfter(InstructionSetView::empty())
        } else if tag == "insert_before"@ {
            CommandView::InsertBefore(InstructionSetView::empty())
        } else if tag == "no_op"@ {
            CommandView::NoOp
        } else if tag == "remove"@ {
            CommandView::Remove(InstructionSetView::empty())
        } else if tag == "remove_attribute"@ {
            CommandView::RemoveAttribute(InstructionSetView::empty())
        } else if tag == "set"@ {
            CommandView::SetValue(InstructionSetView::empty())
        } else if tag == "set_attribute"@ {
            CommandView::SetAttribute(InstructionSetView::empty())
        } else if tag == "start_tag"@ {
            CommandView::StartTag(None)
        } else {
            CommandView::Unknown
        }
    }

    /// The operands of this instruction, where its kind has any.
    pub open spec fn operands(self) -> Option<InstructionSetView> {
        match self {
            CommandView::Append(set) => Some(set),
            CommandView::Csv(set) => Some(set),
            CommandView::InsertAfter(set) => Some(set),
            CommandView::InsertBefore(set) => Some(set),
            CommandView::Remove(set) => Some(set),
            CommandView::RemoveAttribute(set) => Some(set),
            CommandView::SetValue(set) => Some(set),
            CommandView::SetAttribute(set) => Some(set),
            _ => None,
        }
    }

    /// Whether the operands fit the kind: a path for every kind that has
    /// operands, an attribute exactly where the kind addresses one (a `csv`
    /// instruction may address one or the element's text), and a `csv` edit
    /// exactly for a `csv` instruction.
    pub open spec fn well_formed(self) -> bool {
        match self {
            CommandView::RemoveAttribute(set) => set.xpath.len() > 0 && set.attribute is Some
                && set.csv_op is None,
            CommandView::SetAttribute(set) => set.xpath.len() > 0 && set.attribute is Some
                && set.csv_op is None,
            CommandView::Csv(set) => set.xpath.len() > 0 && set.csv_op is Some,
            _ => match self.operands() {
                Some(set) => set.xpath.len() > 0 && set.attribute is None && set.csv_op is None,
                None => true,
            },
        }
    }

    /// Whether this instruction can be written as XML: the content of an
    /// `append` holds only UTF-8. Every other kind can always be written.
    pub open spec fn has_text(self) -> bool {
        match self {
            CommandView::Append(set) => events_are_text(set.values),
            _ => true,
        }
    }

    /// The XML text of this instruction. An `append` is written as an
    /// element that holds its content, a `set` as an element that holds its
    /// content read as one escaped text, each with its path as the `xpath`
    /// attribute, written as it is; a comment is written as an XML comment.
    /// The other kinds have no text of their own.
    pub open spec fn written(self) -> Seq<u8> {
        match self {
            CommandView::Append(set) => open_tag_text(
                encode_utf8("append"@),
                seq![path_attribute(set.xpath)],
            ) + events_text(set.values) + close_tag_text(encode_utf8("append"@)),
            CommandView::Comment(text) => comment_text(encode_utf8(text)),
            CommandView::SetValue(set) => open_tag_text(
                encode_utf8("set"@),
                seq![path_attribute(set.xpath)],
            ) + escaped(encode_utf8(joined_text(set.values))) + close_tag_text(
                encode_utf8("set"@),
            ),
            _ => Seq::empty(),
        }
    }

    /// This instruction with its operands replaced. A comment takes the
    /// content as its text; the kinds without operands stay as they are.
    pub open spec fn with_operands(self, set: InstructionSetView) -> CommandView {
        match self {
            CommandView::Append(_) => CommandView::Append(set),
            CommandView::Comment(_) => CommandView::Comment(joined_text(set.values)),
            CommandView::Csv(_) => CommandView::Csv(set),
            CommandView::InsertAfter(_) => CommandView::InsertAfter(set),
            CommandView::InsertBefore(_) => CommandView::InsertBefore(set),
            CommandView::NoOp => CommandView::NoOp,
            CommandView::Remove(_) => CommandView::Remove(set),
            CommandView::RemoveAttribute(_) => CommandView::RemoveAttribute(set),
            CommandView::SetValue(_) => CommandView::SetValue(set),
            CommandView::SetAttribute(_) => CommandView::SetAttribute(set),
            CommandView::StartTag(_) => CommandView::StartTag(None),
            CommandView::Unknown => CommandView::Unknown,
        }
    }
}

impl Command {
    /// The tag name that selects this kind of instruction.
    pub fn as_ref(&self) -> (tag: &'static str)
        ensures
            tag@ == self@.tag(),
    {
        match self {
            Command::Append(_) => "append",
            Command::Comment(_) => "comment",
            Command::Csv(_) => "csv",
            Command::InsertAfter(_) => "insert_after",
            Command::InsertBefore(_) => "insert_before",
            Command::NoOp => "no_op",
            Command::Remove(_) => "remove",
            Command::RemoveAttribute(_) => "remove_attribute",
            Command::SetValue(_) => "set",
            Command::SetAttribute(_) => "set_attribute",
            Command::StartTag(_) => "start_tag",
            Command::Unknown => "unknown",
        }
    }

    /// The tag name, as an owned string.
    pub fn to_string(&self) -> (tag: String)
        ensures
            tag@ == self@.tag(),
    {
        String::from_str(self.as_ref())
    }

    /// The instruction that a tag name stands for, with no operands yet.
    pub fn from_str(cmd: &str) -> (command: Command)
        ensures
            command@ == CommandView::for_tag(cmd@),
    {
        if str_eq(cmd, "append") {
            Command::Append(InstructionSet::new())
        } else if str_eq(cmd, "comment") {
            Command::Comment(String::new())
        } else if str_eq(cmd, "csv") {
            Command::Csv(InstructionSet::new())
        } else if str_eq(cmd, "insert_after") {
            Command::InsertAfter(InstructionSet::new())
        } else if str_eq(cmd, "insert_before") {
            Command::InsertBefore(InstructionSet::new())
        } else if str_eq(cmd, "no_op") {
            Command::NoOp
        } else if str_eq(cmd, "remove") {
            Command::Remove(InstructionSet::new())
        } else if str_eq(cmd, "remove_attribute") {
            Command::RemoveAttribute(InstructionSet::new())
        } else if str_eq(cmd, "set") {
            Command::SetValue(InstructionSet::new())
        } else if str_eq(cmd, "set_attribute") {
            Command::SetAttribute(InstructionSet::new())
        } else if str_eq(cmd, "start_tag") {
            Command::StartTag(None)
        } else {
            Command::Unknown
        }
    }

    /// The operands of this instruction, where its kind has any.
    pub fn operands(&self) -> (set: Option<&InstructionSet>)
        ensures
            match set {
                Some(s) => self@.operands() == Some(s@),
                None => self@.operands() is None,
            },
    {
        match self {
            Command::Append(set) => Some(set),
            Command::Csv(set) => Some(set),
            Command::InsertAfter(set) => Some(set),
            Command::InsertBefore(set) => Some(set),
            Command::Remove(set) => Some(set),
            Command::RemoveAttribute(set) => Some(set),
            Command::SetValue(set) => Some(set),
            Command::SetAttribute(set) => Some(set),
            _ => None,
        }
    }

    /// Whether the operands fit the kind of this instruction.
    pub fn is_well_formed(&self) -> (ok: bool)
        ensures
            ok == self@.well_formed(),
    {
        match self {
            Command::RemoveAttribute(set) => set.xpath.len() > 0 && set.attribute.is_some()
                && set.csv_op.is_none(),
            Command::SetAttribute(set) => set.xpath.len() > 0 && set.attribute.is_some()
                && set.csv_op.is_none(),
            Command::Csv(set) => set.xpath.len() > 0 && set.csv_op.is_some(),
            _ => match self.operands() {
                Some(set) => set.xpath.len() > 0 && set.attribute.is_none() && set.csv_op.is_none(),
                None => true,
            },
        }
    }

    /// Appends the XML text of this instruction to `out`. Fails, and leaves
    /// `out` as it was, exactly where the instruction has no text.
    pub fn write(&self, out: &mut Vec<u8>) -> (outcome: Result<(), WriteError>)
        ensures
            match outcome {
                Ok(()) => self@.has_text() && final(out)@ == old(out)@ + self@.written(),
                Err(_) => !self@.has_text() && final(out)@ == old(out)@,
            },
    {
        match self {
            Command::Append(set) => {
                let inner = match render_events(&set.values) {
                    Some(inner) => inner,
                    None => {
                        return Err(WriteError::NotUtf8);
                    },
                };
                let start = open_tag("append", &path_attributes(&set.xpath));
                let end = close_tag("append");
                push_bytes(out, start.as_slice());
                push_bytes(out, inner.as_slice());
                push_bytes(out, end.as_slice());
                Ok(())
            },
            Command::Comment(text) => {
                let piece = comment(text.as_str());
                push_bytes(out, piece.as_slice());
                Ok(())
            },
            Command::SetValue(set) => {
                let joined = set.values_to_string();
                let start = open_tag("set", &path_attributes(&set.xpath));
                let inner = escape(joined.as_str());
                let end = close_tag("set");
                push_bytes(out, start.as_slice());
                push_bytes(out, inner.as_slice());
                push_bytes(out, end.as_slice());
                Ok(())
            },
            _ => {
                Ok(())
            },
        }
    }

    /// Attaches the operands to this instruction.
    pub fn set(self, instruction_set: InstructionSet) -> (command: Command)
        ensures
            command@ == self@.with_operands(instruction_set@),
    {
        match self {
            Command::Append(_) => Command::Append(instruction_set),
            Command::Comment(_) => Command::Comment(instruction_set.values_to_string()),
            Command::Csv(_) => Command::Csv(instruction_set),
            Command::InsertAfter(_) => Command::InsertAfter(instruction_set),
            Command::InsertBefore(_) => Command::InsertBefore(instruction_set),
            Command::NoOp => Command::NoOp,
            Command::Remove(_) => Command::Remove(instruction_set),
            Command::RemoveAttribute(_) => Command::RemoveAttribute(instruction_set),
            Command::SetValue(_) => Command::SetValue(instruction_set),
            Command::SetAttribute(_) => Command::SetAttribute(instruction_set),
            Command::StartTag(_) => Command::StartTag(None),
            Command::Unknown => Command::Unknown,
        }
    }
}

} // verus!
