//! The patch parser: from one element of a patch file to the instruction it
//! spells.
//!
//! The tag name selects the kind. The attribute `xpath` gives the path, the
//! attribute `attribute` the attribute that the instruction addresses, and
//! for a `csv` instruction the attributes `op` (`add` or `remove`) and
//! `value` (one character) give the edit. What stands inside the element is
//! the content of the kinds that take content.

use crate::bytes::{bytes_eq, copy_bytes};
use crate::command::{
    joined_text, Command, CommandView, CsvInstruction, InstructionSet, InstructionSetView,
};
use crate::engine::PatchError;
use crate::event::{
    attribute_views, duplicate_events, event_views, Attribute, AttributeView, EventView, XmlEvent,
};
use crate::matcher::{attribute_value, find_value};
use crate::text::{chars_or_empty, str_or_empty, utf8_str};
use crate::engine::command_views;
use crate::tree::{
    build_forest, events_of_forest, forest_of, lemma_node_views, node_view, node_views,
    push_forest_events, Document, Node, NodeView,
};
use vstd::string::StringExecFns;
use vstd::prelude::*;
use vstd::string::{StrSliceExecFns, StringSliceAdditionalSpecFns};
use vstd::utf8::{decode_utf8, encode_utf8, valid_utf8};

verus! {

/// An instruction as it was read, with the tag name that it was read from.
/// For an instruction of unknown kind the tag name is what there is to
/// report.
#[derive(Debug, Clone, PartialEq)]
pub struct ParsedInstruction {
    pub command: Command,
    pub tag: Vec<u8>,
}

/// The edit that the attributes of a `csv` element spell, or `None` where
/// `op` is missing or neither `add` nor `remove`, or `value` is missing or
/// not exactly one character.
pub open spec fn csv_edit(attributes: Seq<AttributeView>) -> Option<CsvInstruction> {
    match (
        attribute_value(attributes, encode_utf8("op"@)),
        attribute_value(attributes, encode_utf8("value"@)),
    ) {
        (Some(op), Some(value)) => if valid_utf8(value) && decode_utf8(value).len() == 1 {
            if op == encode_utf8("add"@) {
                Some(CsvInstruction::Add(decode_utf8(value)[0]))
            } else if op == encode_utf8("remove"@) {
                Some(CsvInstruction::Remove(decode_utf8(value)[0]))
            } else {
                None
            }
        } else {
            None
        },
        _ => None,
    }
}

/// Whether instructions of this kind take what stands inside their element
/// as content.
pub open spec fn takes_content(kind: CommandView) -> bool {
    kind is Append || kind is InsertAfter || kind is InsertBefore || kind is SetValue
        || kind is SetAttribute
}

/// Whether instructions of this kind insert their content as nodes, so that
/// the content must be balanced.
pub open spec fn inserts_nodes(kind: CommandView) -> bool {
    kind is Append || kind is InsertAfter || kind is InsertBefore
}

/// The operands that an element spells for an instruction of the given
/// kind, or `None` where the `csv` edit of a `csv` element is not as it must
/// be.
pub open spec fn operands_of(
    kind: CommandView,
    attributes: Seq<AttributeView>,
    content: Seq<EventView>,
) -> Option<InstructionSetView> {
    let xpath = match attribute_value(attributes, encode_utf8("xpath"@)) {
        Some(path) => path,
        None => Seq::empty(),
    };
    let attribute = attribute_value(attributes, encode_utf8("attribute"@));
    let values = if takes_content(kind) {
        content
    } else {
        Seq::empty()
    };
    if kind is Csv {
        match csv_edit(attributes) {
            Some(op) => Some(InstructionSetView { attribute, csv_op: Some(op), values, xpath }),
            None => None,
        }
    } else {
        Some(InstructionSetView { attribute, csv_op: None, values, xpath })
    }
}

/// The instruction that an element spells, or `MalformedInstruction` where
/// a required attribute is missing, an attribute stands where the kind has
/// none, the `csv` edit is not as it must be, or content that is to be
/// inserted is not balanced. A tag name outside the closed set spells
/// `Unknown`.
pub open spec fn parsed(
    tag: Seq<u8>,
    attributes: Seq<AttributeView>,
    content: Seq<EventView>,
) -> Result<CommandView, PatchError> {
    let kind = CommandView::for_tag(chars_or_empty(tag));
    match kind {
        CommandView::Unknown => Ok(kind),
        CommandView::NoOp => Ok(kind),
        CommandView::StartTag(_) => Ok(kind),
        CommandView::Comment(_) => Ok(CommandView::Comment(joined_text(content))),
        _ => match operands_of(kind, attributes, content) {
            None => Err(PatchError::MalformedInstruction),
            Some(set) => {
                let command = kind.with_operands(set);
                if !command.well_formed() || (inserts_nodes(kind) && forest_of(content) is None) {
                    Err(PatchError::MalformedInstruction)
                } else {
                    Ok(command)
                }
            },
        },
    }
}

/// A copy of the value of the attribute with the given key.
fn value_of(attributes: &Vec<Attribute>, key: &str) -> (value: Option<Vec<u8>>)
    ensures
        match value {
            Some(v) => attribute_value(attribute_views(attributes@), encode_utf8(key@)) == Some(v@),
            None => attribute_value(attribute_views(attributes@), encode_utf8(key@)) is None,
        },
{
    match find_value(attributes, key.as_bytes()) {
        Some(v) => Some(copy_bytes(v.as_slice())),
        None => None,
    }
}

/// The edit that the attributes of a `csv` element spell.
fn read_csv_edit(attributes: &Vec<Attribute>) -> (edit: Option<CsvInstruction>)
    ensures
        edit == csv_edit(attribute_views(attributes@)),
{
    let op = match find_value(attributes, "op".as_bytes()) {
        Some(op) => op,
        None => {
            return None;
        },
    };
    let value = match find_value(attributes, "value".as_bytes()) {
        Some(value) => value,
        None => {
            return None;
        },
    };
    let text = match utf8_str(value.as_slice()) {
        Some(text) => text,
        None => {
            return None;
        },
    };
    proof {
        vstd::utf8::encode_utf8_decode_utf8(text@);
    }
    if text.unicode_len() != 1 {
        return None;
    }
    let member = text.get_char(0);
    if bytes_eq(op.as_slice(), "add".as_bytes()) {
        Some(CsvInstruction::Add(member))
    } else if bytes_eq(op.as_slice(), "remove".as_bytes()) {
        Some(CsvInstruction::Remove(member))
    } else {
        None
    }
}

/// Reads the instruction that one element of a patch file spells: its tag
/// name, its attributes, and the events between its start and its end.
pub fn parse_instruction(
    tag: &[u8],
    attributes: &Vec<Attribute>,
    content: &Vec<XmlEvent>,
) -> (outcome: Result<ParsedInstruction, PatchError>)
    ensures
        match parsed(tag@, attribute_views(attributes@), event_views(content@)) {
            Ok(command) => outcome matches Ok(p) && p.command@ == command && p.tag@ == tag@,
            Err(error) => outcome matches Err(e) && e == error,
        },
        outcome matches Ok(p) ==> p.command@.well_formed(),
{
    let kind = Command::from_str(str_or_empty(tag));
    let takes = match &kind {
        Command::Append(_) => true,
        Command::InsertAfter(_) => true,
        Command::InsertBefore(_) => true,
        Command::SetValue(_) => true,
        Command::SetAttribute(_) => true,
        _ => false,
    };
    let inserts = match &kind {
        Command::Append(_) => true,
        Command::InsertAfter(_) => true,
        Command::InsertBefore(_) => true,
        _ => false,
    };
    let is_csv = match &kind {
        Command::Csv(_) => true,
        _ => false,
    };
    match &kind {
        Command::Unknown => {
            return Ok(ParsedInstruction { command: kind, tag: copy_bytes(tag) });
        },
        Command::NoOp => {
            return Ok(ParsedInstruction { command: kind, tag: copy_bytes(tag) });
        },
        Command::StartTag(_) => {
            return Ok(ParsedInstruction { command: kind, tag: copy_bytes(tag) });
        },
        Command::Comment(_) => {
            let set = InstructionSet {
                attribute: None,
                csv_op: None,
                values: duplicate_events(content),
                xpath: Vec::new(),
            };
            let command = kind.set(set);
            return Ok(ParsedInstruction { command, tag: copy_bytes(tag) });
        },
        _ => {},
    }
    let xpath = match value_of(attributes, "xpath") {
        Some(path) => path,
        None => {
            let none: Vec<u8> = Vec::new();
            none
        },
    };
    let attribute = value_of(attributes, "attribute");
    let values = if takes {
        duplicate_events(content)
    } else {
        let none: Vec<XmlEvent> = Vec::new();
        assert(event_views(none@) =~= Seq::<EventView>::empty());
        none
    };
    let csv_op = if is_csv {
        match read_csv_edit(attributes) {
            Some(op) => Some(op),
            None => {
                return Err(PatchError::MalformedInstruction);
            },
        }
    } else {
        None
    };
    let set = InstructionSet { attribute, csv_op, values, xpath };
    let command = kind.set(set);
    if !command.is_well_formed() {
        return Err(PatchError::MalformedInstruction);
    }
    if inserts {
        match build_forest(content) {
            Some(_) => {},
            None => {
                return Err(PatchError::MalformedInstruction);
            },
        }
    }
    Ok(ParsedInstruction { command, tag: copy_bytes(tag) })
}

/// An element of a patch file that spells no instruction that can be
/// applied: where it stood among the nodes of the file, its tag name, and
/// what is wrong with it.
#[derive(Debug, Clone, PartialEq, Eq)]
pub struct Skipped {
    pub index: usize,
    pub tag: Vec<u8>,
    pub error: PatchError,
}

/// The mathematical value of a [`Skipped`].
pub struct SkippedView {
    pub index: usize,
    pub tag: Seq<u8>,
    pub error: PatchError,
}

impl View for Skipped {
    type V = SkippedView;

    open spec fn view(&self) -> SkippedView {
        SkippedView { index: self.index, tag: self.tag@, error: self.error }
    }
}

/// The views of a list of skipped elements.
pub open spec fn skipped_views(skipped: Seq<Skipped>) -> Seq<SkippedView> {
    skipped.map_values(|s: Skipped| s@)
}

/// What was read from a patch file: its instructions, in file order, and
/// the elements that were skipped.
#[derive(Debug, Clone, PartialEq)]
pub struct PatchFile {
    pub commands: Vec<Command>,
    pub skipped: Vec<Skipped>,
}

/// What one node of a patch file spells: an instruction, a reason to skip
/// it, or nothing at all. An element spells what the parser makes of it,
/// but an element of unknown kind is skipped as `UnrecognizedInstruction`.
/// An XML comment spells a comment. Text between the elements spells
/// nothing.
pub open spec fn spelled(node: NodeView) -> Option<Result<CommandView, PatchError>> {
    match node {
        NodeView::Element { name, attributes, children } => Some(
            match parsed(name, attributes, events_of_forest(children)) {
                Ok(CommandView::Unknown) => Err(PatchError::UnrecognizedInstruction),
                Ok(command) => Ok(command),
                Err(error) => Err(error),
            },
        ),
        NodeView::Comment { data } => Some(Ok(CommandView::Comment(chars_or_empty(data)))),
        NodeView::Text { .. } => None,
    }
}

/// The tag name of a node: the name of an element, nothing for other nodes.
pub open spec fn tag_of(node: NodeView) -> Seq<u8> {
    match node {
        NodeView::Element { name, .. } => name,
        _ => Seq::empty(),
    }
}

/// The instructions that the nodes spell, in order.
pub open spec fn commands_of(nodes: Seq<NodeView>) -> Seq<CommandView>
    decreases nodes.len(),
{
    if nodes.len() == 0 {
        Seq::empty()
    } else {
        match spelled(nodes.last()) {
            Some(Ok(command)) => commands_of(nodes.drop_last()).push(command),
            _ => commands_of(nodes.drop_last()),
        }
    }
}

/// The nodes that are skipped, in order.
pub open spec fn skipped_of(nodes: Seq<NodeView>) -> Seq<SkippedView>
    decreases nodes.len(),
{
    if nodes.len() == 0 {
        Seq::empty()
    } else {
        match spelled(nodes.last()) {
            Some(Err(error)) => skipped_of(nodes.drop_last()).push(
                SkippedView {
                    index: (nodes.len() - 1) as usize,
                    tag: tag_of(nodes.last()),
                    error,
                },
            ),
            _ => skipped_of(nodes.drop_last()),
        }
    }
}

/// The children of the root element: of the first element among the nodes.
pub open spec fn root_children(nodes: Seq<NodeView>) -> Option<Seq<NodeView>>
    decreases nodes.len(),
{
    if nodes.len() == 0 {
        None
    } else {
        match nodes[0] {
            NodeView::Element { children, .. } => Some(children),
            _ => root_children(nodes.drop_first()),
        }
    }
}

/// The children of the root element.
fn find_root_children(nodes: &Vec<Node>) -> (children: Option<&Vec<Node>>)
    ensures
        match children {
            Some(c) => root_children(node_views(nodes@)) == Some(node_views(c@)),
            None => root_children(node_views(nodes@)) is None,
        },
{
    let ghost all = node_views(nodes@);
    proof {
        lemma_node_views(nodes@);
    }
    let mut i: usize = 0;
    assert(all.skip(0) =~= all);
    while i < nodes.len()
        invariant
            i <= nodes.len(),
            all == node_views(nodes@),
            all.len() == nodes.len(),
            forall|j: int| 0 <= j < nodes.len() ==> #[trigger] all[j] == node_view(nodes@[j]),
            root_children(all) == root_children(all.skip(i as int)),
        decreases nodes.len() - i,
    {
        assert(all.skip(i as int).drop_first() =~= all.skip(i as int + 1));
        match &nodes[i] {
            Node::Element { children, .. } => {
                return Some(children);
            },
            _ => {},
        }
        i += 1;
    }
    None
}

impl PatchFile {
    /// Whether the file is of any use: it holds an instruction that can be
    /// applied, or nothing was skipped. A file in which every instruction was
    /// skipped is of none.
    pub fn is_usable(&self) -> (usable: bool)
        ensures
            usable == (self.commands.len() > 0 || self.skipped.len() == 0),
    {
        self.commands.len() > 0 || self.skipped.len() == 0
    }
}

/// Reads the instructions of a patch file: one from each child of its root
/// element, in file order. A child that spells no instruction that can be
/// applied is skipped and listed; the others are not affected by it. Fails
/// exactly where the file has no root element.
pub fn read_patch(patch: &Document) -> (file: Option<PatchFile>)
    ensures
        match file {
            Some(f) => root_children(patch@) matches Some(nodes) && command_views(f.commands@)
                == commands_of(nodes) && skipped_views(f.skipped@) == skipped_of(nodes),
            None => root_children(patch@) is None,
        },
{
    let nodes = match find_root_children(&patch.nodes) {
        Some(nodes) => nodes,
        None => {
            return None;
        },
    };
    let ghost all = node_views(nodes@);
    proof {
        lemma_node_views(nodes@);
    }
    let mut commands: Vec<Command> = Vec::new();
    let mut skipped: Vec<Skipped> = Vec::new();
    let mut i: usize = 0;
    while i < nodes.len()
        invariant
            i <= nodes.len(),
            all == node_views(nodes@),
            all.len() == nodes.len(),
            forall|j: int| 0 <= j < nodes.len() ==> #[trigger] all[j] == node_view(nodes@[j]),
            command_views(commands@) == commands_of(all.take(i as int)),
            skipped_views(skipped@) == skipped_of(all.take(i as int)),
        decreases nodes.len() - i,
    {
        let ghost upto = all.take(i as int + 1);
        assert(upto.drop_last() =~= all.take(i as int));
        match &nodes[i] {
            Node::Element { name, attributes, children } => {
                let mut content: Vec<XmlEvent> = Vec::new();
                push_forest_events(children, &mut content);
                match parse_instruction(name.as_slice(), attributes, &content) {
                    Ok(instruction) => match instruction.command {
                        Command::Unknown => {
                            skipped.push(
                                Skipped {
                                    index: i,
                                    tag: instruction.tag,
                                    error: PatchError::UnrecognizedInstruction,
                                },
                            );
                        },
                        command => {
                            commands.push(command);
                        },
                    },
                    Err(error) => {
                        skipped.push(Skipped { index: i, tag: copy_bytes(name.as_slice()), error });
                    },
                }
            },
            Node::Comment { data } => {
                let command = Command::Comment(String::from_str(str_or_empty(data.as_slice())));
                commands.push(command);
            },
            Node::Text { .. } => {},
        }
        i += 1;
    }
    assert(all.take(nodes.len() as int) =~= all);
    Some(PatchFile { commands, skipped })
}

} // verus!
