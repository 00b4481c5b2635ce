//! The mutation engine: what each instruction does to the nodes that its
//! path selects, and the application of instructions to a document, one at a
//! time and in the order given.
//!
//! Every node that the path selects is edited, each independently of the
//! others. An instruction whose path selects nothing fails with
//! `NoMatchFound` and leaves the document as it was; only `append` succeeds
//! on no match, and then changes nothing.

use crate::bytes::{bytes_eq, copy_bytes, push_bytes, views};
use crate::command::{joined_text, Command, CommandView, CsvInstruction};
use crate::csv::{apply_csv, csv_applied};
use crate::event::{attribute_views, duplicate_attributes, Attribute, AttributeView};
use crate::matcher::{attribute_value, count_forest, find_value, passes, test_holds, test_view};
use crate::path::{lemma_parse_path_names, parse_path, PathExpr, PathView};
use crate::tree::{
    build_forest, duplicate_nodes, forest_of, lemma_node_views, lemma_node_views_concat,
    lemma_node_views_push, node_view, node_views, Document, Node, NodeView,
};
use vstd::prelude::*;
use vstd::string::{StrSliceExecFns, StringSliceAdditionalSpecFns};
use vstd::utf8::encode_utf8;

verus! {

/// Why an instruction was not applied.
#[derive(Debug, Clone, Copy, PartialEq, Eq, Structural)]
pub enum PatchError {
    /// The operands do not fit the kind, the path does not follow the
    /// grammar, or the content is not balanced.
    MalformedInstruction,
    /// The path selects nothing.
    NoMatchFound,
    /// The root element of the document is not the one that was expected.
    RootMismatch,
    /// The instruction is of no known kind.
    UnrecognizedInstruction,
}

/// What is done to one selected element.
#[derive(Debug, Clone, PartialEq, Eq)]
pub enum Edit {
    /// The nodes become its last children.
    Append(Vec<Node>),
    /// The nodes become its siblings, right before it.
    InsertBefore(Vec<Node>),
    /// The nodes become its siblings, right after it.
    InsertAfter(Vec<Node>),
    /// It leaves, with everything under it.
    Remove,
    /// It loses the attribute with this key.
    RemoveAttribute(Vec<u8>),
    /// Its children are replaced by this text.
    SetText(Vec<u8>),
    /// It gets this attribute, in place of the one with the same key.
    SetAttribute(Attribute),
    /// One member is added to or removed from the comma-separated value of
    /// the attribute with this key, or of its text where there is no key.
    Csv(Option<Vec<u8>>, CsvInstruction),
}

/// The mathematical value of an [`Edit`].
pub enum EditView {
    Append(Seq<NodeView>),
    InsertBefore(Seq<NodeView>),
    InsertAfter(Seq<NodeView>),
    Remove,
    RemoveAttribute(Seq<u8>),
    SetText(Seq<u8>),
    SetAttribute(AttributeView),
    Csv(Option<Seq<u8>>, CsvInstruction),
}

impl View for Edit {
    type V = EditView;

    open spec fn view(&self) -> EditView {
        match self {
            Edit::Append(nodes) => EditView::Append(node_views(nodes@)),
            Edit::InsertBefore(nodes) => EditView::InsertBefore(node_views(nodes@)),
            Edit::InsertAfter(nodes) => EditView::InsertAfter(node_views(nodes@)),
            Edit::Remove => EditView::Remove,
            Edit::RemoveAttribute(key) => EditView::RemoveAttribute(key@),
            Edit::SetText(text) => EditView::SetText(text@),
            Edit::SetAttribute(attribute) => EditView::SetAttribute(attribute@),
            Edit::Csv(key, op) => EditView::Csv(
                match key {
                    Some(k) => Some(k@),
                    None => None,
                },
                *op,
            ),
        }
    }
}

/// The attributes with `key` set to `value`: the first attribute with that
/// key gets the value, and where there is none a new attribute is added at
/// the end.
pub open spec fn with_value(
    attributes: Seq<AttributeView>,
    key: Seq<u8>,
    value: Seq<u8>,
) -> Seq<AttributeView>
    decreases attributes.len(),
{
    if attributes.len() == 0 {
        seq![AttributeView { key, value }]
    } else if attributes[0].key == key {
        seq![AttributeView { key, value }] + attributes.drop_first()
    } else {
        seq![attributes[0]] + with_value(attributes.drop_first(), key, value)
    }
}

/// The attributes without those that have the given key.
pub open spec fn without_key(attributes: Seq<AttributeView>, key: Seq<u8>) -> Seq<AttributeView>
    decreases attributes.len(),
{
    if attributes.len() == 0 {
        Seq::empty()
    } else if attributes.last().key == key {
        without_key(attributes.drop_last(), key)
    } else {
        without_key(attributes.drop_last(), key).push(attributes.last())
    }
}

/// The children that stand for a text: one text node, or none for the empty
/// text.
pub open spec fn text_nodes(text: Seq<u8>) -> Seq<NodeView> {
    if text.len() == 0 {
        Seq::empty()
    } else {
        seq![NodeView::Text { data: text }]
    }
}

/// The text of one child: the data of a text node, nothing for other nodes.
pub open spec fn own_text(node: NodeView) -> Seq<u8> {
    match node {
        NodeView::Text { data } => data,
        _ => Seq::empty(),
    }
}

/// The text directly under an element: the data of its text children, in
/// order.
pub open spec fn text_content(children: Seq<NodeView>) -> Seq<u8>
    decreases children.len(),
{
    if children.len() == 0 {
        Seq::empty()
    } else {
        text_content(children.drop_last()) + own_text(children.last())
    }
}

/// What takes the place of a selected element after the edit.
pub open spec fn edited(
    edit: EditView,
    name: Seq<u8>,
    attributes: Seq<AttributeView>,
    children: Seq<NodeView>,
) -> Seq<NodeView> {
    let node = NodeView::Element { name, attributes, children };
    match edit {
        EditView::Append(content) => seq![
            NodeView::Element { name, attributes, children: children + content },
        ],
        EditView::InsertBefore(content) => content.push(node),
        EditView::InsertAfter(content) => seq![node] + content,
        EditView::Remove => Seq::empty(),
        EditView::RemoveAttribute(key) => seq![
            NodeView::Element { name, attributes: without_key(attributes, key), children },
        ],
        EditView::SetText(text) => seq![
            NodeView::Element { name, attributes, children: text_nodes(text) },
        ],
        EditView::SetAttribute(a) => seq![
            NodeView::Element { name, attributes: with_value(attributes, a.key, a.value), children },
        ],
        EditView::Csv(Some(key), op) => match attribute_value(attributes, key) {
            Some(value) => seq![
                NodeView::Element {
                    name,
                    attributes: with_value(attributes, key, csv_applied(value, op)),
                    children,
                },
            ],
            None => match op {
                CsvInstruction::Add(_) => seq![
                    NodeView::Element {
                        name,
                        attributes: with_value(attributes, key, csv_applied(Seq::empty(), op)),
                        children,
                    },
                ],
                CsvInstruction::Remove(_) => seq![node],
            },
        },
        EditView::Csv(None, op) => seq![
            NodeView::Element {
                name,
                attributes,
                children: text_nodes(csv_applied(text_content(children), op)),
            },
        ],
    }
}

/// What takes the place of `node` when every element that the path selects
/// at or below it is edited. The first name of `segments` is to select
/// `node` itself.
pub open spec fn rewrite_node(
    node: NodeView,
    segments: Seq<Seq<u8>>,
    test: Option<AttributeView>,
    edit: EditView,
) -> Seq<NodeView>
    decreases node,
{
    match node {
        NodeView::Element { name, attributes, children } => if segments.len() >= 1 && name
            == segments[0] {
            if segments.len() == 1 {
                if test_holds(test, attributes) {
                    edited(edit, name, attributes, children)
                } else {
                    seq![node]
                }
            } else {
                seq![
                    NodeView::Element {
                        name,
                        attributes,
                        children: rewrite_forest(children, segments.skip(1), test, edit),
                    },
                ]
            }
        } else {
            seq![node]
        },
        _ => seq![node],
    }
}

/// The nodes after every element that the path selects at or below them is
/// edited.
pub open spec fn rewrite_forest(
    nodes: Seq<NodeView>,
    segments: Seq<Seq<u8>>,
    test: Option<AttributeView>,
    edit: EditView,
) -> Seq<NodeView>
    decreases nodes,
{
    if nodes.len() == 0 {
        Seq::empty()
    } else {
        proof {
            broadcast use vstd::seq::axiom_seq_subrange_decreases;

        }
        rewrite_forest(nodes.drop_last(), segments, test, edit) + rewrite_node(
            nodes.last(),
            segments,
            test,
            edit,
        )
    }
}

/// The name of the root element: the first element among the top-level
/// nodes.
pub open spec fn root_name(nodes: Seq<NodeView>) -> Option<Seq<u8>>
    decreases nodes.len(),
{
    if nodes.len() == 0 {
        None
    } else {
        match nodes[0] {
            NodeView::Element { name, .. } => Some(name),
            _ => root_name(nodes.drop_first()),
        }
    }
}

/// The path and the edit that an instruction with operands asks for, or the
/// reason why it asks for none.
pub open spec fn plan(command: CommandView) -> Result<(PathView, EditView), PatchError> {
    match command.operands() {
        None => Err(PatchError::MalformedInstruction),
        Some(set) => if !command.well_formed() {
            Err(PatchError::MalformedInstruction)
        } else {
            match parse_path(set.xpath) {
                None => Err(PatchError::MalformedInstruction),
                Some(path) => {
                    let text = encode_utf8(joined_text(set.values));
                    match command {
                        CommandView::Append(_) => match forest_of(set.values) {
                            Some(content) => Ok((path, EditView::Append(content))),
                            None => Err(PatchError::MalformedInstruction),
                        },
                        CommandView::InsertAfter(_) => match forest_of(set.values) {
                            Some(content) => Ok((path, EditView::InsertAfter(content))),
                            None => Err(PatchError::MalformedInstruction),
                        },
                        CommandView::InsertBefore(_) => match forest_of(set.values) {
                            Some(content) => Ok((path, EditView::InsertBefore(content))),
                            None => Err(PatchError::MalformedInstruction),
                        },
                        CommandView::Remove(_) => Ok((path, EditView::Remove)),
                        CommandView::RemoveAttribute(_) => Ok(
                            (path, EditView::RemoveAttribute(set.attribute->0)),
                        ),
                        CommandView::SetValue(_) => Ok((path, EditView::SetText(text))),
                        CommandView::SetAttribute(_) => Ok(
                            (
                                path,
                                EditView::SetAttribute(
                                    AttributeView { key: set.attribute->0, value: text },
                                ),
                            ),
                        ),
                        CommandView::Csv(_) => Ok(
                            (path, EditView::Csv(set.attribute, set.csv_op->0)),
                        ),
                        _ => Err(PatchError::MalformedInstruction),
                    }
                },
            }
        },
    }
}

/// The document after an instruction, or the reason why the instruction was
/// not applied.
pub open spec fn applied(document: Seq<NodeView>, command: CommandView) -> Result<
    Seq<NodeView>,
    PatchError,
> {
    match command {
        CommandView::Comment(_) => Ok(document),
        CommandView::NoOp => Ok(document),
        CommandView::Unknown => Err(PatchError::UnrecognizedInstruction),
        CommandView::StartTag(None) => Ok(document),
        CommandView::StartTag(Some(name)) => if root_name(document) == Some(encode_utf8(name)) {
            Ok(document)
        } else {
            Err(PatchError::RootMismatch)
        },
        _ => match plan(command) {
            Err(e) => Err(e),
            Ok((path, edit)) => if !(command is Append) && count_forest(
                document,
                path.segments,
                path.predicate,
            ) == 0 {
                Err(PatchError::NoMatchFound)
            } else {
                Ok(rewrite_forest(document, path.segments, path.predicate, edit))
            },
        },
    }
}

/// Where the application of a list of instructions stopped: the index of the
/// instruction that failed, and why.
#[derive(Debug, Clone, Copy, PartialEq, Eq, Structural)]
pub struct Failure {
    pub index: usize,
    pub error: PatchError,
}

/// The document after a list of instructions, applied in order up to the
/// first that fails, and that failure where there is one. What the
/// instructions before the failure did stays.
pub open spec fn applied_all(document: Seq<NodeView>, commands: Seq<CommandView>) -> (
    Seq<NodeView>,
    Option<Failure>,
)
    decreases commands.len(),
{
    if commands.len() == 0 {
        (document, None)
    } else {
        let (before, failure) = applied_all(document, commands.drop_last());
        if failure is Some {
            (before, failure)
        } else {
            match applied(before, commands.last()) {
                Ok(after) => (after, None),
                Err(error) => (
                    before,
                    Some(Failure { index: (commands.len() - 1) as usize, error }),
                ),
            }
        }
    }
}

/// The views of a list of instructions.
pub open spec fn command_views(commands: Seq<Command>) -> Seq<CommandView> {
    commands.map_values(|c: Command| c@)
}

/// The attributes with `key` set to `value`.
pub fn set_attribute(attributes: &Vec<Attribute>, key: &[u8], value: &[u8]) -> (out: Vec<
    Attribute,
>)
    ensures
        attribute_views(out@) == with_value(attribute_views(attributes@), key@, value@),
{
    let ghost all = attribute_views(attributes@);
    let mut out: Vec<Attribute> = Vec::new();
    let mut i: usize = 0;
    assert(all.skip(0) =~= all);
    while i < attributes.len()
        invariant
            i <= attributes.len(),
            all == attribute_views(attributes@),
            with_value(all, key@, value@) == attribute_views(out@) + with_value(
                all.skip(i as int),
                key@,
                value@,
            ),
        decreases attributes.len() - i,
    {
        let ghost rest = all.skip(i as int);
        assert(rest.drop_first() =~= all.skip(i as int + 1));
        if bytes_eq(attributes[i].key.as_slice(), key) {
            out.push(Attribute { key: copy_bytes(key), value: copy_bytes(value) });
            i += 1;
            while i < attributes.len()
                invariant
                    i <= attributes.len(),
                    all == attribute_views(attributes@),
                    with_value(all, key@, value@) == attribute_views(out@) + all.skip(i as int),
                decreases attributes.len() - i,
            {
                out.push(attributes[i].duplicate());
                i += 1;
            }
            return out;
        }
        out.push(attributes[i].duplicate());
        i += 1;
    }
    out.push(Attribute { key: copy_bytes(key), value: copy_bytes(value) });
    out
}

/// The attributes without those that have the given key.
pub fn remove_attribute(attributes: &Vec<Attribute>, key: &[u8]) -> (out: Vec<Attribute>)
    ensures
        attribute_views(out@) == without_key(attribute_views(attributes@), key@),
{
    let ghost all = attribute_views(attributes@);
    let mut out: Vec<Attribute> = Vec::new();
    let mut i: usize = 0;
    while i < attributes.len()
        invariant
            i <= attributes.len(),
            all == attribute_views(attributes@),
            attribute_views(out@) == without_key(all.take(i as int), key@),
        decreases attributes.len() - i,
    {
        let ghost upto = all.take(i as int + 1);
        assert(upto.drop_last() =~= all.take(i as int));
        if !bytes_eq(attributes[i].key.as_slice(), key) {
            out.push(attributes[i].duplicate());
        }
        i += 1;
    }
    assert(all.take(attributes.len() as int) =~= all);
    out
}

/// The children that stand for a text.
pub fn text_children(text: &[u8]) -> (children: Vec<Node>)
    ensures
        node_views(children@) == text_nodes(text@),
{
    let mut children: Vec<Node> = Vec::new();
    if text.len() > 0 {
        let node = Node::Text { data: copy_bytes(text) };
        proof {
            lemma_node_views_push(children@, node);
        }
        children.push(node);
    }
    children
}

/// The text directly under an element.
pub fn children_text(children: &Vec<Node>) -> (text: Vec<u8>)
    ensures
        text@ == text_content(node_views(children@)),
{
    let ghost all = node_views(children@);
    proof {
        lemma_node_views(children@);
    }
    let mut text: Vec<u8> = Vec::new();
    let mut i: usize = 0;
    while i < children.len()
        invariant
            i <= children.len(),
            all == node_views(children@),
            all.len() == children.len(),
            forall|j: int| 0 <= j < children.len() ==> #[trigger] all[j] == node_view(children@[j]),
            text@ == text_content(all.take(i as int)),
        decreases children.len() - i,
    {
        let ghost upto = all.take(i as int + 1);
        assert(upto.drop_last() =~= all.take(i as int));
        match &children[i] {
            Node::Text { data } => {
                push_bytes(&mut text, data.as_slice());
            },
            _ => {},
        }
        i += 1;
    }
    assert(all.take(children.len() as int) =~= all);
    text
}

/// One element with the given parts.
fn element(name: &Vec<u8>, attributes: Vec<Attribute>, children: Vec<Node>) -> (out: Vec<Node>)
    ensures
        node_views(out@) == seq![
            NodeView::Element {
                name: name@,
                attributes: attribute_views(attributes@),
                children: node_views(children@),
            },
        ],
{
    let mut out: Vec<Node> = Vec::new();
    let node = Node::Element { name: copy_bytes(name.as_slice()), attributes, children };
    proof {
        lemma_node_views_push(out@, node);
    }
    out.push(node);
    out
}

/// What takes the place of a selected element after the edit.
pub fn edit_element(
    edit: &Edit,
    name: &Vec<u8>,
    attributes: &Vec<Attribute>,
    children: &Vec<Node>,
) -> (out: Vec<Node>)
    ensures
        node_views(out@) == edited(
            edit@,
            name@,
            attribute_views(attributes@),
            node_views(children@),
        ),
{
    match edit {
        Edit::Append(content) => {
            let mut all = duplicate_nodes(children);
            let mut more = duplicate_nodes(content);
            proof {
                lemma_node_views_concat(all@, more@);
            }
            all.append(&mut more);
            element(name, duplicate_attributes(attributes), all)
        },
        Edit::InsertBefore(content) => {
            let mut out = duplicate_nodes(content);
            let node = Node::Element {
                name: copy_bytes(name.as_slice()),
                attributes: duplicate_attributes(attributes),
                children: duplicate_nodes(children),
            };
            proof {
                lemma_node_views_push(out@, node);
            }
            out.push(node);
            out
        },
        Edit::InsertAfter(content) => {
            let mut out = element(
                name,
                duplicate_attributes(attributes),
                duplicate_nodes(children),
            );
            let mut more = duplicate_nodes(content);
            proof {
                lemma_node_views_concat(out@, more@);
            }
            out.append(&mut more);
            out
        },
        Edit::Remove => {
            let out: Vec<Node> = Vec::new();
            out
        },
        Edit::RemoveAttribute(key) => element(
            name,
            remove_attribute(attributes, key.as_slice()),
            duplicate_nodes(children),
        ),
        Edit::SetText(text) => element(
            name,
            duplicate_attributes(attributes),
            text_children(text.as_slice()),
        ),
        Edit::SetAttribute(a) => element(
            name,
            set_attribute(attributes, a.key.as_slice(), a.value.as_slice()),
            duplicate_nodes(children),
        ),
        Edit::Csv(Some(key), op) => match find_value(attributes, key.as_slice()) {
            Some(value) => {
                let changed = apply_csv(value.as_slice(), *op);
                element(
                    name,
                    set_attribute(attributes, key.as_slice(), changed.as_slice()),
                    duplicate_nodes(children),
                )
            },
            None => match op {
                CsvInstruction::Add(_) => {
                    let nothing: Vec<u8> = Vec::new();
                    let changed = apply_csv(nothing.as_slice(), *op);
                    element(
                        name,
                        set_attribute(attributes, key.as_slice(), changed.as_slice()),
                        duplicate_nodes(children),
                    )
                },
                CsvInstruction::Remove(_) => element(
                    name,
                    duplicate_attributes(attributes),
                    duplicate_nodes(children),
                ),
            },
        },
        Edit::Csv(None, op) => {
            let text = children_text(children);
            let changed = apply_csv(text.as_slice(), *op);
            element(name, duplicate_attributes(attributes), text_children(changed.as_slice()))
        },
    }
}

/// Appends what takes the place of `nodes` when every element that the path
/// selects at or below them is edited.
fn rewrite_into(
    nodes: &Vec<Node>,
    segments: &Vec<Vec<u8>>,
    depth: usize,
    test: &Option<Attribute>,
    edit: &Edit,
    out: &mut Vec<Node>,
)
    requires
        depth < segments.len(),
    ensures
        node_views(final(out)@) == node_views(old(out)@) + rewrite_forest(
            node_views(nodes@),
            views(segments@).skip(depth as int),
            test_view(*test),
            edit@,
        ),
    decreases nodes,
{
    let ghost all = node_views(nodes@);
    let ghost segs = views(segments@).skip(depth as int);
    let ghost tv = test_view(*test);
    proof {
        lemma_node_views(nodes@);
    }
    let mut i: usize = 0;
    while i < nodes.len()
        invariant
            i <= nodes.len(),
            depth < segments.len(),
            all == node_views(nodes@),
            all.len() == nodes.len(),
            forall|j: int| 0 <= j < nodes.len() ==> #[trigger] all[j] == node_view(nodes@[j]),
            segs == views(segments@).skip(depth as int),
            tv == test_view(*test),
            node_views(out@) == node_views(old(out)@) + rewrite_forest(
                all.take(i as int),
                segs,
                tv,
                edit@,
            ),
        decreases nodes.len() - i,
    {
        let ghost upto = all.take(i as int + 1);
        assert(upto.drop_last() =~= all.take(i as int));
        assert(segs.skip(1) =~= views(segments@).skip(depth as int + 1));
        let mut piece: Vec<Node> = match &nodes[i] {
            Node::Element { name, attributes, children } => {
                if bytes_eq(name.as_slice(), segments[depth].as_slice()) {
                    if depth + 1 == segments.len() {
                        if passes(test, attributes) {
                            edit_element(edit, name, attributes, children)
                        } else {
                            element(
                                name,
                                duplicate_attributes(attributes),
                                duplicate_nodes(children),
                            )
                        }
                    } else {
                        let mut inner: Vec<Node> = Vec::new();
                        rewrite_into(children, segments, depth + 1, test, edit, &mut inner);
                        element(name, duplicate_attributes(attributes), inner)
                    }
                } else {
                    element(name, duplicate_attributes(attributes), duplicate_nodes(children))
                }
            },
            other => {
                let mut one: Vec<Node> = Vec::new();
                let copy = other.duplicate();
                proof {
                    lemma_node_views_push(one@, copy);
                }
                one.push(copy);
                one
            },
        };
        assert(node_views(piece@) == rewrite_node(all[i as int], segs, tv, edit@));
        proof {
            lemma_node_views_concat(out@, piece@);
        }
        out.append(&mut piece);
        i += 1;
    }
    assert(all.take(nodes.len() as int) =~= all);
}

/// The name of the root element: the first element among the nodes.
pub fn find_root_name(nodes: &Vec<Node>) -> (name: Option<&Vec<u8>>)
    ensures
        match name {
            Some(n) => root_name(node_views(nodes@)) == Some(n@),
            None => root_name(node_views(nodes@)) is None,
        },
{
    let ghost all = node_views(nodes@);
    proof {
        lemma_node_views(nodes@);
    }
    let mut i: usize = 0;
    assert(all.skip(0) =~= all);
    while i < nodes.len()
        invariant
            i <= nodes.len(),
            all == node_views(nodes@),
            all.len() == nodes.len(),
            forall|j: int| 0 <= j < nodes.len() ==> #[trigger] all[j] == node_view(nodes@[j]),
            root_name(all) == root_name(all.skip(i as int)),
        decreases nodes.len() - i,
    {
        assert(all.skip(i as int).drop_first() =~= all.skip(i as int + 1));
        match &nodes[i] {
            Node::Element { name, .. } => {
                return Some(name);
            },
            _ => {},
        }
        i += 1;
    }
    None
}

/// The bytes of what the content of an instruction reads as.
fn content_text(command: &Command) -> (text: Vec<u8>)
    requires
        command@.operands() is Some,
    ensures
        text@ == encode_utf8(joined_text(command@.operands()->0.values)),
{
    match command.operands() {
        Some(set) => {
            let joined = set.values_to_string();
            joined.as_str().as_bytes_vec()
        },
        None => Vec::new(),
    }
}

/// The path and the edit that an instruction with operands asks for.
pub fn plan_for(command: &Command) -> (planned: Result<(PathExpr, Edit), PatchError>)
    ensures
        match plan(command@) {
            Ok((path, edit)) => planned matches Ok((p, e)) && p@ == path && e@ == edit,
            Err(error) => planned matches Err(e) && e == error,
        },
{
    let set = match command.operands() {
        Some(set) => set,
        None => {
            return Err(PatchError::MalformedInstruction);
        },
    };
    if !command.is_well_formed() {
        return Err(PatchError::MalformedInstruction);
    }
    let path = match PathExpr::parse(set.xpath.as_slice()) {
        Some(path) => path,
        None => {
            return Err(PatchError::MalformedInstruction);
        },
    };
    match command {
        Command::Append(_) => match build_forest(&set.values) {
            Some(content) => Ok((path, Edit::Append(content))),
            None => Err(PatchError::MalformedInstruction),
        },
        Command::InsertAfter(_) => match build_forest(&set.values) {
            Some(content) => Ok((path, Edit::InsertAfter(content))),
            None => Err(PatchError::MalformedInstruction),
        },
        Command::InsertBefore(_) => match build_forest(&set.values) {
            Some(content) => Ok((path, Edit::InsertBefore(content))),
            None => Err(PatchError::MalformedInstruction),
        },
        Command::Remove(_) => Ok((path, Edit::Remove)),
        Command::RemoveAttribute(_) => match &set.attribute {
            Some(key) => Ok((path, Edit::RemoveAttribute(copy_bytes(key.as_slice())))),
            None => Err(PatchError::MalformedInstruction),
        },
        Command::SetValue(_) => Ok((path, Edit::SetText(content_text(command)))),
        Command::SetAttribute(_) => match &set.attribute {
            Some(key) => Ok(
                (
                    path,
                    Edit::SetAttribute(
                        Attribute { key: copy_bytes(key.as_slice()), value: content_text(command) },
                    ),
                ),
            ),
            None => Err(PatchError::MalformedInstruction),
        },
        Command::Csv(_) => match set.csv_op {
            Some(op) => {
                let key = match &set.attribute {
                    Some(k) => Some(copy_bytes(k.as_slice())),
                    None => None,
                };
                Ok((path, Edit::Csv(key, op)))
            },
            None => Err(PatchError::MalformedInstruction),
        },
        _ => Err(PatchError::MalformedInstruction),
    }
}

impl Document {
    /// Applies one instruction. On failure the document stays as it was.
    pub fn apply(&mut self, command: &Command) -> (outcome: Result<(), PatchError>)
        ensures
            match applied(old(self)@, command@) {
                Ok(after) => outcome is Ok && final(self)@ == after,
                Err(error) => outcome == Err::<(), PatchError>(error) && final(self)@ == old(
                    self,
                )@,
            },
    {
        match command {
            Command::Comment(_) => Ok(()),
            Command::NoOp => Ok(()),
            Command::Unknown => Err(PatchError::UnrecognizedInstruction),
            Command::StartTag(None) => Ok(()),
            Command::StartTag(Some(expected)) => {
                let same = match find_root_name(&self.nodes) {
                    Some(name) => bytes_eq(name.as_slice(), expected.as_str().as_bytes()),
                    None => false,
                };
                if same {
                    Ok(())
                } else {
                    Err(PatchError::RootMismatch)
                }
            },
            _ => {
                let (path, edit) = match plan_for(command) {
                    Ok(planned) => planned,
                    Err(error) => {
                        return Err(error);
                    },
                };
                proof {
                    lemma_parse_path_names(command@.operands()->0.xpath);
                }
                let is_append = match command {
                    Command::Append(_) => true,
                    _ => false,
                };
                if !is_append {
                    let places = self.find(&path);
                    if places.len() == 0 {
                        return Err(PatchError::NoMatchFound);
                    }
                }
                let mut nodes: Vec<Node> = Vec::new();
                assert(views(path.segments@).skip(0) =~= path@.segments);
                rewrite_into(&self.nodes, &path.segments, 0, &path.predicate, &edit, &mut nodes);
                self.nodes = nodes;
                Ok(())
            },
        }
    }

    /// Applies the instructions in order and stops at the first that fails.
    /// What the instructions before it did stays.
    pub fn apply_all(&mut self, commands: &Vec<Command>) -> (outcome: Result<(), Failure>)
        ensures
            final(self)@ == applied_all(old(self)@, command_views(commands@)).0,
            match applied_all(old(self)@, command_views(commands@)).1 {
                Some(failure) => outcome == Err::<(), Failure>(failure),
                None => outcome is Ok,
            },
    {
        let ghost all = command_views(commands@);
        let mut i: usize = 0;
        while i < commands.len()
            invariant
                i <= commands.len(),
                all == command_views(commands@),
                applied_all(old(self)@, all.take(i as int)) == (self@, None::<Failure>),
            decreases commands.len() - i,
        {
            let ghost upto = all.take(i as int + 1);
            assert(upto.drop_last() =~= all.take(i as int));
            match self.apply(&commands[i]) {
                Ok(()) => {},
                Err(error) => {
                    proof {
                        lemma_applied_all_stops(old(self)@, all, i as int + 1);
                    }
                    return Err(Failure { index: i, error });
                },
            }
            i += 1;
        }
        assert(all.take(commands.len() as int) =~= all);
        Ok(())
    }
}

/// Once a prefix of the instructions has failed, the rest is not applied.
pub proof fn lemma_applied_all_stops(document: Seq<NodeView>, commands: Seq<CommandView>, k: int)
    requires
        0 <= k <= commands.len(),
        applied_all(document, commands.take(k)).1 is Some,
    ensures
        applied_all(document, commands) == applied_all(document, commands.take(k)),
    decreases commands.len() - k,
{
    if k < commands.len() {
        let next = commands.take(k + 1);
        assert(next.drop_last() =~= commands.take(k));
        lemma_applied_all_stops(document, commands, k + 1);
    } else {
        assert(commands.take(k) =~= commands);
    }
}

/// Where a merge stopped: the overlay whose instruction failed, and that
/// failure.
#[derive(Debug, Clone, Copy, PartialEq, Eq, Structural)]
pub struct MergeFailure {
    pub overlay: usize,
    pub failure: Failure,
}

/// The views of a list of instruction streams.
pub open spec fn stream_views(streams: Seq<Vec<Command>>) -> Seq<Seq<CommandView>> {
    streams.map_values(|s: Vec<Command>| command_views(s@))
}

/// The document after the instruction streams of several overlays, applied
/// one overlay after the other in the order given, or the first failure.
pub open spec fn merged(document: Seq<NodeView>, streams: Seq<Seq<CommandView>>) -> Result<
    Seq<NodeView>,
    MergeFailure,
>
    decreases streams.len(),
{
    if streams.len() == 0 {
        Ok(document)
    } else {
        match merged(document, streams.drop_last()) {
            Err(failure) => Err(failure),
            Ok(before) => match applied_all(before, streams.last()).1 {
                None => Ok(applied_all(before, streams.last()).0),
                Some(failure) => Err(
                    MergeFailure { overlay: (streams.len() - 1) as usize, failure },
                ),
            },
        }
    }
}

/// All the streams as one, in order.
pub open spec fn concatenated(streams: Seq<Seq<CommandView>>) -> Seq<CommandView>
    decreases streams.len(),
{
    if streams.len() == 0 {
        Seq::empty()
    } else {
        concatenated(streams.drop_last()) + streams.last()
    }
}

/// Applying a stream after another that ran through is applying the two as
/// one.
pub proof fn lemma_applied_all_concat(
    document: Seq<NodeView>,
    a: Seq<CommandView>,
    b: Seq<CommandView>,
)
    requires
        applied_all(document, a).1 is None,
    ensures
        applied_all(document, a + b).0 == applied_all(applied_all(document, a).0, b).0,
        applied_all(document, a + b).1 is None <==> applied_all(
            applied_all(document, a).0,
            b,
        ).1 is None,
    decreases b.len(),
{
    if b.len() != 0 {
        lemma_applied_all_concat(document, a, b.drop_last());
        assert((a + b).drop_last() =~= a + b.drop_last());
    }
}

/// Once a stream has failed, what follows it is not applied.
pub proof fn lemma_applied_all_failed(
    document: Seq<NodeView>,
    a: Seq<CommandView>,
    b: Seq<CommandView>,
)
    requires
        applied_all(document, a).1 is Some,
    ensures
        applied_all(document, a + b) == applied_all(document, a),
{
    assert((a + b).take(a.len() as int) =~= a);
    lemma_applied_all_stops(document, a + b, a.len() as int);
}

/// A merge succeeds exactly where the streams, put together as one in the
/// order given, run through, and it gives the document that they give.
pub proof fn lemma_merged_is_concatenation(
    document: Seq<NodeView>,
    streams: Seq<Seq<CommandView>>,
)
    ensures
        merged(document, streams) is Ok <==> applied_all(document, concatenated(streams)).1 is None,
        merged(document, streams) matches Ok(after) ==> after == applied_all(
            document,
            concatenated(streams),
        ).0,
    decreases streams.len(),
{
    if streams.len() != 0 {
        let init = streams.drop_last();
        lemma_merged_is_concatenation(document, init);
        if applied_all(document, concatenated(init)).1 is None {
            lemma_applied_all_concat(document, concatenated(init), streams.last());
        } else {
            lemma_applied_all_failed(document, concatenated(init), streams.last());
        }
    }
}

impl Document {
    /// Merges the instruction streams of several overlays into a copy of
    /// this document: the streams are applied one overlay after the other,
    /// in the order given, each stream in its own order. The first
    /// instruction that fails aborts the merge, and no document is returned.
    /// This document itself stays as it is.
    pub fn merge(&self, overlays: &Vec<Vec<Command>>) -> (outcome: Result<Document, MergeFailure>)
        ensures
            match merged(self@, stream_views(overlays@)) {
                Ok(after) => outcome matches Ok(d) && d@ == after,
                Err(failure) => outcome matches Err(f) && f == failure,
            },
    {
        let ghost all = stream_views(overlays@);
        let mut document = self.duplicate();
        let mut i: usize = 0;
        while i < overlays.len()
            invariant
                i <= overlays.len(),
                all == stream_views(overlays@),
                merged(self@, all.take(i as int)) == Ok::<Seq<NodeView>, MergeFailure>(document@),
            decreases overlays.len() - i,
        {
            let ghost upto = all.take(i as int + 1);
            assert(upto.drop_last() =~= all.take(i as int));
            match document.apply_all(&overlays[i]) {
                Ok(()) => {},
                Err(failure) => {
                    proof {
                        lemma_merged_stops(self@, all, i as int + 1);
                    }
                    return Err(MergeFailure { overlay: i, failure });
                },
            }
            i += 1;
        }
        assert(all.take(overlays.len() as int) =~= all);
        Ok(document)
    }
}

/// Once a prefix of the overlays has failed, the rest is not applied.
pub proof fn lemma_merged_stops(document: Seq<NodeView>, streams: Seq<Seq<CommandView>>, k: int)
    requires
        0 <= k <= streams.len(),
        merged(document, streams.take(k)) is Err,
    ensures
        merged(document, streams) == merged(document, streams.take(k)),
    decreases streams.len() - k,
{
    if k < streams.len() {
        let next = streams.take(k + 1);
        assert(next.drop_last() =~= streams.take(k));
        lemma_merged_stops(document, streams, k + 1);
    } else {
        assert(streams.take(k) =~= streams);
    }
}

} // verus!
