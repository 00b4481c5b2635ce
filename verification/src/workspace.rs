//! The documents of one merge, by identifier.
//!
//! A workspace holds the target documents that a merge edits, each under
//! the identifier that instructions name it by: a file name or any other
//! name. Instructions are applied one at a time, each to the one document
//! that it names, and leave every other document as it is.

use crate::bytes::{bytes_eq, copy_bytes};
use crate::command::{Command, CommandView};
use crate::engine::{applied, PatchError};
use crate::serializer::{document_is_text, document_text};
use crate::tree::{Document, NodeView};
use vstd::prelude::*;

verus! {

/// One document of a workspace, with its identifier.
#[derive(Debug, Clone, PartialEq, Eq)]
pub struct Entry {
    pub name: Vec<u8>,
    pub document: Document,
}

/// The mathematical value of an [`Entry`].
pub struct EntryView {
    pub name: Seq<u8>,
    pub document: Seq<NodeView>,
}

impl View for Entry {
    type V = EntryView;

    open spec fn view(&self) -> EntryView {
        EntryView { name: self.name@, document: self.document@ }
    }
}

/// The views of a list of entries.
pub open spec fn entry_views(entries: Seq<Entry>) -> Seq<EntryView> {
    entries.map_values(|e: Entry| e@)
}

/// An instruction, with the identifier of the document that it is for.
#[derive(Debug, Clone, PartialEq)]
pub struct Targeted {
    pub target: Vec<u8>,
    pub command: Command,
}

/// The mathematical value of a [`Targeted`].
pub struct TargetedView {
    pub target: Seq<u8>,
    pub command: CommandView,
}

impl View for Targeted {
    type V = TargetedView;

    open spec fn view(&self) -> TargetedView {
        TargetedView { target: self.target@, command: self.command@ }
    }
}

/// The views of a list of targeted instructions.
pub open spec fn targeted_views(instructions: Seq<Targeted>) -> Seq<TargetedView> {
    instructions.map_values(|t: Targeted| t@)
}

/// Why an instruction was not applied to a workspace.
#[derive(Debug, Clone, Copy, PartialEq, Eq, Structural)]
pub enum WorkspaceError {
    /// The workspace holds no document under the identifier.
    NoSuchDocument,
    /// The document refused the instruction.
    Patch(PatchError),
}

/// Where the application of a list of targeted instructions stopped: the
/// index of the instruction that failed, and why.
#[derive(Debug, Clone, Copy, PartialEq, Eq, Structural)]
pub struct WorkspaceFailure {
    pub index: usize,
    pub error: WorkspaceError,
}

/// The serialized text of one document, with its identifier.
#[derive(Debug, Clone, PartialEq, Eq)]
pub struct Output {
    pub name: Vec<u8>,
    pub text: Vec<u8>,
}

/// The mathematical value of an [`Output`].
pub struct OutputView {
    pub name: Seq<u8>,
    pub text: Seq<u8>,
}

impl View for Output {
    type V = OutputView;

    open spec fn view(&self) -> OutputView {
        OutputView { name: self.name@, text: self.text@ }
    }
}

/// The views of a list of outputs.
pub open spec fn output_views(outputs: Seq<Output>) -> Seq<OutputView> {
    outputs.map_values(|o: Output| o@)
}

/// The position of the first entry with the given name, or the number of
/// entries where there is none.
pub open spec fn position(entries: Seq<EntryView>, name: Seq<u8>) -> int
    decreases entries.len(),
{
    if entries.len() == 0 {
        0
    } else if entries[0].name == name {
        0
    } else {
        1 + position(entries.drop_first(), name)
    }
}

/// `position` is within the entries, no entry before it has the name, and
/// the entry at it has the name unless it is past the end.
pub proof fn lemma_position(entries: Seq<EntryView>, name: Seq<u8>)
    ensures
        0 <= position(entries, name) <= entries.len(),
        forall|j: int| 0 <= j < position(entries, name) ==> entries[j].name != name,
        position(entries, name) < entries.len() ==> entries[position(entries, name)].name == name,
    decreases entries.len(),
{
    if entries.len() != 0 && entries[0].name != name {
        let rest = entries.drop_first();
        lemma_position(rest, name);
        assert forall|j: int| 0 <= j < position(entries, name) implies entries[j].name
            != name by {
            if j > 0 {
                assert(entries[j] == rest[j - 1]);
            }
        }
    }
}

/// Whether no two entries have the same name.
pub open spec fn distinct(entries: Seq<EntryView>) -> bool {
    forall|i: int, j: int|
        0 <= i < j < entries.len() ==> (#[trigger] entries[i]).name != (#[trigger] entries[j]).name
}

/// The workspace after one instruction for the document named `target`, or
/// the reason why the instruction was not applied. Only the document that is
/// named changes.
pub open spec fn applied_to(
    entries: Seq<EntryView>,
    target: Seq<u8>,
    command: CommandView,
) -> Result<Seq<EntryView>, WorkspaceError> {
    let at = position(entries, target);
    if at >= entries.len() {
        Err(WorkspaceError::NoSuchDocument)
    } else {
        match applied(entries[at].document, command) {
            Ok(after) => Ok(
                entries.update(at, EntryView { name: entries[at].name, document: after }),
            ),
            Err(error) => Err(WorkspaceError::Patch(error)),
        }
    }
}

/// The workspace after a list of targeted instructions, applied in order up
/// to the first that fails, and that failure where there is one. What the
/// instructions before the failure did stays.
pub open spec fn applied_to_all(entries: Seq<EntryView>, instructions: Seq<TargetedView>) -> (
    Seq<EntryView>,
    Option<WorkspaceFailure>,
)
    decreases instructions.len(),
{
    if instructions.len() == 0 {
        (entries, None)
    } else {
        let (before, failure) = applied_to_all(entries, instructions.drop_last());
        if failure is Some {
            (before, failure)
        } else {
            match applied_to(before, instructions.last().target, instructions.last().command) {
                Ok(after) => (after, None),
                Err(error) => (
                    before,
                    Some(WorkspaceFailure { index: (instructions.len() - 1) as usize, error }),
                ),
            }
        }
    }
}

/// Once a prefix of the instructions has failed, the rest is not applied.
pub proof fn lemma_applied_to_all_stops(
    entries: Seq<EntryView>,
    instructions: Seq<TargetedView>,
    k: int,
)
    requires
        0 <= k <= instructions.len(),
        applied_to_all(entries, instructions.take(k)).1 is Some,
    ensures
        applied_to_all(entries, instructions) == applied_to_all(entries, instructions.take(k)),
    decreases instructions.len() - k,
{
    if k < instructions.len() {
        let next = instructions.take(k + 1);
        assert(next.drop_last() =~= instructions.take(k));
        lemma_applied_to_all_stops(entries, instructions, k + 1);
    } else {
        assert(instructions.take(k) =~= instructions);
    }
}

/// An instruction leaves the names of the documents as they are, and every
/// document but the one that it names.
pub proof fn law_other_documents_stay(
    entries: Seq<EntryView>,
    target: Seq<u8>,
    command: CommandView,
)
    requires
        applied_to(entries, target, command) is Ok,
    ensures
        applied_to(entries, target, command)->Ok_0.len() == entries.len(),
        forall|i: int|
            0 <= i < entries.len() ==> (#[trigger] applied_to(
                entries,
                target,
                command,
            )->Ok_0[i]).name == entries[i].name,
        forall|i: int|
            0 <= i < entries.len() && entries[i].name != target ==> #[trigger] applied_to(
                entries,
                target,
                command,
            )->Ok_0[i] == entries[i],
{
    lemma_position(entries, target);
}

/// The texts of the documents, in order, each with its identifier.
pub open spec fn outputs_of(entries: Seq<EntryView>) -> Seq<OutputView> {
    entries.map_values(|e: EntryView| OutputView { name: e.name, text: document_text(e.document) })
}

/// Whether every document has a text.
pub open spec fn all_are_text(entries: Seq<EntryView>) -> bool {
    forall|i: int| 0 <= i < entries.len() ==> document_is_text((#[trigger] entries[i]).document)
}

/// The target documents of one merge, each under its identifier. A
/// workspace that is built by `new` and `insert` holds no two documents
/// under the same identifier; where one does, the first of them is the one
/// that the identifier names.
#[derive(Debug, Clone, PartialEq, Eq)]
pub struct Workspace {
    pub entries: Vec<Entry>,
}

impl View for Workspace {
    type V = Seq<EntryView>;

    open spec fn view(&self) -> Seq<EntryView> {
        entry_views(self.entries@)
    }
}

impl Workspace {
    /// A workspace without documents.
    pub fn new() -> (workspace: Workspace)
        ensures
            workspace@ == Seq::<EntryView>::empty(),
            distinct(workspace@),
    {
        let workspace = Workspace { entries: Vec::new() };
        assert(workspace@ =~= Seq::<EntryView>::empty());
        workspace
    }

    /// The number of documents.
    pub fn len(&self) -> (count: usize)
        ensures
            count == self@.len(),
    {
        self.entries.len()
    }

    /// The position of the document with the given name.
    fn find(&self, name: &[u8]) -> (at: usize)
        ensures
            at == position(self@, name@),
            at <= self@.len(),
    {
        let ghost all = self@;
        let mut i: usize = 0;
        proof {
            lemma_position(all, name@);
        }
        assert(all.skip(0) =~= all);
        while i < self.entries.len()
            invariant
                i <= self.entries.len(),
                all == self@,
                all == entry_views(self.entries@),
                position(all, name@) == i + position(all.skip(i as int), name@),
            decreases self.entries.len() - i,
        {
            assert(all.skip(i as int)[0] == self.entries@[i as int]@);
            assert(all.skip(i as int).drop_first() =~= all.skip(i as int + 1));
            if bytes_eq(self.entries[i].name.as_slice(), name) {
                return i;
            }
            i += 1;
        }
        assert(all.skip(i as int).len() == 0);
        i
    }

    /// The document under the given name.
    pub fn get(&self, name: &[u8]) -> (document: Option<&Document>)
        ensures
            match document {
                Some(d) => position(self@, name@) < self@.len() && d@ == self@[position(
                    self@,
                    name@,
                )].document,
                None => position(self@, name@) >= self@.len(),
            },
    {
        let at = self.find(name);
        if at < self.entries.len() {
            Some(&self.entries[at].document)
        } else {
            None
        }
    }

    /// Puts a document into the workspace under the given name. Where the
    /// workspace holds a document under that name already, nothing changes
    /// and the answer is `false`.
    pub fn insert(&mut self, name: &[u8], document: Document) -> (added: bool)
        ensures
            added == (position(old(self)@, name@) >= old(self)@.len()),
            added ==> final(self)@ == old(self)@.push(
                EntryView { name: name@, document: document@ },
            ),
            !added ==> final(self)@ == old(self)@,
            distinct(old(self)@) ==> distinct(final(self)@),
    {
        proof {
            lemma_position(self@, name@);
        }
        let at = self.find(name);
        if at < self.entries.len() {
            return false;
        }
        let ghost before = self@;
        self.entries.push(Entry { name: copy_bytes(name), document });
        assert(self@ =~= before.push(EntryView { name: name@, document: document@ }));
        true
    }

    /// Applies one instruction to the document named `target`. On failure
    /// the workspace stays as it was.
    pub fn apply(&mut self, target: &[u8], command: &Command) -> (outcome: Result<
        (),
        WorkspaceError,
    >)
        ensures
            match applied_to(old(self)@, target@, command@) {
                Ok(after) => outcome is Ok && final(self)@ == after,
                Err(error) => outcome == Err::<(), WorkspaceError>(error) && final(self)@ == old(
                    self,
                )@,
            },
    {
        let at = self.find(target);
        if at >= self.entries.len() {
            return Err(WorkspaceError::NoSuchDocument);
        }
        let ghost before = self@;
        let mut document = self.entries[at].document.duplicate();
        match document.apply(command) {
            Ok(()) => {
                let name = copy_bytes(self.entries[at].name.as_slice());
                self.entries.set(at, Entry { name, document });
                assert(self@ =~= before.update(
                    at as int,
                    EntryView { name: before[at as int].name, document: document@ },
                ));
                Ok(())
            },
            Err(error) => Err(WorkspaceError::Patch(error)),
        }
    }

    /// Applies the instructions in order, each to the document that it
    /// names, and stops at the first that fails. What the instructions
    /// before it did stays.
    pub fn apply_all(&mut self, instructions: &Vec<Targeted>) -> (outcome: Result<
        (),
        WorkspaceFailure,
    >)
        ensures
            final(self)@ == applied_to_all(old(self)@, targeted_views(instructions@)).0,
            match applied_to_all(old(self)@, targeted_views(instructions@)).1 {
                Some(failure) => outcome == Err::<(), WorkspaceFailure>(failure),
                None => outcome is Ok,
            },
    {
        let ghost all = targeted_views(instructions@);
        let mut i: usize = 0;
        assert(all.take(0) =~= Seq::<TargetedView>::empty());
        while i < instructions.len()
            invariant
                i <= instructions.len(),
                all == targeted_views(instructions@),
                applied_to_all(old(self)@, all.take(i as int)) == (
                    self@,
                    None::<WorkspaceFailure>,
                ),
            decreases instructions.len() - i,
        {
            let ghost upto = all.take(i as int + 1);
            assert(upto.drop_last() =~= all.take(i as int));
            assert(upto.last() == instructions@[i as int]@);
            match self.apply(instructions[i].target.as_slice(), &instructions[i].command) {
                Ok(()) => {},
                Err(error) => {
                    proof {
                        lemma_applied_to_all_stops(old(self)@, all, i as int + 1);
                    }
                    return Err(WorkspaceFailure { index: i, error });
                },
            }
            i += 1;
        }
        assert(all.take(instructions.len() as int) =~= all);
        Ok(())
    }

    /// The XML text of every document, in the order in which the documents
    /// were put in, each with its identifier, or `None` where a document has
    /// no text.
    pub fn outputs(&self) -> (outputs: Option<Vec<Output>>)
        ensures
            match outputs {
                Some(list) => all_are_text(self@) && output_views(list@) == outputs_of(self@),
                None => !all_are_text(self@),
            },
    {
        let ghost all = self@;
        let mut list: Vec<Output> = Vec::new();
        let mut i: usize = 0;
        while i < self.entries.len()
            invariant
                i <= self.entries.len(),
                all == self@,
                all == entry_views(self.entries@),
                list.len() == i,
                forall|j: int| 0 <= j < i ==> document_is_text((#[trigger] all[j]).document),
                forall|j: int|
                    0 <= j < i ==> (#[trigger] list@[j])@ == (OutputView {
                        name: all[j].name,
                        text: document_text(all[j].document),
                    }),
            decreases self.entries.len() - i,
        {
            match self.entries[i].document.serialize() {
                Some(text) => {
                    list.push(Output { name: copy_bytes(self.entries[i].name.as_slice()), text });
                },
                None => {
                    assert(!document_is_text(all[i as int].document));
                    return None;
                },
            }
            i += 1;
        }
        assert(output_views(list@) =~= outputs_of(all));
        Some(list)
    }
}

} // verus!
