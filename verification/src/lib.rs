//! Merging of XML configuration overlays ("modlets") into a target
//! document.
//!
//! An overlay ships patch files. Each element of a patch file spells one
//! instruction: append content, insert a sibling, remove a node or an
//! attribute, set a text or an attribute, add a member to or remove one from
//! a comma-separated value. An instruction names the nodes it edits by a
//! path expression.
//!
//! - [`command`]: the instruction model.
//! - [`parser`]: from the elements of a patch file to instructions.
//! - [`path`]: the grammar of path expressions.
//! - [`matcher`]: which nodes a path selects.
//! - [`engine`]: what each instruction does to a document.
//! - [`serializer`]: the XML text of a document.
//! - [`workspace`]: the documents of one merge, by identifier.
//! - [`laws`]: what holds of the engine on every document.
//!
//! Everything here works on values in memory. Reading files, and turning
//! their text into [`event::XmlEvent`]s, is left to the caller.

pub mod bytes;
pub mod command;
pub mod csv;
pub mod engine;
pub mod event;
pub mod laws;
pub mod matcher;
pub mod package;
pub mod parser;
pub mod path;
pub mod serializer;
pub mod text;
pub mod tree;
pub mod workspace;
pub mod xml;

pub use command::{Command, CsvInstruction, InstructionSet, WriteError};
pub use engine::{Edit, Failure, MergeFailure, PatchError};
pub use event::{Attribute, XmlEvent};
pub use parser::{parse_instruction, read_patch, ParsedInstruction, PatchFile, Skipped};
pub use path::PathExpr;
pub use tree::{Document, Node};
pub use workspace::{Entry, Output, Targeted, Workspace, WorkspaceError, WorkspaceFailure};
