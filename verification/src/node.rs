//! Symbol records.
//!
//! A [`CodeNode`] describes one definition or one call site of a source
//! file. Contracts speak of a record through its view, a [`Symbol`].

use vstd::prelude::*;
use crate::ident::ID_LENGTH;

verus! {

/// What a record stands for.
#[derive(Debug, Clone, Copy, Hash, PartialEq, Eq, Structural)]
pub enum CodeBlockType {
    FUNCTION,
    METHOD,
    STRUCT,
    IMPL,
    CLASS,
    CONST,
    NORMAL,
    CALL,
}

/// The mathematical value of a record.
pub struct Symbol {
    /// The identifier.
    pub id: Seq<char>,
    /// For a definition its signature, for a call the name of the callee.
    pub label: Seq<char>,
    /// The source text of the node that the record was made from.
    pub block: Seq<char>,
    /// The line on which that node starts.
    pub file_location: nat,
    /// The path of the file that holds it.
    pub file_path: Seq<char>,
    /// Nesting depth in the outline; the root of a file is at depth 0.
    pub level: nat,
    /// What the record stands for.
    pub block_type: CodeBlockType,
    /// Whether a view of the outline shows the record.
    pub visible: bool,
}

impl Symbol {
    /// The record without its identifier.
    pub open spec fn anonymous(self) -> Symbol {
        Symbol { id: Seq::empty(), ..self }
    }

    /// The record as it is when first made: in no file yet, and shown.
    pub open spec fn fresh(
        label: Seq<char>,
        block: Seq<char>,
        file_location: nat,
        block_type: CodeBlockType,
        level: nat,
    ) -> Symbol {
        Symbol {
            id: Seq::empty(),
            label,
            block,
            file_location,
            file_path: Seq::empty(),
            level,
            block_type,
            visible: true,
        }
    }

    /// The record placed in the file `path` at depth `level`.
    pub open spec fn stamped(self, path: Seq<char>, level: nat) -> Symbol {
        Symbol { file_path: path, level, ..self }
    }

    /// The record placed in the file `path`.
    pub open spec fn in_file(self, path: Seq<char>) -> Symbol {
        Symbol { file_path: path, ..self }
    }
}

/// Each record of `records` without its identifier.
pub open spec fn anonymous_all(records: Seq<Symbol>) -> Seq<Symbol> {
    records.map_values(|record: Symbol| record.anonymous())
}

/// Each of `records` has an identifier of the length that the library gives
/// its identifiers.
pub open spec fn identified(records: Seq<Symbol>) -> bool {
    forall|i: int| 0 <= i < records.len() ==> (#[trigger] records[i]).id.len() == ID_LENGTH
}

/// Records that are identified, followed by others that are, are
/// identified.
pub proof fn lemma_identified_both(first: Seq<Symbol>, second: Seq<Symbol>)
    requires
        identified(first),
        identified(second),
    ensures
        identified(first + second),
{
    assert forall|i: int| 0 <= i < (first + second).len() implies (#[trigger] (first
        + second)[i]).id.len() == ID_LENGTH by {
        if i < first.len() {
            assert((first + second)[i] == first[i]);
        } else {
            assert((first + second)[i] == second[i - first.len()]);
        }
    }
}

/// The views of `records`, in order.
pub open spec fn views(records: Seq<CodeNode>) -> Seq<Symbol> {
    records.map_values(|record: CodeNode| record@)
}

/// A definition or a call site of a source file.
#[derive(Debug)]
pub struct CodeNode {
    /// The identifier, unlike that of any other record but by chance.
    pub id: String,
    /// For a definition its signature, for a call the name of the callee.
    pub label: String,
    /// The source text of the node that the record was made from.
    pub block: String,
    /// The line on which that node starts.
    pub file_location: usize,
    /// The path of the file that holds it.
    pub file_path: String,
    /// Nesting depth in the outline; the root of a file is at depth 0.
    pub level: usize,
    /// What the record stands for.
    pub block_type: CodeBlockType,
    /// Whether a view of the outline shows the record.
    pub visible: bool,
}

impl View for CodeNode {
    type V = Symbol;

    open spec fn view(&self) -> Symbol {
        Symbol {
            id: self.id@,
            label: self.label@,
            block: self.block@,
            file_location: self.file_location as nat,
            file_path: self.file_path@,
            level: self.level as nat,
            block_type: self.block_type,
            visible: self.visible,
        }
    }
}

impl CodeNode {
    /// A record with the given identifier, in no file yet, and shown.
    pub fn new(
        id: &str,
        label: &str,
        block: &str,
        file_location: usize,
        block_type: CodeBlockType,
        level: usize,
    ) -> (record: CodeNode)
        ensures
            record@ == (Symbol {
                id: id@,
                ..Symbol::fresh(label@, block@, file_location as nat, block_type, level as nat)
            }),
    {
        CodeNode {
            id: id.to_owned(),
            label: label.to_owned(),
            block: block.to_owned(),
            file_location,
            file_path: String::new(),
            block_type,
            level,
            visible: true,
        }
    }
}

impl Clone for CodeNode {
    fn clone(&self) -> (copy: CodeNode)
        ensures
            copy == *self,
    {
        CodeNode {
            id: self.id.clone(),
            label: self.label.clone(),
            block: self.block.clone(),
            file_location: self.file_location,
            file_path: self.file_path.clone(),
            level: self.level,
            block_type: self.block_type,
            visible: self.visible,
        }
    }
}

impl Default for CodeNode {
    fn default() -> (record: CodeNode)
        ensures
            record@ == Symbol::fresh(
                Seq::empty(),
                Seq::empty(),
                0,
                CodeBlockType::NORMAL,
                0,
            ),
    {
        CodeNode {
            id: String::new(),
            label: String::new(),
            block: String::new(),
            file_location: 0,
            file_path: String::new(),
            level: 0,
            block_type: CodeBlockType::NORMAL,
            visible: true,
        }
    }
}

} // verus!
