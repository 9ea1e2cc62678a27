//! The language adapters.
//!
//! An adapter recognises, on a node of a syntax tree, the definitions and the
//! calls of one language, and names the grammar that parses that language.
//! What an adapter recognises is a spec function of the node and the source,
//! so that the two walks over a tree can be stated without looking into any
//! adapter.

use vstd::prelude::*;
use vstd::string::StringExecFns;
use crate::ident::{fresh_id, ID_LENGTH};
use crate::label::{signature, signature_label};
use crate::node::{CodeBlockType, CodeNode, Symbol};
use crate::syntax::{lemma_field_child_fits, SyntaxNode};
use crate::text::{before_first, prefix_before, same_text, span_ok};

verus! {

/// `found` is the record `wanted`, under an identifier of the library's
/// making, or both are absent.
pub open spec fn recognised(found: Option<CodeNode>, wanted: Option<Symbol>) -> bool {
    match found {
        Some(record) => wanted == Some(record@.anonymous()) && record@.id.len() == ID_LENGTH,
        None => wanted is None,
    }
}

/// What the adapter of one language recognises.
pub trait SymbolQuery {
    /// The call that `node` is, if it is one. The record has no identifier
    /// and is in no file yet.
    spec fn call_at(&self, code: Seq<char>, node: &SyntaxNode) -> Option<Symbol>;

    /// The definition that `node` is, if it is one, where `parent` is the
    /// node that holds it. The record has no identifier, is in no file yet
    /// and is at depth 0.
    spec fn definition_at(
        &self,
        code: Seq<char>,
        node: &SyntaxNode,
        parent: Option<&SyntaxNode>,
    ) -> Option<Symbol>;

    /// The call that `node` is, under a fresh identifier.
    fn get_call(&self, code: &str, node: &SyntaxNode) -> (found: Option<CodeNode>)
        requires
            node.fits(code@),
        ensures
            recognised(found, self.call_at(code@, node)),
    ;

    /// The grammar that parses the language.
    fn get_lang(&self) -> tree_sitter::Language;

    /// The definition that `node` is, under a fresh identifier.
    fn get_definition(&self, code: &str, node: &SyntaxNode, parent: Option<&SyntaxNode>) -> (found:
        Option<CodeNode>)
        requires
            node.fits(code@),
        ensures
            recognised(found, self.definition_at(code@, node, parent)),
    ;
}

/// The adapter for Rust.
pub struct RustQuery;

/// The adapter for C.
pub struct CQuery;

/// The adapter for Java.
pub struct JavaQuery;

/// The adapter for JavaScript.
pub struct JsQuery;

/// The record made at `node` with the label `label`, on the line `line`:
/// its block is the text of `node`, it is in no file yet and at depth 0.
pub open spec fn record_at(
    code: Seq<char>,
    node: SyntaxNode,
    label: Seq<char>,
    line: nat,
    block_type: CodeBlockType,
) -> Symbol {
    Symbol::fresh(label, node.text_in(code), line, block_type, 0)
}

/// A record for `node` under a fresh identifier.
pub fn make_record(
    code: &str,
    node: &SyntaxNode,
    label: &str,
    line: usize,
    block_type: CodeBlockType,
) -> (record: CodeNode)
    requires
        span_ok(code@, node.start_byte as int, node.end_byte as int),
    ensures
        record@.anonymous() == record_at(code@, *node, label@, line as nat, block_type),
        record@.id.len() == ID_LENGTH,
{
    let id = fresh_id();
    CodeNode::new(id.as_str(), label, node.text(code), line, block_type, 0)
}

/// The definition that `node` is when its signature ends before its first
/// child of kind `terminator`.
pub open spec fn definition(
    code: Seq<char>,
    node: SyntaxNode,
    terminator: Seq<char>,
    block_type: CodeBlockType,
) -> Symbol {
    record_at(code, node, signature(code, node, terminator), node.start_line as nat, block_type)
}

/// The record of the definition `node`, whose signature ends before its
/// first child of kind `terminator`.
pub fn make_definition(
    code: &str,
    node: &SyntaxNode,
    terminator: &str,
    block_type: CodeBlockType,
) -> (record: CodeNode)
    requires
        node.fits(code@),
    ensures
        record@.anonymous() == definition(code@, *node, terminator@, block_type),
        record@.id.len() == ID_LENGTH,
{
    let label = signature_label(code, node, terminator);
    make_record(code, node, label.as_str(), node.start_line, block_type)
}

/// The call record of `node`, named after the node `named`.
pub open spec fn call_named(code: Seq<char>, node: SyntaxNode, named: SyntaxNode) -> Symbol {
    record_at(code, node, named.text_in(code), named.start_line as nat, CodeBlockType::CALL)
}

/// The call that `node` is where calls are nodes of kind `call_kind` that
/// hold what is called under the field `name_field`.
pub open spec fn plain_call(
    code: Seq<char>,
    node: SyntaxNode,
    call_kind: Seq<char>,
    name_field: Seq<char>,
) -> Option<Symbol> {
    if node.kind@ != call_kind {
        None
    } else {
        match node.field_child(name_field) {
            Some(callee) => Some(call_named(code, node, callee)),
            None => None,
        }
    }
}

/// The call that `node` is where calls are nodes of kind `call_kind` that
/// hold what is called under the field `callee_field`. A callee that in turn
/// holds a member under the field `member_field` is named after the member.
pub open spec fn member_call(
    code: Seq<char>,
    node: SyntaxNode,
    call_kind: Seq<char>,
    callee_field: Seq<char>,
    member_field: Seq<char>,
) -> Option<Symbol> {
    if node.kind@ != call_kind {
        None
    } else {
        match node.field_child(callee_field) {
            Some(callee) => match callee.field_child(member_field) {
                Some(member) => Some(call_named(code, node, member)),
                None => Some(call_named(code, node, callee)),
            },
            None => None,
        }
    }
}

/// The call that `node` is, named after what it holds under `name_field`.
pub fn find_plain_call(code: &str, node: &SyntaxNode, call_kind: &str, name_field: &str) -> (found:
    Option<CodeNode>)
    requires
        node.fits(code@),
    ensures
        recognised(found, plain_call(code@, *node, call_kind@, name_field@)),
{
    if !same_text(node.kind.as_str(), call_kind) {
        return None;
    }
    match node.child_by_field_name(name_field) {
        Some(callee) => {
            proof {
                lemma_field_child_fits(*node, name_field@, code@);
            }
            Some(
                make_record(
                    code,
                    node,
                    callee.text(code),
                    callee.start_line,
                    CodeBlockType::CALL,
                ),
            )
        },
        None => None,
    }
}

/// The call that `node` is, named after the member of its callee where the
/// callee has one, else after the callee.
pub fn find_member_call(
    code: &str,
    node: &SyntaxNode,
    call_kind: &str,
    callee_field: &str,
    member_field: &str,
) -> (found: Option<CodeNode>)
    requires
        node.fits(code@),
    ensures
        recognised(found, member_call(code@, *node, call_kind@, callee_field@, member_field@)),
{
    if !same_text(node.kind.as_str(), call_kind) {
        return None;
    }
    match node.child_by_field_name(callee_field) {
        Some(callee) => {
            proof {
                lemma_field_child_fits(*node, callee_field@, code@);
            }
            let named = match callee.child_by_field_name(member_field) {
                Some(member) => {
                    proof {
                        lemma_field_child_fits(*callee, member_field@, code@);
                    }
                    member
                },
                None => callee,
            };
            Some(
                make_record(code, node, named.text(code), named.start_line, CodeBlockType::CALL),
            )
        },
        None => None,
    }
}

/// Whether `parent` is a node of kind `kind`.
pub open spec fn held_by(parent: Option<&SyntaxNode>, kind: Seq<char>) -> bool {
    parent matches Some(holder) && holder.kind@ == kind
}

/// Whether `parent` is a node of kind `kind`.
pub fn is_held_by(parent: Option<&SyntaxNode>, kind: &str) -> (held: bool)
    ensures
        held == held_by(parent, kind@),
{
    match parent {
        Some(holder) => same_text(holder.kind.as_str(), kind),
        None => false,
    }
}

/// The names that `declarators` bind, each with a space before it: of each
/// node of kind `variable_declarator`, the text of what it holds under the
/// field `name`.
pub open spec fn binding_names(code: Seq<char>, declarators: Seq<SyntaxNode>) -> Seq<char>
    decreases declarators.len(),
{
    if declarators.len() == 0 {
        Seq::empty()
    } else {
        let before = binding_names(code, declarators.drop_last());
        let last = declarators.last();
        if last.kind@ == "variable_declarator"@ {
            match last.field_child("name"@) {
                Some(name) => before + seq![' '] + name.text_in(code),
                None => before,
            }
        } else {
            before
        }
    }
}

/// The label of a binding statement: its keyword, which it holds under the
/// field `kind`, and the names that it binds.
pub open spec fn binding_label(code: Seq<char>, node: SyntaxNode) -> Seq<char> {
    let keyword = match node.field_child("kind"@) {
        Some(keyword) => keyword.text_in(code),
        None => Seq::empty(),
    };
    keyword + binding_names(code, node.children@)
}

/// The label of the binding statement `node`.
pub fn binding_label_of(code: &str, node: &SyntaxNode) -> (label: String)
    requires
        node.fits(code@),
    ensures
        label@ == binding_label(code@, *node),
{
    let mut label = String::new();
    match node.child_by_field_name("kind") {
        Some(keyword) => {
            proof {
                lemma_field_child_fits(*node, "kind"@, code@);
            }
            label.append(keyword.text(code));
        },
        None => {},
    }
    let ghost keyword = label@;
    let mut i: usize = 0;
    while i < node.children.len()
        invariant
            i <= node.children.len(),
            node.fits(code@),
            label@ == keyword + binding_names(code@, node.children@.take(i as int)),
        decreases node.children.len() - i,
    {
        let child = &node.children[i];
        proof {
            assert(child.fits(code@));
            assert(node.children@.take(i + 1).drop_last() =~= node.children@.take(i as int));
        }
        if same_text(child.kind.as_str(), "variable_declarator") {
            match child.child_by_field_name("name") {
                Some(name) => {
                    proof {
                        lemma_field_child_fits(*child, "name"@, code@);
                        reveal_strlit(" ");
                        assert(" "@ =~= seq![' ']);
                    }
                    label.append(" ");
                    label.append(name.text(code));
                },
                None => {},
            }
        }
        i = i + 1;
    }
    proof {
        assert(node.children@.take(i as int) =~= node.children@);
    }
    label
}

impl SymbolQuery for JsQuery {
    open spec fn call_at(&self, code: Seq<char>, node: &SyntaxNode) -> Option<Symbol> {
        member_call(code, *node, "call_expression"@, "function"@, "property"@)
    }

    open spec fn definition_at(
        &self,
        code: Seq<char>,
        node: &SyntaxNode,
        parent: Option<&SyntaxNode>,
    ) -> Option<Symbol> {
        if node.kind@ == "function_declaration"@ {
            Some(definition(code, *node, "formal_parameters"@, CodeBlockType::FUNCTION))
        } else if node.kind@ == "class_declaration"@ {
            Some(definition(code, *node, "class_body"@, CodeBlockType::CLASS))
        } else if node.kind@ == "method_definition"@ {
            Some(definition(code, *node, "formal_parameters"@, CodeBlockType::FUNCTION))
        } else if node.kind@ == "lexical_declaration"@ && held_by(parent, "program"@) {
            Some(
                record_at(
                    code,
                    *node,
                    binding_label(code, *node),
                    node.start_line as nat,
                    CodeBlockType::CONST,
                ),
            )
        } else {
            None
        }
    }

    fn get_call(&self, code: &str, node: &SyntaxNode) -> (found: Option<CodeNode>) {
        find_member_call(code, node, "call_expression", "function", "property")
    }

    fn get_lang(&self) -> tree_sitter::Language {
        tree_sitter_javascript::language()
    }

    fn get_definition(&self, code: &str, node: &SyntaxNode, parent: Option<&SyntaxNode>) -> (found:
        Option<CodeNode>) {
        let kind = node.kind.as_str();
        if same_text(kind, "function_declaration") {
            Some(make_definition(code, node, "formal_parameters", CodeBlockType::FUNCTION))
        } else if same_text(kind, "class_declaration") {
            Some(make_definition(code, node, "class_body", CodeBlockType::CLASS))
        } else if same_text(kind, "method_definition") {
            Some(make_definition(code, node, "formal_parameters", CodeBlockType::FUNCTION))
        } else if same_text(kind, "lexical_declaration") && is_held_by(parent, "program") {
            let label = binding_label_of(code, node);
            Some(make_record(code, node, label.as_str(), node.start_line, CodeBlockType::CONST))
        } else {
            None
        }
    }
}

/// The label that a definition of C gets where cutting its signature at the
/// first parenthesis leaves nothing.
pub const BAD_SYMBOL: &'static str = "bad symbol";

/// The label of a definition of C: its signature up to the first opening
/// parenthesis, or [`BAD_SYMBOL`] where that is empty.
pub open spec fn cut_label(code: Seq<char>, node: SyntaxNode, terminator: Seq<char>) -> Seq<char> {
    let cut = before_first(signature(code, node, terminator), '(');
    if cut.len() == 0 {
        BAD_SYMBOL@
    } else {
        cut
    }
}

/// The record of the definition `node` of C, whose signature ends before its
/// first child of kind `terminator`.
pub fn make_cut_definition(
    code: &str,
    node: &SyntaxNode,
    terminator: &str,
    block_type: CodeBlockType,
) -> (record: CodeNode)
    requires
        node.fits(code@),
    ensures
        record@.anonymous() == record_at(
            code@,
            *node,
            cut_label(code@, *node, terminator@),
            node.start_line as nat,
            block_type,
        ),
        record@.id.len() == ID_LENGTH,
{
    let whole = signature_label(code, node, terminator);
    let cut = prefix_before(whole.as_str(), '(');
    let label = if cut.is_empty() {
        BAD_SYMBOL
    } else {
        cut
    };
    make_record(code, node, label, node.start_line, block_type)
}

impl SymbolQuery for CQuery {
    open spec fn call_at(&self, code: Seq<char>, node: &SyntaxNode) -> Option<Symbol> {
        member_call(code, *node, "call_expression"@, "function"@, "field"@)
    }

    open spec fn definition_at(
        &self,
        code: Seq<char>,
        node: &SyntaxNode,
        parent: Option<&SyntaxNode>,
    ) -> Option<Symbol> {
        if node.kind@ == "function_definition"@ {
            Some(
                record_at(
                    code,
                    *node,
                    cut_label(code, *node, "compound_statement"@),
                    node.start_line as nat,
                    CodeBlockType::FUNCTION,
                ),
            )
        } else {
            None
        }
    }

    fn get_call(&self, code: &str, node: &SyntaxNode) -> (found: Option<CodeNode>) {
        find_member_call(code, node, "call_expression", "function", "field")
    }

    fn get_lang(&self) -> tree_sitter::Language {
        tree_sitter_c::language()
    }

    fn get_definition(&self, code: &str, node: &SyntaxNode, parent: Option<&SyntaxNode>) -> (found:
        Option<CodeNode>) {
        if same_text(node.kind.as_str(), "function_definition") {
            Some(make_cut_definition(code, node, "compound_statement", CodeBlockType::FUNCTION))
        } else {
            None
        }
    }
}

impl SymbolQuery for JavaQuery {
    open spec fn call_at(&self, code: Seq<char>, node: &SyntaxNode) -> Option<Symbol> {
        plain_call(code, *node, "method_invocation"@, "name"@)
    }

    open spec fn definition_at(
        &self,
        code: Seq<char>,
        node: &SyntaxNode,
        parent: Option<&SyntaxNode>,
    ) -> Option<Symbol> {
        if node.kind@ == "class_declaration"@ {
            Some(definition(code, *node, "class_body"@, CodeBlockType::CLASS))
        } else if node.kind@ == "method_declaration"@ {
            Some(definition(code, *node, "formal_parameters"@, CodeBlockType::FUNCTION))
        } else if node.kind@ == "interface_declaration"@ {
            Some(definition(code, *node, "interface_body"@, CodeBlockType::CLASS))
        } else {
            None
        }
    }

    fn get_call(&self, code: &str, node: &SyntaxNode) -> (found: Option<CodeNode>) {
        find_plain_call(code, node, "method_invocation", "name")
    }

    fn get_lang(&self) -> tree_sitter::Language {
        tree_sitter_java::language()
    }

    fn get_definition(&self, code: &str, node: &SyntaxNode, parent: Option<&SyntaxNode>) -> (found:
        Option<CodeNode>) {
        let kind = node.kind.as_str();
        if same_text(kind, "class_declaration") {
            Some(make_definition(code, node, "class_body", CodeBlockType::CLASS))
        } else if same_text(kind, "method_declaration") {
            Some(make_definition(code, node, "formal_parameters", CodeBlockType::FUNCTION))
        } else if same_text(kind, "interface_declaration") {
            Some(make_definition(code, node, "interface_body", CodeBlockType::CLASS))
        } else {
            None
        }
    }
}

impl SymbolQuery for RustQuery {
    open spec fn call_at(&self, code: Seq<char>, node: &SyntaxNode) -> Option<Symbol> {
        member_call(code, *node, "call_expression"@, "function"@, "field"@)
    }

    open spec fn definition_at(
        &self,
        code: Seq<char>,
        node: &SyntaxNode,
        parent: Option<&SyntaxNode>,
    ) -> Option<Symbol> {
        if node.kind@ == "function_item"@ {
            Some(definition(code, *node, "parameters"@, CodeBlockType::FUNCTION))
        } else if node.kind@ == "impl_item"@ {
            Some(definition(code, *node, "declaration_list"@, CodeBlockType::CLASS))
        } else if node.kind@ == "struct_item"@ {
            Some(definition(code, *node, "field_declaration_list"@, CodeBlockType::STRUCT))
        } else if node.kind@ == "trait_item"@ {
            Some(definition(code, *node, "declaration_list"@, CodeBlockType::CLASS))
        } else if node.kind@ == "function_signature_item"@ {
            Some(definition(code, *node, "parameters"@, CodeBlockType::FUNCTION))
        } else {
            None
        }
    }

    fn get_lang(&self) -> tree_sitter::Language {
        tree_sitter_rust::language()
    }

    fn get_call(&self, code: &str, node: &SyntaxNode) -> (found: Option<CodeNode>) {
        find_member_call(code, node, "call_expression", "function", "field")
    }

    fn get_definition(&self, code: &str, node: &SyntaxNode, parent: Option<&SyntaxNode>) -> (found:
        Option<CodeNode>) {
        let kind = node.kind.as_str();
        if same_text(kind, "function_item") {
            Some(make_definition(code, node, "parameters", CodeBlockType::FUNCTION))
        } else if same_text(kind, "impl_item") {
            Some(make_definition(code, node, "declaration_list", CodeBlockType::CLASS))
        } else if same_text(kind, "struct_item") {
            Some(make_definition(code, node, "field_declaration_list", CodeBlockType::STRUCT))
        } else if same_text(kind, "trait_item") {
            Some(make_definition(code, node, "declaration_list", CodeBlockType::CLASS))
        } else if same_text(kind, "function_signature_item") {
            Some(make_definition(code, node, "parameters", CodeBlockType::FUNCTION))
        } else {
            None
        }
    }
}

/// The adapter of any one of the supported languages.
#[derive(Debug, Clone, Copy, PartialEq, Eq, Structural)]
pub enum LanguageQuery {
    Rust,
    C,
    Java,
    JavaScript,
}

impl SymbolQuery for LanguageQuery {
    open spec fn call_at(&self, code: Seq<char>, node: &SyntaxNode) -> Option<Symbol> {
        match self {
            LanguageQuery::Rust => RustQuery.call_at(code, node),
            LanguageQuery::C => CQuery.call_at(code, node),
            LanguageQuery::Java => JavaQuery.call_at(code, node),
            LanguageQuery::JavaScript => JsQuery.call_at(code, node),
        }
    }

    open spec fn definition_at(
        &self,
        code: Seq<char>,
        node: &SyntaxNode,
        parent: Option<&SyntaxNode>,
    ) -> Option<Symbol> {
        match self {
            LanguageQuery::Rust => RustQuery.definition_at(code, node, parent),
            LanguageQuery::C => CQuery.definition_at(code, node, parent),
            LanguageQuery::Java => JavaQuery.definition_at(code, node, parent),
            LanguageQuery::JavaScript => JsQuery.definition_at(code, node, parent),
        }
    }

    fn get_call(&self, code: &str, node: &SyntaxNode) -> (found: Option<CodeNode>) {
        match self {
            LanguageQuery::Rust => RustQuery.get_call(code, node),
            LanguageQuery::C => CQuery.get_call(code, node),
            LanguageQuery::Java => JavaQuery.get_call(code, node),
            LanguageQuery::JavaScript => JsQuery.get_call(code, node),
        }
    }

    fn get_lang(&self) -> tree_sitter::Language {
        match self {
            LanguageQuery::Rust => RustQuery.get_lang(),
            LanguageQuery::C => CQuery.get_lang(),
            LanguageQuery::Java => JavaQuery.get_lang(),
            LanguageQuery::JavaScript => JsQuery.get_lang(),
        }
    }

    fn get_definition(&self, code: &str, node: &SyntaxNode, parent: Option<&SyntaxNode>) -> (found:
        Option<CodeNode>) {
        match self {
            LanguageQuery::Rust => RustQuery.get_definition(code, node, parent),
            LanguageQuery::C => CQuery.get_definition(code, node, parent),
            LanguageQuery::Java => JavaQuery.get_definition(code, node, parent),
            LanguageQuery::JavaScript => JsQuery.get_definition(code, node, parent),
        }
    }
}

} // verus!
