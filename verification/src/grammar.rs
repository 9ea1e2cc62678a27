//! The grammars of the supported languages, as tree-sitter provides them.
//!
//! Nothing here is proved. A grammar handle is opaque: the library only
//! passes it on to the parser, so none of the declarations below claims
//! anything of the value returned.

use vstd::prelude::*;

verus! {

/// `tree_sitter::Language`, a grammar handle. Verus sees nothing inside it.
#[verifier::external_type_specification]
#[verifier::external_body]
pub struct ExLanguage(tree_sitter::Language);

/// `tree_sitter_rust::language`, the grammar of Rust. No claim is made of
/// the handle.
pub assume_specification[ tree_sitter_rust::language ]() -> tree_sitter::Language;

/// `tree_sitter_c::language`, the grammar of C. No claim is made of the
/// handle.
pub assume_specification[ tree_sitter_c::language ]() -> tree_sitter::Language;

/// `tree_sitter_java::language`, the grammar of Java. No claim is made of
/// the handle.
pub assume_specification[ tree_sitter_java::language ]() -> tree_sitter::Language;

/// `tree_sitter_javascript::language`, the grammar of JavaScript. No claim is
/// made of the handle.
pub assume_specification[ tree_sitter_javascript::language ]() -> tree_sitter::Language;

} // verus!
