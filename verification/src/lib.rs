//! Static extraction of program structure from source text.
//!
//! For one source file the crate produces an outline, the tree of its named
//! definitions, and the flat list of its call sites in the order in which a
//! pre-order walk of the syntax tree meets them. Four languages are supported,
//! each through an adapter that recognises definitions and calls on the nodes
//! of a syntax tree.
//!
//! Parsing is left to tree-sitter. Everything that happens to the tree after
//! it has been parsed is stated in contracts and proved.

pub mod calls;
pub mod extract;
pub mod facts;
pub mod grammar;
pub mod graph;
pub mod ident;
pub mod label;
pub mod lang;
pub mod node;
pub mod outline;
pub mod parse;
pub mod project;
pub mod related;
pub mod syntax;
pub mod text;
pub mod tree;

pub use calls::recursion_call;
pub use extract::{fetch_calls, fetch_symbols, get_symbol_query, valid_file_extention};
pub use graph::{CodeNodeIndex, Edge, Graph};
pub use lang::{CQuery, JavaQuery, JsQuery, LanguageQuery, RustQuery, SymbolQuery};
pub use node::{CodeBlockType, CodeNode};
pub use outline::{build_outline, recursion_outline};
pub use parse::{parse_source, parse_source_within, ExtractError};
pub use project::{fetch_project_calls, SourceUnit};
pub use related::related_calls;
pub use syntax::SyntaxNode;
pub use tree::{Tree, TreeEvent, TreeType};
