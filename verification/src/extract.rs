//! From a file to its outline and its call sites.

use vstd::prelude::*;
use crate::calls::{calls_of, recursion_call};
use crate::graph::Graph;
use crate::lang::{LanguageQuery, SymbolQuery};
use crate::node::{anonymous_all, identified, views, CodeNode};
use crate::outline::{build_outline, file_outline, shows};
use crate::parse::{parse_source, ExtractError};
use crate::syntax::SyntaxNode;
use crate::text::same_text;

verus! {

/// The adapter for files with the extension `extension`, if the library has
/// one.
pub open spec fn query_for(extension: Seq<char>) -> Option<LanguageQuery> {
    if extension == "rs"@ {
        Some(LanguageQuery::Rust)
    } else if extension == "java"@ {
        Some(LanguageQuery::Java)
    } else if extension == "c"@ || extension == "h"@ {
        Some(LanguageQuery::C)
    } else if extension == "js"@ || extension == "jsx"@ {
        Some(LanguageQuery::JavaScript)
    } else {
        None
    }
}

/// Whether the library has an adapter for files with the extension
/// `extension`.
pub fn valid_file_extention(extension: &str) -> (valid: bool)
    ensures
        valid == (query_for(extension@) is Some),
{
    same_text(extension, "rs") || same_text(extension, "c") || same_text(extension, "h")
        || same_text(extension, "java") || same_text(extension, "js") || same_text(
        extension,
        "jsx",
    )
}

/// The adapter for files with the extension `extention`. A file with any
/// other extension than those of the supported languages has none.
pub fn get_symbol_query(extention: &str) -> (query: Option<LanguageQuery>)
    ensures
        query == query_for(extention@),
{
    if same_text(extention, "rs") {
        Some(LanguageQuery::Rust)
    } else if same_text(extention, "java") {
        Some(LanguageQuery::Java)
    } else if same_text(extention, "c") || same_text(extention, "h") {
        Some(LanguageQuery::C)
    } else if same_text(extention, "js") || same_text(extention, "jsx") {
        Some(LanguageQuery::JavaScript)
    } else {
        None
    }
}

/// `calls` are the call sites of the file `path` with the text `code`, read
/// off a syntax tree that fits the text.
pub open spec fn calls_of_file<Q: SymbolQuery>(
    query: &Q,
    code: Seq<char>,
    path: Seq<char>,
    calls: Seq<CodeNode>,
) -> bool {
    &&& identified(views(calls))
    &&& exists|root: SyntaxNode| #[trigger]
        root.fits(code) && anonymous_all(views(calls)) == calls_of(query, code, path, &root)
}

/// The call sites of the file `path` with the text `code`, given what
/// parsing the text came to: those of the tree where there is one, else the
/// error that parsing ended with.
pub fn calls_from<Q: SymbolQuery>(
    parsed: Result<SyntaxNode, ExtractError>,
    path: &str,
    code: &str,
    symbol_query: &Q,
) -> (fetched: Result<Vec<CodeNode>, ExtractError>)
    requires
        parsed matches Ok(root) ==> root.fits(code@),
    ensures
        match parsed {
            Ok(root) => fetched matches Ok(calls) && identified(views(calls@)) && anonymous_all(
                views(calls@),
            ) == calls_of(symbol_query, code@, path@, &root),
            Err(error) => fetched == Err::<Vec<CodeNode>, ExtractError>(error),
        },
{
    match parsed {
        Ok(root) => Ok(recursion_call(&root, path, code, symbol_query)),
        Err(error) => Err(error),
    }
}

/// Parses `code`, the text of the file `path`, and collects its call sites.
///
/// What the parser makes of the text is not stated, so the call sites are
/// stated as those of some tree that fits the text; [`calls_from`] says
/// what is returned for each outcome of parsing.
pub fn fetch_calls<Q: SymbolQuery>(path: &str, code: &str, symbol_query: Q) -> (fetched: Result<
    Vec<CodeNode>,
    ExtractError,
>)
    ensures
        fetched matches Ok(calls) ==> calls_of_file(&symbol_query, code@, path@, calls@),
{
    let language = symbol_query.get_lang();
    calls_from(parse_source(&language, code), path, code, &symbol_query)
}

/// `graph` shows the outline of the file `path` with the text `code`, read
/// off a syntax tree that fits the text.
pub open spec fn outline_of_file<Q: SymbolQuery>(
    query: &Q,
    code: Seq<char>,
    path: Seq<char>,
    graph: Graph,
) -> bool {
    exists|root: SyntaxNode| #[trigger]
        root.fits(code) && shows(graph@, file_outline(query, code, path, &root))
}

/// Given what parsing `code`, the text of the file `path`, came to:
/// replaces what `graph` holds by the outline of the tree where there is
/// one, else leaves `graph` as it was and returns the error that parsing
/// ended with.
pub fn outline_from<Q: SymbolQuery>(
    parsed: Result<SyntaxNode, ExtractError>,
    path: &str,
    code: &str,
    symbol_query: &Q,
    graph: &mut Graph,
) -> (fetched: Result<(), ExtractError>)
    requires
        parsed matches Ok(root) ==> root.fits(code@) && root.height() + 1 < usize::MAX,
    ensures
        match parsed {
            Ok(root) => {
                &&& fetched is Ok
                &&& shows(final(graph)@, file_outline(symbol_query, code@, path@, &root))
                &&& final(graph)@.is_outline()
                &&& identified(final(graph)@.nodes)
            },
            Err(error) => {
                &&& fetched == Err::<(), ExtractError>(error)
                &&& *final(graph) == *old(graph)
            },
        },
{
    match parsed {
        Ok(root) => {
            build_outline(&root, path, code, symbol_query, graph);
            Ok(())
        },
        Err(error) => Err(error),
    }
}

/// Parses `code`, the text of the file `path`, and replaces what `graph`
/// holds by the outline of the file. Where no tree can be had, `graph` is
/// left as it was.
///
/// What the parser makes of the text is not stated, so the outline is stated
/// as that of some tree that fits the text; [`outline_from`] says what
/// happens for each outcome of parsing.
pub fn fetch_symbols<Q: SymbolQuery>(
    path: &str,
    code: &str,
    symbol_query: Q,
    graph: &mut Graph,
) -> (fetched: Result<(), ExtractError>)
    ensures
        fetched is Ok ==> outline_of_file(&symbol_query, code@, path@, *final(graph)),
        fetched is Ok ==> final(graph)@.is_outline(),
        fetched is Ok ==> identified(final(graph)@.nodes),
        fetched is Err ==> *final(graph) == *old(graph),
{
    let language = symbol_query.get_lang();
    outline_from(parse_source(&language, code), path, code, &symbol_query, graph)
}

} // verus!
