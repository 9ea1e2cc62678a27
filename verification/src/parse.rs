//! From a source text to its syntax tree.
//!
//! tree-sitter parses; the library then reads the parsed tree into a
//! [`SyntaxNode`] of its own. The declarations at the head of this file give
//! Verus the types and the functions of tree-sitter that this takes. None of
//! them is proved, and none claims anything of what tree-sitter returns: the
//! tree is checked against the text after it has been read.

use vstd::prelude::*;
use tree_sitter::Tree as ParsedTree;
use crate::syntax::SyntaxNode;

verus! {

/// `tree_sitter::Parser`. Verus sees nothing inside it.
#[verifier::external_type_specification]
#[verifier::external_body]
pub struct ExParser(tree_sitter::Parser);

/// The parsed tree of tree-sitter, here under the name `ParsedTree`. Verus
/// sees nothing inside it.
#[verifier::external_type_specification]
#[verifier::external_body]
pub struct ExParsedTree(ParsedTree);

/// `tree_sitter::Node`, a node of a parsed tree. Verus sees nothing inside
/// it.
#[verifier::external_type_specification]
#[verifier::external_body]
pub struct ExNode<'tree>(tree_sitter::Node<'tree>);

/// `tree_sitter::TreeCursor`, a position in a parsed tree. Verus sees
/// nothing inside it.
#[verifier::external_type_specification]
#[verifier::external_body]
pub struct ExTreeCursor<'cursor>(tree_sitter::TreeCursor<'cursor>);

/// `tree_sitter::LanguageError`, with which a parser refuses a grammar.
/// Verus sees nothing inside it.
#[verifier::external_type_specification]
#[verifier::external_body]
pub struct ExLanguageError(tree_sitter::LanguageError);

/// `tree_sitter::Parser::new`. No claim is made of the parser.
pub assume_specification[ tree_sitter::Parser::new ]() -> tree_sitter::Parser;

/// `tree_sitter::Parser::set_language`. No claim is made of whether the
/// parser takes the grammar.
pub assume_specification[ tree_sitter::Parser::set_language ](
    parser: &mut tree_sitter::Parser,
    language: &tree_sitter::Language,
) -> Result<(), tree_sitter::LanguageError>;

/// `tree_sitter::Parser::parse` on a text, without an earlier tree. No claim
/// is made of whether a tree comes back, nor of the tree.
#[verifier::external_body]
fn parse_text(parser: &mut tree_sitter::Parser, code: &str) -> Option<ParsedTree> {
    parser.parse(code, None)
}

/// The method `walk` of a parsed tree, a cursor at the root. No claim is
/// made of the cursor.
pub assume_specification<'a>[ ParsedTree::walk ](parsed: &'a ParsedTree) -> tree_sitter::TreeCursor<
    'a,
>;

/// `tree_sitter::TreeCursor::node`, the node at the cursor. No claim is made
/// of the node.
pub assume_specification<'cursor>[ tree_sitter::TreeCursor::<'cursor>::node ](
    cursor: &tree_sitter::TreeCursor<'cursor>,
) -> tree_sitter::Node<'cursor>;

/// `tree_sitter::TreeCursor::field_name`, the field under which the node at
/// the cursor is held. No claim is made of the name. The call panics where
/// a grammar names a field in bytes that are not UTF-8; the grammars of this
/// library name theirs in ASCII.
pub assume_specification<'cursor>[ tree_sitter::TreeCursor::<'cursor>::field_name ](
    cursor: &tree_sitter::TreeCursor<'cursor>,
) -> Option<&'static str>;

/// `tree_sitter::TreeCursor::goto_first_child`. No claim is made of whether
/// the cursor moves.
pub assume_specification<'cursor>[ tree_sitter::TreeCursor::<'cursor>::goto_first_child ](
    cursor: &mut tree_sitter::TreeCursor<'cursor>,
) -> bool;

/// `tree_sitter::TreeCursor::goto_next_sibling`. No claim is made of whether
/// the cursor moves.
pub assume_specification<'cursor>[ tree_sitter::TreeCursor::<'cursor>::goto_next_sibling ](
    cursor: &mut tree_sitter::TreeCursor<'cursor>,
) -> bool;

/// `tree_sitter::TreeCursor::goto_parent`. No claim is made of whether the
/// cursor moves.
pub assume_specification<'cursor>[ tree_sitter::TreeCursor::<'cursor>::goto_parent ](
    cursor: &mut tree_sitter::TreeCursor<'cursor>,
) -> bool;

/// `tree_sitter::Node::kind`. No claim is made of the kind. The call panics
/// where a grammar names a kind in bytes that are not UTF-8; the grammars of
/// this library name theirs in ASCII.
pub assume_specification<'tree>[ tree_sitter::Node::<'tree>::kind ](
    node: &tree_sitter::Node<'tree>,
) -> &'static str;

/// `tree_sitter::Node::start_byte`. No claim is made of the offset.
pub assume_specification<'tree>[ tree_sitter::Node::<'tree>::start_byte ](
    node: &tree_sitter::Node<'tree>,
) -> usize;

/// `tree_sitter::Node::end_byte`. No claim is made of the offset.
pub assume_specification<'tree>[ tree_sitter::Node::<'tree>::end_byte ](
    node: &tree_sitter::Node<'tree>,
) -> usize;

/// `tree_sitter::Node::child_count`. No claim is made of the count.
pub assume_specification<'tree>[ tree_sitter::Node::<'tree>::child_count ](
    node: &tree_sitter::Node<'tree>,
) -> usize;

/// The row of `tree_sitter::Node::start_position`; the first row is row 0.
/// No claim is made of the row.
#[verifier::external_body]
fn start_row(node: &tree_sitter::Node) -> usize {
    node.start_position().row
}

/// Why no syntax tree could be had for a text.
#[derive(Debug, Clone, Copy, PartialEq, Eq, Structural)]
pub enum ExtractError {
    /// The parser refused the grammar of the language.
    Grammar,
    /// The parser returned no tree.
    Parse,
    /// The tree that the parser returned is deeper than the limit.
    TooDeep,
    /// A span of the tree that the parser returned is no span of whole
    /// characters of the text.
    Span,
}

/// The greatest height of a tree that the two walks take.
pub const MAX_DEPTH: usize = usize::MAX - 2;

/// The line of the row `row`: rows count from 0 and lines from 1. The
/// greatest row of all, which has no next number, keeps its own.
pub open spec fn line_at(row: usize) -> usize {
    if row < usize::MAX {
        (row + 1) as usize
    } else {
        row
    }
}

/// The line of the row `row`.
pub fn line_of_row(row: usize) -> (line: usize)
    ensures
        line == line_at(row),
{
    if row < usize::MAX {
        row + 1
    } else {
        row
    }
}

/// What reading a parsed tree comes to for the text `code`: the tree where
/// it was read whole and fits the text, else the error that says which of
/// the two failed.
pub open spec fn checked(lifted: Option<SyntaxNode>, code: Seq<char>) -> Result<
    SyntaxNode,
    ExtractError,
> {
    match lifted {
        Some(root) => if root.fits(code) {
            Ok(root)
        } else {
            Err(ExtractError::Span)
        },
        None => Err(ExtractError::TooDeep),
    }
}

/// Takes what reading a parsed tree gave, `lifted`, which is nothing where
/// the tree was too deep, and holds it against the text `code`.
pub fn checked_tree(lifted: Option<SyntaxNode>, code: &str) -> (tree: Result<
    SyntaxNode,
    ExtractError,
>)
    ensures
        tree == checked(lifted, code@),
{
    match lifted {
        Some(root) => {
            if root.fits_source(code) {
                Ok(root)
            } else {
                Err(ExtractError::Span)
            }
        },
        None => Err(ExtractError::TooDeep),
    }
}

/// Reads the tree under the node at `cursor`, down to `depth` levels, and
/// leaves the cursor where it was. Nothing is returned where the tree is
/// deeper. Lines are counted from 1.
fn lift_subtree(cursor: &mut tree_sitter::TreeCursor, depth: usize) -> (lifted: Option<
    SyntaxNode,
>)
    ensures
        lifted matches Some(node) ==> node.height() <= depth && node.numbered(),
    decreases depth,
{
    let at = cursor.node();
    let field = cursor.field_name();
    let start_line = line_of_row(start_row(&at));
    let mut children: Vec<SyntaxNode> = Vec::new();
    if cursor.goto_first_child() {
        if depth == 0 {
            cursor.goto_parent();
            return None;
        }
        let mut left = at.child_count();
        let mut more = true;
        while more && left > 0
            invariant
                depth > 0,
                SyntaxNode::height_over(children@) <= depth,
                forall|j: int| 0 <= j < children@.len() ==> (#[trigger] children@[j]).numbered(),
            decreases left,
        {
            match lift_subtree(cursor, depth - 1) {
                Some(child) => {
                    proof {
                        lemma_height_with(children@, child);
                    }
                    children.push(child);
                },
                None => {
                    cursor.goto_parent();
                    return None;
                },
            }
            more = cursor.goto_next_sibling();
            left = left - 1;
        }
        cursor.goto_parent();
    }
    Some(SyntaxNode::new(at.kind(), field, at.start_byte(), at.end_byte(), start_line, children))
}

/// With one more node the height over some nodes is the greater of what it
/// was and one more than the height of that node.
proof fn lemma_height_with(nodes: Seq<SyntaxNode>, added: SyntaxNode)
    ensures
        SyntaxNode::height_over(nodes.push(added)) == if SyntaxNode::height_over(nodes)
            >= added.height() + 1 {
            SyntaxNode::height_over(nodes)
        } else {
            added.height() + 1
        },
    decreases nodes.len(),
{
    if nodes.len() == 0 {
        assert(nodes.push(added).drop_first() =~= nodes);
    } else {
        lemma_height_with(nodes.drop_first(), added);
        assert(nodes.push(added).drop_first() =~= nodes.drop_first().push(added));
    }
}

/// Parses `code` with the grammar `language` and reads the tree, down to
/// `depth` levels.
///
/// What the parser makes of a text is not stated: whatever tree comes back,
/// it fits the text and is no higher than `depth`, or an error is returned.
/// [`checked_tree`] says which it is for each tree that was read.
pub fn parse_source_within(language: &tree_sitter::Language, code: &str, depth: usize) -> (parsed:
    Result<SyntaxNode, ExtractError>)
    ensures
        parsed matches Ok(root) ==> root.fits(code@) && root.height() <= depth,
{
    let mut parser = tree_sitter::Parser::new();
    match parser.set_language(language) {
        Ok(_) => {},
        Err(_) => {
            return Err(ExtractError::Grammar);
        },
    }
    let tree = match parse_text(&mut parser, code) {
        Some(tree) => tree,
        None => {
            return Err(ExtractError::Parse);
        },
    };
    let mut cursor = tree.walk();
    let lifted = lift_subtree(&mut cursor, depth);
    checked_tree(lifted, code)
}

/// Parses `code` with the grammar `language` and reads the tree.
///
/// What the parser makes of a text is not stated: whatever tree comes back,
/// it fits the text and is no higher than [`MAX_DEPTH`], or an error is
/// returned.
pub fn parse_source(language: &tree_sitter::Language, code: &str) -> (parsed: Result<
    SyntaxNode,
    ExtractError,
>)
    ensures
        parsed matches Ok(root) ==> root.fits(code@) && root.height() <= MAX_DEPTH,
{
    parse_source_within(language, code, MAX_DEPTH)
}

} // verus!
