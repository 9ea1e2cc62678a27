//! The syntax tree that the adapters and the two walks read.
//!
//! A [`SyntaxNode`] holds, as plain values, what the extraction reads of a
//! node of a parsed tree: its kind, the field under which its parent holds
//! it, its byte span, the line on which it starts, and its children in order.

use vstd::prelude::*;
use crate::text::{
    capped, count_lines, line_count, same_text, slice_span, span_fits, span_ok, span_text,
};

verus! {

/// A node of a syntax tree.
#[derive(Debug)]
pub struct SyntaxNode {
    /// The kind tag that the grammar gives the node.
    pub kind: String,
    /// The name of the field under which the parent holds this node, if any.
    pub field: Option<String>,
    /// Offset of the first byte of the node in the source.
    pub start_byte: usize,
    /// Offset of the byte after the last byte of the node in the source.
    pub end_byte: usize,
    /// The line on which the node starts; the first line is line 1.
    pub start_line: usize,
    /// The children, in source order.
    pub children: Vec<SyntaxNode>,
}

/// The node is held by its parent under the field `name`.
pub open spec fn held_under(node: SyntaxNode, name: Seq<char>) -> bool {
    node.field matches Some(field) && field@ == name
}

/// Index of the first node of `nodes` held under the field `name`, or the
/// length of `nodes` if there is none.
pub open spec fn first_with_field(nodes: Seq<SyntaxNode>, name: Seq<char>) -> int
    decreases nodes.len(),
{
    if nodes.len() == 0 {
        0
    } else if held_under(nodes[0], name) {
        0
    } else {
        1 + first_with_field(nodes.drop_first(), name)
    }
}

/// Index of the first node of `nodes` whose kind is `kind`, or the length of
/// `nodes` if there is none.
pub open spec fn first_of_kind(nodes: Seq<SyntaxNode>, kind: Seq<char>) -> int
    decreases nodes.len(),
{
    if nodes.len() == 0 {
        0
    } else if nodes[0].kind@ == kind {
        0
    } else {
        1 + first_of_kind(nodes.drop_first(), kind)
    }
}

/// The index found lies within `nodes` or is their length.
pub proof fn lemma_first_with_field_bounds(nodes: Seq<SyntaxNode>, name: Seq<char>)
    ensures
        0 <= first_with_field(nodes, name) <= nodes.len(),
    decreases nodes.len(),
{
    if nodes.len() > 0 {
        lemma_first_with_field_bounds(nodes.drop_first(), name);
    }
}

/// Where no node before `at` is held under the field `name`, the search
/// goes on from `at`.
pub proof fn lemma_first_with_field_from(nodes: Seq<SyntaxNode>, name: Seq<char>, at: int)
    requires
        0 <= at <= nodes.len(),
        forall|j: int| 0 <= j < at ==> !held_under(#[trigger] nodes[j], name),
    ensures
        first_with_field(nodes, name) == at + first_with_field(nodes.skip(at), name),
    decreases at,
{
    if at == 0 {
        assert(nodes.skip(0) =~= nodes);
    } else {
        lemma_first_with_field_from(nodes.drop_first(), name, at - 1);
        assert(nodes.drop_first().skip(at - 1) =~= nodes.skip(at));
    }
}

/// Where no node before `at` is of kind `kind`, the search goes on from `at`.
pub proof fn lemma_first_of_kind_from(nodes: Seq<SyntaxNode>, kind: Seq<char>, at: int)
    requires
        0 <= at <= nodes.len(),
        forall|j: int| 0 <= j < at ==> (#[trigger] nodes[j]).kind@ != kind,
    ensures
        first_of_kind(nodes, kind) == at + first_of_kind(nodes.skip(at), kind),
    decreases at,
{
    if at == 0 {
        assert(nodes.skip(0) =~= nodes);
    } else {
        lemma_first_of_kind_from(nodes.drop_first(), kind, at - 1);
        assert(nodes.drop_first().skip(at - 1) =~= nodes.skip(at));
    }
}

/// The height of a node is above that of each of its children.
pub proof fn lemma_height_over(nodes: Seq<SyntaxNode>, i: int)
    requires
        0 <= i < nodes.len(),
    ensures
        nodes[i].height() < SyntaxNode::height_over(nodes),
    decreases nodes.len(),
{
    if i > 0 {
        lemma_height_over(nodes.drop_first(), i - 1);
    }
}

/// Where each of some nodes is lower than `limit`, the height over them is
/// at most `limit`.
pub proof fn lemma_height_over_bound(nodes: Seq<SyntaxNode>, limit: nat)
    requires
        forall|i: int| 0 <= i < nodes.len() ==> (#[trigger] nodes[i]).height() < limit,
    ensures
        SyntaxNode::height_over(nodes) <= limit,
    decreases nodes.len(),
{
    if nodes.len() > 0 {
        assert(nodes[0].height() < limit);
        assert forall|i: int| 0 <= i < nodes.drop_first().len() implies (
        #[trigger] nodes.drop_first()[i]).height() < limit by {
            assert(nodes.drop_first()[i] == nodes[i + 1]);
        }
        lemma_height_over_bound(nodes.drop_first(), limit);
    }
}

/// A child found under a field of a node that fits a text fits it too,
/// and lies in the node.
pub proof fn lemma_field_child_fits(node: SyntaxNode, name: Seq<char>, code: Seq<char>)
    requires
        node.fits(code),
        node.field_child(name) is Some,
    ensures
        node.field_child(name)->0.fits(code),
        node.field_child(name)->0.placed_in(node),
{
    lemma_first_with_field_bounds(node.children@, name);
    let at = first_with_field(node.children@, name);
    assert(node.children@[at].fits(code));
    assert(node.children@[at].placed_in(node));
}

impl SyntaxNode {
    /// A node of kind `kind` that spans bytes `start_byte..end_byte`.
    pub fn new(
        kind: &str,
        field: Option<&str>,
        start_byte: usize,
        end_byte: usize,
        start_line: usize,
        children: Vec<SyntaxNode>,
    ) -> (node: SyntaxNode)
        ensures
            node.kind@ == kind@,
            match field {
                Some(name) => node.field matches Some(held) && held@ == name@,
                None => node.field is None,
            },
            node.start_byte == start_byte,
            node.end_byte == end_byte,
            node.start_line == start_line,
            node.children == children,
    {
        let field = match field {
            Some(name) => Some(name.to_owned()),
            None => None,
        };
        SyntaxNode { kind: kind.to_owned(), field, start_byte, end_byte, start_line, children }
    }

    /// Whether the tree under the node is one of the text `code`.
    pub fn fits_source(&self, code: &str) -> (ok: bool)
        ensures
            ok == self.fits(code@),
    {
        let lines = count_lines(code);
        self.fits_lines(code, lines)
    }

    /// Whether the tree under the node is one of the text `code`, which has
    /// `lines` lines.
    fn fits_lines(&self, code: &str, lines: usize) -> (ok: bool)
        requires
            lines == capped(line_count(code@)),
        ensures
            ok == self.fits(code@),
        decreases self,
    {
        if !span_fits(code, self.start_byte, self.end_byte) {
            return false;
        }
        if self.start_line < 1 || self.start_line > lines {
            return false;
        }
        let mut i: usize = 0;
        while i < self.children.len()
            invariant
                i <= self.children.len(),
                lines == capped(line_count(code@)),
                span_ok(code@, self.start_byte as int, self.end_byte as int),
                1 <= self.start_line <= line_count(code@),
                forall|j: int| 0 <= j < i ==> (#[trigger] self.children@[j]).fits(code@),
                forall|j: int| 0 <= j < i ==> (#[trigger] self.children@[j]).placed_in(*self),
            decreases self.children.len() - i,
        {
            let child = &self.children[i];
            let placed = self.start_byte <= child.start_byte && child.end_byte <= self.end_byte
                && self.start_line <= child.start_line;
            if !placed || !child.fits_lines(code, lines) {
                return false;
            }
            i = i + 1;
        }
        true
    }

    /// Whether the node is no higher than `limit`.
    pub fn no_higher_than(&self, limit: usize) -> (within: bool)
        ensures
            within == (self.height() <= limit),
        decreases self,
    {
        let mut i: usize = 0;
        while i < self.children.len()
            invariant
                i <= self.children.len(),
                forall|j: int| 0 <= j < i ==> (#[trigger] self.children@[j]).height() < limit,
            decreases self.children.len() - i,
        {
            if limit == 0 || !self.children[i].no_higher_than(limit - 1) {
                proof {
                    lemma_height_over(self.children@, i as int);
                }
                return false;
            }
            i = i + 1;
        }
        proof {
            lemma_height_over_bound(self.children@, limit as nat);
        }
        true
    }

    /// The source text of the node.
    pub fn text<'a>(&self, code: &'a str) -> (text: &'a str)
        requires
            span_ok(code@, self.start_byte as int, self.end_byte as int),
        ensures
            text@ == self.text_in(code@),
    {
        slice_span(code, self.start_byte, self.end_byte)
    }

    /// The first child held under the field `name`.
    pub fn child_by_field_name(&self, name: &str) -> (found: Option<&SyntaxNode>)
        ensures
            match found {
                Some(child) => self.field_child(name@) == Some(*child),
                None => self.field_child(name@) is None,
            },
    {
        let mut i: usize = 0;
        while i < self.children.len()
            invariant
                i <= self.children.len(),
                forall|j: int| 0 <= j < i ==> !held_under(#[trigger] self.children@[j], name@),
            decreases self.children.len() - i,
        {
            let child = &self.children[i];
            let held = match &child.field {
                Some(field) => same_text(field.as_str(), name),
                None => false,
            };
            if held {
                proof {
                    lemma_first_with_field_from(self.children@, name@, i as int);
                }
                return Some(child);
            }
            i = i + 1;
        }
        proof {
            lemma_first_with_field_from(self.children@, name@, i as int);
        }
        None
    }

    /// The node lies in the node `parent` that holds it: its span is within
    /// the span of `parent`, and it starts on no earlier line.
    pub open spec fn placed_in(self, parent: SyntaxNode) -> bool {
        &&& parent.start_byte <= self.start_byte
        &&& self.end_byte <= parent.end_byte
        &&& parent.start_line <= self.start_line
    }

    /// The tree under the node is one of the text `code`: the span of every
    /// node is a span of whole characters of `code`, every node starts on one
    /// of the lines of `code`, counted from 1, and every node lies in the
    /// node that holds it.
    pub open spec fn fits(self, code: Seq<char>) -> bool
        decreases self,
    {
        &&& span_ok(code, self.start_byte as int, self.end_byte as int)
        &&& 1 <= self.start_line <= line_count(code)
        &&& forall|i: int|
            0 <= i < self.children@.len() ==> (#[trigger] self.children@[i]).fits(code)
        &&& forall|i: int|
            0 <= i < self.children@.len() ==> (#[trigger] self.children@[i]).placed_in(self)
    }

    /// Every node of the tree under the node starts on a line counted from
    /// 1.
    pub open spec fn numbered(self) -> bool
        decreases self,
    {
        &&& 1 <= self.start_line
        &&& forall|i: int|
            0 <= i < self.children@.len() ==> (#[trigger] self.children@[i]).numbered()
    }

    /// Number of edges on the longest path from the node down to a leaf.
    pub open spec fn height(self) -> nat
        decreases self,
    {
        Self::height_over(self.children@)
    }

    /// Zero for no nodes, else one more than the greatest height among `nodes`.
    pub open spec fn height_over(nodes: Seq<SyntaxNode>) -> nat
        decreases nodes,
    {
        if nodes.len() == 0 {
            0
        } else {
            let first = nodes[0].height() + 1;
            let rest = Self::height_over(nodes.drop_first());
            if first >= rest {
                first
            } else {
                rest
            }
        }
    }

    /// The source text of the node.
    pub open spec fn text_in(self, code: Seq<char>) -> Seq<char> {
        span_text(code, self.start_byte as int, self.end_byte as int)
    }

    /// The first child held under the field `name`.
    pub open spec fn field_child(self, name: Seq<char>) -> Option<SyntaxNode> {
        let at = first_with_field(self.children@, name);
        if at < self.children@.len() {
            Some(self.children@[at])
        } else {
            None
        }
    }
}

} // verus!
