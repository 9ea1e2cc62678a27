//! How the label of a record is put together from the source.

use vstd::prelude::*;
use vstd::string::StringExecFns;
use crate::syntax::{first_of_kind, lemma_first_of_kind_from, SyntaxNode};
use crate::text::same_text;

verus! {

/// `parts` with a single space between each two neighbours.
pub open spec fn joined(parts: Seq<Seq<char>>) -> Seq<char>
    decreases parts.len(),
{
    if parts.len() == 0 {
        Seq::empty()
    } else if parts.len() == 1 {
        parts[0]
    } else {
        joined(parts.drop_last()) + seq![' '] + parts.last()
    }
}

/// The source texts of `nodes`, in order.
pub open spec fn texts(code: Seq<char>, nodes: Seq<SyntaxNode>) -> Seq<Seq<char>> {
    nodes.map_values(|node: SyntaxNode| node.text_in(code))
}

/// The signature of a definition: the texts of the children of `node` that
/// stand before its first child of kind `terminator`, joined by single
/// spaces. Without such a child all children count.
pub open spec fn signature(code: Seq<char>, node: SyntaxNode, terminator: Seq<char>) -> Seq<char> {
    joined(texts(code, node.children@.take(first_of_kind(node.children@, terminator))))
}

/// The signature of the definition `node`, whose body is its first child of
/// kind `terminator`.
pub fn signature_label(code: &str, node: &SyntaxNode, terminator: &str) -> (label: String)
    requires
        node.fits(code@),
    ensures
        label@ == signature(code@, *node, terminator@),
{
    let mut label = String::new();
    let mut i: usize = 0;
    let mut open = true;
    while open && i < node.children.len()
        invariant
            i <= node.children.len(),
            node.fits(code@),
            forall|j: int| 0 <= j < i ==> (#[trigger] node.children@[j]).kind@ != terminator@,
            label@ == joined(texts(code@, node.children@.take(i as int))),
            !open ==> i < node.children.len() && node.children@[i as int].kind@ == terminator@,
        decreases node.children.len() - i + if open { 1int } else { 0int },
    {
        let child = &node.children[i];
        if same_text(child.kind.as_str(), terminator) {
            open = false;
        } else {
            proof {
                assert(node.children@[i as int].fits(code@));
                reveal_strlit(" ");
                let before = texts(code@, node.children@.take(i as int));
                let after = texts(code@, node.children@.take(i + 1));
                assert(after.drop_last() =~= before);
                assert(after.last() == child.text_in(code@));
                assert(" "@ =~= seq![' ']);
            }
            if i > 0 {
                label.append(" ");
            }
            label.append(child.text(code));
            i = i + 1;
        }
    }
    proof {
        lemma_first_of_kind_from(node.children@, terminator@, i as int);
    }
    label
}

} // verus!
