//! The call sites of a syntax tree.

use vstd::prelude::*;
use crate::lang::SymbolQuery;
use crate::node::{
    anonymous_all, identified, lemma_identified_both, views, CodeNode, Symbol,
};
use crate::syntax::SyntaxNode;

verus! {

/// The call sites of the tree under `node`, in the order in which a
/// pre-order walk meets them: the call that `node` is, if it is one, then
/// the call sites of its children from the first to the last. Each record is
/// in the file `path`.
pub open spec fn calls_of<Q: SymbolQuery>(
    query: &Q,
    code: Seq<char>,
    path: Seq<char>,
    node: &SyntaxNode,
) -> Seq<Symbol>
    decreases node,
{
    let own = match query.call_at(code, node) {
        Some(found) => seq![found.in_file(path)],
        None => Seq::empty(),
    };
    own + calls_of_all(query, code, path, node.children@)
}

/// The call sites of the trees under `nodes`, tree after tree.
pub open spec fn calls_of_all<Q: SymbolQuery>(
    query: &Q,
    code: Seq<char>,
    path: Seq<char>,
    nodes: Seq<SyntaxNode>,
) -> Seq<Symbol>
    decreases nodes,
{
    if nodes.len() == 0 {
        Seq::empty()
    } else {
        calls_of_all(query, code, path, nodes.drop_last()) + calls_of(
            query,
            code,
            path,
            &nodes.last(),
        )
    }
}

/// Collects the call sites of the tree under `node`.
pub fn recursion_call<Q: SymbolQuery>(
    node: &SyntaxNode,
    path: &str,
    code: &str,
    symbol_query: &Q,
) -> (calls: Vec<CodeNode>)
    requires
        node.fits(code@),
    ensures
        anonymous_all(views(calls@)) == calls_of(symbol_query, code@, path@, node),
        identified(views(calls@)),
    decreases node,
{
    let mut nodes: Vec<CodeNode> = Vec::new();
    match symbol_query.get_call(code, node) {
        Some(mut found) => {
            found.file_path = path.to_owned();
            nodes.push(found);
            assert(anonymous_all(views(nodes@)) =~= seq![
                symbol_query.call_at(code@, node)->0.in_file(path@),
            ]);
        },
        None => {
            assert(anonymous_all(views(nodes@)) =~= Seq::empty());
        },
    }
    let ghost own = anonymous_all(views(nodes@));
    let mut i: usize = 0;
    while i < node.children.len()
        invariant
            i <= node.children.len(),
            node.fits(code@),
            anonymous_all(views(nodes@)) =~= own + calls_of_all(
                symbol_query,
                code@,
                path@,
                node.children@.take(i as int),
            ),
            identified(views(nodes@)),
        decreases node.children.len() - i,
    {
        let child = &node.children[i];
        proof {
            assert(child.fits(code@));
            assert(node.children@.take(i + 1).drop_last() =~= node.children@.take(i as int));
        }
        let mut sub_nodes = recursion_call(child, path, code, symbol_query);
        let ghost before = nodes@;
        let ghost added = sub_nodes@;
        nodes.append(&mut sub_nodes);
        proof {
            assert(nodes@ =~= before + added);
            assert(views(before + added) =~= views(before) + views(added));
            lemma_identified_both(views(before), views(added));
            assert(anonymous_all(views(before + added)) =~= anonymous_all(views(before))
                + anonymous_all(views(added)));
            assert(node.children@.take(i + 1).last() == *child);
        }
        i = i + 1;
    }
    proof {
        assert(node.children@.take(i as int) =~= node.children@);
    }
    nodes
}

/// Collecting the call sites of one tree twice gives the same number of
/// records, and at each place records that differ in nothing but their
/// identifiers: the same labels in the same order.
pub proof fn lemma_calls_stable<Q: SymbolQuery>(
    query: &Q,
    code: Seq<char>,
    path: Seq<char>,
    node: &SyntaxNode,
    first: Seq<CodeNode>,
    second: Seq<CodeNode>,
)
    requires
        anonymous_all(views(first)) == calls_of(query, code, path, node),
        anonymous_all(views(second)) == calls_of(query, code, path, node),
    ensures
        first.len() == second.len(),
        forall|i: int|
            0 <= i < first.len() ==> (#[trigger] first[i])@.anonymous() == second[i]@.anonymous(),
        forall|i: int| 0 <= i < first.len() ==> (#[trigger] first[i]).label@ == second[i].label@,
{
    assert(anonymous_all(views(first)).len() == first.len());
    assert(anonymous_all(views(second)).len() == second.len());
    assert forall|i: int| 0 <= i < first.len() implies (#[trigger] first[i])@.anonymous()
        == second[i]@.anonymous() by {
        assert(anonymous_all(views(first))[i] == first[i]@.anonymous());
        assert(anonymous_all(views(second))[i] == second[i]@.anonymous());
    }
}

} // verus!
