//! The outline of a syntax tree: its definitions, each attached to the
//! nearest definition that encloses it.

use vstd::prelude::*;
use crate::graph::{incoming, lemma_incoming_run, CodeNodeIndex, Graph, GraphModel, Link};
use crate::lang::SymbolQuery;
use crate::ident::fresh_id;
use crate::node::{anonymous_all, identified, CodeBlockType, CodeNode, Symbol};
use crate::syntax::{lemma_height_over, SyntaxNode};

verus! {

/// What a walk adds to a graph: records, and one edge for each of them.
pub struct Walk {
    /// The records, in the order in which the walk met them.
    pub nodes: Seq<Symbol>,
    /// For each record the edge that leads to it, in the same order.
    pub edges: Seq<Link>,
}

impl Walk {
    /// The walk that adds nothing.
    pub open spec fn empty() -> Walk {
        Walk { nodes: Seq::empty(), edges: Seq::empty() }
    }

    /// This walk, then `next`.
    pub open spec fn followed_by(self, next: Walk) -> Walk {
        Walk { nodes: self.nodes + next.nodes, edges: self.edges + next.edges }
    }
}

/// What the pre-order walk of the tree under `node` adds to a graph that
/// holds `next` records, where `holder` is the node that holds `node`, and
/// the nearest enclosing definition has the index `parent` and stands at
/// depth `level - 1`.
///
/// A node that is a definition becomes the record with the index `next`, at
/// depth `level` and with an edge from `parent`; the trees under its
/// children are walked with that record as the nearest enclosing definition.
/// A node that is none adds nothing itself, and the trees under its children
/// are walked as the node was.
pub open spec fn outline_of<Q: SymbolQuery>(
    query: &Q,
    code: Seq<char>,
    path: Seq<char>,
    node: &SyntaxNode,
    holder: Option<&SyntaxNode>,
    parent: nat,
    level: nat,
    next: nat,
) -> Walk
    decreases node,
{
    match query.definition_at(code, node, holder) {
        Some(found) => (Walk {
            nodes: seq![found.stamped(path, level)],
            edges: seq![Link { from: parent, to: next }],
        }).followed_by(
            outline_of_all(query, code, path, node.children@, node, next, level + 1, next + 1),
        ),
        None => outline_of_all(query, code, path, node.children@, node, parent, level, next),
    }
}

/// What the walks of the trees under `nodes`, the children of `holder`, add
/// one after the other.
pub open spec fn outline_of_all<Q: SymbolQuery>(
    query: &Q,
    code: Seq<char>,
    path: Seq<char>,
    nodes: Seq<SyntaxNode>,
    holder: &SyntaxNode,
    parent: nat,
    level: nat,
    next: nat,
) -> Walk
    decreases nodes,
{
    if nodes.len() == 0 {
        Walk::empty()
    } else {
        let before = outline_of_all(
            query,
            code,
            path,
            nodes.drop_last(),
            holder,
            parent,
            level,
            next,
        );
        before.followed_by(
            outline_of(
                query,
                code,
                path,
                &nodes.last(),
                Some(holder),
                parent,
                level,
                next + before.nodes.len(),
            ),
        )
    }
}

/// `after` is `before` with what `walk` adds: the records of before are
/// untouched, the new ones are those of `walk` under some identifiers, and
/// the edges of `walk` follow those of `before`.
pub open spec fn grown(before: GraphModel, after: GraphModel, walk: Walk) -> bool {
    &&& after.focus == before.focus
    &&& after.nodes.len() == before.nodes.len() + walk.nodes.len()
    &&& after.nodes.take(before.nodes.len() as int) == before.nodes
    &&& anonymous_all(after.nodes.skip(before.nodes.len() as int)) == walk.nodes
    &&& identified(after.nodes.skip(before.nodes.len() as int))
    &&& after.edges == before.edges + walk.edges
}

/// A graph that has grown by one walk and then by another has grown by the
/// first followed by the second.
pub proof fn lemma_grown_twice(
    start: GraphModel,
    middle: GraphModel,
    end: GraphModel,
    first: Walk,
    second: Walk,
)
    requires
        grown(start, middle, first),
        grown(middle, end, second),
    ensures
        grown(start, end, first.followed_by(second)),
{
    let a = start.nodes.len() as int;
    let b = middle.nodes.len() as int;
    assert(end.nodes.take(a) =~= end.nodes.take(b).take(a));
    assert(end.nodes.skip(a) =~= middle.nodes.skip(a) + end.nodes.skip(b)) by {
        assert(end.nodes.take(b) == middle.nodes);
        assert forall|i: int| 0 <= i < b - a implies end.nodes.skip(a)[i] == middle.nodes.skip(
            a,
        )[i] by {
            assert(end.nodes.take(b)[i + a] == end.nodes[i + a]);
        }
    }
    assert(anonymous_all(middle.nodes.skip(a) + end.nodes.skip(b)) =~= anonymous_all(
        middle.nodes.skip(a),
    ) + anonymous_all(end.nodes.skip(b)));
    assert(end.edges =~= start.edges + first.followed_by(second).edges);
}

/// Walks the tree under `node` and adds its definitions to `graph`.
///
/// `holder` is the node that holds `node`. `parent_id` is the handle of the
/// nearest enclosing definition, and `level` the depth at which a definition
/// found at `node` stands.
pub fn recursion_outline<Q: SymbolQuery>(
    node: &SyntaxNode,
    holder: Option<&SyntaxNode>,
    parent_id: CodeNodeIndex,
    path: &str,
    code: &str,
    level: usize,
    symbol_query: &Q,
    graph: &mut Graph,
)
    requires
        node.fits(code@),
        level + node.height() < usize::MAX,
    ensures
        grown(
            old(graph)@,
            final(graph)@,
            outline_of(
                symbol_query,
                code@,
                path@,
                node,
                holder,
                parent_id.0 as nat,
                level as nat,
                old(graph)@.nodes.len(),
            ),
        ),
    decreases node,
{
    let mut current_id = parent_id;
    let mut level = level;
    let ghost own = Walk::empty();
    match symbol_query.get_definition(code, node, holder) {
        Some(mut found) => {
            found.file_path = path.to_owned();
            found.level = level;
            let ghost wanted = symbol_query.definition_at(code@, node, holder)->0;
            assert(found@.anonymous() == wanted.stamped(path@, level as nat));
            let index = graph.add_node(found);
            graph.add_edge(parent_id, index);
            current_id = index;
            proof {
                own = Walk {
                    nodes: seq![wanted.stamped(path@, level as nat)],
                    edges: seq![
                        Link { from: parent_id.0 as nat, to: old(graph)@.nodes.len() },
                    ],
                };
                let a = old(graph)@.nodes.len() as int;
                assert(graph@.nodes.take(a) =~= old(graph)@.nodes);
                assert(anonymous_all(graph@.nodes.skip(a)) =~= own.nodes);
                assert(graph@.edges =~= old(graph)@.edges + own.edges);
            }
            level = level + 1;
        },
        None => {
            proof {
                let a = old(graph)@.nodes.len() as int;
                assert(graph@.nodes.take(a) =~= old(graph)@.nodes);
                assert(anonymous_all(graph@.nodes.skip(a)) =~= own.nodes);
                assert(graph@.edges =~= old(graph)@.edges + own.edges);
            }
        },
    }
    let ghost base = graph@;
    proof {
        let a = base.nodes.len() as int;
        assert(base.nodes.take(a) =~= base.nodes);
        assert(anonymous_all(base.nodes.skip(a)) =~= Seq::empty());
        assert(base.edges =~= base.edges + Walk::empty().edges);
    }
    let mut i: usize = 0;
    while i < node.children.len()
        invariant
            i <= node.children.len(),
            node.fits(code@),
            level + SyntaxNode::height_over(node.children@) <= usize::MAX,
            grown(
                base,
                graph@,
                outline_of_all(
                    symbol_query,
                    code@,
                    path@,
                    node.children@.take(i as int),
                    node,
                    current_id.0 as nat,
                    level as nat,
                    base.nodes.len(),
                ),
            ),
        decreases node.children.len() - i,
    {
        let child = &node.children[i];
        let ghost middle = graph@;
        let ghost so_far = outline_of_all(
            symbol_query,
            code@,
            path@,
            node.children@.take(i as int),
            node,
            current_id.0 as nat,
            level as nat,
            base.nodes.len(),
        );
        proof {
            assert(child.fits(code@));
            lemma_height_over(node.children@, i as int);
            assert(node.children@.take(i + 1).drop_last() =~= node.children@.take(i as int));
            assert(node.children@.take(i + 1).last() == *child);
        }
        recursion_outline(child, Some(node), current_id, path, code, level, symbol_query, graph);
        proof {
            let step = outline_of(
                symbol_query,
                code@,
                path@,
                child,
                Some(node),
                current_id.0 as nat,
                level as nat,
                middle.nodes.len(),
            );
            lemma_grown_twice(base, middle, graph@, so_far, step);
        }
        i = i + 1;
    }
    proof {
        assert(node.children@.take(i as int) =~= node.children@);
        let below = outline_of_all(
            symbol_query,
            code@,
            path@,
            node.children@,
            node,
            current_id.0 as nat,
            level as nat,
            base.nodes.len(),
        );
        lemma_grown_twice(old(graph)@, base, graph@, own, below);
        assert(Walk::empty().followed_by(below) =~= below);
    }
}

/// The shape of what a walk adds below the record `parent` to a graph of
/// `next` records: one edge for each record, the edge `k` leading to the
/// record `next + k`, either from `parent`, and then its record stands at
/// depth `level`, or from an earlier record of the walk, and then its record
/// stands one level below that one.
pub open spec fn hangs_below(walk: Walk, parent: nat, level: nat, next: nat) -> bool {
    &&& walk.nodes.len() == walk.edges.len()
    &&& forall|k: int|
        0 <= k < walk.edges.len() ==> {
            let edge = #[trigger] walk.edges[k];
            &&& edge.to == next + k
            &&& edge.from == parent || next <= edge.from < next + k
            &&& walk.nodes[k].level == if edge.from == parent {
                level
            } else {
                walk.nodes[edge.from - next].level + 1
            }
        }
}

/// What the walk of a tree adds hangs below the nearest enclosing
/// definition.
pub proof fn lemma_outline_hangs<Q: SymbolQuery>(
    query: &Q,
    code: Seq<char>,
    path: Seq<char>,
    node: &SyntaxNode,
    holder: Option<&SyntaxNode>,
    parent: nat,
    level: nat,
    next: nat,
)
    requires
        parent < next,
    ensures
        hangs_below(
            outline_of(query, code, path, node, holder, parent, level, next),
            parent,
            level,
            next,
        ),
    decreases node,
{
    let walk = outline_of(query, code, path, node, holder, parent, level, next);
    match query.definition_at(code, node, holder) {
        Some(found) => {
            let below = outline_of_all(
                query,
                code,
                path,
                node.children@,
                node,
                next,
                level + 1,
                next + 1,
            );
            lemma_outline_all_hangs(
                query,
                code,
                path,
                node.children@,
                node,
                next,
                level + 1,
                next + 1,
            );
            assert forall|k: int| 0 <= k < walk.edges.len() implies {
                let edge = #[trigger] walk.edges[k];
                &&& edge.to == next + k
                &&& edge.from == parent || next <= edge.from < next + k
                &&& walk.nodes[k].level == if edge.from == parent {
                    level
                } else {
                    walk.nodes[edge.from - next].level + 1
                }
            } by {
                if k > 0 {
                    let edge = below.edges[k - 1];
                    assert(walk.edges[k] == edge);
                    assert(walk.nodes[k] == below.nodes[k - 1]);
                    if edge.from != next {
                        assert(walk.nodes[edge.from - next] == below.nodes[edge.from - next - 1]);
                    }
                }
            }
        },
        None => {
            lemma_outline_all_hangs(query, code, path, node.children@, node, parent, level, next);
        },
    }
}

/// What the walks of the trees under the children of a node add hangs below
/// the nearest enclosing definition.
pub proof fn lemma_outline_all_hangs<Q: SymbolQuery>(
    query: &Q,
    code: Seq<char>,
    path: Seq<char>,
    nodes: Seq<SyntaxNode>,
    holder: &SyntaxNode,
    parent: nat,
    level: nat,
    next: nat,
)
    requires
        parent < next,
    ensures
        hangs_below(
            outline_of_all(query, code, path, nodes, holder, parent, level, next),
            parent,
            level,
            next,
        ),
    decreases nodes,
{
    if nodes.len() > 0 {
        let walk = outline_of_all(query, code, path, nodes, holder, parent, level, next);
        let before = outline_of_all(
            query,
            code,
            path,
            nodes.drop_last(),
            holder,
            parent,
            level,
            next,
        );
        let shift = before.nodes.len();
        let last = outline_of(
            query,
            code,
            path,
            &nodes.last(),
            Some(holder),
            parent,
            level,
            next + shift,
        );
        lemma_outline_all_hangs(query, code, path, nodes.drop_last(), holder, parent, level, next);
        lemma_outline_hangs(
            query,
            code,
            path,
            &nodes.last(),
            Some(holder),
            parent,
            level,
            next + shift,
        );
        assert forall|k: int| 0 <= k < walk.edges.len() implies {
            let edge = #[trigger] walk.edges[k];
            &&& edge.to == next + k
            &&& edge.from == parent || next <= edge.from < next + k
            &&& walk.nodes[k].level == if edge.from == parent {
                level
            } else {
                walk.nodes[edge.from - next].level + 1
            }
        } by {
            if k < shift {
                let edge = before.edges[k];
                assert(walk.edges[k] == edge);
                assert(walk.nodes[k] == before.nodes[k]);
                if edge.from != parent {
                    assert(walk.nodes[edge.from - next] == before.nodes[edge.from - next]);
                }
            } else {
                let edge = last.edges[k - shift];
                assert(walk.edges[k] == edge);
                assert(walk.nodes[k] == last.nodes[k - shift]);
                if edge.from != parent {
                    assert(walk.nodes[edge.from - next] == last.nodes[edge.from - next - shift]);
                }
            }
        }
    }
}

/// What one walk adds to a graph, where the record `parent` is in the graph
/// and `level` is one more than its depth:
///
/// - the records and the edges that the graph held are untouched;
/// - as many edges are added as records;
/// - the edge added as the `j`-th leads to the record added as the `j`-th,
///   and comes from `parent` or from a record that the walk added earlier;
/// - exactly one added edge leads to each added record, and none to any
///   other record;
/// - each added edge leads one level down;
/// - where the node of the walk is a definition, the first record added is
///   its record, at depth `level`.
pub proof fn lemma_walk_adds_a_subtree<Q: SymbolQuery>(
    query: &Q,
    code: Seq<char>,
    path: Seq<char>,
    node: &SyntaxNode,
    holder: Option<&SyntaxNode>,
    parent: nat,
    level: nat,
    before: GraphModel,
    after: GraphModel,
)
    requires
        grown(
            before,
            after,
            outline_of(query, code, path, node, holder, parent, level, before.nodes.len()),
        ),
        parent < before.nodes.len(),
        level == before.nodes[parent as int].level + 1,
    ensures
        forall|i: int| 0 <= i < before.nodes.len() ==> #[trigger] after.nodes[i] == before.nodes[i],
        forall|k: int| 0 <= k < before.edges.len() ==> #[trigger] after.edges[k] == before.edges[k],
        after.edges.len() - before.edges.len() == after.nodes.len() - before.nodes.len(),
        forall|k: int|
            before.edges.len() <= k < after.edges.len() ==> {
                let edge = #[trigger] after.edges[k];
                &&& edge.to == before.nodes.len() + (k - before.edges.len())
                &&& edge.from == parent || before.nodes.len() <= edge.from < edge.to
                &&& after.nodes[edge.to as int].level == after.nodes[edge.from as int].level + 1
            },
        forall|record: nat|
            #[trigger] incoming(after.edges.skip(before.edges.len() as int), record) == if before.nodes.len()
                <= record < after.nodes.len() {
                1nat
            } else {
                0nat
            },
        query.definition_at(code, node, holder) is Some ==> after.nodes.len() > before.nodes.len()
            && after.nodes[before.nodes.len() as int].level == level,
{
    let next = before.nodes.len();
    let walk = outline_of(query, code, path, node, holder, parent, level, next);
    lemma_outline_hangs(query, code, path, node, holder, parent, level, next);
    let added = after.nodes.skip(next as int);
    assert(anonymous_all(added).len() == added.len());
    assert forall|i: int| 0 <= i < before.nodes.len() implies #[trigger] after.nodes[i]
        == before.nodes[i] by {
        assert(after.nodes.take(next as int)[i] == after.nodes[i]);
    }
    assert forall|k: int| before.edges.len() <= k < after.edges.len() implies {
        let edge = #[trigger] after.edges[k];
        &&& edge.to == before.nodes.len() + (k - before.edges.len())
        &&& edge.from == parent || before.nodes.len() <= edge.from < edge.to
        &&& after.nodes[edge.to as int].level == after.nodes[edge.from as int].level + 1
    } by {
        let j = k - before.edges.len();
        let edge = after.edges[k];
        assert(edge == walk.edges[j]);
        assert(anonymous_all(added)[j] == added[j].anonymous());
        assert(added[j] == after.nodes[next + j]);
        if edge.from != parent {
            let from = edge.from - next;
            assert(anonymous_all(added)[from] == added[from].anonymous());
            assert(added[from] == after.nodes[edge.from as int]);
        }
    }
    if query.definition_at(code, node, holder) is Some {
        assert(walk.nodes.len() > 0);
        assert(anonymous_all(added)[0] == added[0].anonymous());
        assert(added[0] == after.nodes[next as int]);
    }
    let new_edges = after.edges.skip(before.edges.len() as int);
    assert(new_edges =~= walk.edges);
    assert forall|record: nat|
        #[trigger] incoming(new_edges, record) == if next <= record < after.nodes.len() {
            1nat
        } else {
            0nat
        } by {
        lemma_incoming_run(new_edges, next, new_edges.len() as int, record);
        assert(new_edges.take(new_edges.len() as int) =~= new_edges);
    }
}

/// A walk below a record of an outline, at one more than its depth, leaves
/// an outline: the tree stays a tree, each record but the root keeps one
/// parent, and depths keep following the edges.
pub proof fn lemma_walk_keeps_outline<Q: SymbolQuery>(
    query: &Q,
    code: Seq<char>,
    path: Seq<char>,
    node: &SyntaxNode,
    holder: Option<&SyntaxNode>,
    parent: nat,
    level: nat,
    before: GraphModel,
    after: GraphModel,
)
    requires
        before.is_outline(),
        grown(
            before,
            after,
            outline_of(query, code, path, node, holder, parent, level, before.nodes.len()),
        ),
        parent < before.nodes.len(),
        level == before.nodes[parent as int].level + 1,
    ensures
        after.is_outline(),
{
    lemma_walk_adds_a_subtree(query, code, path, node, holder, parent, level, before, after);
    assert forall|k: int| 0 <= k < after.edges.len() implies (#[trigger] after.edges[k]).to == k
        + 1 && after.edges[k].from <= k by {
        if k < before.edges.len() {
            assert(after.edges[k] == before.edges[k]);
        }
    }
    assert forall|k: int| 0 <= k < after.edges.len() implies after.nodes[(
    #[trigger] after.edges[k]).to as int].level == after.nodes[after.edges[k].from as int].level
        + 1 by {
        if k < before.edges.len() {
            let edge = before.edges[k];
            assert(after.edges[k] == edge);
            assert(after.nodes[edge.to as int] == before.nodes[edge.to as int]);
            assert(after.nodes[edge.from as int] == before.nodes[edge.from as int]);
        }
    }
    assert(after.nodes[0] == before.nodes[0]);
}

/// The record that stands for a file as the root of its outline: its label
/// is the path, its block the whole text, and it is on line 0 at depth 0.
pub open spec fn root_record(path: Seq<char>, code: Seq<char>) -> Symbol {
    Symbol::fresh(path, code, 0, CodeBlockType::NORMAL, 0)
}

/// The outline of the file `path` with the text `code` and the syntax tree
/// `root`: the root record, and below it what the walk of the tree adds.
pub open spec fn file_outline<Q: SymbolQuery>(
    query: &Q,
    code: Seq<char>,
    path: Seq<char>,
    root: &SyntaxNode,
) -> Walk {
    (Walk { nodes: seq![root_record(path, code)], edges: Seq::empty() }).followed_by(
        outline_of(query, code, path, root, None, 0, 1, 1),
    )
}

/// `graph` holds the records of `outline` under some identifiers, and its
/// edges, and nothing is in focus.
pub open spec fn shows(graph: GraphModel, outline: Walk) -> bool {
    &&& anonymous_all(graph.nodes) == outline.nodes
    &&& graph.edges == outline.edges
    &&& graph.focus is None
}

/// Every graph that shows the outline of a file has the root record at
/// index 0, at depth 0; its edges make it a tree with that root, in which
/// each record but the root has one parent and no path leads back to where
/// it began; and each record but the root stands one level below its
/// parent.
pub proof fn lemma_file_outline_is_outline<Q: SymbolQuery>(
    query: &Q,
    code: Seq<char>,
    path: Seq<char>,
    root: &SyntaxNode,
    graph: GraphModel,
)
    requires
        shows(graph, file_outline(query, code, path, root)),
    ensures
        graph.nodes.len() > 0,
        graph.nodes[0].anonymous() == root_record(path, code),
        graph.nodes[0].level == 0,
        graph.is_outline(),
{
    let walk = outline_of(query, code, path, root, None, 0, 1, 1);
    let whole = file_outline(query, code, path, root);
    lemma_outline_hangs(query, code, path, root, None, 0, 1, 1);
    assert(anonymous_all(graph.nodes).len() == graph.nodes.len());
    assert(anonymous_all(graph.nodes)[0] == graph.nodes[0].anonymous());
    assert(whole.nodes[0] == root_record(path, code));
    assert forall|k: int| 0 <= k < graph.edges.len() implies (#[trigger] graph.edges[k]).to == k
        + 1 && graph.edges[k].from <= k by {
        assert(graph.edges[k] == walk.edges[k]);
    }
    assert forall|k: int| 0 <= k < graph.edges.len() implies graph.nodes[(
    #[trigger] graph.edges[k]).to as int].level == graph.nodes[graph.edges[k].from as int].level
        + 1 by {
        let edge = graph.edges[k];
        assert(edge == walk.edges[k]);
        assert(anonymous_all(graph.nodes)[k + 1] == graph.nodes[k + 1].anonymous());
        assert(whole.nodes[k + 1] == walk.nodes[k]);
        assert(anonymous_all(graph.nodes)[edge.from as int] == graph.nodes[edge.from as int]
            .anonymous());
        if edge.from != 0 {
            assert(whole.nodes[edge.from as int] == walk.nodes[edge.from - 1]);
        }
    }
}

/// Replaces what `graph` holds by the outline of the file `path` with the
/// text `code` and the syntax tree `root`.
pub fn build_outline<Q: SymbolQuery>(
    root: &SyntaxNode,
    path: &str,
    code: &str,
    symbol_query: &Q,
    graph: &mut Graph,
)
    requires
        root.fits(code@),
        root.height() + 1 < usize::MAX,
    ensures
        shows(final(graph)@, file_outline(symbol_query, code@, path@, root)),
        final(graph)@.is_outline(),
        identified(final(graph)@.nodes),
{
    graph.clear();
    let id = fresh_id();
    let root_code_node = CodeNode::new(id.as_str(), path, code, 0, CodeBlockType::NORMAL, 0);
    graph.add_node(root_code_node);
    let ghost seeded = graph@;
    recursion_outline(root, None, CodeNodeIndex(0), path, code, 1, symbol_query, graph);
    proof {
        let walk = outline_of(symbol_query, code@, path@, root, None, 0, 1, 1);
        let whole = file_outline(symbol_query, code@, path@, root);
        assert(seeded.nodes.len() == 1);
        assert(graph@.nodes =~= graph@.nodes.take(1) + graph@.nodes.skip(1));
        assert(anonymous_all(graph@.nodes.take(1) + graph@.nodes.skip(1)) =~= anonymous_all(
            graph@.nodes.take(1),
        ) + anonymous_all(graph@.nodes.skip(1)));
        assert(anonymous_all(seeded.nodes) =~= seq![root_record(path@, code@)]);
        assert(graph@.edges =~= whole.edges);
        lemma_file_outline_is_outline(symbol_query, code@, path@, root, graph@);
    }
}

} // verus!
