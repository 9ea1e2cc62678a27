//! The symbol graph: records with stable handles, and parent-to-child edges.

use vstd::prelude::*;
use crate::node::{views, CodeBlockType, CodeNode, Symbol};
use crate::text::same_text;

verus! {

/// The handle of a record of a graph: its index.
#[derive(Clone, Copy, Debug)]
pub struct CodeNodeIndex(pub usize);

/// A directed edge between two records, given by their indices.
#[derive(Clone, Copy, Debug)]
pub struct Edge {
    /// The index of the parent.
    pub from: usize,
    /// The index of the child.
    pub to: usize,
}

/// The mathematical value of an edge.
pub struct Link {
    /// The index of the parent.
    pub from: nat,
    /// The index of the child.
    pub to: nat,
}

impl View for Edge {
    type V = Link;

    open spec fn view(&self) -> Link {
        Link { from: self.from as nat, to: self.to as nat }
    }
}

/// The links of `edges`, in order.
pub open spec fn links(edges: Seq<Edge>) -> Seq<Link> {
    edges.map_values(|edge: Edge| edge@)
}

/// The mathematical value of a graph.
pub struct GraphModel {
    /// The records; the index of a record is its handle.
    pub nodes: Seq<Symbol>,
    /// The edges, in the order in which they were added.
    pub edges: Seq<Link>,
    /// The index of the record in focus, if one is.
    pub focus: Option<nat>,
}

impl GraphModel {
    /// The graph without records.
    pub open spec fn empty() -> GraphModel {
        GraphModel { nodes: Seq::empty(), edges: Seq::empty(), focus: None }
    }

    /// Index of the first record with the identifier `id`, or the number
    /// of records if there is none.
    pub open spec fn position_of(self, id: Seq<char>) -> int {
        first_with_id(self.nodes, id)
    }
}

/// Number of the edges of `edges` that lead to the record `to`.
pub open spec fn incoming(edges: Seq<Link>, to: nat) -> nat
    decreases edges.len(),
{
    if edges.len() == 0 {
        0
    } else if edges.last().to == to {
        incoming(edges.drop_last(), to) + 1
    } else {
        incoming(edges.drop_last(), to)
    }
}

/// Each record of `path` but the first is reached from the one before it
/// by an edge of `edges`.
pub open spec fn is_path(edges: Seq<Link>, path: Seq<nat>) -> bool {
    forall|i: int|
        0 <= i < path.len() - 1 ==> edges.contains(
            Link { from: #[trigger] path[i], to: path[i + 1] },
        )
}

impl GraphModel {
    /// The edges make the records a tree with the record 0 as its root, laid
    /// out so that parents come first: the graph has one edge for each
    /// record but the first, and the edge `k` leads to the record `k + 1`
    /// from a record with a smaller index.
    pub open spec fn is_tree(self) -> bool {
        &&& self.nodes.len() == self.edges.len() + 1
        &&& forall|k: int|
            0 <= k < self.edges.len() ==> (#[trigger] self.edges[k]).to == k + 1
                && self.edges[k].from <= k
    }

    /// The root is at depth 0, and each edge leads one level down.
    pub open spec fn levels_follow(self) -> bool {
        &&& self.nodes[0].level == 0
        &&& forall|k: int|
            0 <= k < self.edges.len() ==> self.nodes[(#[trigger] self.edges[k]).to as int].level
                == self.nodes[self.edges[k].from as int].level + 1
    }

    /// The graph is the outline of a file: a tree of records whose depths
    /// follow its edges.
    pub open spec fn is_outline(self) -> bool {
        self.is_tree() && self.levels_follow()
    }
}

/// In the tree `graph` the record `record` stands below the record `top`:
/// its parent is `top` or stands below `top`.
pub open spec fn is_below(graph: GraphModel, top: nat, record: nat) -> bool
    recommends
        graph.is_tree(),
    decreases record,
{
    if 0 < record < graph.nodes.len() && graph.edges[record - 1].from < record {
        let parent = graph.edges[record - 1].from;
        parent == top || is_below(graph, top, parent)
    } else {
        false
    }
}

/// Index of the first edge of `edges` that comes from the record `from`, or
/// the number of edges if there is none.
pub open spec fn first_from(edges: Seq<Link>, from: nat) -> int
    decreases edges.len(),
{
    if edges.len() == 0 {
        0
    } else if edges[0].from == from {
        0
    } else {
        1 + first_from(edges.drop_first(), from)
    }
}

/// Where none of the edges before `at` comes from `from`, the search goes on
/// from `at`.
pub proof fn lemma_first_from_from(edges: Seq<Link>, from: nat, at: int)
    requires
        0 <= at <= edges.len(),
        forall|j: int| 0 <= j < at ==> (#[trigger] edges[j]).from != from,
    ensures
        first_from(edges, from) == at + first_from(edges.skip(at), from),
    decreases at,
{
    if at == 0 {
        assert(edges.skip(0) =~= edges);
    } else {
        lemma_first_from_from(edges.drop_first(), from, at - 1);
        assert(edges.drop_first().skip(at - 1) =~= edges.skip(at));
    }
}

/// `after` is `before` with every record below `top` shown, or every such
/// record hidden, as `visible` says, and with nothing else changed.
pub open spec fn folded(before: GraphModel, after: GraphModel, top: nat, visible: bool) -> bool {
    &&& after.edges == before.edges
    &&& after.focus == before.focus
    &&& after.nodes.len() == before.nodes.len()
    &&& forall|v: int|
        0 <= v < before.nodes.len() ==> #[trigger] after.nodes[v] == if is_below(
            before,
            top,
            v as nat,
        ) {
            Symbol { visible, ..before.nodes[v] }
        } else {
            before.nodes[v]
        }
}

/// Where the edges lead to one record after the other from `base` on, one
/// of the first `upto` of them leads to each of the `upto` records from
/// `base` on, and none to any other record.
pub proof fn lemma_incoming_run(edges: Seq<Link>, base: nat, upto: int, to: nat)
    requires
        forall|j: int| 0 <= j < edges.len() ==> (#[trigger] edges[j]).to == base + j,
        0 <= upto <= edges.len(),
    ensures
        incoming(edges.take(upto), to) == if base <= to < base + upto {
            1nat
        } else {
            0nat
        },
    decreases upto,
{
    if upto > 0 {
        lemma_incoming_run(edges, base, upto - 1, to);
        assert(edges.take(upto).drop_last() =~= edges.take(upto - 1));
        assert(edges.take(upto).last() == edges[upto - 1]);
    }
}

/// Among the first `upto` edges of a tree, one leads to each of the records
/// 1 to `upto`, and none to any other record.
pub proof fn lemma_incoming_prefix(graph: GraphModel, upto: int, to: nat)
    requires
        graph.is_tree(),
        0 <= upto <= graph.edges.len(),
    ensures
        incoming(graph.edges.take(upto), to) == if 1 <= to <= upto {
            1nat
        } else {
            0nat
        },
    decreases upto,
{
    if upto > 0 {
        lemma_incoming_prefix(graph, upto - 1, to);
        assert(graph.edges.take(upto).drop_last() =~= graph.edges.take(upto - 1));
        assert(graph.edges.take(upto).last() == graph.edges[upto - 1]);
    }
}

/// In a tree exactly one edge leads to each record but the root, and none
/// leads to the root.
pub proof fn lemma_one_parent(graph: GraphModel, record: nat)
    requires
        graph.is_tree(),
        record < graph.nodes.len(),
    ensures
        incoming(graph.edges, record) == if record == 0 {
            0nat
        } else {
            1nat
        },
{
    lemma_incoming_prefix(graph, graph.edges.len() as int, record);
    assert(graph.edges.take(graph.edges.len() as int) =~= graph.edges);
}

/// In a tree every edge leads to a record with a greater index, so a path
/// along its edges never comes back to where it began: the edges form no
/// cycle.
pub proof fn lemma_no_cycle(graph: GraphModel, path: Seq<nat>)
    requires
        graph.is_tree(),
        is_path(graph.edges, path),
        path.len() >= 2,
    ensures
        path.first() < path.last(),
    decreases path.len(),
{
    let n = path.len() as int;
    let step = Link { from: path[n - 2], to: path[n - 1] };
    assert(graph.edges.contains(step));
    let k = choose|k: int| 0 <= k < graph.edges.len() && graph.edges[k] == step;
    assert(graph.edges[k].from < graph.edges[k].to);
    if n > 2 {
        let shorter = path.drop_last();
        assert forall|i: int| 0 <= i < shorter.len() - 1 implies graph.edges.contains(
            Link { from: #[trigger] shorter[i], to: shorter[i + 1] },
        ) by {
            assert(shorter[i] == path[i]);
            assert(shorter[i + 1] == path[i + 1]);
        }
        lemma_no_cycle(graph, shorter);
    }
}

/// In an outline the depth of every record but the root is one more than
/// the depth of its parent, the record from which the one edge to it comes.
pub proof fn lemma_level_below_parent(graph: GraphModel, record: nat)
    requires
        graph.is_outline(),
        0 < record < graph.nodes.len(),
    ensures
        graph.edges[record - 1].to == record,
        graph.edges[record - 1].from < record,
        graph.nodes[record as int].level == graph.nodes[graph.edges[record - 1].from as int].level
            + 1,
{
    let k = record - 1;
    assert(graph.edges[k].to == k + 1);
}

/// Index of the first of `records` with the identifier `id`, or their number
/// if there is none.
pub open spec fn first_with_id(records: Seq<Symbol>, id: Seq<char>) -> int
    decreases records.len(),
{
    if records.len() == 0 {
        0
    } else if records[0].id == id {
        0
    } else {
        1 + first_with_id(records.drop_first(), id)
    }
}

/// Where none of the records before `at` has the identifier `id`, the search
/// goes on from `at`.
pub proof fn lemma_first_with_id_from(records: Seq<Symbol>, id: Seq<char>, at: int)
    requires
        0 <= at <= records.len(),
        forall|j: int| 0 <= j < at ==> (#[trigger] records[j]).id != id,
    ensures
        first_with_id(records, id) == at + first_with_id(records.skip(at), id),
    decreases at,
{
    if at == 0 {
        assert(records.skip(0) =~= records);
    } else {
        lemma_first_with_id_from(records.drop_first(), id, at - 1);
        assert(records.drop_first().skip(at - 1) =~= records.skip(at));
    }
}

/// Records and the edges between them.
pub struct Graph {
    nodes: Vec<CodeNode>,
    edges: Vec<Edge>,
    focus_node: Option<CodeNodeIndex>,
}

impl View for Graph {
    type V = GraphModel;

    closed spec fn view(&self) -> GraphModel {
        GraphModel {
            nodes: views(self.nodes@),
            edges: links(self.edges@),
            focus: match self.focus_node {
                Some(index) => Some(index.0 as nat),
                None => None,
            },
        }
    }
}

impl Graph {
    /// A graph without records.
    pub fn new() -> (graph: Graph)
        ensures
            graph@ == GraphModel::empty(),
    {
        let graph = Graph { nodes: Vec::new(), edges: Vec::new(), focus_node: None };
        assert(graph@.nodes =~= Seq::empty());
        assert(graph@.edges =~= Seq::empty());
        graph
    }

    /// The handle of the record in focus.
    pub fn get_focus_idx(&mut self) -> (focus: Option<CodeNodeIndex>)
        ensures
            *final(self) == *old(self),
            match focus {
                Some(index) => old(self)@.focus == Some(index.0 as nat),
                None => old(self)@.focus is None,
            },
    {
        self.focus_node
    }

    /// Puts the record with the handle `index` in focus.
    pub fn set_focus(&mut self, index: CodeNodeIndex)
        ensures
            final(self)@ == (GraphModel { focus: Some(index.0 as nat), ..old(self)@ }),
    {
        self.focus_node = Some(index);
    }

    /// Adds `node` as the last record and returns its handle.
    pub fn add_node(&mut self, node: CodeNode) -> (index: CodeNodeIndex)
        ensures
            index.0 == old(self)@.nodes.len(),
            final(self)@ == (GraphModel { nodes: old(self)@.nodes.push(node@), ..old(self)@ }),
    {
        let index = self.nodes.len();
        self.nodes.push(node);
        assert(views(self.nodes@) =~= views(old(self).nodes@).push(node@));
        CodeNodeIndex(index)
    }

    /// Adds an edge from the record `from` to the record `to`.
    pub fn add_edge(&mut self, from: CodeNodeIndex, to: CodeNodeIndex)
        ensures
            final(self)@ == (GraphModel {
                edges: old(self)@.edges.push(Link { from: from.0 as nat, to: to.0 as nat }),
                ..old(self)@
            }),
    {
        self.edges.push(Edge { from: from.0, to: to.0 });
        assert(links(self.edges@) =~= links(old(self).edges@).push(
            Link { from: from.0 as nat, to: to.0 as nat },
        ));
    }

    /// Removes every record and every edge, and the focus.
    pub fn clear(&mut self)
        ensures
            final(self)@ == GraphModel::empty(),
    {
        self.nodes.clear();
        self.edges.clear();
        self.focus_node = None;
        assert(self@.nodes =~= Seq::empty());
        assert(self@.edges =~= Seq::empty());
    }

    /// A copy of the record with the handle `index`; the default record
    /// where the graph has no such record.
    pub fn get_node(&mut self, index: CodeNodeIndex) -> (node: CodeNode)
        ensures
            *final(self) == *old(self),
            node@ == if index.0 < old(self)@.nodes.len() {
                old(self)@.nodes[index.0 as int]
            } else {
                Symbol::fresh(Seq::empty(), Seq::empty(), 0, CodeBlockType::NORMAL, 0)
            },
    {
        if index.0 < self.nodes.len() {
            self.nodes[index.0].clone()
        } else {
            CodeNode::default()
        }
    }

    /// The handle of the first record with the identifier `node_id`; the
    /// handle 0 where no record has it.
    pub fn node_index(&mut self, node_id: &str) -> (index: CodeNodeIndex)
        ensures
            *final(self) == *old(self),
            index.0 == if old(self)@.position_of(node_id@) < old(self)@.nodes.len() {
                old(self)@.position_of(node_id@)
            } else {
                0
            },
    {
        let mut i: usize = 0;
        while i < self.nodes.len()
            invariant
                i <= self.nodes.len(),
                *self == *old(self),
                forall|j: int| 0 <= j < i ==> (#[trigger] self@.nodes[j]).id != node_id@,
            decreases self.nodes.len() - i,
        {
            if same_text(self.nodes[i].id.as_str(), node_id) {
                proof {
                    lemma_first_with_id_from(self@.nodes, node_id@, i as int);
                }
                return CodeNodeIndex(i);
            }
            i = i + 1;
        }
        proof {
            lemma_first_with_id_from(self@.nodes, node_id@, i as int);
        }
        CodeNodeIndex(0)
    }

    /// Whether the edges make the records a tree with the record 0 as its
    /// root, laid out so that parents come first.
    pub fn is_tree(&self) -> (tree: bool)
        ensures
            tree == self@.is_tree(),
    {
        let records = self.nodes.len();
        let edges = self.edges.len();
        assert(self@.nodes.len() == records);
        assert(self@.edges.len() == edges);
        if edges == usize::MAX || records != edges + 1 {
            return false;
        }
        let mut k: usize = 0;
        while k < self.edges.len()
            invariant
                k <= self.edges.len(),
                self.nodes.len() == self.edges.len() + 1,
                forall|j: int|
                    0 <= j < k ==> (#[trigger] self@.edges[j]).to == j + 1 && self@.edges[j].from
                        <= j,
            decreases self.edges.len() - k,
        {
            let edge = &self.edges[k];
            if edge.to != k + 1 || edge.from > k {
                assert(self@.edges[k as int] == edge@);
                return false;
            }
            assert(self@.edges[k as int] == edge@);
            k = k + 1;
        }
        true
    }

    /// Folds or unfolds the record with the handle `index`: where it has a
    /// child, every record below it is shown if its first child was hidden,
    /// and hidden if its first child was shown. A record without children is
    /// left as it is.
    pub fn toggle_below(&mut self, index: CodeNodeIndex)
        requires
            old(self)@.is_tree(),
        ensures
            final(self)@.is_tree(),
            ({
                let before = old(self)@;
                let first = first_from(before.edges, index.0 as nat);
                if first < before.edges.len() {
                    folded(
                        before,
                        final(self)@,
                        index.0 as nat,
                        !before.nodes[before.edges[first].to as int].visible,
                    )
                } else {
                    final(self)@ == before
                }
            }),
    {
        let mut first: usize = 0;
        while first < self.edges.len() && self.edges[first].from != index.0
            invariant
                first <= self.edges.len(),
                *self == *old(self),
                forall|j: int| 0 <= j < first ==> (#[trigger] self@.edges[j]).from != index.0,
            decreases self.edges.len() - first,
        {
            assert(self@.edges[first as int] == self.edges@[first as int]@);
            first = first + 1;
        }
        proof {
            lemma_first_from_from(self@.edges, index.0 as nat, first as int);
            if first < self.edges.len() {
                assert(self@.edges[first as int] == self.edges@[first as int]@);
                assert(self@.edges.skip(first as int)[0] == self@.edges[first as int]);
            }
        }
        if first >= self.edges.len() {
            return ;
        }
        let ghost before = self@;
        assert(before.edges[first as int].to == first + 1);
        let visible = !self.nodes[self.edges[first].to].visible;
        let mut marked: Vec<bool> = Vec::new();
        marked.push(false);
        let mut k: usize = 0;
        while k < self.edges.len()
            invariant
                k <= self.edges.len(),
                before.is_tree(),
                self@.edges == before.edges,
                self@.focus == before.focus,
                self@.nodes.len() == before.nodes.len(),
                marked@.len() == k + 1,
                forall|v: int|
                    0 <= v <= k ==> #[trigger] marked@[v] == is_below(
                        before,
                        index.0 as nat,
                        v as nat,
                    ),
                forall|v: int|
                    0 <= v <= k ==> #[trigger] self@.nodes[v] == if is_below(
                        before,
                        index.0 as nat,
                        v as nat,
                    ) {
                        Symbol { visible, ..before.nodes[v] }
                    } else {
                        before.nodes[v]
                    },
                forall|v: int|
                    k < v < before.nodes.len() ==> #[trigger] self@.nodes[v] == before.nodes[v],
            decreases self.edges.len() - k,
        {
            let from = self.edges[k].from;
            let ghost now = self@;
            assert(before.edges[k as int] == self.edges@[k as int]@);
            assert(before.edges[k as int].to == k + 1);
            let below = from == index.0 || marked[from];
            marked.push(below);
            if below {
                self.nodes[k + 1].visible = visible;
                assert(self@.nodes =~= now.nodes.update(
                    k + 1,
                    Symbol { visible, ..now.nodes[k + 1] },
                ));
            }
            k = k + 1;
        }
        assert(self@.nodes.len() == k + 1);
    }

    /// The records, in the order of their handles.
    pub fn nodes(&self) -> (nodes: &Vec<CodeNode>)
        ensures
            views(nodes@) == self@.nodes,
    {
        &self.nodes
    }

    /// The edges, in the order in which they were added.
    pub fn edges(&self) -> (edges: &Vec<Edge>)
        ensures
            links(edges@) == self@.edges,
    {
        &self.edges
    }
}

} // verus!
