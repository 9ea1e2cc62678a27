//! What holds of every record that the adapters of the library make.
//!
//! The contracts of the adapters and of the two walks say which records
//! come out. The laws here say what follows for each of them, whatever the
//! tree, as long as it fits the text.

use vstd::prelude::*;
use crate::calls::{calls_of, calls_of_all};
use crate::lang::{call_named, member_call, plain_call, LanguageQuery, SymbolQuery};
use crate::node::{CodeBlockType, Symbol};
use crate::outline::{outline_of, outline_of_all};
use crate::syntax::{lemma_field_child_fits, SyntaxNode};
use crate::text::{
    is_part_of, lemma_inner_span_text, lemma_span_text_in_code, line_count, span_ok,
};

verus! {

/// What holds of a call record made at `node`: it is a call at depth 0, its
/// block is the text of `node` and stands in the text, its label stands in
/// its block, and its line is one of the lines of the text.
pub open spec fn call_holds(code: Seq<char>, node: SyntaxNode, call: Symbol) -> bool {
    &&& call.block_type == CodeBlockType::CALL
    &&& call.level == 0
    &&& call.block == node.text_in(code)
    &&& is_part_of(call.block, code)
    &&& is_part_of(call.label, call.block)
    &&& 1 <= call.file_location <= line_count(code)
}

/// What holds of a definition record made at `node`: it stands at depth 0
/// until a walk places it, its block is the text of `node` and stands in
/// the text, and its line is the line on which `node` starts, one of the
/// lines of the text.
pub open spec fn definition_holds(code: Seq<char>, node: SyntaxNode, found: Symbol) -> bool {
    &&& found.level == 0
    &&& found.block == node.text_in(code)
    &&& is_part_of(found.block, code)
    &&& found.file_location == node.start_line
    &&& 1 <= found.file_location <= line_count(code)
}

/// A call named after a node that lies in the call node, both of a tree
/// that fits the text.
proof fn lemma_call_named_holds(code: Seq<char>, node: SyntaxNode, named: SyntaxNode)
    requires
        span_ok(code, node.start_byte as int, node.end_byte as int),
        span_ok(code, named.start_byte as int, named.end_byte as int),
        node.start_byte <= named.start_byte,
        named.end_byte <= node.end_byte,
        1 <= named.start_line <= line_count(code),
    ensures
        call_holds(code, node, call_named(code, node, named)),
{
    lemma_span_text_in_code(code, node.start_byte as int, node.end_byte as int);
    lemma_inner_span_text(
        code,
        node.start_byte as int,
        node.end_byte as int,
        named.start_byte as int,
        named.end_byte as int,
    );
}

/// Of every call that is named after what the call node holds under a
/// field, [`call_holds`] holds.
pub proof fn lemma_plain_call_holds(
    code: Seq<char>,
    node: SyntaxNode,
    call_kind: Seq<char>,
    name_field: Seq<char>,
)
    requires
        node.fits(code),
        plain_call(code, node, call_kind, name_field) is Some,
    ensures
        call_holds(code, node, plain_call(code, node, call_kind, name_field)->0),
{
    lemma_field_child_fits(node, name_field, code);
    lemma_call_named_holds(code, node, node.field_child(name_field)->0);
}

/// Of every call that is named after its callee or after the member of its
/// callee, [`call_holds`] holds.
pub proof fn lemma_member_call_holds(
    code: Seq<char>,
    node: SyntaxNode,
    call_kind: Seq<char>,
    callee_field: Seq<char>,
    member_field: Seq<char>,
)
    requires
        node.fits(code),
        member_call(code, node, call_kind, callee_field, member_field) is Some,
    ensures
        call_holds(
            code,
            node,
            member_call(code, node, call_kind, callee_field, member_field)->0,
        ),
{
    lemma_field_child_fits(node, callee_field, code);
    let callee = node.field_child(callee_field)->0;
    match callee.field_child(member_field) {
        Some(member) => {
            lemma_field_child_fits(callee, member_field, code);
            lemma_call_named_holds(code, node, member);
        },
        None => {
            lemma_call_named_holds(code, node, callee);
        },
    }
}

/// Of every call that an adapter of the library recognises at a node of a
/// tree that fits the text, [`call_holds`] holds.
pub proof fn lemma_call_holds(query: LanguageQuery, code: Seq<char>, node: SyntaxNode)
    requires
        node.fits(code),
        query.call_at(code, &node) is Some,
    ensures
        call_holds(code, node, query.call_at(code, &node)->0),
{
    match query {
        LanguageQuery::Rust => lemma_member_call_holds(
            code,
            node,
            "call_expression"@,
            "function"@,
            "field"@,
        ),
        LanguageQuery::C => lemma_member_call_holds(
            code,
            node,
            "call_expression"@,
            "function"@,
            "field"@,
        ),
        LanguageQuery::Java => lemma_plain_call_holds(code, node, "method_invocation"@, "name"@),
        LanguageQuery::JavaScript => lemma_member_call_holds(
            code,
            node,
            "call_expression"@,
            "function"@,
            "property"@,
        ),
    }
}

/// Of every definition that an adapter of the library recognises at a node
/// of a tree that fits the text, [`definition_holds`] holds.
pub proof fn lemma_definition_holds(
    query: LanguageQuery,
    code: Seq<char>,
    node: SyntaxNode,
    parent: Option<&SyntaxNode>,
)
    requires
        node.fits(code),
        query.definition_at(code, &node, parent) is Some,
    ensures
        definition_holds(code, node, query.definition_at(code, &node, parent)->0),
{
    lemma_span_text_in_code(code, node.start_byte as int, node.end_byte as int);
}

/// `record` is the call that `query` recognises at some node of a tree
/// that fits the text, placed in the file `path`.
pub open spec fn is_call_of<Q: SymbolQuery>(
    query: &Q,
    code: Seq<char>,
    path: Seq<char>,
    record: Symbol,
) -> bool {
    exists|node: SyntaxNode| #[trigger]
        node.fits(code) && query.call_at(code, &node) is Some && record == query.call_at(
            code,
            &node,
        )->0.in_file(path)
}

/// `record` is the definition that `query` recognises at some node of a
/// tree that fits the text, placed in the file `path` at some depth.
pub open spec fn is_definition_of<Q: SymbolQuery>(
    query: &Q,
    code: Seq<char>,
    path: Seq<char>,
    record: Symbol,
) -> bool {
    exists|node: SyntaxNode, holder: Option<&SyntaxNode>, level: nat| #[trigger]
        node.fits(code) && query.definition_at(code, &node, holder) is Some && record
            == #[trigger] query.definition_at(code, &node, holder)->0.stamped(path, level)
}

/// Every call site of a tree that fits the text is the call of one of its
/// nodes.
pub proof fn lemma_calls_are_of_nodes<Q: SymbolQuery>(
    query: &Q,
    code: Seq<char>,
    path: Seq<char>,
    node: &SyntaxNode,
)
    requires
        node.fits(code),
    ensures
        forall|i: int|
            0 <= i < calls_of(query, code, path, node).len() ==> is_call_of(
                query,
                code,
                path,
                #[trigger] calls_of(query, code, path, node)[i],
            ),
    decreases node,
{
    let calls = calls_of(query, code, path, node);
    let below = calls_of_all(query, code, path, node.children@);
    assert forall|j: int| 0 <= j < node.children@.len() implies (
    #[trigger] node.children@[j]).fits(code) by {}
    lemma_calls_are_of_all_nodes(query, code, path, node.children@);
    assert forall|i: int| 0 <= i < calls.len() implies is_call_of(
        query,
        code,
        path,
        #[trigger] calls[i],
    ) by {
        match query.call_at(code, node) {
            Some(found) => {
                if i == 0 {
                    assert(node.fits(code));
                    assert(calls[0] == found.in_file(path));
                } else {
                    assert(calls[i] == below[i - 1]);
                }
            },
            None => {
                assert(calls[i] == below[i]);
            },
        }
    }
}

/// Every call site of trees that fit the text is the call of one of their
/// nodes.
pub proof fn lemma_calls_are_of_all_nodes<Q: SymbolQuery>(
    query: &Q,
    code: Seq<char>,
    path: Seq<char>,
    nodes: Seq<SyntaxNode>,
)
    requires
        forall|j: int| 0 <= j < nodes.len() ==> (#[trigger] nodes[j]).fits(code),
    ensures
        forall|i: int|
            0 <= i < calls_of_all(query, code, path, nodes).len() ==> is_call_of(
                query,
                code,
                path,
                #[trigger] calls_of_all(query, code, path, nodes)[i],
            ),
    decreases nodes,
{
    if nodes.len() > 0 {
        let calls = calls_of_all(query, code, path, nodes);
        let before = calls_of_all(query, code, path, nodes.drop_last());
        let last = calls_of(query, code, path, &nodes.last());
        assert forall|j: int| 0 <= j < nodes.drop_last().len() implies (
        #[trigger] nodes.drop_last()[j]).fits(code) by {
            assert(nodes.drop_last()[j] == nodes[j]);
        }
        assert(nodes[nodes.len() - 1].fits(code));
        lemma_calls_are_of_all_nodes(query, code, path, nodes.drop_last());
        lemma_calls_are_of_nodes(query, code, path, &nodes.last());
        assert forall|i: int| 0 <= i < calls.len() implies is_call_of(
            query,
            code,
            path,
            #[trigger] calls[i],
        ) by {
            if i < before.len() {
                assert(calls[i] == before[i]);
            } else {
                assert(calls[i] == last[i - before.len()]);
            }
        }
    }
}

/// Of every call site that an adapter of the library finds in a tree that
/// fits the text: it is a call, in the file of the walk, at depth 0; its
/// block stands in the text and its label in its block; and its line is one
/// of the lines of the text.
pub proof fn lemma_every_call_holds(
    query: LanguageQuery,
    code: Seq<char>,
    path: Seq<char>,
    root: SyntaxNode,
    i: int,
)
    requires
        root.fits(code),
        0 <= i < calls_of(&query, code, path, &root).len(),
    ensures
        ({
            let call = calls_of(&query, code, path, &root)[i];
            &&& call.block_type == CodeBlockType::CALL
            &&& call.file_path == path
            &&& call.level == 0
            &&& is_part_of(call.block, code)
            &&& is_part_of(call.label, call.block)
            &&& 1 <= call.file_location <= line_count(code)
        }),
{
    lemma_calls_are_of_nodes(&query, code, path, &root);
    let call = calls_of(&query, code, path, &root)[i];
    assert(is_call_of(&query, code, path, call));
    let node = choose|node: SyntaxNode| #[trigger]
        node.fits(code) && query.call_at(code, &node) is Some && call == query.call_at(
            code,
            &node,
        )->0.in_file(path);
    lemma_call_holds(query, code, node);
}

/// Every record that the walk of a tree that fits the text adds is the
/// definition of one of its nodes.
pub proof fn lemma_outline_is_of_nodes<Q: SymbolQuery>(
    query: &Q,
    code: Seq<char>,
    path: Seq<char>,
    node: &SyntaxNode,
    holder: Option<&SyntaxNode>,
    parent: nat,
    level: nat,
    next: nat,
)
    requires
        node.fits(code),
    ensures
        forall|i: int|
            0 <= i < outline_of(query, code, path, node, holder, parent, level, next).nodes.len()
                ==> is_definition_of(
                query,
                code,
                path,
                #[trigger] outline_of(query, code, path, node, holder, parent, level, next).nodes[i],
            ),
    decreases node,
{
    let walk = outline_of(query, code, path, node, holder, parent, level, next);
    assert forall|j: int| 0 <= j < node.children@.len() implies (
    #[trigger] node.children@[j]).fits(code) by {}
    match query.definition_at(code, node, holder) {
        Some(found) => {
            let below = outline_of_all(
                query,
                code,
                path,
                node.children@,
                node,
                next,
                level + 1,
                next + 1,
            );
            lemma_outline_is_of_all_nodes(
                query,
                code,
                path,
                node.children@,
                node,
                next,
                level + 1,
                next + 1,
            );
            assert forall|i: int| 0 <= i < walk.nodes.len() implies is_definition_of(
                query,
                code,
                path,
                #[trigger] walk.nodes[i],
            ) by {
                if i == 0 {
                    assert(node.fits(code));
                    assert(walk.nodes[0] == found.stamped(path, level));
                    assert(walk.nodes[0] == query.definition_at(code, &*node, holder)->0.stamped(
                        path,
                        level,
                    ));
                    assert(is_definition_of(query, code, path, walk.nodes[0]));
                } else {
                    assert(walk.nodes[i] == below.nodes[i - 1]);
                }
            }
        },
        None => {
            let below = outline_of_all(
                query,
                code,
                path,
                node.children@,
                node,
                parent,
                level,
                next,
            );
            lemma_outline_is_of_all_nodes(
                query,
                code,
                path,
                node.children@,
                node,
                parent,
                level,
                next,
            );
            assert(walk == below);
        },
    }
}

/// Every record that the walks of trees that fit the text add is the
/// definition of one of their nodes.
pub proof fn lemma_outline_is_of_all_nodes<Q: SymbolQuery>(
    query: &Q,
    code: Seq<char>,
    path: Seq<char>,
    nodes: Seq<SyntaxNode>,
    holder: &SyntaxNode,
    parent: nat,
    level: nat,
    next: nat,
)
    requires
        forall|j: int| 0 <= j < nodes.len() ==> (#[trigger] nodes[j]).fits(code),
    ensures
        forall|i: int|
            0 <= i < outline_of_all(
                query,
                code,
                path,
                nodes,
                holder,
                parent,
                level,
                next,
            ).nodes.len() ==> is_definition_of(
                query,
                code,
                path,
                #[trigger] outline_of_all(
                    query,
                    code,
                    path,
                    nodes,
                    holder,
                    parent,
                    level,
                    next,
                ).nodes[i],
            ),
    decreases nodes,
{
    if nodes.len() > 0 {
        let walk = outline_of_all(query, code, path, nodes, holder, parent, level, next);
        let before = outline_of_all(
            query,
            code,
            path,
            nodes.drop_last(),
            holder,
            parent,
            level,
            next,
        );
        let last = outline_of(
            query,
            code,
            path,
            &nodes.last(),
            Some(holder),
            parent,
            level,
            next + before.nodes.len(),
        );
        assert forall|j: int| 0 <= j < nodes.drop_last().len() implies (
        #[trigger] nodes.drop_last()[j]).fits(code) by {
            assert(nodes.drop_last()[j] == nodes[j]);
        }
        assert(nodes[nodes.len() - 1].fits(code));
        lemma_outline_is_of_all_nodes(
            query,
            code,
            path,
            nodes.drop_last(),
            holder,
            parent,
            level,
            next,
        );
        lemma_outline_is_of_nodes(
            query,
            code,
            path,
            &nodes.last(),
            Some(holder),
            parent,
            level,
            next + before.nodes.len(),
        );
        assert forall|i: int| 0 <= i < walk.nodes.len() implies is_definition_of(
            query,
            code,
            path,
            #[trigger] walk.nodes[i],
        ) by {
            if i < before.nodes.len() {
                assert(walk.nodes[i] == before.nodes[i]);
            } else {
                assert(walk.nodes[i] == last.nodes[i - before.nodes.len()]);
            }
        }
    }
}

/// Of every record but the root of the outline that an adapter of the
/// library gives a tree that fits the text: it is in the file of the
/// outline, its block stands in the text, and its line is one of the lines
/// of the text.
pub proof fn lemma_every_definition_holds(
    query: LanguageQuery,
    code: Seq<char>,
    path: Seq<char>,
    root: SyntaxNode,
    i: int,
)
    requires
        root.fits(code),
        0 <= i < outline_of(&query, code, path, &root, None, 0, 1, 1).nodes.len(),
    ensures
        ({
            let found = outline_of(&query, code, path, &root, None, 0, 1, 1).nodes[i];
            &&& found.file_path == path
            &&& is_part_of(found.block, code)
            &&& 1 <= found.file_location <= line_count(code)
        }),
{
    lemma_outline_is_of_nodes(&query, code, path, &root, None, 0, 1, 1);
    let found = outline_of(&query, code, path, &root, None, 0, 1, 1).nodes[i];
    assert(is_definition_of(&query, code, path, found));
    let (node, holder, level) = choose|node: SyntaxNode, holder: Option<&SyntaxNode>, level: nat|
     #[trigger]
        node.fits(code) && query.definition_at(code, &node, holder) is Some && found
            == #[trigger] query.definition_at(code, &node, holder)->0.stamped(path, level);
    lemma_definition_holds(query, code, node, holder);
}

} // verus!
