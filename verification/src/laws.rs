//! Laws of the builder and of the contraction pass, proved against the
//! specification functions that the executable functions' contracts use.

use vstd::prelude::*;

use crate::event::{span_contains, Event, Span};
use crate::graph::{
    built_edges, contract_step, first_edge_targeting, hierarchy_edges, hierarchy_edges_upto,
    hierarchy_parent_of, lemma_first_containing_props, lemma_first_edge_targeting_props,
    lemma_hierarchy_edges_upto_props, lemma_ref_edges_upto_props, parent_edge, redirect_source,
    ref_edge, ref_edges, ref_edges_for, ref_edges_upto, Edge, EdgeType,
};

verus! {

/// An edge contained in the hierarchy edges of some prefix of the nodes is
/// contained in the hierarchy edges of every longer prefix.
proof fn lemma_hierarchy_upto_contains_mono(nodes: Seq<Event>, k1: int, k2: int, e: Edge)
    requires
        0 <= k1 <= k2,
        hierarchy_edges_upto(nodes, k1).contains(e),
    ensures
        hierarchy_edges_upto(nodes, k2).contains(e),
    decreases k2 - k1,
{
    if k1 < k2 {
        lemma_hierarchy_upto_contains_mono(nodes, k1, k2 - 1, e);
        let s = hierarchy_edges_upto(nodes, k2 - 1);
        let w = choose|w: int| 0 <= w < s.len() && s[w] == e;
        match hierarchy_parent_of(nodes, k2 - 1) {
            Some(j) => {
                assert(hierarchy_edges_upto(nodes, k2)[w] == e);
            },
            None => {},
        }
    }
}

/// A span match at index `j < k` puts the edge `i -> j` among the reference
/// edges emitted for node `i` against targets `0 .. k`.
proof fn lemma_ref_for_contains(nodes: Seq<Event>, i: int, rs: Span, j: int, k: int)
    requires
        0 <= j < k,
        nodes[j].source == rs,
    ensures
        ref_edges_for(nodes, i, rs, k).contains(ref_edge(i, j)),
    decreases k,
{
    let rest = ref_edges_for(nodes, i, rs, k - 1);
    if j == k - 1 {
        assert(ref_edges_for(nodes, i, rs, k)[rest.len() as int] == ref_edge(i, j));
    } else {
        lemma_ref_for_contains(nodes, i, rs, j, k - 1);
        let w = choose|w: int| 0 <= w < rest.len() && rest[w] == ref_edge(i, j);
        assert(ref_edges_for(nodes, i, rs, k)[w] == ref_edge(i, j));
    }
}

/// An edge contained in the reference edges of some prefix of the nodes is
/// contained in the reference edges of every longer prefix.
proof fn lemma_ref_upto_contains_mono(nodes: Seq<Event>, k1: int, k2: int, e: Edge)
    requires
        0 <= k1 <= k2,
        ref_edges_upto(nodes, k1).contains(e),
    ensures
        ref_edges_upto(nodes, k2).contains(e),
    decreases k2 - k1,
{
    if k1 < k2 {
        lemma_ref_upto_contains_mono(nodes, k1, k2 - 1, e);
        let s = ref_edges_upto(nodes, k2 - 1);
        let w = choose|w: int| 0 <= w < s.len() && s[w] == e;
        assert(ref_edges_upto(nodes, k2)[w] == e);
    }
}

/// Parent cardinality: in a freshly built graph no node has more than one
/// incoming `Parent` edge — two distinct edge positions both of kind
/// `Parent` always address distinct targets.
pub proof fn lemma_parent_cardinality(nodes: Seq<Event>, e1: int, e2: int)
    requires
        nodes.len() <= usize::MAX,
        0 <= e1 < built_edges(nodes).len(),
        0 <= e2 < built_edges(nodes).len(),
        e1 != e2,
        built_edges(nodes)[e1].ty == EdgeType::Parent,
        built_edges(nodes)[e2].ty == EdgeType::Parent,
    ensures
        built_edges(nodes)[e1].target != built_edges(nodes)[e2].target,
{
    let h = hierarchy_edges(nodes);
    let r = ref_edges(nodes);
    lemma_hierarchy_edges_upto_props(nodes, nodes.len() as int);
    lemma_ref_edges_upto_props(nodes, nodes.len() as int);
    assert(built_edges(nodes) == h + r);
    // a `Parent` edge cannot come from the reference part, so both
    // positions index the hierarchy part, where targets strictly increase
    if e1 >= h.len() {
        assert(built_edges(nodes)[e1] == r[e1 - h.len()]);
    }
    if e2 >= h.len() {
        assert(built_edges(nodes)[e2] == r[e2 - h.len()]);
    }
    assert(built_edges(nodes)[e1] == h[e1]);
    assert(built_edges(nodes)[e2] == h[e2]);
}

/// Containment correctness: if event `i` declares no parent and event `j`
/// is the closest later event whose span contains `i`'s span, the builder
/// emits the edge `j -> i`.
pub proof fn lemma_containment_correctness(nodes: Seq<Event>, i: int, j: int)
    requires
        nodes.len() <= usize::MAX,
        0 <= i < j < nodes.len(),
        nodes[i].parent_id is None,
        span_contains(nodes[j].source, nodes[i].source),
        forall|k: int| i < k < j ==> !span_contains(nodes[k].source, nodes[i].source),
    ensures
        built_edges(nodes).contains(parent_edge(j, i)),
{
    lemma_first_containing_props(nodes, nodes[i].source, i + 1);
    assert(hierarchy_parent_of(nodes, i) == Some(j));
    let s = hierarchy_edges_upto(nodes, i + 1);
    assert(s[s.len() - 1] == parent_edge(j, i));
    assert(s.contains(parent_edge(j, i)));
    lemma_hierarchy_upto_contains_mono(nodes, i + 1, nodes.len() as int, parent_edge(j, i));
    let h = hierarchy_edges(nodes);
    let w = choose|w: int| 0 <= w < h.len() && h[w] == parent_edge(j, i);
    assert(built_edges(nodes)[w] == parent_edge(j, i));
    assert(built_edges(nodes).contains(parent_edge(j, i)));
}

/// Reference correctness: whenever event `i` carries a `ref_span` equal to
/// event `j`'s span, the builder emits the edge `i -> j` of kind `Ref` —
/// one such edge for every matching `j`.
pub proof fn lemma_reference_correctness(nodes: Seq<Event>, i: int, j: int)
    requires
        nodes.len() <= usize::MAX,
        0 <= i < nodes.len(),
        0 <= j < nodes.len(),
        nodes[i].ref_span == Some(nodes[j].source),
    ensures
        built_edges(nodes).contains(ref_edge(i, j)),
{
    let rs = nodes[i].ref_span->Some_0;
    lemma_ref_for_contains(nodes, i, rs, j, nodes.len() as int);
    let block = ref_edges_for(nodes, i, rs, nodes.len() as int);
    let w0 = choose|w: int| 0 <= w < block.len() && block[w] == ref_edge(i, j);
    let prev = ref_edges_upto(nodes, i);
    assert(ref_edges_upto(nodes, i + 1)[prev.len() + w0] == ref_edge(i, j));
    assert(ref_edges_upto(nodes, i + 1).contains(ref_edge(i, j)));
    lemma_ref_upto_contains_mono(nodes, i + 1, nodes.len() as int, ref_edge(i, j));
    let h = hierarchy_edges(nodes);
    let r = ref_edges(nodes);
    let w = choose|w: int| 0 <= w < r.len() && r[w] == ref_edge(i, j);
    assert(built_edges(nodes)[h.len() + w] == ref_edge(i, j));
    assert(built_edges(nodes).contains(ref_edge(i, j)));
}

/// Contraction preserves reachability: contracting node `n`, whose parent
/// edge is the edge at position `pe` (so `n`'s parent is `p`, that edge's
/// source), redirects every other edge that originated at `n` to originate
/// at `p`, keeps every remaining edge unchanged, and leaves no edge from `p`
/// to `n`. Stated for a node that is not its own parent, carries no self
/// loop, and whose parent edge is the only edge from `p` to `n`.
pub proof fn lemma_contraction_redirects(edges: Seq<Edge>, n: int, pe: int)
    requires
        first_edge_targeting(edges, n, 0) == Some(pe),
        edges[pe].source as int != n,
        forall|k: int|
            0 <= k < edges.len() && k != pe ==> !((#[trigger] edges[k]).source
                == edges[pe].source && edges[k].target as int == n),
        forall|k: int|
            0 <= k < edges.len() ==> !((#[trigger] edges[k]).source as int == n
                && edges[k].target as int == n),
    ensures
        contract_step(edges, n).len() == edges.len() - 1,
        forall|k: int|
            0 <= k < edges.len() && k != pe && (#[trigger] edges[k]).source as int == n
                ==> contract_step(edges, n).contains(
                Edge { source: edges[pe].source, target: edges[k].target, ty: edges[k].ty },
            ),
        forall|k: int|
            0 <= k < edges.len() && k != pe && (#[trigger] edges[k]).source as int != n
                ==> contract_step(edges, n).contains(edges[k]),
        forall|k: int|
            0 <= k < contract_step(edges, n).len() ==> !((#[trigger] contract_step(edges, n)[k]).source
                == edges[pe].source && contract_step(edges, n)[k].target as int == n),
{
    lemma_first_edge_targeting_props(edges, n, 0);
    let p = edges[pe].source;
    let redirected = Seq::new(edges.len(), |k: int| redirect_source(edges[k], n, p));
    redirected.remove_ensures(pe);
    let after = contract_step(edges, n);
    assert(after == redirected.remove(pe));
    assert forall|k: int|
        0 <= k < edges.len() && k != pe && (#[trigger] edges[k]).source as int == n implies after
        .contains(Edge { source: p, target: edges[k].target, ty: edges[k].ty }) by {
        let w: int = if k < pe {
            k
        } else {
            k - 1
        };
        assert(after[w] == redirected[k]);
        assert(redirected[k] == Edge { source: p, target: edges[k].target, ty: edges[k].ty });
    }
    assert forall|k: int|
        0 <= k < edges.len() && k != pe && (#[trigger] edges[k]).source as int != n implies after
        .contains(edges[k]) by {
        let w: int = if k < pe {
            k
        } else {
            k - 1
        };
        assert(after[w] == redirected[k]);
        assert(redirected[k] == edges[k]);
    }
    assert forall|k: int| 0 <= k < after.len() implies !((#[trigger] after[k]).source == p
        && after[k].target as int == n) by {
        let orig: int = if k < pe {
            k
        } else {
            k + 1
        };
        assert(after[k] == redirected[orig]);
    }
}

} // verus!
