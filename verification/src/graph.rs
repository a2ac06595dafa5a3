//! Given a set of trace events, this extracts the graph topology: structural
//! `Parent` edges recovered from explicit parent links or from span
//! containment, and `Ref` edges recovered from resolution-time span
//! references. A second pass contracts no-result nodes out of the edge set.

use vstd::prelude::*;

use crate::event::{contains, is_no_result, span_contains, Event, Span};

verus! {

/// The kind of a directed relationship between two nodes.
#[derive(Debug, Clone, Copy, PartialEq, Eq, Structural)]
pub enum EdgeType {
    /// The source node is the structural container of the target node:
    /// either the source's span encloses the target's span, or the target
    /// explicitly declares the source as its parent.
    Parent,

    /// The source node used the target node for context during resolution:
    /// the value produced at the target was consulted to determine the value
    /// of the source.
    Ref,
}

/// Directed relationship of some type between two nodes, addressed by their
/// positions in the node array.
#[derive(Debug, Clone, Copy, PartialEq, Eq, Structural)]
pub struct Edge {
    pub source: usize,
    pub target: usize,
    pub ty: EdgeType,
}

/// An annotated graph of the events generated by the compiler: the nodes are
/// the events in input order, and the edges address nodes by position.
#[derive(Debug)]
pub struct Graph {
    pub edges: Vec<Edge>,
    pub nodes: Vec<Event>,
}

/// The least index `j >= from` such that `nodes[j].id == pid`, if any.
pub open spec fn first_with_id(nodes: Seq<Event>, pid: u64, from: int) -> Option<int>
    decreases nodes.len() - from,
{
    if from < 0 || from >= nodes.len() {
        None
    } else if nodes[from].id == pid {
        Some(from)
    } else {
        first_with_id(nodes, pid, from + 1)
    }
}

/// The least index `j >= from` such that `nodes[j]`'s span contains `inner`,
/// if any.
pub open spec fn first_containing(nodes: Seq<Event>, inner: Span, from: int) -> Option<int>
    decreases nodes.len() - from,
{
    if from < 0 || from >= nodes.len() {
        None
    } else if span_contains(nodes[from].source, inner) {
        Some(from)
    } else {
        first_containing(nodes, inner, from + 1)
    }
}

/// The structural parent that the builder links node `i` to: the first node
/// matching an explicit `parent_id`, or else the first later node whose span
/// contains `i`'s span. `None` leaves `i` a root.
pub open spec fn hierarchy_parent_of(nodes: Seq<Event>, i: int) -> Option<int> {
    match nodes[i].parent_id {
        Some(pid) => first_with_id(nodes, pid, 0),
        None => first_containing(nodes, nodes[i].source, i + 1),
    }
}

pub open spec fn parent_edge(source: int, target: int) -> Edge {
    Edge { source: source as usize, target: target as usize, ty: EdgeType::Parent }
}

pub open spec fn ref_edge(source: int, target: int) -> Edge {
    Edge { source: source as usize, target: target as usize, ty: EdgeType::Ref }
}

/// The hierarchy edges emitted for nodes `0 .. k`, in emission order.
pub open spec fn hierarchy_edges_upto(nodes: Seq<Event>, k: int) -> Seq<Edge>
    decreases k,
{
    if k <= 0 {
        Seq::empty()
    } else {
        let rest = hierarchy_edges_upto(nodes, k - 1);
        match hierarchy_parent_of(nodes, k - 1) {
            Some(j) => rest.push(parent_edge(j, k - 1)),
            None => rest,
        }
    }
}

/// All hierarchy edges of the graph built from `nodes`.
pub open spec fn hierarchy_edges(nodes: Seq<Event>) -> Seq<Edge> {
    hierarchy_edges_upto(nodes, nodes.len() as int)
}

/// The reference edges emitted for node `i` against candidate targets
/// `0 .. k`: one edge `i -> j` for every `j < k` whose span equals `rs`.
pub open spec fn ref_edges_for(nodes: Seq<Event>, i: int, rs: Span, k: int) -> Seq<Edge>
    decreases k,
{
    if k <= 0 {
        Seq::empty()
    } else {
        let rest = ref_edges_for(nodes, i, rs, k - 1);
        if nodes[k - 1].source == rs {
            rest.push(ref_edge(i, k - 1))
        } else {
            rest
        }
    }
}

/// The reference edges emitted for nodes `0 .. k`, in emission order.
pub open spec fn ref_edges_upto(nodes: Seq<Event>, k: int) -> Seq<Edge>
    decreases k,
{
    if k <= 0 {
        Seq::empty()
    } else {
        let rest = ref_edges_upto(nodes, k - 1);
        match nodes[k - 1].ref_span {
            Some(rs) => rest + ref_edges_for(nodes, k - 1, rs, nodes.len() as int),
            None => rest,
        }
    }
}

/// All reference edges of the graph built from `nodes`.
pub open spec fn ref_edges(nodes: Seq<Event>) -> Seq<Edge> {
    ref_edges_upto(nodes, nodes.len() as int)
}

/// The full edge sequence of the graph built from `nodes`: all hierarchy
/// edges, then all reference edges.
pub open spec fn built_edges(nodes: Seq<Event>) -> Seq<Edge> {
    hierarchy_edges(nodes) + ref_edges(nodes)
}

/// The least index of an event whose `id` equals `pid`, scanning the whole
/// array, or `None` if no event carries that id.
fn find_first_by_id(nodes: &Vec<Event>, pid: u64) -> (r: Option<usize>)
    ensures
        match r {
            Some(j) => first_with_id(nodes@, pid, 0) == Some(j as int) && j < nodes@.len(),
            None => first_with_id(nodes@, pid, 0) is None,
        },
{
    let len = nodes.len();
    let mut j: usize = 0;
    while j < len
        invariant
            j <= len,
            len == nodes@.len(),
            first_with_id(nodes@, pid, 0) == first_with_id(nodes@, pid, j as int),
        decreases len - j,
    {
        if nodes[j].id == pid {
            return Some(j);
        }
        j = j + 1;
    }
    None
}

/// The least index `j > i` of an event whose span contains `nodes[i]`'s span,
/// or `None` if no later event encloses it.
fn find_first_containing(nodes: &Vec<Event>, i: usize) -> (r: Option<usize>)
    requires
        i < nodes@.len(),
    ensures
        match r {
            Some(j) => first_containing(nodes@, nodes@[i as int].source, i + 1) == Some(j as int)
                && j < nodes@.len(),
            None => first_containing(nodes@, nodes@[i as int].source, i + 1) is None,
        },
{
    let len = nodes.len();
    let mut j: usize = i + 1;
    while j < len
        invariant
            i < j <= len,
            len == nodes@.len(),
            first_containing(nodes@, nodes@[i as int].source, i + 1) == first_containing(
                nodes@,
                nodes@[i as int].source,
                j as int,
            ),
        decreases len - j,
    {
        if contains(&nodes[j], &nodes[i]) {
            return Some(j);
        }
        j = j + 1;
    }
    None
}

/// The least index `e >= from` of an edge whose target is node `n`, if any.
pub open spec fn first_edge_targeting(edges: Seq<Edge>, n: int, from: int) -> Option<int>
    decreases edges.len() - from,
{
    if from < 0 || from >= edges.len() {
        None
    } else if edges[from].target as int == n {
        Some(from)
    } else {
        first_edge_targeting(edges, n, from + 1)
    }
}

/// Redirect an edge that originates at node `n` to originate at `p` instead;
/// any other edge is kept as it is.
pub open spec fn redirect_source(e: Edge, n: int, p: usize) -> Edge {
    if e.source as int == n {
        Edge { source: p, target: e.target, ty: e.ty }
    } else {
        e
    }
}

/// One contraction step on the edge set: node `n`'s parent is the source of
/// the first edge targeting `n` (defaulting to position `0` when no edge
/// targets `n`); every edge originating at `n` is redirected to originate at
/// that parent, and the parent edge itself (or, under the default, the edge
/// at position `0`, when any edge exists at all) is removed.
pub open spec fn contract_step(edges: Seq<Edge>, n: int) -> Seq<Edge> {
    let found = first_edge_targeting(edges, n, 0);
    let pe: int = match found {
        Some(idx) => idx,
        None => 0,
    };
    let p: usize = match found {
        Some(idx) => edges[idx].source,
        None => 0,
    };
    let redirected = Seq::new(edges.len(), |k: int| redirect_source(edges[k], n, p));
    if redirected.len() > 0 {
        redirected.remove(pe)
    } else {
        redirected
    }
}

/// The edge set after contracting, in index order, every no-result node
/// among nodes `0 .. k`. Each step observes the edges as already rewritten
/// by the previous steps; the pass is strictly sequential.
pub open spec fn merged_edges_upto(nodes: Seq<Event>, edges: Seq<Edge>, k: int) -> Seq<Edge>
    decreases k,
{
    if k <= 0 {
        edges
    } else {
        let prev = merged_edges_upto(nodes, edges, k - 1);
        if is_no_result(nodes[k - 1]) {
            contract_step(prev, k - 1)
        } else {
            prev
        }
    }
}

/// The edge set after the full no-result contraction pass.
pub open spec fn merged_edges(nodes: Seq<Event>, edges: Seq<Edge>) -> Seq<Edge> {
    merged_edges_upto(nodes, edges, nodes.len() as int)
}

/// The least index of an edge whose target is node `n`, scanning the whole
/// edge array, or `None` if no edge ends at `n`.
fn find_parent_edge(edges: &Vec<Edge>, n: usize) -> (r: Option<usize>)
    ensures
        match r {
            Some(e) => first_edge_targeting(edges@, n as int, 0) == Some(e as int) && e
                < edges@.len(),
            None => first_edge_targeting(edges@, n as int, 0) is None,
        },
{
    let len = edges.len();
    let mut e: usize = 0;
    while e < len
        invariant
            e <= len,
            len == edges@.len(),
            first_edge_targeting(edges@, n as int, 0) == first_edge_targeting(
                edges@,
                n as int,
                e as int,
            ),
        decreases len - e,
    {
        if edges[e].target == n {
            return Some(e);
        }
        e = e + 1;
    }
    None
}

/// Characterizes `first_with_id`: a `Some(j)` is the least match at or after
/// `from`, and a `None` means no event at or after `from` carries the id.
pub proof fn lemma_first_with_id_props(nodes: Seq<Event>, pid: u64, from: int)
    requires
        0 <= from,
    ensures
        match first_with_id(nodes, pid, from) {
            Some(j) => from <= j < nodes.len() && nodes[j].id == pid && (forall|k: int|
                from <= k < j ==> nodes[k].id != pid),
            None => forall|k: int| from <= k < nodes.len() ==> nodes[k].id != pid,
        },
    decreases nodes.len() - from,
{
    if from < nodes.len() && nodes[from].id != pid {
        lemma_first_with_id_props(nodes, pid, from + 1);
    }
}

/// Characterizes `first_containing`: a `Some(j)` is the least containing
/// event at or after `from`, and a `None` means none contains `inner`.
pub proof fn lemma_first_containing_props(nodes: Seq<Event>, inner: Span, from: int)
    requires
        0 <= from,
    ensures
        match first_containing(nodes, inner, from) {
            Some(j) => from <= j < nodes.len() && span_contains(nodes[j].source, inner) && (
            forall|k: int| from <= k < j ==> !span_contains(nodes[k].source, inner)),
            None => forall|k: int|
                from <= k < nodes.len() ==> !span_contains(nodes[k].source, inner),
        },
    decreases nodes.len() - from,
{
    if from < nodes.len() && !span_contains(nodes[from].source, inner) {
        lemma_first_containing_props(nodes, inner, from + 1);
    }
}

/// Every hierarchy edge emitted for nodes `0 .. k` is a `Parent` edge with
/// in-range endpoints, and targets appear in strictly increasing order (so
/// no two hierarchy edges share a target).
pub proof fn lemma_hierarchy_edges_upto_props(nodes: Seq<Event>, k: int)
    requires
        0 <= k <= nodes.len(),
        nodes.len() <= usize::MAX,
    ensures
        forall|idx: int|
            0 <= idx < hierarchy_edges_upto(nodes, k).len() ==> {
                let e = #[trigger] hierarchy_edges_upto(nodes, k)[idx];
                e.ty == EdgeType::Parent && e.target < k && e.source < nodes.len()
            },
        forall|i1: int, i2: int|
            0 <= i1 < i2 < hierarchy_edges_upto(nodes, k).len()
                ==> (#[trigger] hierarchy_edges_upto(nodes, k)[i1]).target < (
            #[trigger] hierarchy_edges_upto(nodes, k)[i2]).target,
    decreases k,
{
    if k > 0 {
        lemma_hierarchy_edges_upto_props(nodes, k - 1);
        match hierarchy_parent_of(nodes, k - 1) {
            Some(j) => {
                match nodes[k - 1].parent_id {
                    Some(pid) => lemma_first_with_id_props(nodes, pid, 0),
                    None => lemma_first_containing_props(nodes, nodes[k - 1].source, k),
                }
            },
            None => {},
        }
    }
}

/// Every reference edge emitted for node `i` against targets `0 .. k` is a
/// `Ref` edge `i -> j` with `j < k`.
pub proof fn lemma_ref_edges_for_props(nodes: Seq<Event>, i: int, rs: Span, k: int)
    requires
        0 <= i <= usize::MAX,
        k <= usize::MAX,
    ensures
        forall|idx: int|
            0 <= idx < ref_edges_for(nodes, i, rs, k).len() ==> {
                let e = #[trigger] ref_edges_for(nodes, i, rs, k)[idx];
                e.ty == EdgeType::Ref && e.source == i && e.target < k
            },
    decreases k,
{
    if k > 0 {
        lemma_ref_edges_for_props(nodes, i, rs, k - 1);
    }
}

/// Every reference edge emitted for nodes `0 .. k` is a `Ref` edge with
/// in-range endpoints.
pub proof fn lemma_ref_edges_upto_props(nodes: Seq<Event>, k: int)
    requires
        0 <= k <= nodes.len(),
        nodes.len() <= usize::MAX,
    ensures
        forall|idx: int|
            0 <= idx < ref_edges_upto(nodes, k).len() ==> {
                let e = #[trigger] ref_edges_upto(nodes, k)[idx];
                e.ty == EdgeType::Ref && e.source < k && e.target < nodes.len()
            },
    decreases k,
{
    if k > 0 {
        lemma_ref_edges_upto_props(nodes, k - 1);
        match nodes[k - 1].ref_span {
            Some(rs) => lemma_ref_edges_for_props(nodes, k - 1, rs, nodes.len() as int),
            None => {},
        }
    }
}

/// One contraction step keeps every edge endpoint under `bound`, provided
/// `bound` is positive (the default parent is position `0`).
pub proof fn lemma_contract_step_in_range(edges: Seq<Edge>, n: int, bound: int)
    requires
        0 < bound,
        forall|k: int|
            0 <= k < edges.len() ==> (#[trigger] edges[k]).source < bound && edges[k].target
                < bound,
    ensures
        forall|k: int|
            0 <= k < contract_step(edges, n).len() ==> (#[trigger] contract_step(edges, n)[k]).source
                < bound && contract_step(edges, n)[k].target < bound,
{
    let found = first_edge_targeting(edges, n, 0);
    let pe: int = match found {
        Some(idx) => idx,
        None => 0,
    };
    let p: usize = match found {
        Some(idx) => edges[idx].source,
        None => 0,
    };
    if found is Some {
        lemma_first_edge_targeting_props(edges, n, 0);
    }
    let redirected = Seq::new(edges.len(), |k: int| redirect_source(edges[k], n, p));
    assert(forall|k: int|
        0 <= k < redirected.len() ==> (#[trigger] redirected[k]).source < bound
            && redirected[k].target < bound);
    if redirected.len() > 0 {
        redirected.remove_ensures(pe);
    }
}

/// The full contraction pass keeps every edge endpoint a valid node
/// position.
pub proof fn lemma_merged_edges_upto_in_range(nodes: Seq<Event>, edges: Seq<Edge>, k: int)
    requires
        0 <= k <= nodes.len(),
        forall|e: int|
            0 <= e < edges.len() ==> (#[trigger] edges[e]).source < nodes.len() && edges[e].target
                < nodes.len(),
    ensures
        forall|e: int|
            0 <= e < merged_edges_upto(nodes, edges, k).len() ==> (#[trigger] merged_edges_upto(
                nodes,
                edges,
                k,
            )[e]).source < nodes.len() && merged_edges_upto(nodes, edges, k)[e].target
                < nodes.len(),
    decreases k,
{
    if k > 0 {
        lemma_merged_edges_upto_in_range(nodes, edges, k - 1);
        if is_no_result(nodes[k - 1]) {
            lemma_contract_step_in_range(
                merged_edges_upto(nodes, edges, k - 1),
                k - 1,
                nodes.len() as int,
            );
        }
    }
}

/// Characterizes `first_edge_targeting`: a `Some(e)` is the least edge at or
/// after `from` ending at `n`, and a `None` means no such edge exists.
pub proof fn lemma_first_edge_targeting_props(edges: Seq<Edge>, n: int, from: int)
    requires
        0 <= from,
    ensures
        match first_edge_targeting(edges, n, from) {
            Some(e) => from <= e < edges.len() && edges[e].target as int == n && (forall|k: int|
                from <= k < e ==> (#[trigger] edges[k]).target as int != n),
            None => forall|k: int|
                from <= k < edges.len() ==> (#[trigger] edges[k]).target as int != n,
        },
    decreases edges.len() - from,
{
    if from < edges.len() && edges[from].target as int != n {
        lemma_first_edge_targeting_props(edges, n, from + 1);
    }
}

/// Every edge of a freshly built graph addresses valid node positions.
pub proof fn lemma_built_edges_in_range(nodes: Seq<Event>)
    requires
        nodes.len() <= usize::MAX,
    ensures
        forall|idx: int|
            0 <= idx < built_edges(nodes).len() ==> (#[trigger] built_edges(nodes)[idx]).source
                < nodes.len() && built_edges(nodes)[idx].target < nodes.len(),
{
    lemma_hierarchy_edges_upto_props(nodes, nodes.len() as int);
    lemma_ref_edges_upto_props(nodes, nodes.len() as int);
}

impl Graph {
    /// Every edge addresses valid positions in the node array.
    pub open spec fn wf(self) -> bool {
        forall|e: int|
            0 <= e < self.edges@.len() ==> (#[trigger] self.edges@[e]).source < self.nodes@.len()
                && self.edges@[e].target < self.nodes@.len()
    }

    /// Build the graph for a snapshot of trace events: one node per event,
    /// in input order, with the hierarchy edges and then the reference edges
    /// inferred from the event data. Absence of a match never fails; it
    /// simply adds no edge.
    pub fn new(trace: &[Event]) -> (graph: Graph)
        ensures
            graph.nodes@ == trace@,
            graph.edges@ == built_edges(trace@),
            graph.wf(),
    {
        let n = trace.len();
        let mut nodes: Vec<Event> = Vec::new();
        let mut i: usize = 0;
        while i < n
            invariant
                i <= n,
                n == trace@.len(),
                nodes@ == trace@.take(i as int),
            decreases n - i,
        {
            nodes.push(trace[i]);
            proof {
                assert(nodes@ =~= trace@.take(i + 1));
            }
            i = i + 1;
        }
        proof {
            assert(nodes@ =~= trace@);
        }
        let graph = Graph { edges: Vec::new(), nodes };

        // Construct the set of causal edges from the event set
        let graph = Self::construct_hierarchy_edges(graph);

        // Search through the set of events and if there is a reference to an
        // event in the trace, then add a reference edge
        let graph = Self::construct_ref_edges(graph);
        proof {
            assert(graph.edges@ =~= built_edges(trace@));
            lemma_built_edges_in_range(trace@);
        }
        graph
    }

    /// The number of nodes in the graph.
    pub fn num_nodes(&self) -> (n: usize)
        ensures
            n == self.nodes@.len(),
    {
        self.nodes.len()
    }

    /// The total number of edges in the graph.
    pub fn num_edges(&self) -> (n: usize)
        ensures
            n == self.edges@.len(),
    {
        self.edges.len()
    }

    fn add_parent_edge(&mut self, source: usize, target: usize)
        ensures
            final(self).nodes@ == old(self).nodes@,
            final(self).edges@ == old(self).edges@.push(
                parent_edge(source as int, target as int),
            ),
    {
        self.edges.push(Edge { source, target, ty: EdgeType::Parent })
    }

    fn add_ref_edge(&mut self, source: usize, target: usize)
        ensures
            final(self).nodes@ == old(self).nodes@,
            final(self).edges@ == old(self).edges@.push(ref_edge(source as int, target as int)),
    {
        self.edges.push(Edge { source, target, ty: EdgeType::Ref })
    }

    /// Given the underlying trace event data, construct the set of edges
    /// which correspond to the parent->child hierarchy, where the parent
    /// event has the smallest span which contains the child event.
    fn construct_hierarchy_edges(graph: Graph) -> (out: Graph)
        ensures
            out.nodes@ == graph.nodes@,
            out.edges@ == graph.edges@ + hierarchy_edges(graph.nodes@),
    {
        let mut graph = graph;
        let ghost nodes0 = graph.nodes@;
        let ghost edges0 = graph.edges@;
        let len = graph.nodes.len();
        let mut i: usize = 0;
        while i < len
            invariant
                i <= len,
                len == nodes0.len(),
                graph.nodes@ == nodes0,
                graph.edges@ == edges0 + hierarchy_edges_upto(nodes0, i as int),
            decreases len - i,
        {
            // if this node has a parent id, then find its parent event and
            // use that
            if let Some(parent_id) = graph.nodes[i].parent_id {
                if let Some(j) = find_first_by_id(&graph.nodes, parent_id) {
                    graph.add_parent_edge(j, i);
                }
            } else {
                // otherwise, search via the span system: the first later
                // event whose span contains event i is the parent
                if let Some(j) = find_first_containing(&graph.nodes, i) {
                    graph.add_parent_edge(j, i);
                }
            }
            proof {
                assert(hierarchy_edges_upto(nodes0, i + 1) == match hierarchy_parent_of(
                    nodes0,
                    i as int,
                ) {
                    Some(j) => hierarchy_edges_upto(nodes0, i as int).push(
                        parent_edge(j, i as int),
                    ),
                    None => hierarchy_edges_upto(nodes0, i as int),
                });
                assert(graph.edges@ =~= edges0 + hierarchy_edges_upto(nodes0, i + 1));
            }
            i = i + 1;
        }
        graph
    }

    /// Find all the events which have contextual references to other spans
    /// and construct reference edges between the two events. The reference
    /// edge marks a _contextual_ dependency of the source event on the
    /// target event.
    fn construct_ref_edges(graph: Graph) -> (out: Graph)
        ensures
            out.nodes@ == graph.nodes@,
            out.edges@ == graph.edges@ + ref_edges(graph.nodes@),
    {
        let mut graph = graph;
        let ghost nodes0 = graph.nodes@;
        let ghost edges0 = graph.edges@;
        let len = graph.nodes.len();
        let mut i: usize = 0;
        while i < len
            invariant
                i <= len,
                len == nodes0.len(),
                graph.nodes@ == nodes0,
                graph.edges@ == edges0 + ref_edges_upto(nodes0, i as int),
            decreases len - i,
        {
            let ghost base = graph.edges@;
            if let Some(rs) = graph.nodes[i].ref_span {
                let mut j: usize = 0;
                while j < len
                    invariant
                        j <= len,
                        i < len,
                        len == nodes0.len(),
                        graph.nodes@ == nodes0,
                        nodes0[i as int].ref_span == Some(rs),
                        graph.edges@ == base + ref_edges_for(nodes0, i as int, rs, j as int),
                    decreases len - j,
                {
                    if graph.nodes[j].source == rs {
                        graph.add_ref_edge(i, j);
                    }
                    proof {
                        assert(graph.edges@ =~= base + ref_edges_for(
                            nodes0,
                            i as int,
                            rs,
                            j + 1,
                        ));
                    }
                    j = j + 1;
                }
            }
            proof {
                assert(graph.edges@ =~= edges0 + ref_edges_upto(nodes0, i + 1));
            }
            i = i + 1;
        }
        graph
    }

    /// Contract one node out of the edge topology: redirect every edge
    /// originating at `n` to originate at `n`'s parent, then remove the edge
    /// connecting the parent to `n`. When no edge targets `n`, the parent
    /// defaults to position `0` and the edge at position `0` is the one
    /// removed (if any edge exists at all) — the degenerate fallback of the
    /// pass, kept as is.
    fn contract_node(&mut self, n: usize)
        ensures
            final(self).nodes@ == old(self).nodes@,
            final(self).edges@ == contract_step(old(self).edges@, n as int),
    {
        let ghost nodes0 = self.nodes@;
        let ghost pre = self.edges@;

        // Find the parent of this node
        let found = find_parent_edge(&self.edges, n);
        let parent_edge_idx: usize = match found {
            Some(e) => e,
            None => 0,
        };
        let parent_id: usize = match found {
            Some(e) => self.edges[e].source,
            None => 0,
        };

        // then find all edges that start at this node and replace their
        // source with the parent of the node
        let elen = self.edges.len();
        let mut e: usize = 0;
        while e < elen
            invariant
                e <= elen,
                elen == self.edges@.len(),
                self.edges@.len() == pre.len(),
                self.nodes@ == nodes0,
                forall|k: int|
                    0 <= k < e ==> self.edges@[k] == redirect_source(pre[k], n as int, parent_id),
                forall|k: int| e <= k < pre.len() ==> self.edges@[k] == pre[k],
            decreases elen - e,
        {
            if self.edges[e].source == n {
                let mut edge = self.edges[e];
                edge.source = parent_id;
                self.edges.set(e, edge);
            }
            e = e + 1;
        }
        proof {
            assert(self.edges@ =~= Seq::new(
                pre.len() as nat,
                |k: int| redirect_source(pre[k], n as int, parent_id),
            ));
        }

        // delete the edge connecting the parent to the node
        if self.edges.len() > 0 {
            self.edges.remove(parent_edge_idx);
        }
    }

    /// Merge away every no-result event, effectively removing it from the
    /// edge topology while keeping the node array (and so every node's
    /// position) unchanged. Nodes are processed strictly in index order, so
    /// a chain of consecutive no-result nodes is contracted step by step,
    /// each step observing the edges already rewritten by the previous one.
    pub fn merge_noops(&mut self)
        ensures
            final(self).nodes@ == old(self).nodes@,
            final(self).edges@ == merged_edges(old(self).nodes@, old(self).edges@),
            old(self).wf() ==> final(self).wf(),
    {
        let ghost nodes0 = self.nodes@;
        let ghost edges0 = self.edges@;
        let len = self.nodes.len();
        let mut n: usize = 0;
        while n < len
            invariant
                n <= len,
                len == self.nodes@.len(),
                self.nodes@ == nodes0,
                self.edges@ == merged_edges_upto(nodes0, edges0, n as int),
            decreases len - n,
        {
            // If the node produced no result, contract it out of the edges
            if self.nodes[n].error.is_none() && self.nodes[n].ok.is_none() {
                self.contract_node(n);
            }
            n = n + 1;
        }
        proof {
            if old(self).wf() {
                lemma_merged_edges_upto_in_range(nodes0, edges0, len as int);
            }
        }
    }
}

} // verus!
