use trace_graph::event::{contains, Event, Span};
use trace_graph::graph::{Edge, EdgeType, Graph};

fn ev(
    id: u64,
    parent_id: Option<u64>,
    low: u64,
    high: u64,
    ref_span: Option<Span>,
    ok: Option<u64>,
    error: Option<u64>,
) -> Event {
    Event { id, parent_id, source: Span { low, high }, ref_span, ok, error }
}

fn pe(source: usize, target: usize) -> Edge {
    Edge { source, target, ty: EdgeType::Parent }
}

fn re(source: usize, target: usize) -> Edge {
    Edge { source, target, ty: EdgeType::Ref }
}

#[test]
fn scenario_a_explicit_parent_link() {
    let events = vec![
        ev(1, None, 0, 10, None, None, None),
        ev(2, Some(1), 2, 4, None, Some(0), None),
        ev(3, None, 1, 9, None, Some(0), None),
    ];
    let g = Graph::new(&events);
    assert_eq!(g.num_nodes(), 3);
    assert_eq!(g.edges, vec![pe(0, 1)]);
}

#[test]
fn scenario_b_span_containment() {
    let events = vec![
        ev(1, None, 2, 10, None, Some(0), None),
        ev(2, None, 0, 20, None, Some(0), None),
    ];
    let g = Graph::new(&events);
    assert_eq!(g.edges, vec![pe(1, 0)]);
}

#[test]
fn scenario_c_contract_no_result_node() {
    let events = vec![
        ev(10, None, 0, 100, None, Some(0), None),
        ev(11, Some(10), 10, 20, Some(Span { low: 30, high: 40 }), None, None),
        ev(12, Some(11), 12, 14, None, Some(0), None),
        ev(13, Some(10), 30, 40, None, Some(0), None),
    ];
    let mut g = Graph::new(&events);
    assert_eq!(g.edges, vec![pe(0, 1), pe(1, 2), pe(0, 3), re(1, 3)]);
    g.merge_noops();
    assert!(g.edges.contains(&pe(0, 2)));
    assert!(g.edges.contains(&re(0, 3)));
    assert!(!g.edges.contains(&pe(0, 1)));
    assert_eq!(g.edges, vec![pe(0, 2), pe(0, 3), re(0, 3)]);
    assert_eq!(g.num_nodes(), 4);
}

#[test]
fn scenario_d_empty_input() {
    let events: Vec<Event> = vec![];
    let mut g = Graph::new(&events);
    assert_eq!(g.num_nodes(), 0);
    assert_eq!(g.num_edges(), 0);
    g.merge_noops();
    assert_eq!(g.num_nodes(), 0);
    assert_eq!(g.num_edges(), 0);
}

#[test]
fn node_count_preserved_by_build_and_merge() {
    let events = vec![
        ev(1, None, 0, 50, None, Some(0), None),
        ev(2, Some(1), 5, 10, None, None, None),
        ev(3, None, 6, 9, None, None, Some(0)),
        ev(4, Some(9999), 40, 45, None, None, None),
    ];
    let mut g = Graph::new(&events);
    assert_eq!(g.num_nodes(), events.len());
    g.merge_noops();
    assert_eq!(g.num_nodes(), events.len());
}

#[test]
fn at_most_one_incoming_parent_edge() {
    let events = vec![
        ev(1, None, 0, 100, None, Some(0), None),
        ev(2, None, 0, 100, None, Some(0), None),
        ev(3, Some(1), 10, 20, None, Some(0), None),
        ev(4, None, 12, 18, None, Some(0), None),
        ev(5, None, 11, 19, None, Some(0), None),
    ];
    let g = Graph::new(&events);
    for target in 0..g.num_nodes() {
        let incoming = g
            .edges
            .iter()
            .filter(|e| e.target == target && e.ty == EdgeType::Parent)
            .count();
        assert!(incoming <= 1);
    }
}

#[test]
fn nearest_later_containing_span_wins() {
    let events = vec![
        ev(1, None, 5, 6, None, Some(0), None),
        ev(2, None, 4, 8, None, Some(0), None),
        ev(3, None, 0, 10, None, Some(0), None),
    ];
    let g = Graph::new(&events);
    assert_eq!(g.edges, vec![pe(1, 0), pe(2, 1)]);
}

#[test]
fn one_ref_edge_per_matching_span() {
    let events = vec![
        ev(1, None, 0, 1, Some(Span { low: 3, high: 7 }), Some(0), None),
        ev(2, Some(1), 3, 7, None, Some(0), None),
        ev(3, Some(1), 3, 7, None, Some(0), None),
    ];
    let g = Graph::new(&events);
    assert!(g.edges.contains(&re(0, 1)));
    assert!(g.edges.contains(&re(0, 2)));
    assert_eq!(g.edges.iter().filter(|e| e.ty == EdgeType::Ref).count(), 2);
}

#[test]
fn unmatched_parent_id_leaves_node_orphaned() {
    let events = vec![
        ev(1, Some(99), 0, 10, None, Some(0), None),
        ev(2, None, 100, 110, None, Some(0), None),
    ];
    let g = Graph::new(&events);
    assert_eq!(g.num_edges(), 0);
}

#[test]
fn unmatched_ref_span_adds_no_edge() {
    let events = vec![
        ev(1, None, 0, 10, Some(Span { low: 90, high: 95 }), Some(0), None),
        ev(2, None, 20, 30, None, Some(0), None),
    ];
    let g = Graph::new(&events);
    assert_eq!(g.num_edges(), 0);
}

#[test]
fn duplicate_ids_link_to_first_match() {
    let events = vec![
        ev(5, None, 0, 1, None, Some(0), None),
        ev(5, None, 2, 3, None, Some(0), None),
        ev(7, Some(5), 4, 5, None, Some(0), None),
    ];
    let g = Graph::new(&events);
    assert_eq!(g.edges, vec![pe(0, 2)]);
}

#[test]
fn merge_contracts_chain_of_no_result_nodes() {
    let events = vec![
        ev(1, None, 0, 100, None, Some(0), None),
        ev(2, Some(1), 10, 90, None, None, None),
        ev(3, Some(2), 20, 80, None, None, None),
        ev(4, Some(3), 30, 70, None, Some(0), None),
    ];
    let mut g = Graph::new(&events);
    assert_eq!(g.edges, vec![pe(0, 1), pe(1, 2), pe(2, 3)]);
    g.merge_noops();
    assert_eq!(g.edges, vec![pe(0, 3)]);
}

#[test]
fn merge_no_result_root_falls_back_to_node_zero() {
    // A no-result node with no incoming edge takes node 0 as its default
    // parent, and the pass removes the edge at position 0 (the degenerate
    // fallback of the original design, kept as is).
    let events = vec![
        ev(1, None, 0, 20, None, Some(0), None),
        ev(2, Some(1), 2, 4, None, Some(0), None),
        ev(3, None, 30, 40, None, None, None),
    ];
    let mut g = Graph::new(&events);
    assert_eq!(g.edges, vec![pe(0, 1)]);
    g.merge_noops();
    assert_eq!(g.edges, vec![]);
}

#[test]
fn contains_checks_span_enclosure() {
    let outer = ev(1, None, 0, 10, None, None, None);
    let inner = ev(2, None, 3, 7, None, None, None);
    assert!(contains(&outer, &inner));
    assert!(!contains(&inner, &outer));
    // equal spans contain each other (half-open bounds compare inclusively)
    assert!(contains(&outer, &outer));
}

#[test]
fn counts_report_current_sizes() {
    let events = vec![
        ev(1, None, 0, 10, Some(Span { low: 12, high: 15 }), Some(0), None),
        ev(2, Some(1), 2, 4, None, Some(0), None),
        ev(3, Some(1), 12, 15, None, Some(0), None),
    ];
    let g = Graph::new(&events);
    assert_eq!(g.num_nodes(), 3);
    // two explicit parent links plus one reference edge
    assert_eq!(g.num_edges(), 3);
}
