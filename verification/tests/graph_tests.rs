use neil_blueprint::graph::{
    edge_count, explicit_count, node_count, orphan_count, rebuild, refresh, reseed, toggle_anchors,
    wing_color, xorshift, xrand_raw, AnchorMode, GraphState, Listing, NoteRecord,
};
use neil_blueprint::raster::bresenham;
use neil_blueprint::styled::Tone;

fn note(id: &str, wing: &str, tags: &[&str], links: &[&str]) -> NoteRecord {
    NoteRecord {
        id: id.to_string(),
        wing: wing.to_string(),
        room: String::new(),
        preview: format!("preview of {}", id),
        tags: tags.iter().map(|t| t.to_string()).collect(),
        links: links.iter().map(|t| t.to_string()).collect(),
    }
}

fn sample() -> Vec<NoteRecord> {
    vec![
        note("a", "w1", &["t1"], &["b", "b", "a", "zzz"]),
        note("b", "w1", &["t1", "t2"], &[]),
        note("c", "w2", &["t2"], &[]),
        note("d", "w2", &[], &[]),
    ]
}

#[test]
fn xorshift_steps() {
    let mut s: u64 = 1;
    assert_eq!(xorshift(&mut s), 1082269761);
    assert_eq!(s, 1082269761);
    let mut z: u64 = 0;
    assert_eq!(xorshift(&mut z), 2504739119503425106);
    let mut t: u64 = 1;
    assert_eq!(xrand_raw(&mut t), (1082269761u64 >> 32) as u32);
}

#[test]
fn rebuild_counts_nodes_edges_and_orphans() {
    let mut g = GraphState::new();
    let d = rebuild(&mut g, &sample());
    assert_eq!(d.len(), 4);
    assert_eq!(node_count(&g), 4);
    assert_eq!(edge_count(&g), 2);
    assert_eq!(explicit_count(&g), 1);
    assert_eq!(orphan_count(&g), 1);
    let deg: Vec<usize> = g.nodes.iter().map(|n| n.degree).collect();
    assert_eq!(deg, vec![1, 2, 1, 0]);
    let e = g.edges.iter().find(|e| e.i == 0 && e.j == 1).expect("edge a-b");
    assert!(e.explicit);
    assert_eq!(e.link_hits, 2);
    assert_eq!(e.tag_sizes, vec![2]);
    let f = g.edges.iter().find(|e| e.i == 1 && e.j == 2).expect("edge b-c");
    assert!(!f.explicit);
    assert_eq!(g.settle_ticks, 0);
}

#[test]
fn degrees_sum_to_twice_the_edges() {
    let mut g = GraphState::new();
    rebuild(&mut g, &sample());
    let total: usize = g.nodes.iter().map(|n| n.degree).sum();
    assert_eq!(total, 2 * edge_count(&g));
}

#[test]
fn rebuild_seed_and_draws_are_fixed() {
    let mut g = GraphState::new();
    let d = rebuild(&mut g, &sample());
    assert_eq!(g.seed_state, 7806831264735756412);
    assert_eq!(d[0], (3298372214, 1218751508));
    let mut h = GraphState::new();
    let d2 = rebuild(&mut h, &sample());
    assert_eq!(d, d2);
}

#[test]
fn popular_tags_make_no_edges() {
    let notes: Vec<NoteRecord> = (0..31).map(|i| note(&format!("n{}", i), "w", &["common"], &[])).collect();
    let mut g = GraphState::new();
    rebuild(&mut g, &notes);
    assert_eq!(edge_count(&g), 0);
    assert_eq!(orphan_count(&g), 31);
    let notes30: Vec<NoteRecord> = (0..30).map(|i| note(&format!("n{}", i), "w", &["common"], &[])).collect();
    let mut h = GraphState::new();
    rebuild(&mut h, &notes30);
    assert_eq!(edge_count(&h), 30 * 29 / 2);
    assert_eq!(orphan_count(&h), 0);
}

#[test]
fn reseed_keeps_graph() {
    let mut g = GraphState::new();
    rebuild(&mut g, &sample());
    let edges_before = edge_count(&g);
    let d = reseed(&mut g);
    assert_eq!(d.len(), 4);
    assert_eq!(g.seed_state, 9396908728118811419);
    assert_eq!(edge_count(&g), edges_before);
    assert_eq!(orphan_count(&g), 1);
}

#[test]
fn anchors_cycle_in_three() {
    let mut g = GraphState::new();
    assert_eq!(g.anchor, AnchorMode::Free);
    assert_eq!(toggle_anchors(&mut g), AnchorMode::Soft);
    assert_eq!(toggle_anchors(&mut g), AnchorMode::Strong);
    assert_eq!(toggle_anchors(&mut g), AnchorMode::Free);
}

#[test]
fn refresh_takes_each_version_once() {
    let mut g = GraphState::new();
    assert!(refresh(&mut g, 0, &Listing::Notes(sample())).is_none());
    assert_eq!(node_count(&g), 0);
    assert!(refresh(&mut g, 1, &Listing::Missing).is_none());
    assert_eq!(g.last_load_version, 0);
    let r = refresh(&mut g, 1, &Listing::Notes(sample()));
    assert_eq!(r.map(|d| d.len()), Some(4));
    assert_eq!(g.last_load_version, 1);
    assert_eq!(node_count(&g), 4);
    assert!(refresh(&mut g, 2, &Listing::Unreadable).is_none());
    assert_eq!(g.last_load_version, 2);
    assert_eq!(node_count(&g), 4);
}

#[test]
fn wing_colours() {
    assert_eq!(wing_color(""), Tone::DarkGray);
    // djb2("a") = 5381 * 33 + 97 = 177670; 177670 % 8 = 6
    assert_eq!(wing_color("a"), Tone::LightYellow);
    assert_eq!(wing_color("projects"), wing_color("projects"));
}

#[test]
fn line_cells() {
    assert_eq!(bresenham(0, 0, 3, 0), vec![(0, 0), (1, 0), (2, 0), (3, 0)]);
    assert_eq!(bresenham(0, 0, 2, 2), vec![(0, 0), (1, 1), (2, 2)]);
    assert_eq!(bresenham(2, 1, 0, 0), vec![(2, 1), (1, 0), (0, 0)]);
    assert_eq!(bresenham(5, 5, 5, 5), vec![(5, 5)]);
    let cells = bresenham(-3, 7, 4, -2);
    assert_eq!(cells[0], (-3, 7));
    assert_eq!(*cells.last().unwrap(), (4, -2));
    for w in cells.windows(2) {
        assert!((w[1].0 - w[0].0).abs() <= 1 && (w[1].1 - w[0].1).abs() <= 1);
        // each step moves toward the end point
        assert!(w[1].0 - w[0].0 == 0 || w[1].0 - w[0].0 == 1);
        assert!(w[1].1 - w[0].1 == 0 || w[1].1 - w[0].1 == -1);
    }
    assert_eq!(cells.len(), 10);
    assert_eq!(bresenham(0, 0, 0, 5).len(), 6);
}

#[test]
fn long_spans_walk_without_overflow() {
    let cells = bresenham(i32::MAX - 3, 0, i32::MAX, 1);
    assert_eq!(cells, vec![(i32::MAX - 3, 0), (i32::MAX - 2, 0), (i32::MAX - 1, 1), (i32::MAX, 1)]);
}

#[test]
fn repeated_tag_on_one_note_makes_no_edge() {
    let mut g = GraphState::new();
    rebuild(&mut g, &[note("a", "w", &["x", "x"], &[])]);
    assert_eq!(edge_count(&g), 0);
    assert_eq!(g.nodes[0].degree, 0);
    assert_eq!(orphan_count(&g), 1);
    let mut h = GraphState::new();
    rebuild(&mut h, &[note("a", "w", &["x", "x"], &[]), note("b", "w", &["x"], &[])]);
    assert_eq!(edge_count(&h), 1);
    assert_eq!((h.edges[0].i, h.edges[0].j), (0, 1));
    assert_eq!(h.edges[0].tag_sizes, vec![2]);
    assert_eq!(orphan_count(&h), 0);
}

#[test]
fn explicit_count_counts_linked_pairs_once() {
    let mut g = GraphState::new();
    rebuild(&mut g, &[note("a", "w", &[], &["b", "b", "a", "zz"]), note("b", "w", &[], &["a"]), note("c", "w", &[], &[])]);
    assert_eq!(explicit_count(&g), 1);
    assert!(explicit_count(&g) <= edge_count(&g));
    assert_eq!(orphan_count(&g), 1);
    assert_eq!(node_count(&g), 3);
}
