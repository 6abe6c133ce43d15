use adventure::graph::{
    plan_ring_arc, plan_state_hops, resolve_ring_route, DirectEdges, DirectedEdge, HopPolicy,
    RingDefinition, RingRoute, RingsByState, TieBreak,
};
use adventure::str_map::StrMap;

fn facing_ring_short(tie_break: TieBreak, cyclic: bool, max_chained: usize) -> RingDefinition {
    RingDefinition {
        id: "facing.walk".into(),
        states: vec![
            "walk_n".into(),
            "walk_ne".into(),
            "walk_e".into(),
            "walk_se".into(),
            "walk_s".into(),
            "walk_sw".into(),
            "walk_w".into(),
            "walk_nw".into(),
        ],
        cyclic,
        tie_break,
        max_chained_steps: max_chained,
    }
}

const WALK_FULL: &[&str] = &[
    "walk_north",
    "walk_northeast",
    "walk_east",
    "walk_southeast",
    "walk_south",
    "walk_southwest",
    "walk_west",
    "walk_northwest",
];

fn facing_ring_full(tie_break: TieBreak, cyclic: bool, max_chained: usize) -> RingDefinition {
    RingDefinition {
        id: "facing.walk".into(),
        states: WALK_FULL.iter().map(|s| (*s).to_string()).collect(),
        cyclic,
        tie_break,
        max_chained_steps: max_chained,
    }
}

fn step_id(from: &str, to: &str) -> String {
    format!("facing.walk.{from}.{to}")
}

fn put_edge(direct: &mut DirectEdges, from: &str, to: &str, id: String) {
    let mut inner = direct.remove(from).unwrap_or_else(StrMap::new);
    inner.insert(to.to_string(), id);
    direct.insert(from.to_string(), inner);
}

fn ring_edges(states: &[&str]) -> (DirectEdges, Vec<DirectedEdge>) {
    let n = states.len();
    let mut direct: DirectEdges = StrMap::new();
    let mut edges = Vec::new();
    for i in 0..n {
        let from = states[i];
        let to = states[(i + 1) % n];
        put_edge(&mut direct, from, to, step_id(from, to));
        put_edge(&mut direct, to, from, step_id(to, from));
        edges.push(DirectedEdge { from: from.to_string(), to: to.to_string() });
        edges.push(DirectedEdge { from: to.to_string(), to: from.to_string() });
    }
    (direct, edges)
}

fn rings_index(ring: RingDefinition) -> RingsByState {
    let mut map: RingsByState = StrMap::new();
    for s in &ring.states {
        let mut v = map.remove(s).unwrap_or_default();
        v.push(ring.clone());
        map.insert(s.clone(), v);
    }
    map
}

#[test]
fn shorter_arc_and_landings() {
    let ring = facing_ring_short(TieBreak::Forward, true, 4);
    let arc = plan_ring_arc(&ring, "walk_n", "walk_e").unwrap();
    assert_eq!(arc.direction, TieBreak::Forward);
    assert_eq!(arc.states, vec!["walk_ne", "walk_e"]);
    let arc = plan_ring_arc(&ring, "walk_n", "walk_w").unwrap();
    assert_eq!(arc.direction, TieBreak::Backward);
    assert_eq!(arc.states, vec!["walk_nw", "walk_w"]);
}

#[test]
fn half_turn_tie_break() {
    let forward = facing_ring_short(TieBreak::Forward, true, 4);
    let backward = facing_ring_short(TieBreak::Backward, true, 4);
    assert_eq!(plan_ring_arc(&forward, "walk_n", "walk_s").unwrap().direction, TieBreak::Forward);
    assert_eq!(plan_ring_arc(&backward, "walk_n", "walk_s").unwrap().direction, TieBreak::Backward);
}

#[test]
fn non_cyclic_no_wrap() {
    let line = facing_ring_short(TieBreak::Forward, false, 16);
    assert!(plan_ring_arc(&line, "walk_n", "walk_n").is_none());
    assert!(plan_ring_arc(&line, "walk_n", "sit").is_none());
    let arc = plan_ring_arc(&line, "walk_nw", "walk_ne").unwrap();
    assert_eq!(arc.states, vec!["walk_w", "walk_sw", "walk_s", "walk_se", "walk_e", "walk_ne"]);
}

#[test]
fn full_walk_se_to_nw_four_hops_either_arc() {
    let ring = facing_ring_full(TieBreak::Forward, true, 4);
    let arc = plan_ring_arc(&ring, "walk_southeast", "walk_northwest").unwrap();
    assert_eq!(arc.states.len(), 4);
    assert_eq!(arc.states.last().unwrap(), "walk_northwest");
    assert_eq!(arc.states, vec!["walk_south", "walk_southwest", "walk_west", "walk_northwest"]);
    let ring_b = facing_ring_full(TieBreak::Backward, true, 4);
    let arc_b = plan_ring_arc(&ring_b, "walk_southeast", "walk_northwest").unwrap();
    assert_eq!(arc_b.states.len(), 4);
    assert_eq!(arc_b.states, vec!["walk_east", "walk_northeast", "walk_north", "walk_northwest"]);
}

#[test]
fn full_walk_east_to_north_two_hops_via_northeast() {
    let ring = facing_ring_full(TieBreak::Forward, true, 4);
    let arc = plan_ring_arc(&ring, "walk_east", "walk_north").unwrap();
    assert_eq!(arc.direction, TieBreak::Backward);
    assert_eq!(arc.states, vec!["walk_northeast", "walk_north"]);
}

#[test]
fn full_walk_same_state_empty_path() {
    let ring = facing_ring_full(TieBreak::Forward, true, 4);
    assert!(plan_ring_arc(&ring, "walk_east", "walk_east").is_none());
    let (_, edges) = ring_edges(WALK_FULL);
    let hops = plan_state_hops("walk_east", "walk_east", &edges, HopPolicy::default()).unwrap();
    assert!(hops.is_empty());
}

#[test]
fn resolve_ring_route_arc_within_max_chained() {
    let ring = facing_ring_full(TieBreak::Forward, true, 4);
    let (direct, _) = ring_edges(WALK_FULL);
    let index = rings_index(ring);
    let route = resolve_ring_route(&index, &direct, "walk_east", "walk_north");
    match route {
        RingRoute::Arc { states, step_edge_ids, direction, .. } => {
            assert_eq!(direction, TieBreak::Backward);
            assert_eq!(states, vec!["walk_northeast", "walk_north"]);
            assert_eq!(step_edge_ids.len(), 2);
            assert_eq!(
                step_edge_ids,
                vec![
                    "facing.walk.walk_east.walk_northeast".to_string(),
                    "facing.walk.walk_northeast.walk_north".to_string()
                ]
            );
        }
        other => panic!("expected Arc, got {other:?}"),
    }
}

#[test]
fn resolve_ring_route_too_long_when_over_max_chained() {
    let ring = facing_ring_full(TieBreak::Forward, true, 3);
    let (direct, _) = ring_edges(WALK_FULL);
    let index = rings_index(ring);
    let route = resolve_ring_route(&index, &direct, "walk_southeast", "walk_northwest");
    match route {
        RingRoute::TooLong { ring_id, distance } => {
            assert_eq!(ring_id, "facing.walk");
            assert_eq!(distance, 4);
        }
        other => panic!("expected TooLong, got {other:?}"),
    }
}

#[test]
fn resolve_ring_route_half_turn_at_max_is_arc() {
    let ring = facing_ring_full(TieBreak::Forward, true, 4);
    let (direct, _) = ring_edges(WALK_FULL);
    let index = rings_index(ring);
    let route = resolve_ring_route(&index, &direct, "walk_southeast", "walk_northwest");
    match route {
        RingRoute::Arc { states, .. } => {
            assert_eq!(states.len(), 4);
            assert_eq!(states.last().unwrap(), "walk_northwest");
        }
        other => panic!("expected Arc at max, got {other:?}"),
    }
}

#[test]
fn resolve_ring_route_none_when_no_ring() {
    let ring = facing_ring_full(TieBreak::Forward, true, 4);
    let (direct, _) = ring_edges(WALK_FULL);
    let index = rings_index(ring);
    let route = resolve_ring_route(&index, &direct, "idle", "walk_north");
    assert_eq!(route, RingRoute::NoRoute);
}

#[test]
fn bfs_se_to_nw_four_hops() {
    let (_, edges) = ring_edges(WALK_FULL);
    let hops = plan_state_hops("walk_southeast", "walk_northwest", &edges, HopPolicy::default())
        .expect("reachable");
    assert_eq!(hops.len(), 4);
    assert_eq!(hops.last().unwrap(), "walk_northwest");
    assert!(!hops.iter().any(|s| s == "idle"));
}

#[test]
fn bfs_east_to_north_via_northeast() {
    let (_, edges) = ring_edges(WALK_FULL);
    let hops = plan_state_hops("walk_east", "walk_north", &edges, HopPolicy::default()).expect("reachable");
    assert_eq!(hops, vec!["walk_northeast", "walk_north"]);
}

#[test]
fn bfs_same_state_empty() {
    let (_, edges) = ring_edges(WALK_FULL);
    assert_eq!(plan_state_hops("walk_south", "walk_south", &edges, HopPolicy::default()), Some(vec![]));
}

#[test]
fn bfs_unreachable_is_none() {
    let edges = vec![DirectedEdge { from: "walk_east".into(), to: "walk_northeast".into() }];
    assert_eq!(plan_state_hops("walk_east", "walk_west", &edges, HopPolicy::default()), None);
}

#[test]
fn bfs_walk_to_walk_prefers_ring_over_idle() {
    let mut edges = ring_edges(WALK_FULL).1;
    edges.push(DirectedEdge { from: "walk_east".into(), to: "idle".into() });
    edges.push(DirectedEdge { from: "idle".into(), to: "walk_north".into() });
    edges.insert(0, DirectedEdge { from: "walk_east".into(), to: "idle".into() });
    let hops = plan_state_hops("walk_east", "walk_north", &edges, HopPolicy { avoid_idle_intermediate: true })
        .expect("reachable via ring");
    assert_eq!(hops, vec!["walk_northeast", "walk_north"]);
    assert!(!hops.iter().any(|s| s == "idle"));
    let hops_naive =
        plan_state_hops("walk_east", "walk_north", &edges, HopPolicy { avoid_idle_intermediate: false })
            .expect("reachable");
    assert_eq!(hops_naive.len(), 2);
    assert_eq!(hops_naive, vec!["idle", "walk_north"]);
}

#[test]
fn bfs_non_walk_may_use_idle() {
    let edges = vec![
        DirectedEdge { from: "sit".into(), to: "idle".into() },
        DirectedEdge { from: "idle".into(), to: "wave".into() },
    ];
    let hops = plan_state_hops("sit", "wave", &edges, HopPolicy::default()).unwrap();
    assert_eq!(hops, vec!["idle", "wave"]);
}

#[test]
fn ring_arc_last_landing_is_target() {
    let ring = facing_ring_full(TieBreak::Backward, true, 4);
    for from in WALK_FULL {
        for to in WALK_FULL {
            match plan_ring_arc(&ring, from, to) {
                Some(arc) => {
                    assert!(!arc.states.is_empty());
                    assert_eq!(arc.states.last().unwrap(), to);
                    assert!(arc.states.len() <= 4);
                }
                None => assert_eq!(from, to),
            }
        }
    }
}
