//! Ring arcs and multi-hop route planning over animation-state graphs.
//!
//! * [`plan_ring_arc`] picks the shorter arc between two members of a ring.
//! * [`resolve_ring_route`] walks authored step edges along the first ring
//!   that can carry `from` to `to`.
//! * [`plan_state_hops`] is a breadth-first shortest hop list over directed
//!   edges, optionally avoiding `idle` when both ends are `walk_*` states.

use vstd::prelude::*;
use crate::str_map::StrMap;
use crate::text::{strs_view, first_pos, first_pos_from, position_of, clone_strs, str_eq};

verus! {

/// Which arc a ring prefers when both directions are equally long.
#[derive(Debug, Clone, Copy, PartialEq, Eq, Structural)]
pub enum TieBreak {
    Forward,
    Backward,
}

/// A ring (or line) of states, e.g. the eight walk facings.
#[derive(Debug, Clone, PartialEq, Eq)]
pub struct RingDefinition {
    pub id: String,
    pub states: Vec<String>,
    pub cyclic: bool,
    pub tie_break: TieBreak,
    pub max_chained_steps: usize,
}

/// An arc along a ring: its direction and the ordered landings; the last
/// landing is the requested target.
#[derive(Debug, Clone, PartialEq, Eq)]
pub struct RingArc {
    pub direction: TieBreak,
    pub states: Vec<String>,
}

impl View for RingArc {
    type V = (TieBreak, Seq<Seq<char>>);

    open spec fn view(&self) -> (TieBreak, Seq<Seq<char>>) {
        (self.direction, strs_view(self.states@))
    }
}

/// Steps from `fi` forward to `ti` (`usize::MAX` when a line cannot go that way).
pub open spec fn fwd_dist(fi: int, ti: int, len: int, cyclic: bool) -> int {
    if cyclic {
        if ti >= fi {
            ti - fi
        } else {
            ti + len - fi
        }
    } else if ti > fi {
        ti - fi
    } else {
        usize::MAX as int
    }
}

/// Direction chosen from the two distances and the ring's tie break.
pub open spec fn arc_direction(f: int, b: int, tie: TieBreak) -> TieBreak {
    if f < b {
        TieBreak::Forward
    } else if b < f {
        TieBreak::Backward
    } else {
        tie
    }
}

/// The arc [`plan_ring_arc`] returns, on the character views.
pub open spec fn ring_arc_spec(ring: RingDefinition, from: Seq<char>, to: Seq<char>) -> Option<
    (TieBreak, Seq<Seq<char>>),
> {
    let ss = strs_view(ring.states@);
    let len = ss.len() as int;
    match (first_pos(ss, from), first_pos(ss, to)) {
        (Some(fi), Some(ti)) => {
            let f = fwd_dist(fi, ti, len, ring.cyclic);
            let b = fwd_dist(ti, fi, len, ring.cyclic);
            if fi == ti || (f == usize::MAX as int && b == usize::MAX as int) {
                None
            } else {
                let dir = arc_direction(f, b, ring.tie_break);
                let d = if dir == TieBreak::Forward {
                    f
                } else {
                    b
                };
                let off: int = if dir == TieBreak::Forward {
                    1
                } else {
                    -1
                };
                Some((dir, Seq::new(d as nat, |k: int| ss[(fi + (k + 1) * off) % len])))
            }
        },
        _ => None,
    }
}

proof fn lemma_first_pos_from(ss: Seq<Seq<char>>, x: Seq<char>, i: int)
    requires
        0 <= i,
    ensures
        first_pos_from(ss, x, i) matches Some(p) ==> i <= p < ss.len() && ss[p] == x,
    decreases ss.len() - i,
{
    if i < ss.len() && ss[i] != x {
        lemma_first_pos_from(ss, x, i + 1);
    }
}

proof fn lemma_mod_step(a: int, len: int)
    requires
        len > 0,
    ensures
        (a + 1) % len == (if a % len + 1 == len {
            0
        } else {
            a % len + 1
        }),
        (a - 1) % len == (if a % len == 0 {
            len - 1
        } else {
            a % len - 1
        }),
{
    let q = a / len;
    let c = a % len;
    vstd::arithmetic::div_mod::lemma_fundamental_div_mod(a, len);
    assert(a == q * len + c) by (nonlinear_arith)
        requires
            a == len * q + c,
    ;
    if c + 1 == len {
        assert(a + 1 == (q + 1) * len + 0) by (nonlinear_arith)
            requires
                a == q * len + c,
                c + 1 == len,
        ;
        vstd::arithmetic::div_mod::lemma_fundamental_div_mod_converse(a + 1, len, q + 1, 0);
    } else {
        vstd::arithmetic::div_mod::lemma_fundamental_div_mod_converse(a + 1, len, q, c + 1);
    }
    if c == 0 {
        assert(a - 1 == (q - 1) * len + (len - 1)) by (nonlinear_arith)
            requires
                a == q * len + c,
                c == 0,
        ;
        vstd::arithmetic::div_mod::lemma_fundamental_div_mod_converse(a - 1, len, q - 1, len - 1);
    } else {
        vstd::arithmetic::div_mod::lemma_fundamental_div_mod_converse(a - 1, len, q, c - 1);
    }
}

/// Choose the shorter arc between two members of one ring.
///
/// `None` when either state is not on the ring, when they are the same
/// state, or when a non-cyclic ring cannot reach `to`.
pub fn plan_ring_arc(ring: &RingDefinition, from: &str, to: &str) -> (r: Option<RingArc>)
    ensures
        match r {
            Some(a) => ring_arc_spec(*ring, from@, to@) == Some(a@),
            None => ring_arc_spec(*ring, from@, to@) is None,
        },
{
    let ghost ss = strs_view(ring.states@);
    let length = ring.states.len();
    let from_index = match position_of(&ring.states, from) {
        Some(i) => i,
        None => return None,
    };
    let to_index = match position_of(&ring.states, to) {
        Some(i) => i,
        None => return None,
    };
    if from_index == to_index {
        return None;
    }
    let (forward, backward) = if ring.cyclic {
        (
            if to_index >= from_index {
                to_index - from_index
            } else {
                to_index + (length - from_index)
            },
            if from_index >= to_index {
                from_index - to_index
            } else {
                from_index + (length - to_index)
            },
        )
    } else {
        let f = if to_index > from_index {
            to_index - from_index
        } else {
            usize::MAX
        };
        let b = if from_index > to_index {
            from_index - to_index
        } else {
            usize::MAX
        };
        (f, b)
    };
    if forward == usize::MAX && backward == usize::MAX {
        return None;
    }
    let direction = if forward < backward {
        TieBreak::Forward
    } else if backward < forward {
        TieBreak::Backward
    } else {
        ring.tie_break
    };
    let distance = if direction == TieBreak::Forward {
        forward
    } else {
        backward
    };
    let ghost off: int = if direction == TieBreak::Forward {
        1
    } else {
        -1
    };
    assert(distance < length);
    let mut states: Vec<String> = Vec::new();
    let mut cur: usize = from_index;
    let mut step: usize = 0;
    proof {
        vstd::arithmetic::div_mod::lemma_small_mod(from_index as nat, length as nat);
    }
    while step < distance
        invariant
            ss == strs_view(ring.states@),
            length == ring.states.len(),
            from_index < length,
            distance < length,
            step <= distance,
            cur < length,
            off == (if direction == TieBreak::Forward {
                1int
            } else {
                -1int
            }),
            cur as int == (from_index + step * off) % (length as int),
            strs_view(states@) == Seq::new(
                step as nat,
                |k: int| ss[(from_index + (k + 1) * off) % (length as int)],
            ),
        decreases distance - step,
    {
        proof {
            lemma_mod_step(from_index + step * off, length as int);
            assert(from_index + (step + 1) * off == from_index + step * off + off) by (
            nonlinear_arith);
        }
        if direction == TieBreak::Forward {
            cur = if cur + 1 == length {
                0
            } else {
                cur + 1
            };
        } else {
            cur = if cur == 0 {
                length - 1
            } else {
                cur - 1
            };
        }
        assert(cur as int == (from_index + (step + 1) * off) % (length as int));
        let ghost prev = states@;
        assert(strs_view(prev).len() == step);
        assert(prev.len() == step);
        let st = ring.states[cur].clone();
        assert(st == ring.states@[cur as int]);
        states.push(st);
        assert(states@ == prev.push(st));
        assert(states@.len() == step + 1);
        assert(states@[step as int] == st);
        assert(strs_view(states@)[step as int] == st@);
        assert(ss[cur as int] == st@);
        step = step + 1;
        assert forall|k: int| 0 <= k < step implies #[trigger] strs_view(states@)[k] == ss[(
        from_index + (k + 1) * off) % (length as int)] by {
            if k < step - 1 {
                assert(strs_view(states@)[k] == strs_view(prev)[k]);
            }
        }
        assert(strs_view(states@) =~= Seq::new(
            step as nat,
            |k: int| ss[(from_index + (k + 1) * off) % (length as int)],
        ));
    }
    Some(RingArc { direction, states })
}

// ── resolve_ring_route ────────────────────────────────────────────────────

/// Direct neighbour edges: from → (to → edge id).
pub type DirectEdges = StrMap<StrMap<String>>;

/// Rings indexed by each member state.
pub type RingsByState = StrMap<Vec<RingDefinition>>;

/// Outcome of [`resolve_ring_route`].
#[derive(Debug, Clone, PartialEq, Eq)]
pub enum RingRoute {
    NoRoute,
    TooLong {
        ring_id: String,
        distance: usize,
    },
    Arc {
        ring_id: String,
        direction: TieBreak,
        states: Vec<String>,
        /// Edge ids along the arc, one per landing.
        step_edge_ids: Vec<String>,
    },
}

/// Character-level view of a [`RingRoute`].
pub enum RingRouteView {
    NoRoute,
    TooLong { ring_id: Seq<char>, distance: int },
    Arc {
        ring_id: Seq<char>,
        direction: TieBreak,
        states: Seq<Seq<char>>,
        step_edge_ids: Seq<Seq<char>>,
    },
}

impl View for RingRoute {
    type V = RingRouteView;

    open spec fn view(&self) -> RingRouteView {
        match self {
            RingRoute::NoRoute => RingRouteView::NoRoute,
            RingRoute::TooLong { ring_id, distance } => RingRouteView::TooLong {
                ring_id: ring_id@,
                distance: *distance as int,
            },
            RingRoute::Arc { ring_id, direction, states, step_edge_ids } => RingRouteView::Arc {
                ring_id: ring_id@,
                direction: *direction,
                states: strs_view(states@),
                step_edge_ids: strs_view(step_edge_ids@),
            },
        }
    }
}

/// The edge id stored for `a → b`, if any.
pub open spec fn edge_id_of(direct: Map<Seq<char>, StrMap<String>>, a: Seq<char>, b: Seq<char>) -> Option<
    Seq<char>,
> {
    if direct.contains_key(a) && direct[a]@.contains_key(b) {
        Some(direct[a]@[b]@)
    } else {
        None
    }
}

/// Edge ids walking from `from` through `states`, or `None` if a step is missing.
pub open spec fn step_edges_spec(
    direct: Map<Seq<char>, StrMap<String>>,
    from: Seq<char>,
    states: Seq<Seq<char>>,
) -> Option<Seq<Seq<char>>>
    decreases states.len(),
{
    if states.len() == 0 {
        Some(Seq::empty())
    } else {
        match edge_id_of(direct, from, states[0]) {
            None => None,
            Some(e) => match step_edges_spec(direct, states[0], states.drop_first()) {
                None => None,
                Some(rest) => Some(seq![e] + rest),
            },
        }
    }
}

/// `prefix ++ rest`, lifted through `Option`.
pub open spec fn opt_prepend(prefix: Seq<Seq<char>>, rest: Option<Seq<Seq<char>>>) -> Option<
    Seq<Seq<char>>,
> {
    match rest {
        Some(r) => Some(prefix + r),
        None => None,
    }
}

/// Result of trying rings `i..` in order; `refused` is the first ring that
/// could reach `to` but only in more steps than it allows.
pub open spec fn route_from(
    rings: Seq<RingDefinition>,
    direct: Map<Seq<char>, StrMap<String>>,
    from: Seq<char>,
    to: Seq<char>,
    i: int,
    refused: Option<(Seq<char>, int)>,
) -> RingRouteView
    decreases rings.len() - i,
{
    if i < 0 || i >= rings.len() {
        match refused {
            Some((id, d)) => RingRouteView::TooLong { ring_id: id, distance: d },
            None => RingRouteView::NoRoute,
        }
    } else {
        let ring = rings[i];
        match ring_arc_spec(ring, from, to) {
            None => route_from(rings, direct, from, to, i + 1, refused),
            Some((dir, states)) => if states.len() > ring.max_chained_steps {
                route_from(
                    rings,
                    direct,
                    from,
                    to,
                    i + 1,
                    if refused is None {
                        Some((ring.id@, states.len() as int))
                    } else {
                        refused
                    },
                )
            } else {
                match step_edges_spec(direct, from, states) {
                    None => route_from(rings, direct, from, to, i + 1, refused),
                    Some(ids) => RingRouteView::Arc {
                        ring_id: ring.id@,
                        direction: dir,
                        states,
                        step_edge_ids: ids,
                    },
                }
            },
        }
    }
}

/// The route [`resolve_ring_route`] returns.
pub open spec fn ring_route_spec(
    rings_by_state: Map<Seq<char>, Vec<RingDefinition>>,
    direct: Map<Seq<char>, StrMap<String>>,
    from: Seq<char>,
    to: Seq<char>,
) -> RingRouteView {
    if rings_by_state.contains_key(from) {
        route_from(rings_by_state[from]@, direct, from, to, 0, None)
    } else {
        RingRouteView::NoRoute
    }
}

fn step_edge_ids(direct: &DirectEdges, from: &str, states: &Vec<String>) -> (r: Option<
    Vec<String>,
>)
    ensures
        match r {
            Some(v) => step_edges_spec(direct@, from@, strs_view(states@)) == Some(strs_view(v@)),
            None => step_edges_spec(direct@, from@, strs_view(states@)) is None,
        },
{
    let ghost ss = strs_view(states@);
    let mut ids: Vec<String> = Vec::new();
    let mut cursor: String = from.to_owned();
    let mut k: usize = 0;
    proof {
        assert(ss.subrange(0, ss.len() as int) =~= ss);
        match step_edges_spec(direct@, from@, ss) {
            Some(rr) => {
                assert(strs_view(ids@) + rr =~= rr);
            },
            None => {},
        }
    }
    while k < states.len()
        invariant
            ss == strs_view(states@),
            k <= states.len(),
            k == 0 ==> cursor@ == from@,
            k > 0 ==> cursor@ == ss[k - 1],
            step_edges_spec(direct@, from@, ss) == opt_prepend(
                strs_view(ids@),
                step_edges_spec(direct@, cursor@, ss.subrange(k as int, ss.len() as int)),
            ),
        decreases states.len() - k,
    {
        let ghost rest = ss.subrange(k as int, ss.len() as int);
        assert(rest[0] == ss[k as int]);
        assert(rest.drop_first() =~= ss.subrange(k + 1, ss.len() as int));
        let found = match direct.get(cursor.as_str()) {
            Some(m) => m.get(states[k].as_str()),
            None => None,
        };
        match found {
            Some(edge_id) => {
                ids.push(edge_id.clone());
                cursor = states[k].clone();
                k = k + 1;
                proof {
                    let e = edge_id@;
                    match step_edges_spec(direct@, ss[k - 1], ss.subrange(k as int, ss.len() as int)) {
                        Some(rr) => {
                            assert(strs_view(ids@) =~= strs_view(ids@).drop_last().push(e));
                            assert(strs_view(ids@).drop_last() + (seq![e] + rr) =~= strs_view(ids@)
                                + rr);
                        },
                        None => {},
                    }
                }
            },
            None => {
                return None;
            },
        }
    }
    assert(ss.subrange(k as int, ss.len() as int) =~= Seq::<Seq<char>>::empty());
    assert(strs_view(ids@) + Seq::<Seq<char>>::empty() =~= strs_view(ids@));
    Some(ids)
}

/// Resolve authored step edges that walk `from` → `to` along the first capable ring.
///
/// Rings are tried in order: a ring whose arc is longer than its
/// `max_chained_steps` is remembered (first one wins) and skipped; a ring
/// whose arc lacks a direct edge is skipped. When no ring yields an arc, the
/// remembered refusal becomes [`RingRoute::TooLong`], else [`RingRoute::NoRoute`].
pub fn resolve_ring_route(
    rings_by_state: &RingsByState,
    direct_edges: &DirectEdges,
    from: &str,
    to: &str,
) -> (r: RingRoute)
    ensures
        r@ == ring_route_spec(rings_by_state@, direct_edges@, from@, to@),
{
    let rings = match rings_by_state.get(from) {
        Some(rs) => rs,
        None => return RingRoute::NoRoute,
    };
    let mut refused: Option<(String, usize)> = None;
    let mut i: usize = 0;
    while i < rings.len()
        invariant
            i <= rings.len(),
            rings_by_state@.contains_key(from@),
            *rings == rings_by_state@[from@],
            ring_route_spec(rings_by_state@, direct_edges@, from@, to@) == route_from(
                rings@,
                direct_edges@,
                from@,
                to@,
                i as int,
                match refused {
                    Some((id, d)) => Some((id@, d as int)),
                    None => None,
                },
            ),
        decreases rings.len() - i,
    {
        let ring = &rings[i];
        match plan_ring_arc(ring, from, to) {
            None => {},
            Some(arc) => {
                if arc.states.len() > ring.max_chained_steps {
                    if refused.is_none() {
                        refused = Some((ring.id.clone(), arc.states.len()));
                    }
                } else {
                    match step_edge_ids(direct_edges, from, &arc.states) {
                        None => {},
                        Some(step_edge_ids) => {
                            return RingRoute::Arc {
                                ring_id: ring.id.clone(),
                                direction: arc.direction,
                                states: arc.states,
                                step_edge_ids,
                            };
                        },
                    }
                }
            },
        }
        i = i + 1;
    }
    match refused {
        Some((ring_id, distance)) => RingRoute::TooLong { ring_id, distance },
        None => RingRoute::NoRoute,
    }
}

// ── plan_state_hops ───────────────────────────────────────────────────────

/// Directed edge used by multi-hop BFS ([`plan_state_hops`]).
#[derive(Debug, Clone, PartialEq, Eq)]
pub struct DirectedEdge {
    pub from: String,
    pub to: String,
}

/// Policy for multi-hop planning over raw edge adjacency.
#[derive(Debug, Clone, Copy, PartialEq, Eq)]
pub struct HopPolicy {
    /// When `from` and `to` both start with `walk_`, skip edges whose either
    /// endpoint is `idle`.
    pub avoid_idle_intermediate: bool,
}

impl Default for HopPolicy {
    fn default() -> (r: Self)
        ensures
            r.avoid_idle_intermediate,
    {
        HopPolicy { avoid_idle_intermediate: true }
    }
}

/// Edges as pairs of character views.
pub open spec fn edges_view(edges: Seq<DirectedEdge>) -> Seq<(Seq<char>, Seq<char>)> {
    edges.map_values(|e: DirectedEdge| (e.from@, e.to@))
}

/// Whether edge `i` may be used (idle edges are dropped when `skip_idle`).
pub open spec fn usable(es: Seq<(Seq<char>, Seq<char>)>, skip_idle: bool, i: int) -> bool {
    0 <= i < es.len() && (!skip_idle || (es[i].0 != "idle"@ && es[i].1 != "idle"@))
}

/// Some usable edge among the first `n` goes `u → v`.
pub open spec fn adj_upto(
    es: Seq<(Seq<char>, Seq<char>)>,
    skip_idle: bool,
    u: Seq<char>,
    v: Seq<char>,
    n: int,
) -> bool {
    exists|i: int| 0 <= i < n && usable(es, skip_idle, i) && #[trigger] es[i] == (u, v)
}

/// Some usable edge goes `u → v`.
pub open spec fn adjacent(
    es: Seq<(Seq<char>, Seq<char>)>,
    skip_idle: bool,
    u: Seq<char>,
    v: Seq<char>,
) -> bool {
    adj_upto(es, skip_idle, u, v, es.len() as int)
}

/// The state a hop list stands on before landing `k`.
pub open spec fn hop_prev(from: Seq<char>, p: Seq<Seq<char>>, k: int) -> Seq<char> {
    if k == 0 {
        from
    } else {
        p[k - 1]
    }
}

/// Where a hop list starting at `from` ends.
pub open spec fn path_end(from: Seq<char>, p: Seq<Seq<char>>) -> Seq<char> {
    if p.len() == 0 {
        from
    } else {
        p.last()
    }
}

/// `p` is a list of landings, each reached by a usable edge.
pub open spec fn is_hop_path(
    es: Seq<(Seq<char>, Seq<char>)>,
    skip_idle: bool,
    from: Seq<char>,
    p: Seq<Seq<char>>,
) -> bool {
    forall|k: int| 0 <= k < p.len() ==> adjacent(es, skip_idle, hop_prev(from, p, k), #[trigger] p[k])
}

/// `v` is reachable from `from` in at most `d` hops.
pub open spec fn reach_within(
    es: Seq<(Seq<char>, Seq<char>)>,
    skip_idle: bool,
    from: Seq<char>,
    v: Seq<char>,
    d: int,
) -> bool {
    exists|p: Seq<Seq<char>>|
        #[trigger] is_hop_path(es, skip_idle, from, p) && p.len() <= d && path_end(from, p) == v
}

/// Breadth-first search entries: each state with the landings that first
/// reached it, in the order they were found.
pub open spec fn entries_view(nodes: Seq<String>, paths: Seq<Vec<String>>) -> Seq<(Seq<char>, Seq<Seq<char>>)> {
    Seq::new(nodes.len(), |i: int| (nodes[i]@, strs_view(paths[i]@)))
}

/// One breadth-first round, from frontier entry `j` and edge `k` on: for
/// each frontier entry in order, each usable edge leaving its state, in
/// edge order, to a state not yet seen marks that state seen and adds it,
/// with its landings, to the next frontier. Gives the final seen list and
/// next frontier.
pub open spec fn bfs_scan(
    es: Seq<(Seq<char>, Seq<char>)>,
    skip_idle: bool,
    fr: Seq<(Seq<char>, Seq<Seq<char>>)>,
    j: int,
    k: int,
    seen: Seq<Seq<char>>,
    next: Seq<(Seq<char>, Seq<Seq<char>>)>,
) -> (Seq<Seq<char>>, Seq<(Seq<char>, Seq<Seq<char>>)>)
    decreases fr.len() - j, es.len() - k,
{
    if j < 0 || j >= fr.len() || k < 0 {
        (seen, next)
    } else if k >= es.len() {
        bfs_scan(es, skip_idle, fr, j + 1, 0, seen, next)
    } else if usable(es, skip_idle, k) && es[k].0 == fr[j].0 && !seen.contains(es[k].1) {
        bfs_scan(
            es,
            skip_idle,
            fr,
            j,
            k + 1,
            seen.push(es[k].1),
            next.push((es[k].1, fr[j].1.push(es[k].1))),
        )
    } else {
        bfs_scan(es, skip_idle, fr, j, k + 1, seen, next)
    }
}

/// The seen states and the frontier after `n` breadth-first rounds from
/// `from`.
pub open spec fn bfs_level(es: Seq<(Seq<char>, Seq<char>)>, skip_idle: bool, from: Seq<char>, n: nat) -> (
    Seq<Seq<char>>,
    Seq<(Seq<char>, Seq<Seq<char>>)>,
)
    decreases n,
{
    if n == 0 {
        (seq![from], seq![(from, Seq::<Seq<char>>::empty())])
    } else {
        let prev = bfs_level(es, skip_idle, from, (n - 1) as nat);
        bfs_scan(es, skip_idle, prev.1, 0, 0, prev.0, Seq::empty())
    }
}

/// A round only adds to the next frontier.
proof fn lemma_scan_keeps(
    es: Seq<(Seq<char>, Seq<char>)>,
    skip_idle: bool,
    fr: Seq<(Seq<char>, Seq<Seq<char>>)>,
    j: int,
    k: int,
    seen: Seq<Seq<char>>,
    next: Seq<(Seq<char>, Seq<Seq<char>>)>,
)
    ensures
        next.len() <= bfs_scan(es, skip_idle, fr, j, k, seen, next).1.len(),
        forall|i: int| 0 <= i < next.len() ==> #[trigger] bfs_scan(es, skip_idle, fr, j, k, seen, next).1[i] == next[i],
    decreases fr.len() - j, es.len() - k,
{
    if j < 0 || j >= fr.len() || k < 0 {
    } else if k >= es.len() {
        lemma_scan_keeps(es, skip_idle, fr, j + 1, 0, seen, next);
    } else if usable(es, skip_idle, k) && es[k].0 == fr[j].0 && !seen.contains(es[k].1) {
        let n2 = next.push((es[k].1, fr[j].1.push(es[k].1)));
        lemma_scan_keeps(es, skip_idle, fr, j, k + 1, seen.push(es[k].1), n2);
        assert forall|i: int| 0 <= i < next.len() implies #[trigger] bfs_scan(es, skip_idle, fr, j, k, seen, next).1[i]
            == next[i] by {
            assert(n2[i] == next[i]);
        }
    } else {
        lemma_scan_keeps(es, skip_idle, fr, j, k + 1, seen, next);
    }
}

/// No state occurs twice among the entries.
pub open spec fn entry_states_distinct(fr: Seq<(Seq<char>, Seq<Seq<char>>)>) -> bool {
    forall|i: int, j: int| 0 <= i < j < fr.len() ==> #[trigger] fr[i].0 != #[trigger] fr[j].0
}

proof fn lemma_scan_distinct(
    es: Seq<(Seq<char>, Seq<char>)>,
    skip_idle: bool,
    fr: Seq<(Seq<char>, Seq<Seq<char>>)>,
    j: int,
    k: int,
    seen: Seq<Seq<char>>,
    next: Seq<(Seq<char>, Seq<Seq<char>>)>,
)
    requires
        entry_states_distinct(next),
        forall|i: int| 0 <= i < next.len() ==> seen.contains(#[trigger] next[i].0),
    ensures
        entry_states_distinct(bfs_scan(es, skip_idle, fr, j, k, seen, next).1),
    decreases fr.len() - j, es.len() - k,
{
    if j < 0 || j >= fr.len() || k < 0 {
    } else if k >= es.len() {
        lemma_scan_distinct(es, skip_idle, fr, j + 1, 0, seen, next);
    } else if usable(es, skip_idle, k) && es[k].0 == fr[j].0 && !seen.contains(es[k].1) {
        let s2 = seen.push(es[k].1);
        let n2 = next.push((es[k].1, fr[j].1.push(es[k].1)));
        assert forall|i: int| 0 <= i < n2.len() implies s2.contains(#[trigger] n2[i].0) by {
            if i < next.len() {
                assert(seen.contains(next[i].0));
                let w = choose|w: int| 0 <= w < seen.len() && seen[w] == next[i].0;
                assert(s2[w] == next[i].0);
            } else {
                assert(s2[seen.len() as int] == n2[i].0);
            }
        }
        assert forall|a: int, b: int| 0 <= a < b < n2.len() implies #[trigger] n2[a].0 != #[trigger] n2[b].0 by {
            if b == next.len() {
                assert(seen.contains(next[a].0));
            } else {
                assert(next[a].0 != next[b].0);
            }
        }
        lemma_scan_distinct(es, skip_idle, fr, j, k + 1, s2, n2);
    } else {
        lemma_scan_distinct(es, skip_idle, fr, j, k + 1, seen, next);
    }
}

/// A breadth-first frontier holds each state at most once, so the entry for
/// a state in it (as [`plan_state_hops`] returns) is unique.
pub proof fn lemma_bfs_frontier_distinct(
    es: Seq<(Seq<char>, Seq<char>)>,
    skip_idle: bool,
    from: Seq<char>,
    n: nat,
)
    ensures
        entry_states_distinct(bfs_level(es, skip_idle, from, n).1),
{
    if n > 0 {
        let prev = bfs_level(es, skip_idle, from, (n - 1) as nat);
        lemma_scan_distinct(es, skip_idle, prev.1, 0, 0, prev.0, Seq::empty());
    }
}

/// Whether [`plan_state_hops`] drops idle edges for this request.
pub open spec fn skips_idle(policy: HopPolicy, from: Seq<char>, to: Seq<char>) -> bool {
    policy.avoid_idle_intermediate && crate::text::starts_with_spec(from, "walk_"@)
        && crate::text::starts_with_spec(to, "walk_"@)
}

proof fn lemma_append(
    es: Seq<(Seq<char>, Seq<char>)>,
    skip: bool,
    from: Seq<char>,
    p: Seq<Seq<char>>,
    v: Seq<char>,
)
    requires
        is_hop_path(es, skip, from, p),
        adjacent(es, skip, path_end(from, p), v),
    ensures
        is_hop_path(es, skip, from, p.push(v)),
        path_end(from, p.push(v)) == v,
{
    let q = p.push(v);
    assert forall|k: int| 0 <= k < q.len() implies adjacent(
        es,
        skip,
        hop_prev(from, q, k),
        #[trigger] q[k],
    ) by {
        if k < p.len() {
            assert(q[k] == p[k]);
            assert(hop_prev(from, q, k) == hop_prev(from, p, k));
        } else {
            assert(hop_prev(from, q, k) == path_end(from, p));
        }
    }
}

proof fn lemma_reach_append(
    es: Seq<(Seq<char>, Seq<char>)>,
    skip: bool,
    from: Seq<char>,
    u: Seq<char>,
    v: Seq<char>,
    n: int,
)
    requires
        reach_within(es, skip, from, u, n),
        adjacent(es, skip, u, v),
    ensures
        reach_within(es, skip, from, v, n + 1),
{
    let p = choose|p: Seq<Seq<char>>|
        #[trigger] is_hop_path(es, skip, from, p) && p.len() <= n && path_end(from, p) == u;
    lemma_append(es, skip, from, p, v);
    assert(is_hop_path(es, skip, from, p.push(v)));
}

proof fn lemma_reach_mono(
    es: Seq<(Seq<char>, Seq<char>)>,
    skip: bool,
    from: Seq<char>,
    v: Seq<char>,
    n: int,
    m: int,
)
    requires
        reach_within(es, skip, from, v, n),
        n <= m,
    ensures
        reach_within(es, skip, from, v, m),
{
    let p = choose|p: Seq<Seq<char>>|
        #[trigger] is_hop_path(es, skip, from, p) && p.len() <= n && path_end(from, p) == v;
    assert(is_hop_path(es, skip, from, p));
}

#[verifier::rlimit(40)]
proof fn lemma_reach_step(
    es: Seq<(Seq<char>, Seq<char>)>,
    skip: bool,
    from: Seq<char>,
    v: Seq<char>,
    n: int,
)
    requires
        0 <= n,
        reach_within(es, skip, from, v, n + 1),
    ensures
        reach_within(es, skip, from, v, n) || exists|u: Seq<char>|
            reach_within(es, skip, from, u, n) && #[trigger] adjacent(es, skip, u, v),
{
    let p = choose|p: Seq<Seq<char>>|
        #[trigger] is_hop_path(es, skip, from, p) && p.len() <= n + 1 && path_end(from, p) == v;
    if p.len() <= n {
        assert(is_hop_path(es, skip, from, p));
    } else {
        let q = p.drop_last();
        assert forall|k: int| 0 <= k < q.len() implies adjacent(
            es,
            skip,
            hop_prev(from, q, k),
            #[trigger] q[k],
        ) by {
            assert(q[k] == p[k]);
            assert(hop_prev(from, q, k) == hop_prev(from, p, k));
        }
        assert(is_hop_path(es, skip, from, q));
        let u = path_end(from, q);
        assert(hop_prev(from, p, n) == u);
        assert(adjacent(es, skip, hop_prev(from, p, n), p[n]));
        assert(reach_within(es, skip, from, u, n));
    }
}

proof fn lemma_reach_zero(es: Seq<(Seq<char>, Seq<char>)>, skip: bool, from: Seq<char>, v: Seq<char>)
    ensures
        reach_within(es, skip, from, v, 0) <==> v == from,
        !reach_within(es, skip, from, v, -1),
{
    let e = Seq::<Seq<char>>::empty();
    assert(is_hop_path(es, skip, from, e));
    if v == from {
        assert(path_end(from, e) == v);
    }
}

proof fn lemma_path_reach(
    es: Seq<(Seq<char>, Seq<char>)>,
    skip: bool,
    from: Seq<char>,
    p: Seq<Seq<char>>,
)
    requires
        is_hop_path(es, skip, from, p),
    ensures
        reach_within(es, skip, from, path_end(from, p), p.len() as int),
{
}

/// When no state needs `i + 1` hops, nothing needs more than `i`.
proof fn lemma_closed(
    es: Seq<(Seq<char>, Seq<char>)>,
    skip: bool,
    from: Seq<char>,
    i: int,
    v: Seq<char>,
    n: int,
)
    requires
        0 <= i <= n,
        forall|w: Seq<char>|
            #[trigger] reach_within(es, skip, from, w, i + 1) ==> reach_within(es, skip, from, w, i),
        reach_within(es, skip, from, v, n),
    ensures
        reach_within(es, skip, from, v, i),
    decreases n - i,
{
    if n > i {
        lemma_reach_step(es, skip, from, v, n - 1);
        if reach_within(es, skip, from, v, n - 1) {
            lemma_closed(es, skip, from, i, v, n - 1);
        } else {
            let u = choose|u: Seq<char>|
                reach_within(es, skip, from, u, n - 1) && #[trigger] adjacent(es, skip, u, v);
            lemma_closed(es, skip, from, i, u, n - 1);
            lemma_reach_append(es, skip, from, u, v, i);
        }
    }
}

proof fn lemma_seen_bound(
    seen: Seq<Seq<char>>,
    es: Seq<(Seq<char>, Seq<char>)>,
    from: Seq<char>,
)
    requires
        seen.no_duplicates(),
        forall|x: Seq<char>|
            seen.contains(x) ==> x == from || exists|k: int| 0 <= k < es.len() && #[trigger] es[k].1
                == x,
    ensures
        seen.len() <= es.len() + 1,
{
    let targets = es.map_values(|e: (Seq<char>, Seq<char>)| e.1);
    let big = targets.to_set().insert(from);
    assert(seen.to_set().subset_of(big)) by {
        assert forall|x: Seq<char>| seen.to_set().contains(x) implies big.contains(x) by {
            assert(seen.contains(x));
            if x != from {
                let k = choose|k: int| 0 <= k < es.len() && #[trigger] es[k].1 == x;
                assert(targets[k] == x);
            }
        }
    }
    seen.unique_seq_to_set();
    targets.lemma_cardinality_of_set();
    vstd::set_lib::lemma_len_subset(seen.to_set(), big);
}

fn is_idle(s: &String) -> (r: bool)
    ensures
        r == (s@ == "idle"@),
{
    str_eq(s.as_str(), "idle")
}

/// Shortest hop list from `from` → `to` over directed edges (breadth first).
///
/// - Same state → `Some([])`.
/// - Reachable → the landings of a shortest path, including `to`, excluding `from`.
/// - Unreachable → `None`.
///
/// When the policy asks for it and both ends are `walk_*`, edges touching
/// `idle` are dropped before the search. Among equally short paths, the one
/// found first is returned: the entry for `to` in the breadth-first frontier
/// at that length ([`bfs_level`]), which scans frontier states in the order
/// they were found and, for each, the edges in their given order.
pub fn plan_state_hops(from: &str, to: &str, edges: &Vec<DirectedEdge>, policy: HopPolicy) -> (r:
    Option<Vec<String>>)
    ensures
        from@ == to@ ==> (r matches Some(h) && h@.len() == 0),
        from@ != to@ ==> (r is Some <==> exists|p: Seq<Seq<char>>|
            is_hop_path(edges_view(edges@), skips_idle(policy, from@, to@), from@, p) && path_end(
                from@,
                p,
            ) == to@),
        from@ != to@ ==> (r matches Some(h) ==> {
            &&& is_hop_path(
                edges_view(edges@),
                skips_idle(policy, from@, to@),
                from@,
                strs_view(h@),
            )
            &&& path_end(from@, strs_view(h@)) == to@
            &&& forall|p: Seq<Seq<char>>|
                is_hop_path(edges_view(edges@), skips_idle(policy, from@, to@), from@, p)
                    && path_end(from@, p) == to@ ==> h@.len() <= p.len()
            &&& bfs_level(edges_view(edges@), skips_idle(policy, from@, to@), from@, h@.len()).1.contains(
                (to@, strs_view(h@)),
            )
        }),
{
    if str_eq(from, to) {
        return Some(Vec::new());
    }
    let ghost es = edges_view(edges@);
    let from_cs = crate::text::chars_of(from);
    let to_cs = crate::text::chars_of(to);
    let walk_cs = crate::text::chars_of("walk_");
    let walk_ring = crate::text::starts_with(&from_cs, &walk_cs) && crate::text::starts_with(
        &to_cs,
        &walk_cs,
    );
    let skip_idle = policy.avoid_idle_intermediate && walk_ring;
    let ghost f = from@;
    let ghost t = to@;
    assert(skip_idle == skips_idle(policy, f, t));

    let mut seen: Vec<String> = Vec::new();
    seen.push(from.to_owned());
    let mut fr_nodes: Vec<String> = Vec::new();
    fr_nodes.push(from.to_owned());
    let mut fr_paths: Vec<Vec<String>> = Vec::new();
    fr_paths.push(Vec::new());
    let ghost mut level: int = 0;
    proof {
        assert forall|v: Seq<char>| strs_view(seen@).contains(v) <==> reach_within(es, skip_idle, f, v, 0) by {
            lemma_reach_zero(es, skip_idle, f, v);
            if v == f {
                assert(strs_view(seen@)[0] == v);
            }
        }
        assert forall|v: Seq<char>| strs_view(fr_nodes@).contains(v) <==> (reach_within(es, skip_idle, f, v, 0)
            && !reach_within(es, skip_idle, f, v, -1)) by {
            lemma_reach_zero(es, skip_idle, f, v);
            if v == f {
                assert(strs_view(fr_nodes@)[0] == v);
            }
        }
        lemma_reach_zero(es, skip_idle, f, t);
        assert(is_hop_path(es, skip_idle, f, strs_view(fr_paths@[0]@)));
        assert(strs_view(seen@) =~= seq![f]);
        assert(strs_view(fr_paths@[0]@) =~= Seq::<Seq<char>>::empty());
        assert(entries_view(fr_nodes@, fr_paths@) =~= seq![(f, Seq::<Seq<char>>::empty())]);
    }
    loop
        invariant
            es == edges_view(edges@),
            f == from@,
            t == to@,
            f != t,
            skip_idle == skips_idle(policy, f, t),
            level >= 0,
            bfs_level(es, skip_idle, f, level as nat) == (strs_view(seen@), entries_view(fr_nodes@, fr_paths@)),
            forall|v: Seq<char>|
                #[trigger] strs_view(seen@).contains(v) <==> reach_within(es, skip_idle, f, v, level),
            strs_view(seen@).no_duplicates(),
            forall|x: Seq<char>|
                strs_view(seen@).contains(x) ==> x == f || exists|k: int|
                    0 <= k < es.len() && #[trigger] es[k].1 == x,
            fr_nodes.len() == fr_paths.len(),
            fr_nodes.len() > 0,
            forall|j: int|
                0 <= j < fr_paths.len() ==> is_hop_path(
                    es,
                    skip_idle,
                    f,
                    strs_view(#[trigger] fr_paths@[j]@),
                ) && strs_view(fr_paths@[j]@).len() == level && path_end(
                    f,
                    strs_view(fr_paths@[j]@),
                ) == fr_nodes@[j]@,
            forall|v: Seq<char>|
                #[trigger] strs_view(fr_nodes@).contains(v) <==> (reach_within(
                    es,
                    skip_idle,
                    f,
                    v,
                    level,
                ) && !reach_within(es, skip_idle, f, v, level - 1)),
            !reach_within(es, skip_idle, f, t, level),
        decreases edges.len() + 1 - seen.len(),
    {
        proof {
            lemma_seen_bound(strs_view(seen@), es, f);
        }
        let ghost seen0 = strs_view(seen@);
        let ghost frs = strs_view(fr_nodes@);
        let mut nx_nodes: Vec<String> = Vec::new();
        let mut nx_paths: Vec<Vec<String>> = Vec::new();
        let ghost fre = entries_view(fr_nodes@, fr_paths@);
        let ghost goal = bfs_level(es, skip_idle, f, (level + 1) as nat);
        proof {
            assert(entries_view(nx_nodes@, nx_paths@) =~= Seq::<(Seq<char>, Seq<Seq<char>>)>::empty());
        }
        let mut j: usize = 0;
        while j < fr_nodes.len()
            invariant
                fre == entries_view(fr_nodes@, fr_paths@),
                goal == bfs_level(es, skip_idle, f, (level + 1) as nat),
                goal == bfs_scan(es, skip_idle, fre, j as int, 0, strs_view(seen@), entries_view(nx_nodes@, nx_paths@)),
                es == edges_view(edges@),
                f == from@,
                t == to@,
                f != t,
                level >= 0,
                skip_idle == skips_idle(policy, f, t),
                frs == strs_view(fr_nodes@),
                fr_nodes.len() == fr_paths.len(),
                j <= fr_nodes.len(),
                forall|jj: int|
                    0 <= jj < fr_paths.len() ==> is_hop_path(
                        es,
                        skip_idle,
                        f,
                        strs_view(#[trigger] fr_paths@[jj]@),
                    ) && strs_view(fr_paths@[jj]@).len() == level && path_end(
                        f,
                        strs_view(fr_paths@[jj]@),
                    ) == fr_nodes@[jj]@,
                forall|v: Seq<char>|
                    #[trigger] strs_view(seen@).contains(v) <==> (reach_within(
                        es,
                        skip_idle,
                        f,
                        v,
                        level,
                    ) || exists|jj: int| 0 <= jj < j && #[trigger] adjacent(es, skip_idle, frs[jj], v)),
                strs_view(seen@).no_duplicates(),
                seen@.len() == seen0.len() + nx_nodes.len(),
                forall|x: Seq<char>|
                    strs_view(seen@).contains(x) ==> x == f || exists|k: int|
                        0 <= k < es.len() && #[trigger] es[k].1 == x,
                nx_nodes.len() == nx_paths.len(),
                forall|m: int|
                    0 <= m < nx_paths.len() ==> is_hop_path(
                        es,
                        skip_idle,
                        f,
                        strs_view(#[trigger] nx_paths@[m]@),
                    ) && strs_view(nx_paths@[m]@).len() == level + 1 && path_end(
                        f,
                        strs_view(nx_paths@[m]@),
                    ) == nx_nodes@[m]@,
                forall|v: Seq<char>|
                    #[trigger] strs_view(nx_nodes@).contains(v) <==> (strs_view(seen@).contains(v)
                        && !reach_within(es, skip_idle, f, v, level)),
                !strs_view(seen@).contains(t),
            decreases fr_nodes.len() - j,
        {
            let mut k: usize = 0;
            while k < edges.len()
                invariant
                    fre == entries_view(fr_nodes@, fr_paths@),
                    goal == bfs_level(es, skip_idle, f, (level + 1) as nat),
                    goal == bfs_scan(
                        es,
                        skip_idle,
                        fre,
                        j as int,
                        k as int,
                        strs_view(seen@),
                        entries_view(nx_nodes@, nx_paths@),
                    ),
                    es == edges_view(edges@),
                    f == from@,
                    t == to@,
                    f != t,
                    level >= 0,
                    skip_idle == skips_idle(policy, f, t),
                    frs == strs_view(fr_nodes@),
                    fr_nodes.len() == fr_paths.len(),
                    j < fr_nodes.len(),
                    k <= edges.len(),
                    is_hop_path(es, skip_idle, f, strs_view(fr_paths@[j as int]@)),
                    strs_view(fr_paths@[j as int]@).len() == level,
                    path_end(f, strs_view(fr_paths@[j as int]@)) == fr_nodes@[j as int]@,
                    forall|v: Seq<char>|
                        #[trigger] strs_view(seen@).contains(v) <==> (reach_within(
                            es,
                            skip_idle,
                            f,
                            v,
                            level,
                        ) || (exists|jj: int| 0 <= jj < j && #[trigger] adjacent(es, skip_idle, frs[jj], v))
                            || adj_upto(es, skip_idle, frs[j as int], v, k as int)),
                    strs_view(seen@).no_duplicates(),
                    seen@.len() == seen0.len() + nx_nodes.len(),
                    forall|x: Seq<char>|
                        strs_view(seen@).contains(x) ==> x == f || exists|kk: int|
                            0 <= kk < es.len() && #[trigger] es[kk].1 == x,
                    nx_nodes.len() == nx_paths.len(),
                    forall|m: int|
                        0 <= m < nx_paths.len() ==> is_hop_path(
                            es,
                            skip_idle,
                            f,
                            strs_view(#[trigger] nx_paths@[m]@),
                        ) && strs_view(nx_paths@[m]@).len() == level + 1 && path_end(
                            f,
                            strs_view(nx_paths@[m]@),
                        ) == nx_nodes@[m]@,
                    forall|v: Seq<char>|
                        #[trigger] strs_view(nx_nodes@).contains(v) <==> (strs_view(seen@).contains(v)
                            && !reach_within(es, skip_idle, f, v, level)),
                    !strs_view(seen@).contains(t),
                decreases edges.len() - k,
            {
                let e = &edges[k];
                let ghost old_seen = strs_view(seen@);
                let ghost old_nx = strs_view(nx_nodes@);
                let ghost old_ent = entries_view(nx_nodes@, nx_paths@);
                assert(fre[j as int] == (fr_nodes@[j as int]@, strs_view(fr_paths@[j as int]@)));
                let dropped = skip_idle && (is_idle(&e.from) || is_idle(&e.to));
                assert(es[k as int] == (e.from@, e.to@));
                if !dropped && e.from == fr_nodes[j] && !crate::text::contains_str(&seen, e.to.as_str()) {
                    let ghost base = strs_view(fr_paths@[j as int]@);
                    let mut next_path = clone_strs(&fr_paths[j]);
                    next_path.push(e.to.clone());
                    proof {
                        assert(usable(es, skip_idle, k as int));
                        assert(adjacent(es, skip_idle, frs[j as int], e.to@));
                        assert(strs_view(next_path@) =~= base.push(e.to@));
                        lemma_append(es, skip_idle, f, base, e.to@);
                    }
                    if str_eq(e.to.as_str(), to) {
                        proof {
                            let ent = (e.to@, strs_view(next_path@));
                            lemma_scan_keeps(
                                es,
                                skip_idle,
                                fre,
                                j as int,
                                k + 1,
                                old_seen.push(e.to@),
                                old_ent.push(ent),
                            );
                            assert(old_ent.push(ent)[old_ent.len() as int] == ent);
                            assert(goal.1[old_ent.len() as int] == ent);
                            assert(strs_view(next_path@).len() == level + 1);
                            assert forall|p: Seq<Seq<char>>|
                                is_hop_path(es, skip_idle, f, p) && path_end(f, p) == t implies next_path@.len() <= p.len() by {
                                if p.len() <= level {
                                    lemma_path_reach(es, skip_idle, f, p);
                                    lemma_reach_mono(es, skip_idle, f, t, p.len() as int, level);
                                    assert(strs_view(seen@).contains(t));
                                }
                            }
                        }
                        return Some(next_path);
                    }
                    seen.push(e.to.clone());
                    nx_nodes.push(e.to.clone());
                    nx_paths.push(next_path);
                    proof {
                        assert(strs_view(seen@) =~= old_seen.push(e.to@));
                        assert(strs_view(nx_nodes@) =~= old_nx.push(e.to@));
                        assert(entries_view(nx_nodes@, nx_paths@) =~= old_ent.push((e.to@, base.push(e.to@))));
                        assert(reach_within(es, skip_idle, f, frs[j as int], level)) by {
                            lemma_path_reach(es, skip_idle, f, base);
                        }
                        lemma_reach_append(es, skip_idle, f, frs[j as int], e.to@, level);
                        assert(!reach_within(es, skip_idle, f, e.to@, level));
                        assert forall|v: Seq<char>| #[trigger] strs_view(seen@).contains(v) <==> (reach_within(
                            es,
                            skip_idle,
                            f,
                            v,
                            level,
                        ) || (exists|jj: int| 0 <= jj < j && #[trigger] adjacent(es, skip_idle, frs[jj], v))
                            || adj_upto(es, skip_idle, frs[j as int], v, k + 1)) by {
                            if v == e.to@ {
                                assert(strs_view(seen@).last() == v);
                                assert(es[k as int] == (frs[j as int], v));
                            } else {
                                if adj_upto(es, skip_idle, frs[j as int], v, k + 1) {
                                    let i = choose|i: int| 0 <= i < k + 1 && usable(es, skip_idle, i) && #[trigger] es[i] == (frs[j as int], v);
                                    assert(i != k);
                                }
                                if old_seen.contains(v) {
                                    let i = choose|i: int| 0 <= i < old_seen.len() && old_seen[i] == v;
                                    assert(strs_view(seen@)[i] == v);
                                }
                                if strs_view(seen@).contains(v) {
                                    let i = choose|i: int| 0 <= i < strs_view(seen@).len() && strs_view(seen@)[i] == v;
                                    assert(old_seen[i] == v);
                                }
                            }
                        }
                        assert forall|v: Seq<char>| #[trigger] strs_view(nx_nodes@).contains(v) <==> (strs_view(seen@).contains(v)
                            && !reach_within(es, skip_idle, f, v, level)) by {
                            if v != e.to@ {
                                if old_seen.contains(v) {
                                    let i = choose|i: int| 0 <= i < old_seen.len() && old_seen[i] == v;
                                    assert(strs_view(seen@)[i] == v);
                                }
                                if strs_view(seen@).contains(v) {
                                    let i = choose|i: int| 0 <= i < strs_view(seen@).len() && strs_view(seen@)[i] == v;
                                    assert(old_seen[i] == v);
                                }
                                if old_nx.contains(v) {
                                    let i = choose|i: int| 0 <= i < old_nx.len() && old_nx[i] == v;
                                    assert(strs_view(nx_nodes@)[i] == v);
                                }
                                if strs_view(nx_nodes@).contains(v) {
                                    let i = choose|i: int| 0 <= i < strs_view(nx_nodes@).len() && strs_view(nx_nodes@)[i] == v;
                                    assert(old_nx[i] == v);
                                }
                            } else {
                                assert(strs_view(nx_nodes@).last() == v);
                                assert(strs_view(seen@).last() == v);
                            }
                        }
                        assert forall|x: Seq<char>| strs_view(seen@).contains(x) implies x == f || exists|kk: int|
                            0 <= kk < es.len() && #[trigger] es[kk].1 == x by {
                            if x != e.to@ {
                                let i = choose|i: int| 0 <= i < strs_view(seen@).len() && strs_view(seen@)[i] == x;
                                assert(old_seen[i] == x);
                                assert(old_seen.contains(x));
                            } else {
                                assert(es[k as int].1 == x);
                            }
                        }
                        assert(!strs_view(seen@).contains(t)) by {
                            if strs_view(seen@).contains(t) {
                                let i = choose|i: int| 0 <= i < strs_view(seen@).len() && strs_view(seen@)[i] == t;
                                if i < old_seen.len() {
                                    assert(old_seen[i] == t);
                                }
                            }
                        }
                        assert forall|m: int|
                            0 <= m < nx_paths.len() implies is_hop_path(
                                es,
                                skip_idle,
                                f,
                                strs_view(#[trigger] nx_paths@[m]@),
                            ) && strs_view(nx_paths@[m]@).len() == level + 1 && path_end(
                                f,
                                strs_view(nx_paths@[m]@),
                            ) == nx_nodes@[m]@ by {
                        }
                    }
                } else {
                    proof {
                        assert forall|v: Seq<char>| #[trigger] strs_view(seen@).contains(v) <==> (reach_within(
                            es,
                            skip_idle,
                            f,
                            v,
                            level,
                        ) || (exists|jj: int| 0 <= jj < j && #[trigger] adjacent(es, skip_idle, frs[jj], v))
                            || adj_upto(es, skip_idle, frs[j as int], v, k + 1)) by {
                            if adj_upto(es, skip_idle, frs[j as int], v, k + 1) && !adj_upto(es, skip_idle, frs[j as int], v, k as int) {
                                let i = choose|i: int| 0 <= i < k + 1 && usable(es, skip_idle, i) && #[trigger] es[i] == (frs[j as int], v);
                                assert(i == k);
                                assert(strs_view(seen@).contains(v));
                            }
                        }
                    }
                }
                k = k + 1;
            }
            j = j + 1;
            proof {
                assert forall|v: Seq<char>| #[trigger] strs_view(seen@).contains(v) <==> (reach_within(
                    es,
                    skip_idle,
                    f,
                    v,
                    level,
                ) || exists|jj: int| 0 <= jj < j && #[trigger] adjacent(es, skip_idle, frs[jj], v)) by {
                    if adjacent(es, skip_idle, frs[j - 1], v) {
                        assert(adj_upto(es, skip_idle, frs[j - 1], v, edges.len() as int));
                    }
                }
            }
        }
        assert(goal == (strs_view(seen@), entries_view(nx_nodes@, nx_paths@)));
        // Every state within `level + 1` hops is now seen.
        proof {
            assert forall|v: Seq<char>| #[trigger] strs_view(seen@).contains(v) <==> reach_within(
                es,
                skip_idle,
                f,
                v,
                level + 1,
            ) by {
                if strs_view(seen@).contains(v) {
                    if reach_within(es, skip_idle, f, v, level) {
                        lemma_reach_mono(es, skip_idle, f, v, level, level + 1);
                    } else {
                        let jj = choose|jj: int| 0 <= jj < fr_nodes.len() && #[trigger] adjacent(es, skip_idle, frs[jj], v);
                        assert(frs[jj] == fr_nodes@[jj]@);
                        lemma_path_reach(es, skip_idle, f, strs_view(fr_paths@[jj]@));
                        lemma_reach_append(es, skip_idle, f, frs[jj], v, level);
                    }
                }
                if reach_within(es, skip_idle, f, v, level + 1) {
                    lemma_reach_step(es, skip_idle, f, v, level);
                    if !reach_within(es, skip_idle, f, v, level) {
                        let u = choose|u: Seq<char>| reach_within(es, skip_idle, f, u, level) && #[trigger] adjacent(es, skip_idle, u, v);
                        if level >= 1 && reach_within(es, skip_idle, f, u, level - 1) {
                            lemma_reach_append(es, skip_idle, f, u, v, level - 1);
                        } else {
                            if level == 0 {
                                lemma_reach_zero(es, skip_idle, f, u);
                            }
                            assert(frs.contains(u));
                            let jj = choose|jj: int| 0 <= jj < frs.len() && frs[jj] == u;
                            assert(adjacent(es, skip_idle, frs[jj], v));
                        }
                    }
                }
            }
        }
        if nx_nodes.len() == 0 {
            proof {
                assert forall|w: Seq<char>| #[trigger] reach_within(es, skip_idle, f, w, level + 1)
                    implies reach_within(es, skip_idle, f, w, level) by {
                    assert(strs_view(seen@).contains(w));
                    if !reach_within(es, skip_idle, f, w, level) {
                        assert(strs_view(nx_nodes@).contains(w));
                    }
                }
                assert forall|p: Seq<Seq<char>>| is_hop_path(es, skip_idle, f, p) implies path_end(f, p) != t by {
                    lemma_path_reach(es, skip_idle, f, p);
                    if p.len() >= level {
                        lemma_closed(es, skip_idle, f, level, path_end(f, p), p.len() as int);
                    } else {
                        lemma_reach_mono(es, skip_idle, f, path_end(f, p), p.len() as int, level);
                    }
                }
            }
            return None;
        }
        proof {
            assert(seen@.len() > seen0.len());
            assert(!reach_within(es, skip_idle, f, t, level + 1));
            lemma_seen_bound(strs_view(seen@), es, f);
        }
        fr_nodes = nx_nodes;
        fr_paths = nx_paths;
        proof {
            level = level + 1;
        }
    }
}

/// The landings of the arc from `from` to `to` (empty when there is none).
pub open spec fn arc_landings(ring: RingDefinition, from: Seq<char>, to: Seq<char>) -> Seq<Seq<char>> {
    match ring_arc_spec(ring, from, to) {
        Some((_, ls)) => ls,
        None => Seq::empty(),
    }
}

/// The arc's last landing is the requested target, and an arc is never
/// empty.
pub proof fn lemma_ring_arc_ends_at_target(ring: RingDefinition, from: Seq<char>, to: Seq<char>)
    requires
        ring_arc_spec(ring, from, to) is Some,
    ensures
        arc_landings(ring, from, to).len() >= 1,
        arc_landings(ring, from, to).last() == to,
{
    let ss = strs_view(ring.states@);
    let len = ss.len() as int;
    let fi = first_pos(ss, from)->0;
    let ti = first_pos(ss, to)->0;
    lemma_first_pos_from(ss, from, 0);
    lemma_first_pos_from(ss, to, 0);
    let f = fwd_dist(fi, ti, len, ring.cyclic);
    let b = fwd_dist(ti, fi, len, ring.cyclic);
    let dir = arc_direction(f, b, ring.tie_break);
    let d = if dir == TieBreak::Forward { f } else { b };
    let off: int = if dir == TieBreak::Forward { 1 } else { -1 };
    assert(ring.states.len() == ring.states@.len());
    assert(0 <= fi < len && 0 <= ti < len);
    assert(fi != ti);
    assert(f >= 1 && b >= 1);
    assert(!(f == usize::MAX as int && b == usize::MAX as int));
    assert(d >= 1 && d < usize::MAX as int);
    let last = fi + d * off;
    assert(last == ti || last == ti + len || last == ti - len) by (nonlinear_arith)
        requires
            last == fi + d * off,
            off == 1 || off == -1,
            d == f || d == b,
            off == 1 ==> d == f,
            off == -1 ==> d == b,
            f == fwd_dist(fi, ti, len, ring.cyclic),
            b == fwd_dist(ti, fi, len, ring.cyclic),
            d < usize::MAX as int,
    ;
    if last == ti + len {
        vstd::arithmetic::div_mod::lemma_fundamental_div_mod_converse(last, len, 1, ti);
    } else if last == ti - len {
        vstd::arithmetic::div_mod::lemma_fundamental_div_mod_converse(last, len, -1, ti);
    } else {
        vstd::arithmetic::div_mod::lemma_fundamental_div_mod_converse(last, len, 0, ti);
    }
    assert((fi + ((d - 1) + 1) * off) % len == ti);
}

} // verus!
