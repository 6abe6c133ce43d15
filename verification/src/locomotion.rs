//! Locomotion vocabulary: player verbs, meta actions, the eight-way walk
//! ring, walk-state resolution and when the plant must wait for the visual to settle.

use vstd::prelude::*;
use crate::text::{chars_eq, chars_of, contains_spec, starts_with_spec, strs_view, trim_spec, upper_seq};

verus! {

// ── Meta actions ─────────────────────────────────────────────────────────

/// Character meta actions the animation layer knows how to play.
#[derive(Clone, Copy, Debug, PartialEq, Eq, Hash, Structural)]
pub enum MetaAction {
    /// Standing still.
    Idle,
    /// Walking.
    Walk,
    /// Sitting down.
    Sit,
    /// Standing up.
    Stand,
    /// Looking at something.
    Examine,
    /// Picking something up.
    PickUp,
    /// Putting something down.
    PutDown,
    /// Using something.
    Use,
    /// Happy reaction.
    ReactHappy,
    /// Surprised reaction.
    ReactSurprised,
    /// Talking.
    Talk,
}

/// Wire token of a meta action.
pub open spec fn meta_token_spec(a: MetaAction) -> Seq<char> {
    match a {
        MetaAction::Idle => "idle"@,
        MetaAction::Walk => "walk"@,
        MetaAction::Sit => "sit"@,
        MetaAction::Stand => "stand"@,
        MetaAction::Examine => "examine"@,
        MetaAction::PickUp => "pick_up"@,
        MetaAction::PutDown => "put_down"@,
        MetaAction::Use => "use"@,
        MetaAction::ReactHappy => "react_happy"@,
        MetaAction::ReactSurprised => "react_surprised"@,
        MetaAction::Talk => "talk"@,
    }
}

/// Wire token of a meta action (`pick_up`, `react_happy`, …).
pub fn meta_action_token(action: MetaAction) -> (r: &'static str)
    ensures
        r@ == meta_token_spec(action),
{
    match action {
        MetaAction::Idle => "idle",
        MetaAction::Walk => "walk",
        MetaAction::Sit => "sit",
        MetaAction::Stand => "stand",
        MetaAction::Examine => "examine",
        MetaAction::PickUp => "pick_up",
        MetaAction::PutDown => "put_down",
        MetaAction::Use => "use",
        MetaAction::ReactHappy => "react_happy",
        MetaAction::ReactSurprised => "react_surprised",
        MetaAction::Talk => "talk",
    }
}

// ── Verbs ────────────────────────────────────────────────────────────────

/// Player verbs.
#[derive(Clone, Copy, Debug, PartialEq, Eq, Hash, Structural)]
pub enum Verb {
    /// Look at.
    Look,
    /// Use / pick up.
    Use,
    /// Talk to.
    TalkTo,
}

/// Display label of a verb.
pub open spec fn verb_label_spec(v: Verb) -> Seq<char> {
    match v {
        Verb::Look => "Look"@,
        Verb::Use => "Use"@,
        Verb::TalkTo => "Talk-to"@,
    }
}

impl Verb {
    /// Display label (`Look`, `Use`, `Talk-to`).
    pub fn label(self) -> (r: &'static str)
        ensures
            r@ == verb_label_spec(self),
    {
        match self {
            Verb::Look => "Look",
            Verb::Use => "Use",
            Verb::TalkTo => "Talk-to",
        }
    }

    /// Meta action a verb plays: Look examines, Talk-to talks, Use picks
    /// up when the target can be picked up and uses it otherwise.
    pub fn meta_action_for(self, can_pick_up: bool) -> (r: MetaAction)
        ensures
            r == match self {
                Verb::Look => MetaAction::Examine,
                Verb::TalkTo => MetaAction::Talk,
                Verb::Use => if can_pick_up {
                    MetaAction::PickUp
                } else {
                    MetaAction::Use
                },
            },
    {
        match self {
            Verb::Look => MetaAction::Examine,
            Verb::TalkTo => MetaAction::Talk,
            Verb::Use => {
                if can_pick_up {
                    MetaAction::PickUp
                } else {
                    MetaAction::Use
                }
            },
        }
    }
}

// ── Walk ring ────────────────────────────────────────────────────────────

/// The eight walk-ring keys, clockwise from north (screen Y-down).
pub open spec fn ring_keys() -> Seq<Seq<char>> {
    seq![
        "north"@,
        "northeast"@,
        "east"@,
        "southeast"@,
        "south"@,
        "southwest"@,
        "west"@,
        "northwest"@,
    ]
}

/// The eight walk-ring keys, clockwise from north (screen Y-down).
pub fn walk_ring_keys() -> (r: [&'static str; 8])
    ensures
        forall|i: int| 0 <= i < 8 ==> #[trigger] r@[i]@ == ring_keys()[i],
{
    ["north", "northeast", "east", "southeast", "south", "southwest", "west", "northwest"]
}

/// Walk key of a compass letter (after trimming and ASCII uppercasing);
/// unknown letters face south.
pub open spec fn letter_key_spec(s: Seq<char>) -> Seq<char> {
    if s == "E"@ {
        "east"@
    } else if s == "NE"@ {
        "northeast"@
    } else if s == "N"@ {
        "north"@
    } else if s == "NW"@ {
        "northwest"@
    } else if s == "W"@ {
        "west"@
    } else if s == "SW"@ {
        "southwest"@
    } else if s == "S"@ {
        "south"@
    } else if s == "SE"@ {
        "southeast"@
    } else {
        "south"@
    }
}

/// Compass letter (`E`/`SE`/…) → walk key (`east`/`southeast`/…).
pub fn compass_letter_to_walk_key(letter: &str) -> (r: &'static str)
    ensures
        r@ == letter_key_spec(upper_seq(trim_spec(letter@))),
{
    let cs = chars_of(letter);
    let t = crate::text::trim_chars(cs.as_slice());
    let u = crate::text::upper_chars(t.as_slice());
    let u = u.as_slice();
    if chars_eq(u, chars_of("E").as_slice()) {
        "east"
    } else if chars_eq(u, chars_of("NE").as_slice()) {
        "northeast"
    } else if chars_eq(u, chars_of("N").as_slice()) {
        "north"
    } else if chars_eq(u, chars_of("NW").as_slice()) {
        "northwest"
    } else if chars_eq(u, chars_of("W").as_slice()) {
        "west"
    } else if chars_eq(u, chars_of("SW").as_slice()) {
        "southwest"
    } else if chars_eq(u, chars_of("S").as_slice()) {
        "south"
    } else if chars_eq(u, chars_of("SE").as_slice()) {
        "southeast"
    } else {
        "south"
    }
}

/// A state id without its optional `walk_` prefix.
pub open spec fn ring_key_spec(s: Seq<char>) -> Seq<char> {
    if starts_with_spec(s, "walk_"@) {
        s.subrange(5, s.len() as int)
    } else {
        s
    }
}

/// Strip an optional `walk_` prefix so `walk_southeast` and `southeast` match.
pub fn walk_ring_key(state: &str) -> (r: String)
    ensures
        r@ == ring_key_spec(state@),
{
    let cs = chars_of(state);
    let p = chars_of("walk_");
    proof {
        reveal_strlit("walk_");
    }
    if crate::text::starts_with(cs.as_slice(), p.as_slice()) {
        crate::text::string_from_range(cs.as_slice(), 5, cs.len())
    } else {
        state.to_string()
    }
}

/// Position of `k` among the ring keys.
pub open spec fn ring_index_spec(s: Seq<char>) -> Option<int> {
    crate::text::first_pos(ring_keys(), ring_key_spec(s))
}

/// Index of a walk-ring key (with or without `walk_`), or `None` when the
/// state is not on the eight-way ring.
pub fn walk_ring_index(state: &str) -> (r: Option<usize>)
    ensures
        match r {
            Some(i) => ring_index_spec(state@) == Some(i as int),
            None => ring_index_spec(state@) is None,
        },
{
    let key = walk_ring_key(state);
    let keys = walk_ring_keys();
    let mut i: usize = 0;
    let ghost k = ring_key_spec(state@);
    while i < 8
        invariant
            i <= 8,
            key@ == k,
            k == ring_key_spec(state@),
            forall|j: int| 0 <= j < 8 ==> #[trigger] keys@[j]@ == ring_keys()[j],
            crate::text::first_pos(ring_keys(), k) == crate::text::first_pos_from(ring_keys(), k, i as int),
        decreases 8 - i,
    {
        if crate::text::str_eq(key.as_str(), keys[i]) {
            assert(ring_keys()[i as int] == k);
            return Some(i);
        }
        i = i + 1;
    }
    None
}

/// Ring distance between two indices on the eight-way ring.
pub open spec fn ring_dist(a: int, b: int) -> int {
    let cw = (b + 8 - a) % 8;
    let ccw = (a + 8 - b) % 8;
    if cw <= ccw {
        cw
    } else {
        ccw
    }
}

/// Minimum ring hops between two states (0 = same). States off the ring
/// count 0 when equal and 1 otherwise.
pub open spec fn ring_hops_spec(from: Option<Seq<char>>, to: Seq<char>) -> int {
    let a = match from {
        Some(f) => ring_index_spec(f),
        None => None,
    };
    let b = ring_index_spec(to);
    if a is Some && b is Some {
        ring_dist(a->0, b->0)
    } else if from == Some(to) {
        0
    } else {
        1
    }
}

/// Min hops on the 8-dir walk ring between two `walk_*` states.
pub fn walk_ring_hops(from_state: Option<&str>, to_state: &str) -> (r: u32)
    ensures
        r == ring_hops_spec(
            match from_state {
                Some(f) => Some(f@),
                None => None,
            },
            to_state@,
        ),
        r <= 4,
{
    let a = match from_state {
        Some(f) => walk_ring_index(f),
        None => None,
    };
    let b = walk_ring_index(to_state);
    proof {
        if a is Some {
            crate::text::lemma_first_pos_bound(ring_keys(), ring_key_spec(from_state->0@), 0);
        }
        if b is Some {
            crate::text::lemma_first_pos_bound(ring_keys(), ring_key_spec(to_state@), 0);
        }
    }
    match (a, b) {
        (Some(ai), Some(bi)) => {
            if ai == bi {
                return 0;
            }
            let cw = (bi + 8 - ai) % 8;
            let ccw = (ai + 8 - bi) % 8;
            if cw <= ccw {
                cw as u32
            } else {
                ccw as u32
            }
        },
        _ => {
            let same = match from_state {
                Some(f) => crate::text::str_eq(f, to_state),
                None => false,
            };
            if same {
                0
            } else {
                1
            }
        },
    }
}

/// Ring hops are symmetric: from `a` to `b` takes as many hops as from
/// `b` to `a`, and never more than half the ring.
pub proof fn lemma_ring_hops_symmetric(a: Seq<char>, b: Seq<char>)
    ensures
        ring_hops_spec(Some(a), b) == ring_hops_spec(Some(b), a),
        0 <= ring_hops_spec(Some(a), b) <= 4,
{
    let ia = ring_index_spec(a);
    let ib = ring_index_spec(b);
    crate::text::lemma_first_pos_bound(ring_keys(), ring_key_spec(a), 0);
    crate::text::lemma_first_pos_bound(ring_keys(), ring_key_spec(b), 0);
    if ia is Some && ib is Some {
        let x = ia->0;
        let y = ib->0;
        assert(0 <= x < 8 && 0 <= y < 8);
        assert(ring_dist(x, y) == ring_dist(y, x));
        assert(ring_dist(x, y) <= 4);
    }
}

/// Whether the visual is idle, an intro, or unset (soft settle allowed).
pub open spec fn from_idle_spec(v: Option<Seq<char>>) -> bool {
    match v {
        None => true,
        Some(s) => {
            let t = trim_spec(s);
            t.len() == 0 || t == "idle"@ || t == "intro"@
        },
    }
}

/// True when the visual is idle / unset (soft-settle path allowed).
pub fn is_from_idle(from_visual: Option<&str>) -> (r: bool)
    ensures
        r == from_idle_spec(
            match from_visual {
                Some(s) => Some(s@),
                None => None,
            },
        ),
{
    match from_visual {
        None => true,
        Some(s) => {
            let cs = chars_of(s);
            let t = crate::text::trim_chars(cs.as_slice());
            t.len() == 0 || chars_eq(t.as_slice(), chars_of("idle").as_slice()) || chars_eq(
                t.as_slice(),
                chars_of("intro").as_slice(),
            )
        },
    }
}

/// Hard settle is required for multi-hop facing changes that do not start
/// from idle: `hops >= 2 && !from_idle`.
pub fn require_visual_settle(from_visual: Option<&str>, to_state: &str) -> (r: bool)
    ensures
        r == (ring_hops_spec(
            match from_visual {
                Some(s) => Some(s@),
                None => None,
            },
            to_state@,
        ) >= 2 && !from_idle_spec(
            match from_visual {
                Some(s) => Some(s@),
                None => None,
            },
        )),
{
    let hops = walk_ring_hops(from_visual, to_state);
    hops >= 2 && !is_from_idle(from_visual)
}

/// Soft settle timeout (ms) used when not hard-settling.
pub const SOFT_SETTLE_MS: u32 = 280;

/// Soft / first-entry settle wait budget (ms).
pub const SOFT_SETTLE_TIMEOUT_MS: u32 = 6000;

/// Hard-settle wait budget: `4000 + hops * 1200` ms.
pub fn hard_settle_timeout_ms(hops: u32) -> (r: u32)
    requires
        4000 + hops * 1200 <= u32::MAX,
    ensures
        r == 4000 + hops * 1200,
{
    4000 + hops * 1200
}

// ── Walk state resolution ────────────────────────────────────────────────

/// Candidate `(state, mirror)` pairs for a walk compass key, best first:
/// the true direction, then (east / west only) the mirrored opposite, then
/// the diagonal's components, then plain `walk`.
pub open spec fn candidates_spec(compass: Seq<char>) -> Seq<(Seq<char>, bool)> {
    if compass == "east"@ {
        seq![("walk_east"@, false), ("walk_west"@, true), ("walk"@, false)]
    } else if compass == "west"@ {
        seq![("walk_west"@, false), ("walk_east"@, true), ("walk"@, false)]
    } else if compass == "north"@ {
        seq![("walk_north"@, false), ("walk"@, false)]
    } else if compass == "south"@ {
        seq![("walk_south"@, false), ("walk"@, false)]
    } else if compass == "northeast"@ {
        seq![("walk_northeast"@, false), ("walk_east"@, false), ("walk_north"@, false), ("walk"@, false)]
    } else if compass == "northwest"@ {
        seq![("walk_northwest"@, false), ("walk_west"@, false), ("walk_north"@, false), ("walk"@, false)]
    } else if compass == "southeast"@ {
        seq![("walk_southeast"@, false), ("walk_east"@, false), ("walk_south"@, false), ("walk"@, false)]
    } else if compass == "southwest"@ {
        seq![("walk_southwest"@, false), ("walk_west"@, false), ("walk_south"@, false), ("walk"@, false)]
    } else {
        Seq::empty()
    }
}

/// View of a candidate list.
pub open spec fn cands_view(v: Seq<(&'static str, bool)>) -> Seq<(Seq<char>, bool)> {
    v.map_values(|p: (&'static str, bool)| (p.0@, p.1))
}

/// Candidate `(state, mirror)` pairs for a walk compass key.
pub fn aval_walk_candidates(compass: &str) -> (r: Vec<(&'static str, bool)>)
    ensures
        cands_view(r@) == candidates_spec(compass@),
{
    let c = compass;
    let r: Vec<(&'static str, bool)> = if crate::text::str_eq(c, "east") {
        vec![("walk_east", false), ("walk_west", true), ("walk", false)]
    } else if crate::text::str_eq(c, "west") {
        vec![("walk_west", false), ("walk_east", true), ("walk", false)]
    } else if crate::text::str_eq(c, "north") {
        vec![("walk_north", false), ("walk", false)]
    } else if crate::text::str_eq(c, "south") {
        vec![("walk_south", false), ("walk", false)]
    } else if crate::text::str_eq(c, "northeast") {
        vec![("walk_northeast", false), ("walk_east", false), ("walk_north", false), ("walk", false)]
    } else if crate::text::str_eq(c, "northwest") {
        vec![("walk_northwest", false), ("walk_west", false), ("walk_north", false), ("walk", false)]
    } else if crate::text::str_eq(c, "southeast") {
        vec![("walk_southeast", false), ("walk_east", false), ("walk_south", false), ("walk", false)]
    } else if crate::text::str_eq(c, "southwest") {
        vec![("walk_southwest", false), ("walk_west", false), ("walk_south", false), ("walk", false)]
    } else {
        Vec::new()
    };
    assert(cands_view(r@) =~= candidates_spec(compass@));
    r
}

/// Resolved walk clip for a heading.
#[derive(Clone, Debug, PartialEq, Eq)]
pub struct AvalWalkResolve {
    /// Chosen state id (e.g. `walk_east`).
    pub state: String,
    /// Whether the host should billboard-flip (east-only packs).
    pub mirror: bool,
    /// Walk compass key (`east`, `northwest`, …).
    pub compass: String,
    /// Compass letter (`E`, `NW`, …).
    pub letter: String,
}

/// Horizontal facing of a walk clip: east-facing `1`, west-facing `-1`,
/// otherwise `0`.
pub open spec fn clip_facing_x(state: Seq<char>) -> int {
    if state == "walk_east"@ || state == "walk_northeast"@ || state == "walk_southeast"@ {
        1
    } else if state == "walk_west"@ || state == "walk_northwest"@ || state == "walk_southwest"@ {
        -1
    } else {
        0
    }
}

/// Horizontal part of a walk compass key: eastward `1`, westward `-1`,
/// otherwise `0`.
pub open spec fn heading_x(compass: Seq<char>) -> int {
    if compass == "east"@ || compass == "northeast"@ || compass == "southeast"@ {
        1
    } else if compass == "west"@ || compass == "northwest"@ || compass == "southwest"@ {
        -1
    } else {
        0
    }
}

/// Every walk candidate for a compass key is flipped exactly when its clip
/// faces away from the key's horizontal direction (an east clip standing in
/// for a westward walk, or the reverse).
pub proof fn lemma_candidate_mirror_faces_heading(compass: Seq<char>)
    ensures
        forall|k: int|
            0 <= k < candidates_spec(compass).len() ==> (#[trigger] candidates_spec(compass)[k]).1 == (
            clip_facing_x(candidates_spec(compass)[k].0) * heading_x(compass) < 0),
{
    reveal_strlit("walk_east");
    reveal_strlit("walk_west");
    reveal_strlit("walk_north");
    reveal_strlit("walk_south");
    reveal_strlit("walk_northeast");
    reveal_strlit("walk_northwest");
    reveal_strlit("walk_southeast");
    reveal_strlit("walk_southwest");
    reveal_strlit("walk");
    reveal_strlit("east");
    reveal_strlit("west");
    reveal_strlit("north");
    reveal_strlit("south");
    reveal_strlit("northeast");
    reveal_strlit("northwest");
    reveal_strlit("southeast");
    reveal_strlit("southwest");
    assert("east"@.len() == 4 && "west"@.len() == 4 && "north"@.len() == 5 && "south"@.len() == 5);
    assert("northeast"@.len() == 9 && "northwest"@.len() == 9 && "southeast"@.len() == 9 && "southwest"@.len()
        == 9);
    assert("walk"@.len() == 4 && "walk_east"@.len() == 9 && "walk_west"@.len() == 9 && "walk_north"@.len() == 10
        && "walk_south"@.len() == 10);
    assert("walk_northeast"@.len() == 14 && "walk_northwest"@.len() == 14 && "walk_southeast"@.len() == 14
        && "walk_southwest"@.len() == 14);
    assert("east"@[0] == 'e' && "west"@[0] == 'w');
    assert("north"@[0] == 'n' && "south"@[0] == 's');
    assert("northeast"@[0] == 'n' && "northwest"@[0] == 'n' && "southeast"@[0] == 's' && "southwest"@[0] == 's');
    assert("northeast"@[5] == 'e' && "northwest"@[5] == 'w' && "southeast"@[5] == 'e' && "southwest"@[5] == 'w');
    assert("walk_east"@[5] == 'e' && "walk_west"@[5] == 'w');
    assert("walk_north"@[5] == 'n' && "walk_south"@[5] == 's');
    assert("walk_northeast"@[5] == 'n' && "walk_northwest"@[5] == 'n' && "walk_southeast"@[5] == 's'
        && "walk_southwest"@[5] == 's');
    assert("walk_northeast"@[10] == 'e' && "walk_northwest"@[10] == 'w' && "walk_southeast"@[10] == 'e'
        && "walk_southwest"@[10] == 'w');
    let c = candidates_spec(compass);
    assert forall|k: int| 0 <= k < c.len() implies (#[trigger] c[k]).1 == (clip_facing_x(c[k].0) * heading_x(
        compass,
    ) < 0) by {
        if compass == "east"@ {
            assert(heading_x(compass) == 1);
        } else if compass == "west"@ {
            assert(heading_x(compass) == -1);
        } else if compass == "north"@ {
            assert(heading_x(compass) == 0);
        } else if compass == "south"@ {
            assert(heading_x(compass) == 0);
        } else if compass == "northeast"@ {
            assert(heading_x(compass) == 1);
        } else if compass == "northwest"@ {
            assert(heading_x(compass) == -1);
        } else if compass == "southeast"@ {
            assert(heading_x(compass) == 1);
        } else if compass == "southwest"@ {
            assert(heading_x(compass) == -1);
        }
    }
}

/// The clip picked for a heading is flipped exactly when it faces away
/// from the heading's horizontal direction.
pub proof fn lemma_resolved_mirror_faces_heading(compass: Seq<char>, avail: Seq<Seq<char>>)
    ensures
        first_available(candidates_spec(compass), avail, 0) matches Some(i) ==> candidates_spec(compass)[i].1 == (
        clip_facing_x(candidates_spec(compass)[i].0) * heading_x(compass) < 0),
{
    lemma_candidate_mirror_faces_heading(compass);
    lemma_first_available(candidates_spec(compass), avail, 0);
}

proof fn lemma_first_available(cands: Seq<(Seq<char>, bool)>, avail: Seq<Seq<char>>, i: int)
    requires
        0 <= i,
    ensures
        first_available(cands, avail, i) matches Some(p) ==> i <= p < cands.len() && avail.contains(cands[p].0),
    decreases cands.len() - i,
{
    if i < cands.len() && !avail.contains(cands[i].0) {
        lemma_first_available(cands, avail, i + 1);
    }
}

/// Index of the first candidate whose state is available.
pub open spec fn first_available(cands: Seq<(Seq<char>, bool)>, avail: Seq<Seq<char>>, i: int) -> Option<int>
    decreases cands.len() - i,
{
    if i < 0 || i >= cands.len() {
        None
    } else if avail.contains(cands[i].0) {
        Some(i)
    } else {
        first_available(cands, avail, i + 1)
    }
}

/// Resolve the walk state for a compass letter (`E`, `NW`, …): the first
/// candidate of its walk key that `available` holds, or `None`.
pub fn resolve_aval_walk_for_letter(letter: &str, available: &Vec<String>) -> (r: Option<AvalWalkResolve>)
    ensures
        ({
            let compass = letter_key_spec(upper_seq(trim_spec(letter@)));
            let cands = candidates_spec(compass);
            match first_available(cands, strs_view(available@), 0) {
                Some(i) => r matches Some(w) && w.state@ == cands[i].0 && w.mirror == cands[i].1
                    && w.compass@ == compass && w.letter@ == letter@,
                None => r is None,
            }
        }),
{
    let compass = compass_letter_to_walk_key(letter);
    let cands = aval_walk_candidates(compass);
    let ghost cv = cands_view(cands@);
    let mut i: usize = 0;
    while i < cands.len()
        invariant
            i <= cands@.len(),
            cv == cands_view(cands@),
            compass@ == letter_key_spec(upper_seq(trim_spec(letter@))),
            cv == candidates_spec(letter_key_spec(upper_seq(trim_spec(letter@)))),
            cv.len() == cands@.len(),
            first_available(cv, strs_view(available@), 0) == first_available(cv, strs_view(available@), i as int),
        decreases cands.len() - i,
    {
        let (cand, mirror) = cands[i];
        assert(cv[i as int] == (cand@, mirror));
        if crate::text::contains_str(available, cand) {
            assert(strs_view(available@).contains(cv[i as int].0));
            return Some(
                AvalWalkResolve {
                    state: cand.to_string(),
                    mirror,
                    compass: compass.to_string(),
                    letter: letter.to_string(),
                },
            );
        }
        i = i + 1;
    }
    None
}

// ── Walk graph vocabulary ────────────────────────────────────────────────

/// Kind of walk-graph node.
#[derive(Clone, Copy, Debug, PartialEq, Eq, Structural)]
pub enum WalkNodeKind {
    /// Free-floor grid / manual anchor.
    Floor,
    /// Approach pad in front of a prop.
    Approach,
}

/// `str::to_lowercase` of a string: its Unicode lowercase mapping.
pub uninterp spec fn unicode_lowercase(s: Seq<char>) -> Seq<char>;

/// `str::to_lowercase`: the full Unicode lowercase mapping of `s`.
#[verifier::external_body]
fn to_lowercase(s: &str) -> (r: String)
    ensures
        r@ == unicode_lowercase(s@),
{
    s.to_lowercase()
}

/// Whether `l` contains any of `words`.
pub open spec fn contains_any(l: Seq<char>, words: Seq<Seq<char>>) -> bool {
    exists|i: int| 0 <= i < words.len() && contains_spec(l, #[trigger] words[i])
}

/// Labels of props that are not on the floor (walls, shelves, cushions).
pub open spec fn non_floor_words() -> Seq<Seq<char>> {
    seq!["window"@, "picture"@, "frame"@, "hanging"@, "shelf"@, "bookshelf"@, "monitor"@, "cushion"@]
}

/// Labels of floor props that block walking.
pub open spec fn blocking_words() -> Seq<Seq<char>> {
    seq!["sofa"@, "couch"@, "desk"@, "table"@, "armchair"@, "chair"@, "rug"@]
}

/// Whether lowercase `l` contains some word of `words`.
fn contains_any_of(l: &str, words: &[&str]) -> (r: bool)
    ensures
        r == exists|i: int| 0 <= i < words@.len() && contains_spec(l@, #[trigger] words@[i]@),
{
    let lc = chars_of(l);
    let mut i: usize = 0;
    while i < words.len()
        invariant
            i <= words@.len(),
            lc@ == l@,
            forall|j: int| 0 <= j < i ==> !contains_spec(l@, #[trigger] words@[j]@),
        decreases words.len() - i,
    {
        let w = chars_of(words[i]);
        if crate::text::contains(lc.as_slice(), w.as_slice()) {
            return true;
        }
        i = i + 1;
    }
    false
}

/// Whether a prop label names something off the floor (window, picture,
/// frame, hanging, shelf, bookshelf, monitor, cushion), case-insensitively.
pub fn is_non_floor_prop(label: &str) -> (r: bool)
    ensures
        r == contains_any(unicode_lowercase(label@), non_floor_words()),
{
    let l = to_lowercase(label);
    let words: [&str; 8] = ["window", "picture", "frame", "hanging", "shelf", "bookshelf", "monitor", "cushion"];
    assert(words@.map_values(|w: &str| w@) =~= non_floor_words());
    let r = contains_any_of(l.as_str(), &words);
    proof {
        if r {
            let i = choose|i: int| 0 <= i < words@.len() && contains_spec(l@, #[trigger] words@[i]@);
            assert(non_floor_words()[i] == words@[i]@);
        } else {
            assert forall|i: int| 0 <= i < non_floor_words().len() implies !contains_spec(
                l@,
                #[trigger] non_floor_words()[i],
            ) by {
                assert(non_floor_words()[i] == words@[i]@);
            }
        }
    }
    r
}

/// Whether a prop label names a floor obstacle (sofa, couch, desk, table,
/// armchair, chair, rug) that is not an off-floor prop, case-insensitively.
pub fn is_blocking_prop(label: &str) -> (r: bool)
    ensures
        r == (!contains_any(unicode_lowercase(label@), non_floor_words()) && contains_any(
            unicode_lowercase(label@),
            blocking_words(),
        )),
{
    if is_non_floor_prop(label) {
        return false;
    }
    let l = to_lowercase(label);
    let words: [&str; 7] = ["sofa", "couch", "desk", "table", "armchair", "chair", "rug"];
    assert(words@.map_values(|w: &str| w@) =~= blocking_words());
    let r = contains_any_of(l.as_str(), &words);
    proof {
        if r {
            let i = choose|i: int| 0 <= i < words@.len() && contains_spec(l@, #[trigger] words@[i]@);
            assert(blocking_words()[i] == words@[i]@);
        } else {
            assert forall|i: int| 0 <= i < blocking_words().len() implies !contains_spec(
                l@,
                #[trigger] blocking_words()[i],
            ) by {
                assert(blocking_words()[i] == words@[i]@);
            }
        }
    }
    r
}

// ── Motion clip defaults ─────────────────────────────────────────────────

/// Skeleton id of a clip that names none.
pub fn default_skeleton() -> (r: String)
    ensures
        r@ == "core27"@,
{
    "core27".to_string()
}

/// Render mode of a clip that names none (`sticks`, as opposed to
/// `skinned_sprite`).
pub fn default_render() -> (r: String)
    ensures
        r@ == "sticks"@,
{
    "sticks".to_string()
}

/// Sprite filename pattern of a clip that names none.
pub fn default_sprite_pattern() -> (r: String)
    ensures
        r@ == "frame_{i:03d}.png"@,
{
    "frame_{i:03d}.png".to_string()
}

/// Sprite pixel width of a clip that names none.
pub fn default_sprite_w() -> (r: i32)
    ensures
        r == 160,
{
    160
}

/// Sprite pixel height of a clip that names none.
pub fn default_sprite_h() -> (r: i32)
    ensures
        r == 240,
{
    240
}

// ── Sprite frames ────────────────────────────────────────────────────────

/// `format!("{:03}", i)`: the decimal form of `i`, zero-padded after the
/// sign to at least three characters.
pub open spec fn pad3_spec(i: int) -> Seq<char> {
    let digits = crate::text::decimal((if i < 0 {
        -i
    } else {
        i
    }) as nat);
    let sign: Seq<char> = if i < 0 {
        seq!['-']
    } else {
        Seq::empty()
    };
    let width = 3 - sign.len();
    let zeros: int = if digits.len() < width {
        width - digits.len()
    } else {
        0
    };
    sign + Seq::new(zeros as nat, |k: int| '0') + digits
}

/// `format!("{:03}", i)`.
pub fn pad3(i: i32) -> (r: String)
    ensures
        r@ == pad3_spec(i as int),
{
    let mag: usize = if i < 0 {
        (0i64 - (i as i64)) as usize
    } else {
        i as usize
    };
    let digits = crate::text::decimal_string(mag);
    let dn = chars_of(digits.as_str()).len();
    let mut s = String::new();
    if i < 0 {
        crate::text::push_char(&mut s, '-');
    }
    let width: usize = if i < 0 {
        2
    } else {
        3
    };
    let zeros: usize = if dn < width {
        width - dn
    } else {
        0
    };
    let ghost s0 = s@;
    let mut k: usize = 0;
    while k < zeros
        invariant
            k <= zeros,
            s@ == s0 + Seq::new(k as nat, |m: int| '0'),
        decreases zeros - k,
    {
        crate::text::push_char(&mut s, '0');
        k = k + 1;
        assert(s@ =~= s0 + Seq::new(k as nat, |m: int| '0'));
    }
    let r = crate::text::concat_str(s.as_str(), digits.as_str());
    proof {
        let sign: Seq<char> = if i < 0 {
            seq!['-']
        } else {
            Seq::empty()
        };
        assert(s0 =~= sign);
        assert(r@ =~= pad3_spec(i as int));
    }
    r
}

/// The file name of sprite frame `i`: `frame_NNN.png` when the clip's
/// pattern uses the three-digit index placeholder, else the pattern itself.
pub open spec fn sprite_file_spec(pattern: Seq<char>, i: int) -> Seq<char> {
    if contains_spec(pattern, "{i:03d}"@) {
        "frame_"@ + pad3_spec(i) + ".png"@
    } else {
        pattern
    }
}

/// Directory of sprite frames when the clip names none.
pub open spec fn default_sprite_dir() -> Seq<char> {
    "assets/scene/ardy_walk_sprites"@
}

/// Asset path of sprite frame `i` of a clip with sprite directory
/// `sprite_dir` and filename pattern `sprite_pattern`.
pub fn sprite_asset_path(sprite_dir: Option<&str>, sprite_pattern: &str, i: i32) -> (r: String)
    ensures
        r@ == match sprite_dir {
            Some(d) => d@,
            None => default_sprite_dir(),
        } + "/"@ + sprite_file_spec(sprite_pattern@, i as int),
{
    let dir: &str = match sprite_dir {
        Some(d) => d,
        None => "assets/scene/ardy_walk_sprites",
    };
    let pat = chars_of(sprite_pattern);
    let ph = chars_of("{i:03d}");
    proof {
        reveal_strlit("{i:03d}");
    }
    let file = if crate::text::contains(pat.as_slice(), ph.as_slice()) {
        let n = pad3(i);
        let a = crate::text::concat_str("frame_", n.as_str());
        crate::text::concat_str(a.as_str(), ".png")
    } else {
        sprite_pattern.to_string()
    };
    let a = crate::text::concat_str(dir, "/");
    crate::text::concat_str(a.as_str(), file.as_str())
}

/// Whether a clip can show skinned sprites: its render mode is
/// `skinned_sprite`, it names a non-empty sprite directory and a positive
/// sprite count.
pub fn has_sprites(render: &str, sprite_dir: Option<&str>, sprite_count: Option<i32>) -> (r: bool)
    ensures
        r == (render@ == "skinned_sprite"@ && (sprite_dir matches Some(d) && d@.len() > 0) && (
        sprite_count matches Some(c) && c > 0)),
{
    let skinned = crate::text::str_eq(render, "skinned_sprite");
    let dir_ok = match sprite_dir {
        Some(d) => chars_of(d).len() > 0,
        None => false,
    };
    let count_ok = match sprite_count {
        Some(c) => c > 0,
        None => false,
    };
    skinned && dir_ok && count_ok
}

// ── Play mode ────────────────────────────────────────────────────────────

/// How the stage should present a motion clip.
#[derive(Clone, Copy, Debug, PartialEq, Eq, Structural)]
pub enum ArdyPlayMode {
    /// Feet follow path; walk cycles play.
    Path,
    /// Skinned sprite if available, else sticks; walk cycles hidden.
    Skeleton,
    /// Path + walk cycles + overlay.
    Both,
}

/// Play mode named by a string: `path`, `skeleton`, anything else `Both`.
pub fn ardy_play_mode_from_string(value: Option<&str>) -> (r: ArdyPlayMode)
    ensures
        r == match value {
            Some(v) => if v@ == "path"@ {
                ArdyPlayMode::Path
            } else if v@ == "skeleton"@ {
                ArdyPlayMode::Skeleton
            } else {
                ArdyPlayMode::Both
            },
            None => ArdyPlayMode::Both,
        },
{
    match value {
        Some(v) => {
            if crate::text::str_eq(v, "path") {
                ArdyPlayMode::Path
            } else if crate::text::str_eq(v, "skeleton") {
                ArdyPlayMode::Skeleton
            } else {
                ArdyPlayMode::Both
            }
        },
        None => ArdyPlayMode::Both,
    }
}

} // verus!
