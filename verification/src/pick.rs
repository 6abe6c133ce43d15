//! Hotspot picking and pointer dispatch.
//!
//! Which hotspots lie under the pointer is a polygon test on floating-point
//! coordinates that the host makes; it hands the library one flag per
//! hotspot. From those flags the library orders the hits topmost first (a
//! later-authored hotspot is on top) and steps the dispatcher: hover, cursor
//! and recorded clicks.

use vstd::prelude::*;
use crate::input::MouseButton;
use crate::text::str_eq;

verus! {

/// Result of a pick: the hotspot's id and its layer (its authoring index).
#[derive(Debug, Clone, PartialEq, Eq)]
pub struct PickHit {
    /// The hotspot's id.
    pub id: String,
    /// Authoring layer of the hotspot.
    pub layer: i32,
}

/// Indices of the hotspots under the pointer (`inside[i]`), topmost first:
/// higher index first.
pub open spec fn topmost_first(inside: Seq<bool>) -> Seq<int>
    decreases inside.len(),
{
    if inside.len() == 0 {
        Seq::empty()
    } else {
        let rest = topmost_first(inside.drop_last());
        if inside.last() {
            seq![inside.len() - 1] + rest
        } else {
            rest
        }
    }
}

/// The order holds every hit exactly once, highest index first.
pub proof fn lemma_topmost_first(inside: Seq<bool>)
    ensures
        forall|m: int|
            0 <= m < topmost_first(inside).len() ==> 0 <= #[trigger] topmost_first(inside)[m] < inside.len()
                && inside[topmost_first(inside)[m]],
        forall|a: int, b: int|
            0 <= a < b < topmost_first(inside).len() ==> #[trigger] topmost_first(inside)[a]
                > #[trigger] topmost_first(inside)[b],
        forall|i: int| 0 <= i < inside.len() && inside[i] ==> #[trigger] topmost_first(inside).contains(i),
    decreases inside.len(),
{
    if inside.len() > 0 {
        let d = inside.drop_last();
        lemma_topmost_first(d);
        let rest = topmost_first(d);
        let t = topmost_first(inside);
        let n = inside.len() - 1;
        assert forall|m: int| 0 <= m < t.len() implies 0 <= #[trigger] t[m] < inside.len() && inside[t[m]] by {
            if inside.last() {
                if m > 0 {
                    assert(t[m] == rest[m - 1]);
                    assert(d[rest[m - 1]] == inside[rest[m - 1]]);
                }
            } else {
                assert(d[rest[m]] == inside[rest[m]]);
            }
        }
        assert forall|a: int, b: int| 0 <= a < b < t.len() implies #[trigger] t[a] > #[trigger] t[b] by {
            if inside.last() {
                assert(t[b] == rest[b - 1]);
                if a > 0 {
                    assert(t[a] == rest[a - 1]);
                } else {
                    assert(rest[b - 1] < d.len());
                }
            }
        }
        assert forall|i: int| 0 <= i < inside.len() && inside[i] implies #[trigger] t.contains(i) by {
            if i == n {
                assert(t[0] == i);
            } else {
                assert(d[i] == inside[i]);
                assert(rest.contains(i));
                let m = choose|m: int| 0 <= m < rest.len() && rest[m] == i;
                if inside.last() {
                    assert(t[m + 1] == i);
                } else {
                    assert(t[m] == i);
                }
            }
        }
    }
}

/// The layers of a list of hits.
pub open spec fn hit_layers(hits: Seq<PickHit>) -> Seq<int> {
    hits.map_values(|h: PickHit| h.layer as int)
}

/// All hotspots under the pointer, topmost first: hotspot `i` (id `ids[i]`)
/// is under it when `inside[i]`, and its layer is `i`.
pub fn pick(ids: &Vec<String>, inside: &Vec<bool>) -> (r: Vec<PickHit>)
    requires
        ids.len() == inside.len(),
        ids.len() <= i32::MAX,
    ensures
        hit_layers(r@) == topmost_first(inside@),
        forall|m: int| 0 <= m < r.len() ==> (#[trigger] r@[m]).id@ == ids@[r@[m].layer as int]@,
{
    let mut out: Vec<PickHit> = Vec::new();
    let mut i: usize = inside.len();
    proof {
        assert(inside@.take(i as int) =~= inside@);
        assert(hit_layers(out@) =~= Seq::<int>::empty());
    }
    while i > 0
        invariant
            i <= inside.len(),
            ids.len() == inside.len(),
            inside.len() <= i32::MAX,
            topmost_first(inside@) == hit_layers(out@) + topmost_first(inside@.take(i as int)),
            forall|m: int|
                0 <= m < out.len() ==> 0 <= (#[trigger] out@[m]).layer < inside.len() && out@[m].id@
                    == ids@[out@[m].layer as int]@,
        decreases i,
    {
        i = i - 1;
        let ghost before = hit_layers(out@);
        let ghost tk = inside@.take(i + 1);
        assert(tk.drop_last() =~= inside@.take(i as int));
        assert(tk.last() == inside@[i as int]);
        if inside[i] {
            let layer = i as i32;
            out.push(PickHit { id: ids[i].clone(), layer });
            assert(hit_layers(out@) =~= before.push(i as int));
            assert(before.push(i as int) + topmost_first(inside@.take(i as int)) =~= before + (seq![i as int]
                + topmost_first(inside@.take(i as int))));
        }
    }
    proof {
        assert(inside@.take(0) =~= Seq::<bool>::empty());
        assert(hit_layers(out@) + Seq::<int>::empty() =~= hit_layers(out@));
    }
    out
}

/// The topmost hotspot under the pointer (the highest index with
/// `inside[i]`), if any.
pub fn pick_topmost(ids: &Vec<String>, inside: &Vec<bool>) -> (r: Option<PickHit>)
    requires
        ids.len() == inside.len(),
        ids.len() <= i32::MAX,
    ensures
        r is None <==> forall|i: int| 0 <= i < inside.len() ==> !inside@[i],
        r matches Some(h) ==> {
            &&& 0 <= h.layer < inside.len()
            &&& inside@[h.layer as int]
            &&& forall|j: int| h.layer < j < inside.len() ==> !inside@[j]
            &&& h.id@ == ids@[h.layer as int]@
        },
{
    let hits = pick(ids, inside);
    proof {
        lemma_topmost_first(inside@);
        let t = topmost_first(inside@);
        if hits.len() > 0 {
            assert(hit_layers(hits@)[0] == hits@[0].layer as int);
            assert forall|j: int| hits@[0].layer < j < inside.len() implies !inside@[j] by {
                if inside@[j] {
                    assert(t.contains(j));
                    let m = choose|m: int| 0 <= m < t.len() && t[m] == j;
                    if m > 0 {
                        assert(t[0] > t[m]);
                    }
                }
            }
        } else {
            assert forall|i: int| 0 <= i < inside.len() implies !inside@[i] by {
                if inside@[i] {
                    assert(t.contains(i));
                }
            }
        }
    }
    if hits.len() > 0 {
        Some(PickHit { id: hits[0].id.clone(), layer: hits[0].layer })
    } else {
        None
    }
}

/// A hotspot as dispatch sees it: its id and the cursor it asks for
/// (`None`: the default cursor).
pub struct HotspotCursor {
    /// The hotspot's id.
    pub id: String,
    /// Its named cursor, if any.
    pub cursor: Option<String>,
}

/// A queued pointer event, with the index of the topmost hotspot under
/// the pointer when it carries a position.
pub enum PointerStep {
    /// The pointer moved.
    Move { hit: Option<usize> },
    /// A button went down.
    Down { button: MouseButton, hit: Option<usize> },
    /// Any other event (button up, wheel, keys, text).
    Other,
}

/// What a flush produced.
pub struct FlushOutcome {
    /// Hotspot the pointer is over after the last move (none: background,
    /// or no move this flush).
    pub hovered_hotspot: Option<String>,
    /// Cursor to show this frame.
    pub cursor: String,
    /// Clicks that landed on a hotspot, in order (button and hotspot id).
    pub clicks: Vec<(MouseButton, String)>,
}

/// The name of the default cursor.
pub open spec fn default_cursor() -> Seq<char> {
    "default"@
}

/// Hotspots as (id, cursor) views.
pub open spec fn hotspots_view(hs: Seq<HotspotCursor>) -> Seq<(Seq<char>, Option<Seq<char>>)> {
    hs.map_values(
        |h: HotspotCursor|
            (
                h.id@,
                match h.cursor {
                    Some(c) => Some(c@),
                    None => None,
                },
            ),
    )
}

/// The first hotspot at or after `i` whose id is `id`.
pub open spec fn first_with_id(hs: Seq<(Seq<char>, Option<Seq<char>>)>, id: Seq<char>, i: int) -> Option<int>
    decreases hs.len() - i,
{
    if i < 0 || i >= hs.len() {
        None
    } else if hs[i].0 == id {
        Some(i)
    } else {
        first_with_id(hs, id, i + 1)
    }
}

/// The cursor for a hit: that of the first hotspot with the hit's id, the
/// default cursor when it names none, or when nothing is hit.
pub open spec fn cursor_for(hs: Seq<(Seq<char>, Option<Seq<char>>)>, hit: Option<usize>) -> Seq<char> {
    match hit {
        None => default_cursor(),
        Some(i) => match first_with_id(hs, hs[i as int].0, 0) {
            Some(j) => match hs[j].1 {
                Some(c) => c,
                None => default_cursor(),
            },
            None => default_cursor(),
        },
    }
}

/// A pointer step as the specification sees it.
pub open spec fn hit_id(hs: Seq<(Seq<char>, Option<Seq<char>>)>, hit: Option<usize>) -> Option<Seq<char>> {
    match hit {
        Some(i) => Some(hs[i as int].0),
        None => None,
    }
}

/// Hovered hotspot, cursor and clicks after the steps, starting from no
/// hover, the cursor `last` and no click.
pub open spec fn flush_spec(hs: Seq<(Seq<char>, Option<Seq<char>>)>, steps: Seq<PointerStep>, last: Seq<char>) -> (
    Option<Seq<char>>,
    Seq<char>,
    Seq<(MouseButton, Seq<char>)>,
)
    decreases steps.len(),
{
    if steps.len() == 0 {
        (None, last, Seq::empty())
    } else {
        let prev = flush_spec(hs, steps.drop_last(), last);
        match steps.last() {
            PointerStep::Move { hit } => (hit_id(hs, hit), cursor_for(hs, hit), prev.2),
            PointerStep::Down { button, hit } => (
                prev.0,
                prev.1,
                match hit {
                    Some(i) => prev.2.push((button, hs[i as int].0)),
                    None => prev.2,
                },
            ),
            PointerStep::Other => prev,
        }
    }
}

/// Every hit of the steps names one of `n` hotspots.
pub open spec fn hits_in_range(steps: Seq<PointerStep>, n: int) -> bool {
    forall|k: int|
        0 <= k < steps.len() ==> match #[trigger] steps[k] {
            PointerStep::Move { hit } => hit matches Some(i) ==> i < n,
            PointerStep::Down { hit, .. } => hit matches Some(i) ==> i < n,
            PointerStep::Other => true,
        }
}

/// View of a flush outcome.
pub open spec fn outcome_view(o: FlushOutcome) -> (Option<Seq<char>>, Seq<char>, Seq<(MouseButton, Seq<char>)>) {
    (
        match o.hovered_hotspot {
            Some(s) => Some(s@),
            None => None,
        },
        o.cursor@,
        o.clicks@.map_values(|c: (MouseButton, String)| (c.0, c.1@)),
    )
}

fn cursor_for_hit(hs: &Vec<HotspotCursor>, hit: Option<usize>) -> (r: String)
    requires
        hit matches Some(i) ==> i < hs.len(),
    ensures
        r@ == cursor_for(hotspots_view(hs@), hit),
{
    match hit {
        None => "default".to_string(),
        Some(i) => {
            let id = hs[i].id.as_str();
            let ghost hv = hotspots_view(hs@);
            let mut j: usize = 0;
            while j < hs.len()
                invariant
                    j <= hs.len(),
                    hv == hotspots_view(hs@),
                    i < hs.len(),
                    hit == Some(i),
                    id@ == hv[i as int].0,
                    first_with_id(hv, id@, 0) == first_with_id(hv, id@, j as int),
                decreases hs.len() - j,
            {
                assert(hv[j as int] == (hs@[j as int].id@, match hs@[j as int].cursor {
                    Some(c) => Some(c@),
                    None => None,
                }));
                if str_eq(hs[j].id.as_str(), id) {
                    assert(first_with_id(hv, id@, j as int) == Some(j as int));
                    assert(cursor_for(hv, hit) == match hv[j as int].1 {
                        Some(c) => c,
                        None => default_cursor(),
                    });
                    let r = match &hs[j].cursor {
                        Some(c) => c.clone(),
                        None => "default".to_string(),
                    };
                    return r;
                }
                j = j + 1;
            }
            "default".to_string()
        },
    }
}

/// Run the pointer steps of one flush: a move sets the hovered hotspot and
/// the cursor from the topmost hit; a button press on a hotspot records a
/// click. The cursor starts as `last_cursor`.
pub fn flush_steps(hotspots: &Vec<HotspotCursor>, steps: &Vec<PointerStep>, last_cursor: &str) -> (r: FlushOutcome)
    requires
        hits_in_range(steps@, hotspots.len() as int),
    ensures
        outcome_view(r) == flush_spec(hotspots_view(hotspots@), steps@, last_cursor@),
{
    let ghost hv = hotspots_view(hotspots@);
    let mut out = FlushOutcome { hovered_hotspot: None, cursor: last_cursor.to_string(), clicks: Vec::new() };
    let mut k: usize = 0;
    proof {
        assert(steps@.take(0) =~= Seq::<PointerStep>::empty());
        assert(outcome_view(out).2 =~= Seq::<(MouseButton, Seq<char>)>::empty());
    }
    while k < steps.len()
        invariant
            k <= steps.len(),
            hv == hotspots_view(hotspots@),
            hits_in_range(steps@, hotspots.len() as int),
            outcome_view(out) == flush_spec(hv, steps@.take(k as int), last_cursor@),
        decreases steps.len() - k,
    {
        let ghost before = outcome_view(out);
        let ghost tk = steps@.take(k + 1);
        assert(tk.drop_last() =~= steps@.take(k as int));
        assert(tk.last() == steps@[k as int]);
        match &steps[k] {
            PointerStep::Move { hit } => {
                let hit = *hit;
                let hovered = match hit {
                    Some(i) => Some(hotspots[i].id.clone()),
                    None => None,
                };
                out.hovered_hotspot = hovered;
                out.cursor = cursor_for_hit(hotspots, hit);
            },
            PointerStep::Down { button, hit } => {
                match *hit {
                    Some(i) => {
                        out.clicks.push((*button, hotspots[i].id.clone()));
                        assert(outcome_view(out).2 =~= before.2.push((*button, hv[i as int].0)));
                    },
                    None => {},
                }
            },
            PointerStep::Other => {},
        }
        k = k + 1;
    }
    proof {
        assert(steps@.take(k as int) =~= steps@);
    }
    out
}

/// Dispatch state kept between flushes: the hovered hotspot and the cursor
/// last published.
pub struct Dispatcher {
    hovered: Option<String>,
    last_cursor: String,
}

impl Dispatcher {
    /// Hovered hotspot.
    pub closed spec fn hovered_view(&self) -> Option<Seq<char>> {
        match self.hovered {
            Some(s) => Some(s@),
            None => None,
        }
    }

    /// Cursor last published.
    pub closed spec fn cursor_view(&self) -> Seq<char> {
        self.last_cursor@
    }

    /// No hover, default cursor.
    pub fn new() -> (r: Dispatcher)
        ensures
            r.hovered_view() is None,
            r.cursor_view() == default_cursor(),
    {
        Dispatcher { hovered: None, last_cursor: "default".to_string() }
    }

    /// Hotspot currently hovered.
    pub fn hovered(&self) -> (r: Option<&str>)
        ensures
            match r {
                Some(s) => self.hovered_view() == Some(s@),
                None => self.hovered_view() is None,
            },
    {
        match &self.hovered {
            Some(s) => Some(s.as_str()),
            None => None,
        }
    }

    /// Run one flush's pointer steps (see [`flush_steps`]), starting from
    /// the cursor last published; afterwards the published cursor is the
    /// outcome's, and the hovered hotspot is the outcome's when the steps
    /// moved the pointer.
    pub fn flush(&mut self, hotspots: &Vec<HotspotCursor>, steps: &Vec<PointerStep>) -> (r: FlushOutcome)
        requires
            hits_in_range(steps@, hotspots.len() as int),
        ensures
            outcome_view(r) == flush_spec(hotspots_view(hotspots@), steps@, old(self).cursor_view()),
            final(self).cursor_view() == outcome_view(r).1,
            final(self).hovered_view() == if exists|k: int|
                0 <= k < steps@.len() && #[trigger] steps@[k] is Move {
                outcome_view(r).0
            } else {
                old(self).hovered_view()
            },
    {
        let out = flush_steps(hotspots, steps, self.last_cursor.as_str());
        let mut moved = false;
        let mut k: usize = 0;
        while k < steps.len()
            invariant
                k <= steps.len(),
                moved == exists|m: int| 0 <= m < k && #[trigger] steps@[m] is Move,
            decreases steps.len() - k,
        {
            if let PointerStep::Move { .. } = &steps[k] {
                moved = true;
            }
            k = k + 1;
        }
        if moved {
            self.hovered = match &out.hovered_hotspot {
                Some(s) => Some(s.clone()),
                None => None,
            };
        }
        self.last_cursor = out.cursor.clone();
        out
    }
}

} // verus!
