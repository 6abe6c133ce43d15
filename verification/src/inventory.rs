//! Items, their verbs, and the player's inventory bag.
//!
//! The bag keeps one slot per distinct item id, in insertion order. A
//! capacity (if set) limits the number of distinct slots, not total items.

use vstd::prelude::*;
use vstd::string::StringSliceAdditionalSpecFns;
use crate::asset_id::{AssetId, fnv1a};
use crate::text::{str_eq, concat_str};

verus! {

// ── Verbs ─────────────────────────────────────────────────────────────────

/// Verb kinds shown on the verb coin and authored on items / hotspots.
#[derive(Clone, Copy, Debug, PartialEq, Eq, Hash, Structural)]
pub enum VerbKind {
    /// Examine / look at.
    Look,
    /// Use in place, or use-with when a target is selected.
    Use,
    /// Speak to an NPC.
    Talk,
    /// Pick up into inventory.
    Pickup,
    /// Give inventory item to an NPC / hotspot.
    Give,
    /// Explicit item-on-target binding (authored on items as `UseOn`).
    UseOn,
}

/// Short UI label of a verb.
pub open spec fn verb_label_spec(k: VerbKind) -> Seq<char> {
    match k {
        VerbKind::Look => "Look"@,
        VerbKind::Use => "Use"@,
        VerbKind::Talk => "Talk"@,
        VerbKind::Pickup => "Pickup"@,
        VerbKind::Give => "Give"@,
        VerbKind::UseOn => "Use on"@,
    }
}

impl VerbKind {
    /// Default verbs for the radial coin (sector order, clockwise from top).
    pub fn coin_default() -> (r: Vec<VerbKind>)
        ensures
            r@ == seq![VerbKind::Look, VerbKind::Use, VerbKind::Talk, VerbKind::Pickup],
    {
        vec![VerbKind::Look, VerbKind::Use, VerbKind::Talk, VerbKind::Pickup]
    }

    /// All standard coin verbs including Give (5-sector coin).
    pub fn coin_with_give() -> (r: Vec<VerbKind>)
        ensures
            r@ == seq![
                VerbKind::Look,
                VerbKind::Use,
                VerbKind::Talk,
                VerbKind::Pickup,
                VerbKind::Give,
            ],
    {
        vec![VerbKind::Look, VerbKind::Use, VerbKind::Talk, VerbKind::Pickup, VerbKind::Give]
    }

    /// Short UI label.
    pub fn label(self) -> (r: &'static str)
        ensures
            r@ == verb_label_spec(self),
    {
        match self {
            VerbKind::Look => "Look",
            VerbKind::Use => "Use",
            VerbKind::Talk => "Talk",
            VerbKind::Pickup => "Pickup",
            VerbKind::Give => "Give",
            VerbKind::UseOn => "Use on",
        }
    }
}

/// One verb entry on an item (Look / Use / UseOn / …).
#[derive(Clone, Debug, PartialEq, Eq)]
pub struct ItemVerb {
    /// Which verb this entry describes.
    pub kind: VerbKind,
    /// Player-facing label override (defaults to [`VerbKind::label`]).
    pub text: Option<String>,
    /// Named action id dispatched when this verb fires (no target).
    pub action: Option<String>,
    /// When true, Use requires a second click target (item / hotspot).
    pub requires_target: bool,
    /// For [`VerbKind::UseOn`]: the target id this verb matches.
    pub matches: Option<String>,
}

/// Optional string to optional character view.
pub open spec fn opt_view(o: Option<String>) -> Option<Seq<char>> {
    match o {
        Some(s) => Some(s@),
        None => None,
    }
}

impl ItemVerb {
    /// A Look verb labelled "Examine" that fires `action`.
    pub fn look(action: &str) -> (r: ItemVerb)
        ensures
            r.kind == VerbKind::Look,
            opt_view(r.text) == Some("Examine"@),
            opt_view(r.action) == Some(action@),
            !r.requires_target,
            r.matches is None,
    {
        ItemVerb {
            kind: VerbKind::Look,
            text: Some("Examine".to_owned()),
            action: Some(action.to_owned()),
            requires_target: false,
            matches: None,
        }
    }

    /// A Use labelled "Use on" that requires a target.
    pub fn use_with_target() -> (r: ItemVerb)
        ensures
            r.kind == VerbKind::Use,
            opt_view(r.text) == Some("Use on"@),
            r.action is None,
            r.requires_target,
            r.matches is None,
    {
        ItemVerb {
            kind: VerbKind::Use,
            text: Some("Use on".to_owned()),
            action: None,
            requires_target: true,
            matches: None,
        }
    }

    /// An explicit UseOn binding of `target` to `action`.
    pub fn use_on(target: &str, action: &str) -> (r: ItemVerb)
        ensures
            r.kind == VerbKind::UseOn,
            r.text is None,
            opt_view(r.action) == Some(action@),
            r.requires_target,
            opt_view(r.matches) == Some(target@),
    {
        ItemVerb {
            kind: VerbKind::UseOn,
            text: None,
            action: Some(action.to_owned()),
            requires_target: true,
            matches: Some(target.to_owned()),
        }
    }

    /// Display label: the override, else the verb's default label.
    pub fn label(&self) -> (r: &str)
        ensures
            r@ == match self.text {
                Some(t) => t@,
                None => verb_label_spec(self.kind),
            },
    {
        match &self.text {
            Some(t) => t.as_str(),
            None => self.kind.label(),
        }
    }
}

// ── Items ─────────────────────────────────────────────────────────────────

/// An inventory / world item definition.
#[derive(Clone, Debug, PartialEq, Eq)]
pub struct Item {
    /// Stable item id (path-like, no extension): `"key_cellar"`.
    pub id: String,
    /// Player-facing name.
    pub display_name: String,
    /// Examine text (Look verb default).
    pub description: String,
    /// Icon asset path (e.g. `"icons/key_cellar"`), optional.
    pub icon: Option<String>,
    /// Gameplay tags attached to this definition (not inventory state).
    pub tags: Vec<String>,
    /// Available verbs / actions.
    pub verbs: Vec<ItemVerb>,
    /// Whether this item may appear as a combine source/target.
    pub can_combine: bool,
    /// Whether the world prop can be picked up.
    pub can_pickup: bool,
    /// Whether multiple copies stack in one slot.
    pub stackable: bool,
    /// Max stack size when stackable (ignored when not stackable).
    pub max_stack: u32,
}

/// Default for flags that are on unless authored off.
pub fn default_true() -> (r: bool)
    ensures
        r,
{
    true
}

/// Default max stack.
pub fn default_one() -> (r: u32)
    ensures
        r == 1,
{
    1
}

/// `"items/"` followed by the id: the soft asset path of an item.
pub open spec fn item_path(id: Seq<char>) -> Seq<char> {
    "items/"@ + id
}

/// Asset id of an item's soft path (`items/<id>`).
pub open spec fn item_asset(id: Seq<char>) -> u64 {
    fnv1a(vstd::utf8::encode_utf8(item_path(id)))
}

/// Asset id of the path `items/<id>`.
pub fn item_asset_id(id: &str) -> (r: AssetId)
    ensures
        r.0 == item_asset(id@),
{
    let p = concat_str("items/", id);
    AssetId::from_path(p.as_str())
}

/// Stack limit of a definition: `max_stack` (at least 1) when stackable, else 1.
pub open spec fn effective_max_stack_spec(stackable: bool, max_stack: u32) -> u32 {
    if stackable {
        if max_stack >= 1 {
            max_stack
        } else {
            1
        }
    } else {
        1
    }
}

/// Index of the first verb entry of kind `k`.
pub open spec fn verb_pos(vs: Seq<ItemVerb>, k: VerbKind, i: int) -> Option<int>
    decreases vs.len() - i,
{
    if i < 0 || i >= vs.len() {
        None
    } else if vs[i].kind == k {
        Some(i)
    } else {
        verb_pos(vs, k, i + 1)
    }
}

/// Whether verb entry `v` is a `UseOn` bound to `target`.
pub open spec fn use_on_matches(v: ItemVerb, target: Seq<char>) -> bool {
    v.kind == VerbKind::UseOn && opt_view(v.matches) == Some(target)
}

/// Index of the first UseOn entry bound to `target`.
pub open spec fn use_on_pos(vs: Seq<ItemVerb>, target: Seq<char>, i: int) -> Option<int>
    decreases vs.len() - i,
{
    if i < 0 || i >= vs.len() {
        None
    } else if use_on_matches(vs[i], target) {
        Some(i)
    } else {
        use_on_pos(vs, target, i + 1)
    }
}

/// Index of the first Use entry that requires a target.
pub open spec fn use_target_pos(vs: Seq<ItemVerb>, i: int) -> Option<int>
    decreases vs.len() - i,
{
    if i < 0 || i >= vs.len() {
        None
    } else if vs[i].kind == VerbKind::Use && vs[i].requires_target {
        Some(i)
    } else {
        use_target_pos(vs, i + 1)
    }
}

impl Item {
    /// A minimal item: one Look verb firing `examine_<id>`, pickupable,
    /// combinable, not stackable.
    pub fn new(id: &str, display_name: &str, description: &str) -> (r: Item)
        ensures
            r.id@ == id@,
            r.display_name@ == display_name@,
            r.description@ == description@,
            r.icon is None,
            r.tags@.len() == 0,
            r.verbs@.len() == 1,
            r.verbs@[0].kind == VerbKind::Look,
            opt_view(r.verbs@[0].text) == Some("Examine"@),
            opt_view(r.verbs@[0].action) == Some("examine_"@ + id@),
            !r.verbs@[0].requires_target,
            r.verbs@[0].matches is None,
            r.can_combine,
            r.can_pickup,
            !r.stackable,
            r.max_stack == 1,
    {
        let action = concat_str("examine_", id);
        let mut verbs: Vec<ItemVerb> = Vec::new();
        verbs.push(ItemVerb::look(action.as_str()));
        Item {
            id: id.to_owned(),
            display_name: display_name.to_owned(),
            description: description.to_owned(),
            icon: None,
            tags: Vec::new(),
            verbs,
            can_combine: true,
            can_pickup: true,
            stackable: false,
            max_stack: 1,
        }
    }

    /// Soft asset id for this item (`items/<id>`).
    pub fn asset_id(&self) -> (r: AssetId)
        ensures
            r.0 == item_asset(self.id@),
    {
        item_asset_id(self.id.as_str())
    }

    /// Soft asset id for the icon, if any.
    pub fn icon_id(&self) -> (r: Option<AssetId>)
        ensures
            match self.icon {
                Some(p) => r == Some(AssetId(fnv1a(vstd::utf8::encode_utf8(p@)))),
                None => r is None,
            },
    {
        match &self.icon {
            Some(p) => Some(AssetId::from_path(p.as_str())),
            None => None,
        }
    }

    /// Effective max stack (always ≥ 1).
    pub fn effective_max_stack(&self) -> (r: u32)
        ensures
            r == effective_max_stack_spec(self.stackable, self.max_stack),
            r >= 1,
    {
        if self.stackable {
            if self.max_stack >= 1 {
                self.max_stack
            } else {
                1
            }
        } else {
            1
        }
    }

    /// Whether this item offers the given verb kind (Look always does).
    pub fn has_verb(&self, kind: VerbKind) -> (r: bool)
        ensures
            r == (verb_pos(self.verbs@, kind, 0) is Some || kind == VerbKind::Look),
    {
        self.verb(kind).is_some() || kind == VerbKind::Look
    }

    /// First verb entry matching `kind`, if any.
    pub fn verb(&self, kind: VerbKind) -> (r: Option<&ItemVerb>)
        ensures
            match verb_pos(self.verbs@, kind, 0) {
                Some(i) => r == Some(&self.verbs@[i]),
                None => r is None,
            },
    {
        let mut i: usize = 0;
        while i < self.verbs.len()
            invariant
                i <= self.verbs.len(),
                verb_pos(self.verbs@, kind, i as int) == verb_pos(self.verbs@, kind, 0),
            decreases self.verbs.len() - i,
        {
            if self.verbs[i].kind == kind {
                return Some(&self.verbs[i]);
            }
            i = i + 1;
        }
        None
    }

    /// Resolve UseOn / Use-with-target against a target id: an explicit
    /// UseOn bound to `target_id` wins, else the first Use requiring a target.
    pub fn verb_for_target(&self, target_id: &str) -> (r: Option<&ItemVerb>)
        ensures
            match use_on_pos(self.verbs@, target_id@, 0) {
                Some(i) => r == Some(&self.verbs@[i]),
                None => match use_target_pos(self.verbs@, 0) {
                    Some(j) => r == Some(&self.verbs@[j]),
                    None => r is None,
                },
            },
    {
        let mut i: usize = 0;
        while i < self.verbs.len()
            invariant
                i <= self.verbs.len(),
                use_on_pos(self.verbs@, target_id@, i as int) == use_on_pos(
                    self.verbs@,
                    target_id@,
                    0,
                ),
            decreases self.verbs.len() - i,
        {
            let v = &self.verbs[i];
            let hit = v.kind == VerbKind::UseOn && match &v.matches {
                Some(m) => str_eq(m.as_str(), target_id),
                None => false,
            };
            if hit {
                return Some(v);
            }
            i = i + 1;
        }
        let mut j: usize = 0;
        while j < self.verbs.len()
            invariant
                j <= self.verbs.len(),
                use_on_pos(self.verbs@, target_id@, 0) is None,
                use_target_pos(self.verbs@, j as int) == use_target_pos(self.verbs@, 0),
            decreases self.verbs.len() - j,
        {
            if self.verbs[j].kind == VerbKind::Use && self.verbs[j].requires_target {
                return Some(&self.verbs[j]);
            }
            j = j + 1;
        }
        None
    }

    /// Look text: the description.
    pub fn look_text(&self) -> (r: &str)
        ensures
            r@ == self.description@,
    {
        self.description.as_str()
    }
}

// ── Errors ────────────────────────────────────────────────────────────────

/// Errors from item parsing, inventory ops, and combine resolution.
#[derive(Debug, PartialEq, Eq)]
pub enum InventoryError {
    /// RON parse failure.
    Ron(String),
    /// RON serialize failure.
    Serialize(String),
    /// Inventory is at capacity.
    Full {
        /// Maximum number of distinct slots.
        capacity: usize,
    },
    /// Tried to remove more of an item than is held.
    NotEnough {
        /// Item id.
        id: String,
        /// Count currently held.
        have: u32,
        /// Count requested.
        need: u32,
    },
    /// Item definition missing from the catalog.
    UnknownItem(String),
    /// No matching recipe (fail closed).
    CannotCombine {
        /// First item id (as requested).
        a: String,
        /// Second item id (as requested).
        b: String,
    },
    /// Verb not available on this item / target.
    VerbUnavailable {
        /// Verb kind label.
        verb: String,
    },
}

// ── Inventory ─────────────────────────────────────────────────────────────

/// One slot: item id + stack count.
#[derive(Clone, Debug, PartialEq, Eq)]
pub struct Slot {
    /// Item definition id.
    pub id: String,
    /// Stack count (≥ 1).
    pub count: u32,
}

impl Slot {
    /// Soft asset id (`items/<id>`).
    pub fn asset_id(&self) -> (r: AssetId)
        ensures
            r.0 == item_asset(self.id@),
    {
        item_asset_id(self.id.as_str())
    }
}

/// Raw hashes of asset ids.
pub open spec fn ids_view(v: Seq<AssetId>) -> Seq<u64> {
    v.map_values(|a: AssetId| a.0)
}

/// Optional strings to optional character views.
pub open spec fn opts_view(rs: Seq<Option<String>>) -> Seq<Option<Seq<char>>> {
    rs.map_values(|o: Option<String>| opt_view(o))
}

/// Slots as (id, count) pairs.
pub open spec fn slots_view(s: Seq<Slot>) -> Seq<(Seq<char>, u32)> {
    s.map_values(|x: Slot| (x.id@, x.count))
}

/// Index of the slot holding `id`, searching from `i`.
pub open spec fn slot_pos_from(v: Seq<(Seq<char>, u32)>, id: Seq<char>, i: int) -> Option<int>
    decreases v.len() - i,
{
    if i < 0 || i >= v.len() {
        None
    } else if v[i].0 == id {
        Some(i)
    } else {
        slot_pos_from(v, id, i + 1)
    }
}

/// Index of the slot holding `id`.
pub open spec fn slot_pos(v: Seq<(Seq<char>, u32)>, id: Seq<char>) -> Option<int> {
    slot_pos_from(v, id, 0)
}

/// How many of `id` the slots hold.
pub open spec fn count_spec(v: Seq<(Seq<char>, u32)>, id: Seq<char>) -> u32 {
    match slot_pos(v, id) {
        Some(i) => v[i].1,
        None => 0,
    }
}

/// `u32::saturating_add`.
pub open spec fn sat_add(a: u32, b: u32) -> u32 {
    if a + b > u32::MAX {
        u32::MAX
    } else {
        (a + b) as u32
    }
}

/// The smaller of two counts.
pub open spec fn min_u32(a: u32, b: u32) -> u32 {
    if a <= b {
        a
    } else {
        b
    }
}

/// `max_stack` raised to at least 1.
pub open spec fn at_least_one(m: u32) -> u32 {
    if m >= 1 {
        m
    } else {
        1
    }
}

/// Slots after adding `amount` of `id`, or `Err(capacity)` when a new slot
/// would exceed the capacity.
pub open spec fn add_raw_spec(
    v: Seq<(Seq<char>, u32)>,
    cap: Option<usize>,
    id: Seq<char>,
    amount: u32,
    max_stack: u32,
    stackable: bool,
) -> Result<Seq<(Seq<char>, u32)>, usize> {
    if amount == 0 {
        Ok(v)
    } else {
        match slot_pos(v, id) {
            Some(i) => Ok(
                v.update(
                    i,
                    (
                        id,
                        if stackable {
                            min_u32(sat_add(v[i].1, amount), at_least_one(max_stack))
                        } else {
                            1
                        },
                    ),
                ),
            ),
            None => match cap {
                Some(c) if v.len() >= c => Err(c),
                _ => Ok(
                    v.push(
                        (
                            id,
                            if stackable {
                                min_u32(amount, at_least_one(max_stack))
                            } else {
                                1
                            },
                        ),
                    ),
                ),
            },
        }
    }
}

/// Slots after removing `amount` of `id`, or `Err(have)` when fewer are held.
pub open spec fn remove_spec(v: Seq<(Seq<char>, u32)>, id: Seq<char>, amount: u32) -> Result<
    Seq<(Seq<char>, u32)>,
    u32,
> {
    if amount == 0 {
        Ok(v)
    } else {
        match slot_pos(v, id) {
            None => Err(0),
            Some(i) => if v[i].1 < amount {
                Err(v[i].1)
            } else if v[i].1 == amount {
                Ok(v.remove(i))
            } else {
                Ok(v.update(i, (id, (v[i].1 - amount) as u32)))
            },
        }
    }
}

/// Slot ids are distinct and every count is at least 1.
pub open spec fn slots_wf(v: Seq<(Seq<char>, u32)>) -> bool {
    &&& forall|i: int, j: int| 0 <= i < j < v.len() ==> #[trigger] v[i].0 != #[trigger] v[j].0
    &&& forall|i: int| 0 <= i < v.len() ==> #[trigger] v[i].1 >= 1
}

/// The flat asset-id list of a bag: each slot's id repeated `count` times.
pub open spec fn expand_ids(v: Seq<(Seq<char>, u32)>) -> Seq<u64>
    decreases v.len(),
{
    if v.len() == 0 {
        Seq::empty()
    } else {
        expand_ids(v.drop_last()) + Seq::new(v.last().1 as nat, |k: int| item_asset(v.last().0))
    }
}

/// The bag built by adding one of each resolved id (stackable, no limit).
pub open spec fn from_resolved_spec(rs: Seq<Option<Seq<char>>>) -> Seq<(Seq<char>, u32)>
    decreases rs.len(),
{
    if rs.len() == 0 {
        Seq::empty()
    } else {
        let prev = from_resolved_spec(rs.drop_last());
        match rs.last() {
            Some(id) => match add_raw_spec(prev, None, id, 1, u32::MAX, true) {
                Ok(v) => v,
                Err(_) => prev,
            },
            None => prev,
        }
    }
}

/// `rs` are values `resolve` may return for `ids`, position by position.
pub open spec fn resolutions<F: Fn(AssetId) -> Option<String>>(
    resolve: F,
    ids: Seq<AssetId>,
    rs: Seq<Option<String>>,
) -> bool {
    &&& rs.len() == ids.len()
    &&& forall|i: int| 0 <= i < ids.len() ==> call_ensures(resolve, (ids[i],), #[trigger] rs[i])
}

/// Ordered bag of item stacks.
///
/// Distinct item ids each occupy one slot. Stackable items merge into their
/// slot up to `max_stack`. Capacity (if set) limits the number of distinct
/// slots, not total items.
#[derive(Debug, PartialEq, Eq)]
pub struct Inventory {
    slots: Vec<Slot>,
    capacity: Option<usize>,
}

proof fn lemma_slot_pos_from(v: Seq<(Seq<char>, u32)>, id: Seq<char>, i: int)
    requires
        0 <= i,
    ensures
        slot_pos_from(v, id, i) matches Some(p) ==> i <= p < v.len() && v[p].0 == id,
        slot_pos_from(v, id, i) is None ==> forall|j: int| i <= j < v.len() ==> v[j].0 != id,
    decreases v.len() - i,
{
    if i < v.len() && v[i].0 != id {
        lemma_slot_pos_from(v, id, i + 1);
    }
}

proof fn lemma_slot_pos_unique(v: Seq<(Seq<char>, u32)>, id: Seq<char>, k: int)
    requires
        slots_wf(v),
        0 <= k < v.len(),
        v[k].0 == id,
    ensures
        slot_pos(v, id) == Some(k),
{
    lemma_slot_pos_from(v, id, 0);
    match slot_pos(v, id) {
        Some(p) => {
            if p != k {
                if p < k {
                    assert(v[p].0 != v[k].0);
                } else {
                    assert(v[k].0 != v[p].0);
                }
            }
        },
        None => {},
    }
}

proof fn lemma_count_at(v: Seq<(Seq<char>, u32)>, id: Seq<char>)
    requires
        slots_wf(v),
    ensures
        forall|k: int| 0 <= k < v.len() && #[trigger] v[k].0 == id ==> count_spec(v, id) == v[k].1,
        (forall|k: int| 0 <= k < v.len() ==> #[trigger] v[k].0 != id) ==> count_spec(v, id) == 0,
{
    lemma_slot_pos_from(v, id, 0);
    assert forall|k: int| 0 <= k < v.len() && #[trigger] v[k].0 == id implies count_spec(v, id)
        == v[k].1 by {
        lemma_slot_pos_unique(v, id, k);
    }
}

/// The slots after a successful [`remove_spec`] (the input otherwise).
pub open spec fn remove_result(v: Seq<(Seq<char>, u32)>, id: Seq<char>, amount: u32) -> Seq<
    (Seq<char>, u32),
> {
    match remove_spec(v, id, amount) {
        Ok(x) => x,
        Err(_) => v,
    }
}

/// The slots after a successful [`add_raw_spec`] (the input otherwise).
pub open spec fn add_result(
    v: Seq<(Seq<char>, u32)>,
    cap: Option<usize>,
    id: Seq<char>,
    amount: u32,
    max_stack: u32,
    stackable: bool,
) -> Seq<(Seq<char>, u32)> {
    match add_raw_spec(v, cap, id, amount, max_stack, stackable) {
        Ok(x) => x,
        Err(_) => v,
    }
}

/// Count of `id` held after adding `amount` (when the add succeeds).
pub open spec fn added_count(
    v: Seq<(Seq<char>, u32)>,
    id: Seq<char>,
    amount: u32,
    max_stack: u32,
    stackable: bool,
) -> u32 {
    if amount == 0 {
        count_spec(v, id)
    } else {
        match slot_pos(v, id) {
            Some(i) => if stackable {
                min_u32(sat_add(v[i].1, amount), at_least_one(max_stack))
            } else {
                1
            },
            None => if stackable {
                min_u32(amount, at_least_one(max_stack))
            } else {
                1
            },
        }
    }
}

/// Removing `amount` of `id` lowers its count by `amount` and leaves every
/// other item's count as it was.
pub proof fn lemma_remove_counts(v: Seq<(Seq<char>, u32)>, id: Seq<char>, amount: u32)
    requires
        slots_wf(v),
        remove_spec(v, id, amount) is Ok,
    ensures
        slots_wf(remove_result(v, id, amount)),
        count_spec(remove_result(v, id, amount), id) == count_spec(v, id) - amount,
        forall|other: Seq<char>|
            other != id ==> #[trigger] count_spec(remove_result(v, id, amount), other) == count_spec(
                v,
                other,
            ),
{
    lemma_slot_pos_from(v, id, 0);
    if amount > 0 {
        let i = slot_pos(v, id)->0;
        let w = match remove_spec(v, id, amount) {
            Ok(x) => x,
            Err(_) => v,
        };
        if v[i].1 == amount {
            assert(w == v.remove(i));
            assert forall|a: int, b: int| 0 <= a < b < w.len() implies #[trigger] w[a].0
                != #[trigger] w[b].0 by {
                let oa = if a < i { a } else { a + 1 };
                let ob = if b < i { b } else { b + 1 };
                assert(v[oa].0 != v[ob].0);
            }
            assert forall|a: int| 0 <= a < w.len() implies #[trigger] w[a].1 >= 1 by {
                let oa = if a < i { a } else { a + 1 };
                assert(v[oa].1 >= 1);
            }
        } else {
            assert(w == v.update(i, (id, (v[i].1 - amount) as u32)));
            assert forall|a: int, b: int| 0 <= a < b < w.len() implies #[trigger] w[a].0
                != #[trigger] w[b].0 by {
                assert(v[a].0 != v[b].0);
            }
        }
        lemma_count_at(v, id);
        lemma_count_at(w, id);
        if v[i].1 == amount {
            assert forall|k: int| 0 <= k < w.len() implies #[trigger] w[k].0 != id by {
                let ok = if k < i { k } else { k + 1 };
                if ok < i {
                    assert(v[ok].0 != v[i].0);
                } else {
                    assert(v[i].0 != v[ok].0);
                }
            }
        } else {
            assert(w[i].0 == id);
        }
        assert forall|other: Seq<char>| other != id implies #[trigger] count_spec(w, other)
            == count_spec(v, other) by {
            lemma_count_at(v, other);
            lemma_count_at(w, other);
            if v[i].1 == amount {
                if exists|k: int| 0 <= k < v.len() && v[k].0 == other {
                    let k = choose|k: int| 0 <= k < v.len() && v[k].0 == other;
                    assert(k != i);
                    let nk = if k < i { k } else { k - 1 };
                    assert(w[nk] == v[k]);
                } else {
                    assert forall|k: int| 0 <= k < w.len() implies #[trigger] w[k].0 != other by {
                        let ok = if k < i { k } else { k + 1 };
                        assert(v[ok].0 != other);
                    }
                }
            } else {
                if exists|k: int| 0 <= k < v.len() && v[k].0 == other {
                    let k = choose|k: int| 0 <= k < v.len() && v[k].0 == other;
                    assert(w[k] == v[k]);
                } else {
                    assert forall|k: int| 0 <= k < w.len() implies #[trigger] w[k].0 != other by {
                        assert(v[k].0 != other);
                    }
                }
            }
        }
    }
}

/// A successful add sets the count of `id` to [`added_count`] and leaves
/// every other item's count as it was.
pub proof fn lemma_add_counts(
    v: Seq<(Seq<char>, u32)>,
    cap: Option<usize>,
    id: Seq<char>,
    amount: u32,
    max_stack: u32,
    stackable: bool,
)
    requires
        slots_wf(v),
        add_raw_spec(v, cap, id, amount, max_stack, stackable) is Ok,
    ensures
        slots_wf(add_result(v, cap, id, amount, max_stack, stackable)),
        count_spec(add_result(v, cap, id, amount, max_stack, stackable), id) == added_count(
            v,
            id,
            amount,
            max_stack,
            stackable,
        ),
        forall|other: Seq<char>|
            other != id ==> #[trigger] count_spec(
                add_result(v, cap, id, amount, max_stack, stackable),
                other,
            ) == count_spec(v, other),
{
    lemma_slot_pos_from(v, id, 0);
    if amount > 0 {
        let w = match add_raw_spec(v, cap, id, amount, max_stack, stackable) {
            Ok(x) => x,
            Err(_) => v,
        };
        match slot_pos(v, id) {
            Some(i) => {
                assert forall|a: int, b: int| 0 <= a < b < w.len() implies #[trigger] w[a].0
                    != #[trigger] w[b].0 by {
                    assert(v[a].0 != v[b].0);
                }
                lemma_count_at(w, id);
                assert(w[i].0 == id);
                assert forall|other: Seq<char>| other != id implies #[trigger] count_spec(w, other)
                    == count_spec(v, other) by {
                    lemma_count_at(v, other);
                    lemma_count_at(w, other);
                    if exists|k: int| 0 <= k < v.len() && v[k].0 == other {
                        let k = choose|k: int| 0 <= k < v.len() && v[k].0 == other;
                        assert(w[k] == v[k]);
                    } else {
                        assert forall|k: int| 0 <= k < w.len() implies #[trigger] w[k].0 != other by {
                            assert(v[k].0 != other);
                        }
                    }
                }
            },
            None => {
                let n = v.len() as int;
                assert forall|a: int, b: int| 0 <= a < b < w.len() implies #[trigger] w[a].0
                    != #[trigger] w[b].0 by {
                    if b < n {
                        assert(v[a].0 != v[b].0);
                    }
                }
                lemma_count_at(w, id);
                assert(w[n].0 == id);
                assert forall|other: Seq<char>| other != id implies #[trigger] count_spec(w, other)
                    == count_spec(v, other) by {
                    lemma_count_at(v, other);
                    lemma_count_at(w, other);
                    if exists|k: int| 0 <= k < v.len() && v[k].0 == other {
                        let k = choose|k: int| 0 <= k < v.len() && v[k].0 == other;
                        assert(w[k] == v[k]);
                    } else {
                        assert forall|k: int| 0 <= k < w.len() implies #[trigger] w[k].0 != other by {
                            if k < n {
                                assert(v[k].0 != other);
                            }
                        }
                    }
                }
            },
        }
    }
}

impl Inventory {
    #[verifier::type_invariant]
    spec fn inv(self) -> bool {
        slots_wf(slots_view(self.slots@))
    }

    /// The slots as (id, count) pairs, in insertion order.
    pub closed spec fn view(&self) -> Seq<(Seq<char>, u32)> {
        slots_view(self.slots@)
    }

    /// The slot capacity, if limited.
    pub closed spec fn cap(&self) -> Option<usize> {
        self.capacity
    }

    /// Empty inventory with no capacity limit.
    pub fn new() -> (r: Inventory)
        ensures
            r@ == Seq::<(Seq<char>, u32)>::empty(),
            r.cap() is None,
            slots_wf(r@),
    {
        let r = Inventory { slots: Vec::new(), capacity: None };
        assert(r@ =~= Seq::<(Seq<char>, u32)>::empty());
        r
    }

    /// Empty inventory with a hard slot capacity.
    pub fn with_capacity(capacity: usize) -> (r: Inventory)
        ensures
            r@ == Seq::<(Seq<char>, u32)>::empty(),
            r.cap() == Some(capacity),
            slots_wf(r@),
    {
        let r = Inventory { slots: Vec::new(), capacity: Some(capacity) };
        assert(r@ =~= Seq::<(Seq<char>, u32)>::empty());
        r
    }

    /// Slot capacity, if limited.
    pub fn capacity(&self) -> (r: Option<usize>)
        ensures
            r == self.cap(),
    {
        self.capacity
    }

    /// Number of distinct slots occupied.
    pub fn len(&self) -> (r: usize)
        ensures
            r == self@.len(),
    {
        self.slots.len()
    }

    /// Whether the bag is empty.
    pub fn is_empty(&self) -> (r: bool)
        ensures
            r == (self@.len() == 0),
    {
        self.slots.len() == 0
    }

    /// The slots in insertion order.
    pub fn slots(&self) -> (r: &Vec<Slot>)
        ensures
            slots_view(r@) == self@,
    {
        &self.slots
    }

    /// Item asset ids for save serialization: each slot's `items/<id>` id,
    /// repeated `count` times.
    pub fn to_asset_ids(&self) -> (r: Vec<AssetId>)
        ensures
            ids_view(r@) == expand_ids(self@),
    {
        let ghost v = self@;
        let mut out: Vec<AssetId> = Vec::new();
        let mut i: usize = 0;
        while i < self.slots.len()
            invariant
                v == slots_view(self.slots@),
                i <= self.slots.len(),
                ids_view(out@) == expand_ids(v.take(i as int)),
            decreases self.slots.len() - i,
        {
            let s = &self.slots[i];
            let aid = s.asset_id();
            let ghost base = ids_view(out@);
            let mut c: u32 = 0;
            while c < s.count
                invariant
                    c <= s.count,
                    aid.0 == item_asset(s.id@),
                    ids_view(out@) == base + Seq::new(
                        c as nat,
                        |k: int| item_asset(s.id@),
                    ),
                decreases s.count - c,
            {
                let ghost o = out@;
                out.push(aid);
                assert(ids_view(out@) =~= ids_view(o).push(aid.0));
                c = c + 1;
                assert(ids_view(out@) =~= base + Seq::new(
                    c as nat,
                    |k: int| item_asset(s.id@),
                ));
            }
            i = i + 1;
            assert(v.take(i as int).drop_last() =~= v.take(i - 1));
            assert(v.take(i as int).last() == (s.id@, s.count));
        }
        assert(v.take(v.len() as int) =~= v);
        out
    }

    /// Rebuild from a flat asset-id list (save load): each id that `resolve`
    /// maps to an item id adds one copy, stacking without limit.
    pub fn from_asset_ids<F: Fn(AssetId) -> Option<String>>(ids: &[AssetId], resolve: F) -> (r:
        Inventory)
        requires
            forall|i: int| 0 <= i < ids@.len() ==> call_requires(resolve, (ids@[i],)),
        ensures
            r.cap() is None,
            slots_wf(r@),
            exists|rs: Seq<Option<String>>|
                #[trigger] resolutions(resolve, ids@, rs) && r@ == from_resolved_spec(
                    opts_view(rs),
                ),
    {
        let mut inv = Inventory::new();
        let ghost mut rs: Seq<Option<String>> = Seq::empty();
        let mut i: usize = 0;
        while i < ids.len()
            invariant
                i <= ids@.len(),
                forall|k: int| 0 <= k < ids@.len() ==> call_requires(resolve, (ids@[k],)),
                inv.cap() is None,
                slots_wf(inv@),
                rs.len() == i,
                forall|k: int| 0 <= k < i ==> call_ensures(resolve, (ids@[k],), #[trigger] rs[k]),
                inv@ == from_resolved_spec(opts_view(rs)),
            decreases ids.len() - i,
        {
            let got = resolve(ids[i]);
            let ghost prev = rs;
            proof {
                rs = rs.push(got);
                assert(opts_view(rs).drop_last() =~= opts_view(prev));
            }
            match got {
                Some(id) => {
                    let _ = inv.add_raw(id.as_str(), 1, u32::MAX, true);
                },
                None => {},
            }
            i = i + 1;
        }
        assert(resolutions(resolve, ids@, rs));
        inv
    }

    fn position(&self, id: &str) -> (r: Option<usize>)
        ensures
            match r {
                Some(p) => slot_pos(self@, id@) == Some(p as int) && p < self@.len() && self@[p as int].0
                    == id@,
                None => slot_pos(self@, id@) is None && forall|j: int|
                    0 <= j < self@.len() ==> self@[j].0 != id@,
            },
    {
        let ghost v = self@;
        proof {
            lemma_slot_pos_from(v, id@, 0);
        }
        let mut i: usize = 0;
        while i < self.slots.len()
            invariant
                v == self@,
                i <= self.slots.len(),
                slot_pos_from(v, id@, i as int) == slot_pos(v, id@),
                forall|j: int| 0 <= j < i ==> v[j].0 != id@,
            decreases self.slots.len() - i,
        {
            if str_eq(self.slots[i].id.as_str(), id) {
                return Some(i);
            }
            i = i + 1;
        }
        None
    }

    /// Count of a given item id (0 if absent).
    pub fn count(&self, id: &str) -> (r: u32)
        ensures
            r == count_spec(self@, id@),
    {
        match self.position(id) {
            Some(i) => {
                assert(self@[i as int] == (self.slots@[i as int].id@, self.slots@[i as int].count));
                self.slots[i].count
            },
            None => 0,
        }
    }

    /// Whether at least `n` of `id` are held.
    pub fn has(&self, id: &str, n: u32) -> (r: bool)
        ensures
            r == (count_spec(self@, id@) >= n),
    {
        self.count(id) >= n
    }

    /// Whether any of `id` is held.
    pub fn has_any(&self, id: &str) -> (r: bool)
        ensures
            r == (count_spec(self@, id@) >= 1),
    {
        self.has(id, 1)
    }

    /// Add one copy using the item definition's stack rules.
    pub fn add(&mut self, item: &Item) -> (r: Result<(), InventoryError>)
        ensures
            final(self).cap() == old(self).cap(),
            slots_wf(final(self)@),
            match add_raw_spec(
                old(self)@,
                old(self).cap(),
                item.id@,
                1,
                effective_max_stack_spec(item.stackable, item.max_stack),
                item.stackable,
            ) {
                Ok(v) => r is Ok && final(self)@ == v,
                Err(c) => r == Err::<(), InventoryError>(InventoryError::Full { capacity: c })
                    && final(self)@ == old(self)@,
            },
    {
        let m = item.effective_max_stack();
        self.add_raw(item.id.as_str(), 1, m, item.stackable)
    }

    /// Add `amount` copies using the item definition's stack rules.
    pub fn add_n(&mut self, item: &Item, amount: u32) -> (r: Result<(), InventoryError>)
        ensures
            final(self).cap() == old(self).cap(),
            slots_wf(final(self)@),
            match add_raw_spec(
                old(self)@,
                old(self).cap(),
                item.id@,
                amount,
                effective_max_stack_spec(item.stackable, item.max_stack),
                item.stackable,
            ) {
                Ok(v) => r is Ok && final(self)@ == v,
                Err(c) => r == Err::<(), InventoryError>(InventoryError::Full { capacity: c })
                    && final(self)@ == old(self)@,
            },
    {
        proof {
            use_type_invariant(&*self);
        }
        if amount == 0 {
            return Ok(());
        }
        let m = item.effective_max_stack();
        self.add_raw(item.id.as_str(), amount, m, item.stackable)
    }

    /// Add one copy by raw id (no definition at hand): never stacks.
    pub fn add_id(&mut self, id: &str) -> (r: Result<(), InventoryError>)
        ensures
            final(self).cap() == old(self).cap(),
            slots_wf(final(self)@),
            match add_raw_spec(old(self)@, old(self).cap(), id@, 1, 1, false) {
                Ok(v) => r is Ok && final(self)@ == v,
                Err(c) => r == Err::<(), InventoryError>(InventoryError::Full { capacity: c })
                    && final(self)@ == old(self)@,
            },
    {
        self.add_raw(id, 1, 1, false)
    }

    fn add_raw(&mut self, id: &str, amount: u32, max_stack: u32, stackable: bool) -> (r: Result<
        (),
        InventoryError,
    >)
        ensures
            final(self).cap() == old(self).cap(),
            slots_wf(final(self)@),
            match add_raw_spec(old(self)@, old(self).cap(), id@, amount, max_stack, stackable) {
                Ok(v) => r is Ok && final(self)@ == v,
                Err(c) => r == Err::<(), InventoryError>(InventoryError::Full { capacity: c })
                    && final(self)@ == old(self)@,
            },
    {
        proof {
            use_type_invariant(&*self);
            lemma_slot_pos_from(self@, id@, 0);
        }
        if amount == 0 {
            return Ok(());
        }
        let limit = if max_stack >= 1 {
            max_stack
        } else {
            1
        };
        match self.position(id) {
            Some(i) => {
                let mut taken = Inventory::new();
                std::mem::swap(self, &mut taken);
                let Inventory { mut slots, capacity } = taken;
                let old_count = slots[i].count;
                let new_count = if stackable {
                    let s = old_count.saturating_add(amount);
                    if s <= limit {
                        s
                    } else {
                        limit
                    }
                } else {
                    1
                };
                let new_slot = Slot { id: id.to_owned(), count: new_count };
                let ghost before = slots_view(slots@);
                assert(before == old(self)@);
                assert(before[i as int].0 == id@);
                slots.set(i, new_slot);
                proof {
                    assert(slots_view(slots@) =~= before.update(i as int, (id@, new_count)));
                    assert forall|a: int, b: int|
                        0 <= a < b < slots_view(slots@).len() implies #[trigger] slots_view(
                        slots@)[a].0 != #[trigger] slots_view(slots@)[b].0 by {
                        assert(before[a].0 != before[b].0);
                    }
                }
                *self = Inventory { slots, capacity };
                Ok(())
            },
            None => {
                match self.capacity {
                    Some(cap) => {
                        if self.slots.len() >= cap {
                            return Err(InventoryError::Full { capacity: cap });
                        }
                    },
                    None => {},
                }
                let count = if stackable {
                    if amount <= limit {
                        amount
                    } else {
                        limit
                    }
                } else {
                    1
                };
                let mut taken = Inventory::new();
                std::mem::swap(self, &mut taken);
                let Inventory { mut slots, capacity } = taken;
                let ghost before = slots_view(slots@);
                slots.push(Slot { id: id.to_owned(), count });
                proof {
                    assert(slots_view(slots@) =~= before.push((id@, count)));
                    assert forall|a: int, b: int|
                        0 <= a < b < slots_view(slots@).len() implies #[trigger] slots_view(
                        slots@)[a].0 != #[trigger] slots_view(slots@)[b].0 by {
                        if b < before.len() {
                            assert(before[a].0 != before[b].0);
                        } else {
                            assert(before[a].0 != id@);
                        }
                    }
                }
                *self = Inventory { slots, capacity };
                Ok(())
            },
        }
    }

    /// Remove `amount` of `id`.
    ///
    /// Fails with `NotEnough` (holding `have`) when fewer than `amount` are held.
    pub fn remove(&mut self, id: &str, amount: u32) -> (r: Result<(), InventoryError>)
        ensures
            r is Ok ==> count_spec(final(self)@, id@) == count_spec(old(self)@, id@) - amount,
            r is Ok ==> forall|other: Seq<char>|
                other != id@ ==> #[trigger] count_spec(final(self)@, other) == count_spec(
                    old(self)@,
                    other,
                ),
            final(self).cap() == old(self).cap(),
            slots_wf(final(self)@),
            match remove_spec(old(self)@, id@, amount) {
                Ok(v) => r is Ok && final(self)@ == v,
                Err(have) => final(self)@ == old(self)@ && match r {
                    Err(InventoryError::NotEnough { id: eid, have: h, need }) => eid@ == id@ && h
                        == have && need == amount,
                    _ => false,
                },
            },
    {
        proof {
            use_type_invariant(&*self);
            lemma_slot_pos_from(self@, id@, 0);
            if remove_spec(self@, id@, amount) is Ok {
                lemma_remove_counts(self@, id@, amount);
            }
        }
        if amount == 0 {
            return Ok(());
        }
        let idx = match self.position(id) {
            Some(i) => i,
            None => {
                return Err(InventoryError::NotEnough { id: id.to_owned(), have: 0, need: amount });
            },
        };
        let have = self.slots[idx].count;
        assert(self@[idx as int] == (self.slots@[idx as int].id@, have));
        if have < amount {
            return Err(InventoryError::NotEnough { id: id.to_owned(), have, need: amount });
        }
        let mut taken = Inventory::new();
        std::mem::swap(self, &mut taken);
        let Inventory { mut slots, capacity } = taken;
        let ghost before = slots_view(slots@);
        assert(before == old(self)@);
        if have == amount {
            slots.remove(idx);
            proof {
                assert(slots_view(slots@) =~= before.remove(idx as int));
                assert forall|a: int, b: int|
                    0 <= a < b < slots_view(slots@).len() implies #[trigger] slots_view(slots@)[a].0
                    != #[trigger] slots_view(slots@)[b].0 by {
                    let oa = if a < idx { a } else { a + 1 };
                    let ob = if b < idx { b } else { b + 1 };
                    assert(before[oa].0 != before[ob].0);
                }
                assert forall|a: int| 0 <= a < slots_view(slots@).len() implies #[trigger] slots_view(
                    slots@)[a].1 >= 1 by {
                    let oa = if a < idx { a } else { a + 1 };
                    assert(before[oa].1 >= 1);
                }
            }
        } else {
            let new_slot = Slot { id: id.to_owned(), count: have - amount };
            slots.set(idx, new_slot);
            proof {
                assert(slots_view(slots@) =~= before.update(idx as int, (id@, (have - amount) as u32)));
                assert forall|a: int, b: int|
                    0 <= a < b < slots_view(slots@).len() implies #[trigger] slots_view(slots@)[a].0
                    != #[trigger] slots_view(slots@)[b].0 by {
                    assert(before[a].0 != before[b].0);
                }
            }
        }
        *self = Inventory { slots, capacity };
        proof {
            let w = match remove_spec(old(self)@, id@, amount) {
                Ok(x) => x,
                Err(_) => old(self)@,
            };
            assert(self@ == w);
            assert(slots_wf(old(self)@));
            lemma_remove_counts(old(self)@, id@, amount);
            assert forall|other: Seq<char>| other != id@ implies #[trigger] count_spec(self@, other)
                == count_spec(old(self)@, other) by {
                assert(count_spec(remove_result(old(self)@, id@, amount), other) == count_spec(
                    old(self)@,
                    other,
                ));
            }
        }
        Ok(())
    }

    /// Remove one of `id`.
    pub fn remove_one(&mut self, id: &str) -> (r: Result<(), InventoryError>)
        ensures
            final(self).cap() == old(self).cap(),
            slots_wf(final(self)@),
            match remove_spec(old(self)@, id@, 1) {
                Ok(v) => r is Ok && final(self)@ == v,
                Err(have) => final(self)@ == old(self)@ && match r {
                    Err(InventoryError::NotEnough { id: eid, have: h, need }) => eid@ == id@ && h
                        == have && need == 1,
                    _ => false,
                },
            },
    {
        self.remove(id, 1)
    }

    /// Clear all slots.
    pub fn clear(&mut self)
        ensures
            final(self)@ == Seq::<(Seq<char>, u32)>::empty(),
            final(self).cap() == old(self).cap(),
            slots_wf(final(self)@),
            slots_wf(final(self)@),
    {
        let mut taken = Inventory::new();
        std::mem::swap(self, &mut taken);
        let Inventory { slots: _, capacity } = taken;
        *self = Inventory { slots: Vec::new(), capacity };
        assert(self@ =~= Seq::<(Seq<char>, u32)>::empty());
    }

    /// Slot index for UI hit-testing, if present.
    pub fn index_of(&self, id: &str) -> (r: Option<usize>)
        ensures
            match slot_pos(self@, id@) {
                Some(p) => r == Some(p as usize),
                None => r is None,
            },
    {
        self.position(id)
    }

    /// Slot by index (inventory bar order).
    pub fn get(&self, index: usize) -> (r: Option<&Slot>)
        ensures
            index < self@.len() ==> (r matches Some(s) && s.id@ == self@[index as int].0 && s.count
                == self@[index as int].1),
            index >= self@.len() ==> r is None,
    {
        if index < self.slots.len() {
            Some(&self.slots[index])
        } else {
            None
        }
    }
}

impl Clone for Inventory {
    fn clone(&self) -> (r: Self)
        ensures
            r@ == self@,
            r.cap() == self.cap(),
            slots_wf(r@),
    {
        proof {
            use_type_invariant(self);
        }
        let mut slots: Vec<Slot> = Vec::new();
        let mut i: usize = 0;
        while i < self.slots.len()
            invariant
                i <= self.slots.len(),
                slots_view(slots@) == slots_view(self.slots@).take(i as int),
            decreases self.slots.len() - i,
        {
            let ghost o = slots@;
            let sl = Slot { id: self.slots[i].id.clone(), count: self.slots[i].count };
            assert(sl.id@ == self.slots@[i as int].id@);
            slots.push(sl);
            assert(slots@ == o.push(sl));
            assert(slots_view(slots@) =~= slots_view(o).push((sl.id@, sl.count)));
            assert(slots_view(self.slots@)[i as int] == (sl.id@, sl.count));
            i = i + 1;
            assert(slots_view(slots@) =~= slots_view(self.slots@).take(i as int));
        }
        assert(slots_view(self.slots@).take(self.slots.len() as int) =~= slots_view(self.slots@));
        Inventory { slots, capacity: self.capacity }
    }
}

impl Default for Inventory {
    fn default() -> (r: Self)
        ensures
            r@ == Seq::<(Seq<char>, u32)>::empty(),
            r.cap() is None,
            slots_wf(r@),
    {
        Inventory::new()
    }
}

} // verus!
