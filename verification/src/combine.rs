//! Item combine rules — use item A on item B — and the item catalog.
//!
//! Fail closed: unknown pairs produce [`CombineResult::Failed`] with a
//! default or author-supplied message. Successful recipes may consume one
//! or both inputs and optionally grant a result item.

use vstd::prelude::*;
use crate::inventory::{Item, Inventory, InventoryError, opt_view, count_spec, remove_result, add_raw_spec, add_result, effective_max_stack_spec, slots_wf, lemma_remove_counts, lemma_add_counts};
use crate::str_map::StrMap;
use crate::text::str_eq;

verus! {

/// Default fail-closed message when no recipe matches.
pub const DEFAULT_FAIL_MESSAGE: &'static str = "That doesn't work.";

/// One authored combine recipe. Order of `a` / `b` is insignificant at
/// match time unless `ordered` is set.
#[derive(Clone, Debug, PartialEq, Eq)]
pub struct CombineRule {
    /// First ingredient id.
    pub a: String,
    /// Second ingredient id.
    pub b: String,
    /// Result item id granted on success (optional).
    pub result: Option<String>,
    /// Remove one of `a` from inventory.
    pub consume_a: bool,
    /// Remove one of `b` from inventory.
    pub consume_b: bool,
    /// Success message for UI / log.
    pub message: String,
    /// When true, only (`a` used on `b`) matches — not the reverse.
    pub ordered: bool,
    /// Optional named action id for scripting hooks.
    pub action: Option<String>,
}

/// Whether a rule matches `used` on `target`.
pub open spec fn rule_matches(r: CombineRule, used: Seq<char>, target: Seq<char>) -> bool {
    if r.ordered {
        r.a@ == used && r.b@ == target
    } else {
        (r.a@ == used && r.b@ == target) || (r.a@ == target && r.b@ == used)
    }
}

/// Index of the first rule (from `i`) that matches.
pub open spec fn rule_pos(rules: Seq<CombineRule>, used: Seq<char>, target: Seq<char>, i: int) -> Option<
    int,
>
    decreases rules.len() - i,
{
    if i < 0 || i >= rules.len() {
        None
    } else if rule_matches(rules[i], used, target) {
        Some(i)
    } else {
        rule_pos(rules, used, target, i + 1)
    }
}

impl CombineRule {
    /// An unordered recipe that consumes both ingredients and grants `result`.
    pub fn recipe(a: &str, b: &str, result: &str, message: &str) -> (r: CombineRule)
        ensures
            r.a@ == a@,
            r.b@ == b@,
            opt_view(r.result) == Some(result@),
            r.consume_a,
            r.consume_b,
            r.message@ == message@,
            !r.ordered,
            r.action is None,
    {
        CombineRule {
            a: a.to_owned(),
            b: b.to_owned(),
            result: Some(result.to_owned()),
            consume_a: true,
            consume_b: true,
            message: message.to_owned(),
            ordered: false,
            action: None,
        }
    }

    /// Whether (`used`, `target`) matches this rule.
    pub fn matches(&self, used: &str, target: &str) -> (r: bool)
        ensures
            r == rule_matches(*self, used@, target@),
    {
        if self.ordered {
            str_eq(self.a.as_str(), used) && str_eq(self.b.as_str(), target)
        } else {
            (str_eq(self.a.as_str(), used) && str_eq(self.b.as_str(), target)) || (str_eq(
                self.a.as_str(),
                target,
            ) && str_eq(self.b.as_str(), used))
        }
    }
}

/// Outcome of attempting a combine (always fail-closed).
#[derive(Clone, Debug, PartialEq, Eq)]
pub enum CombineResult {
    /// Recipe matched and inventory was updated.
    Success {
        /// Human-readable success text.
        message: String,
        /// New item granted, if any.
        result: Option<String>,
        /// Optional action id for host scripting.
        action: Option<String>,
    },
    /// No recipe / cannot combine.
    Failed {
        /// Fail message.
        message: String,
    },
}

impl CombineResult {
    /// Success?
    pub fn is_success(&self) -> (r: bool)
        ensures
            r == (self is Success),
    {
        match self {
            CombineResult::Success { .. } => true,
            CombineResult::Failed { .. } => false,
        }
    }

    /// Message for either arm.
    pub fn message(&self) -> (r: &str)
        ensures
            r@ == match self {
                CombineResult::Success { message, .. } => message@,
                CombineResult::Failed { message } => message@,
            },
    {
        match self {
            CombineResult::Success { message, .. } => message.as_str(),
            CombineResult::Failed { message } => message.as_str(),
        }
    }
}

/// The success outcome of rule `rule`.
pub open spec fn is_success_of(r: CombineResult, rule: CombineRule) -> bool {
    match r {
        CombineResult::Success { message, result, action } => message@ == rule.message@ && opt_view(
            result,
        ) == opt_view(rule.result) && opt_view(action) == opt_view(rule.action),
        _ => false,
    }
}

/// A failure outcome carrying message `m`.
pub open spec fn is_failed_with(r: CombineResult, m: Seq<char>) -> bool {
    match r {
        CombineResult::Failed { message } => message@ == m,
        _ => false,
    }
}

/// Lookup table of item definitions by id.
pub struct ItemCatalog {
    items: StrMap<Item>,
}

impl ItemCatalog {
    /// The definitions by id.
    pub closed spec fn view(&self) -> Map<Seq<char>, Item> {
        self.items@
    }

    /// Empty catalog.
    pub fn new() -> (r: ItemCatalog)
        ensures
            r@ == Map::<Seq<char>, Item>::empty(),
    {
        ItemCatalog { items: StrMap::new() }
    }

    /// Insert / replace an item definition under its id.
    pub fn insert(&mut self, item: Item)
        ensures
            final(self)@ == old(self)@.insert(item.id@, item),
    {
        let k = item.id.clone();
        self.items.insert(k, item);
    }

    /// Builder-style insert.
    pub fn with(self, item: Item) -> (r: ItemCatalog)
        ensures
            r@ == self@.insert(item.id@, item),
    {
        let mut c = self;
        c.insert(item);
        c
    }

    /// Look up by id.
    pub fn get(&self, id: &str) -> (r: Option<&Item>)
        ensures
            r is Some == self@.contains_key(id@),
            r matches Some(v) ==> *v == self@[id@],
    {
        self.items.get(id)
    }

    /// Whether the catalog knows `id`.
    pub fn contains(&self, id: &str) -> (r: bool)
        ensures
            r == self@.contains_key(id@),
    {
        self.items.contains_key(id)
    }

    /// Number of definitions.
    pub fn len(&self) -> (r: usize)
        ensures
            r == self@.len(),
    {
        self.items.len()
    }

    /// The ids of the definitions, ascending.
    pub closed spec fn id_seq(&self) -> Seq<Seq<char>> {
        self.items.key_seq()
    }

    /// All definitions, in ascending id order.
    pub fn iter(&self) -> (r: Vec<&Item>)
        ensures
            r@.len() == self@.len(),
            self.id_seq().len() == r@.len(),
            forall|i: int| 0 <= i < r@.len() ==> self@.contains_key(#[trigger] self.id_seq()[i]) && *r@[i]
                == self@[self.id_seq()[i]],
            forall|i: int, j: int|
                0 <= i < j < r@.len() ==> crate::str_map::key_lt(
                    #[trigger] self.id_seq()[i],
                    #[trigger] self.id_seq()[j],
                ),
            forall|k: Seq<char>| #[trigger] self@.contains_key(k) ==> self.id_seq().contains(k),
    {
        let n = self.items.entry_count();
        let mut out: Vec<&Item> = Vec::new();
        let mut i: usize = 0;
        while i < n
            invariant
                i <= n,
                n == self.items.key_seq().len(),
                n == self.items.val_seq().len(),
                out@.len() == i,
                forall|k: int| 0 <= k < i ==> *out@[k] == self.items.val_seq()[k],
            decreases n - i,
        {
            out.push(self.items.val_at(i));
            i = i + 1;
        }
        out
    }

    /// Empty?
    pub fn is_empty(&self) -> (r: bool)
        ensures
            r == (self@.len() == 0),
    {
        self.items.is_empty()
    }
}

impl Default for ItemCatalog {
    fn default() -> (r: Self)
        ensures
            r@ == Map::<Seq<char>, Item>::empty(),
    {
        ItemCatalog::new()
    }
}

/// Table of combine recipes (first match wins).
#[derive(Clone, Debug, PartialEq, Eq)]
pub struct CombineTable {
    /// Recipes in author order.
    pub rules: Vec<CombineRule>,
    /// Override for the fail-closed message.
    pub fail_message: Option<String>,
}

/// The table's fail-closed message.
pub open spec fn fail_message_spec(t: CombineTable) -> Seq<char> {
    match t.fail_message {
        Some(m) => m@,
        None => DEFAULT_FAIL_MESSAGE@,
    }
}

/// Consume flags mapped onto (used, target) from the rule's (a, b).
pub open spec fn consume_flags(rule: CombineRule, used: Seq<char>, target: Seq<char>) -> (bool, bool) {
    if rule.a@ == used && rule.b@ == target {
        (rule.consume_a, rule.consume_b)
    } else if rule.a@ == target && rule.b@ == used {
        (rule.consume_b, rule.consume_a)
    } else {
        (rule.consume_a, rule.consume_b)
    }
}

/// What [`CombineTable::apply`] decides, before it is put into exec values.
pub enum ApplyOutcome {
    /// No recipe: fail closed with this message.
    Failed(Seq<char>),
    /// Rule at this index applied.
    Success(int),
    /// An ingredient is missing.
    NotEnough { id: Seq<char>, have: u32, need: u32 },
    /// Granting the result needed a slot past capacity.
    Full(usize),
}

/// Outcome and final slots of applying `table` to a bag.
pub open spec fn apply_spec(
    table: CombineTable,
    v: Seq<(Seq<char>, u32)>,
    cap: Option<usize>,
    used: Seq<char>,
    target: Seq<char>,
    catalog: Map<Seq<char>, Item>,
) -> (ApplyOutcome, Seq<(Seq<char>, u32)>) {
    match rule_pos(table.rules@, used, target, 0) {
        None => (ApplyOutcome::Failed(fail_message_spec(table)), v),
        Some(ri) => {
            let rule = table.rules@[ri];
            if used == target && count_spec(v, used) < 2 {
                (ApplyOutcome::NotEnough { id: used, have: count_spec(v, used), need: 2 }, v)
            } else if used != target && count_spec(v, used) < 1 {
                (ApplyOutcome::NotEnough { id: used, have: 0, need: 1 }, v)
            } else if used != target && count_spec(v, target) < 1 {
                (ApplyOutcome::NotEnough { id: target, have: 0, need: 1 }, v)
            } else {
                let (cu, ct) = consume_flags(rule, used, target);
                let v1 = if cu {
                    remove_result(v, used, 1)
                } else {
                    v
                };
                let v2 = if ct {
                    remove_result(v1, target, 1)
                } else {
                    v1
                };
                match rule.result {
                    None => (ApplyOutcome::Success(ri), v2),
                    Some(res) => {
                        let step = if catalog.contains_key(res@) {
                            let d = catalog[res@];
                            add_raw_spec(
                                v2,
                                cap,
                                d.id@,
                                1,
                                effective_max_stack_spec(d.stackable, d.max_stack),
                                d.stackable,
                            )
                        } else {
                            add_raw_spec(v2, cap, res@, 1, 1, false)
                        };
                        match step {
                            Ok(v3) => (ApplyOutcome::Success(ri), v3),
                            Err(c) => (ApplyOutcome::Full(c), v2),
                        }
                    },
                }
            }
        },
    }
}

/// The exec result agrees with an [`ApplyOutcome`].
pub open spec fn result_agrees(
    r: Result<CombineResult, InventoryError>,
    o: ApplyOutcome,
    rules: Seq<CombineRule>,
) -> bool {
    match o {
        ApplyOutcome::Failed(m) => r matches Ok(c) && is_failed_with(c, m),
        ApplyOutcome::Success(i) => r matches Ok(c) && is_success_of(c, rules[i]),
        ApplyOutcome::NotEnough { id, have, need } => match r {
            Err(InventoryError::NotEnough { id: e, have: h, need: n }) => e@ == id && h == have && n
                == need,
            _ => false,
        },
        ApplyOutcome::Full(c) => r == Err::<CombineResult, InventoryError>(
            InventoryError::Full { capacity: c },
        ),
    }
}

impl CombineTable {
    /// Empty table (everything fails closed).
    pub fn new() -> (r: CombineTable)
        ensures
            r.rules@.len() == 0,
            r.fail_message is None,
    {
        CombineTable { rules: Vec::new(), fail_message: None }
    }

    /// Builder-style rule insert (appended last).
    pub fn with_rule(self, rule: CombineRule) -> (r: CombineTable)
        ensures
            r.rules@ == self.rules@.push(rule),
            r.fail_message == self.fail_message,
    {
        let mut t = self;
        t.rules.push(rule);
        t
    }

    /// The first matching rule for (`used`, `target`).
    pub fn find(&self, used: &str, target: &str) -> (r: Option<&CombineRule>)
        ensures
            match rule_pos(self.rules@, used@, target@, 0) {
                Some(i) => r == Some(&self.rules@[i]),
                None => r is None,
            },
    {
        let mut i: usize = 0;
        while i < self.rules.len()
            invariant
                i <= self.rules.len(),
                rule_pos(self.rules@, used@, target@, i as int) == rule_pos(
                    self.rules@,
                    used@,
                    target@,
                    0,
                ),
            decreases self.rules.len() - i,
        {
            if self.rules[i].matches(used, target) {
                return Some(&self.rules[i]);
            }
            i = i + 1;
        }
        None
    }

    fn fail_message(&self) -> (r: String)
        ensures
            r@ == fail_message_spec(*self),
    {
        match &self.fail_message {
            Some(m) => m.clone(),
            None => DEFAULT_FAIL_MESSAGE.to_owned(),
        }
    }

    /// Attempt a combine without touching any inventory (dry run).
    pub fn try_combine(&self, used: &str, target: &str) -> (r: CombineResult)
        ensures
            match rule_pos(self.rules@, used@, target@, 0) {
                Some(i) => is_success_of(r, self.rules@[i]),
                None => is_failed_with(r, fail_message_spec(*self)),
            },
    {
        match self.find(used, target) {
            Some(rule) => CombineResult::Success {
                message: rule.message.clone(),
                result: rule.result.clone(),
                action: rule.action.clone(),
            },
            None => CombineResult::Failed { message: self.fail_message() },
        }
    }

    /// Apply a combine: check both ingredients are held, consume them as the
    /// rule says, grant the result item.
    ///
    /// The result is added with its catalog definition's stack rules, or as a
    /// non-stackable raw id when the catalog does not know it. Unknown pairs
    /// give `Ok(Failed)` and leave the inventory alone.
    pub fn apply(
        &self,
        inv: &mut Inventory,
        used: &str,
        target: &str,
        catalog: &ItemCatalog,
    ) -> (r: Result<CombineResult, InventoryError>)
        requires
            slots_wf(old(inv)@),
        ensures
            result_agrees(
                r,
                apply_spec(*self, old(inv)@, old(inv).cap(), used@, target@, catalog@).0,
                self.rules@,
            ),
            final(inv)@ == apply_spec(*self, old(inv)@, old(inv).cap(), used@, target@, catalog@).1,
            final(inv).cap() == old(inv).cap(),
            slots_wf(final(inv)@),
    {
        let ghost v = inv@;
        let rule = match self.find(used, target) {
            Some(rule) => rule,
            None => {
                return Ok(CombineResult::Failed { message: self.fail_message() });
            },
        };
        // Both ingredients must be held (the same item twice needs two).
        let same = str_eq(used, target);
        if same {
            if !inv.has(used, 2) {
                return Err(
                    InventoryError::NotEnough { id: used.to_owned(), have: inv.count(used), need: 2 },
                );
            }
        } else {
            if !inv.has_any(used) {
                return Err(InventoryError::NotEnough { id: used.to_owned(), have: 0, need: 1 });
            }
            if !inv.has_any(target) {
                return Err(InventoryError::NotEnough { id: target.to_owned(), have: 0, need: 1 });
            }
        }
        // Map consume flags onto used/target (the rule stores a/b).
        let (consume_used, consume_target) = if str_eq(rule.a.as_str(), used) && str_eq(
            rule.b.as_str(),
            target,
        ) {
            (rule.consume_a, rule.consume_b)
        } else if str_eq(rule.a.as_str(), target) && str_eq(rule.b.as_str(), used) {
            (rule.consume_b, rule.consume_a)
        } else {
            (rule.consume_a, rule.consume_b)
        };
        if consume_used {
            proof {
                lemma_remove_counts(v, used@, 1);
            }
            match inv.remove_one(used) {
                Ok(()) => {},
                Err(e) => {
                    return Err(e);
                },
            }
        }
        let ghost v1 = inv@;
        if consume_target {
            proof {
                if consume_used {
                    assert(v1 == remove_result(v, used@, 1));
                    if used@ == target@ {
                        assert(count_spec(v1, target@) == count_spec(v, used@) - 1);
                    } else {
                        assert(count_spec(v1, target@) == count_spec(v, target@));
                    }
                }
                assert(count_spec(v1, target@) >= 1);
                lemma_remove_counts(v1, target@, 1);
            }
            match inv.remove_one(target) {
                Ok(()) => {},
                Err(e) => {
                    return Err(e);
                },
            }
        }
        match &rule.result {
            Some(result_id) => {
                match catalog.get(result_id.as_str()) {
                    Some(def) => {
                        match inv.add(def) {
                            Ok(()) => {},
                            Err(e) => {
                                return Err(e);
                            },
                        }
                    },
                    None => {
                        match inv.add_id(result_id.as_str()) {
                            Ok(()) => {},
                            Err(e) => {
                                return Err(e);
                            },
                        }
                    },
                }
            },
            None => {},
        }
        Ok(
            CombineResult::Success {
                message: rule.message.clone(),
                result: rule.result.clone(),
                action: rule.action.clone(),
            },
        )
    }
}

impl Default for CombineTable {
    fn default() -> (r: Self)
        ensures
            r.rules@.len() == 0,
            r.fail_message is None,
    {
        CombineTable::new()
    }
}

proof fn lemma_rule_pos(rules: Seq<CombineRule>, used: Seq<char>, target: Seq<char>, i: int)
    requires
        0 <= i,
    ensures
        rule_pos(rules, used, target, i) matches Some(p) ==> i <= p < rules.len() && rule_matches(
            rules[p],
            used,
            target,
        ),
    decreases rules.len() - i,
{
    if i < rules.len() && !rule_matches(rules[i], used, target) {
        lemma_rule_pos(rules, used, target, i + 1);
    }
}

/// The id a rule's result is granted under (its catalog definition's id
/// when the catalog knows it), if the rule grants one.
pub open spec fn granted_id(rule: CombineRule, catalog: Map<Seq<char>, Item>) -> Option<Seq<char>> {
    match rule.result {
        Some(res) => if catalog.contains_key(res@) {
            Some(catalog[res@].id@)
        } else {
            Some(res@)
        },
        None => None,
    }
}

/// `c` less one when `consume`.
pub open spec fn less_one_if(c: u32, consume: bool) -> int {
    if consume {
        c - 1
    } else {
        c as int
    }
}

/// A successful combine of two different ingredients takes one of the
/// rule's first ingredient `a` exactly when the rule says `consume_a`, and
/// one of its second ingredient `b` exactly when it says `consume_b`,
/// whichever of the two was used on the other; the granted result item
/// comes on top, and no other item's count changes.
pub proof fn lemma_apply_consumes_rule_ingredients(
    table: CombineTable,
    v: Seq<(Seq<char>, u32)>,
    cap: Option<usize>,
    used: Seq<char>,
    target: Seq<char>,
    catalog: Map<Seq<char>, Item>,
    ri: int,
)
    requires
        slots_wf(v),
        apply_spec(table, v, cap, used, target, catalog).0 == ApplyOutcome::Success(ri),
        table.rules@[ri].a@ != table.rules@[ri].b@,
    ensures
        ({
            let rule = table.rules@[ri];
            let w = apply_spec(table, v, cap, used, target, catalog).1;
            &&& (used == rule.a@ && target == rule.b@) || (used == rule.b@ && target == rule.a@)
            &&& granted_id(rule, catalog) != Some(rule.a@) ==> count_spec(w, rule.a@) == less_one_if(
                count_spec(v, rule.a@),
                rule.consume_a,
            )
            &&& granted_id(rule, catalog) != Some(rule.b@) ==> count_spec(w, rule.b@) == less_one_if(
                count_spec(v, rule.b@),
                rule.consume_b,
            )
            &&& forall|x: Seq<char>|
                x != rule.a@ && x != rule.b@ && granted_id(rule, catalog) != Some(x) ==> #[trigger] count_spec(
                    w,
                    x,
                ) == count_spec(v, x)
        }),
{
    let rules = table.rules@;
    lemma_rule_pos(rules, used, target, 0);
    let rule = rules[ri];
    let a = rule.a@;
    let b = rule.b@;
    assert(used != target);
    assert(count_spec(v, used) >= 1 && count_spec(v, target) >= 1);
    let (cu, ct) = consume_flags(rule, used, target);
    // cu / ct are the flags of `used` / `target` in the rule's terms.
    assert(cu == (if used == a { rule.consume_a } else { rule.consume_b }));
    assert(ct == (if target == a { rule.consume_a } else { rule.consume_b }));
    let v1 = if cu {
        remove_result(v, used, 1)
    } else {
        v
    };
    if cu {
        lemma_remove_counts(v, used, 1);
    }
    assert(slots_wf(v1));
    assert(count_spec(v1, target) == count_spec(v, target));
    let v2 = if ct {
        remove_result(v1, target, 1)
    } else {
        v1
    };
    if ct {
        lemma_remove_counts(v1, target, 1);
    }
    assert(slots_wf(v2));
    assert(count_spec(v2, used) == less_one_if(count_spec(v, used), cu));
    assert(count_spec(v2, target) == less_one_if(count_spec(v, target), ct));
    assert forall|x: Seq<char>| x != used && x != target implies #[trigger] count_spec(v2, x) == count_spec(
        v,
        x,
    ) by {
        if cu {
            assert(count_spec(v1, x) == count_spec(v, x));
        }
        if ct {
            assert(count_spec(v2, x) == count_spec(v1, x));
        }
    }
    match rule.result {
        None => {},
        Some(res) => {
            let (gid, ms, st) = if catalog.contains_key(res@) {
                let d = catalog[res@];
                (d.id@, effective_max_stack_spec(d.stackable, d.max_stack), d.stackable)
            } else {
                (res@, 1u32, false)
            };
            assert(add_raw_spec(v2, cap, gid, 1, ms, st) is Ok);
            lemma_add_counts(v2, cap, gid, 1, ms, st);
            assert(apply_spec(table, v, cap, used, target, catalog).1 == add_result(v2, cap, gid, 1, ms, st));
            assert(granted_id(rule, catalog) == Some(gid));
        },
    }
}

} // verus!
