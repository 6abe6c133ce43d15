//! Batch planning: the sort-and-merge step of the element batcher.
//!
//! The batcher sorts the pushed elements by [`SortKey`] (stably, so that
//! elements with equal keys keep their push order) and merges runs of equal
//! keys into one batch, one draw call each. The planner works on the keys
//! alone and says, for each batch, which pushed elements it draws; the
//! renderer then gathers the vertex data.

use vstd::prelude::*;
use crate::render2d::{key_lt, SortKey};

verus! {

/// One planned batch: its key and the push indices of its elements, in
/// push order.
#[derive(Debug, PartialEq, Eq)]
pub struct BatchPlan {
    /// Sort key shared by every element of the batch.
    pub key: SortKey,
    /// Push indices of the batch's elements, ascending.
    pub members: Vec<usize>,
}

/// Element `j` is drawn by some batch of `plans`.
pub open spec fn drawn(plans: Seq<BatchPlan>, j: int) -> bool {
    exists|b: int| 0 <= b < plans.len() && plans[b].members@.contains(j as usize)
}

/// `plans` is the stable sort of `keys` with equal keys merged: batch keys
/// strictly ascending, every batch non-empty with ascending members that
/// carry its key, and every element drawn.
pub open spec fn is_batch_plan(keys: Seq<SortKey>, plans: Seq<BatchPlan>) -> bool {
    &&& forall|a: int, b: int| 0 <= a < b < plans.len() ==> key_lt(#[trigger] plans[a].key, #[trigger] plans[b].key)
    &&& forall|b: int| 0 <= b < plans.len() ==> #[trigger] plans[b].members@.len() > 0
    &&& forall|b: int, p: int, q: int|
        0 <= b < plans.len() && 0 <= p < q < plans[b].members@.len() ==> #[trigger] plans[b].members@[p]
            < #[trigger] plans[b].members@[q]
    &&& forall|b: int, p: int|
        0 <= b < plans.len() && 0 <= p < plans[b].members@.len() ==> #[trigger] plans[b].members@[p]
            < keys.len() && keys[plans[b].members@[p] as int] == plans[b].key
    &&& forall|j: int| 0 <= j < keys.len() ==> #[trigger] drawn(plans, j)
}

/// Copy of a list of indices.
fn copy_indices(v: &Vec<usize>) -> (r: Vec<usize>)
    ensures
        r@ == v@,
{
    let mut out: Vec<usize> = Vec::new();
    let mut i: usize = 0;
    while i < v.len()
        invariant
            i <= v.len(),
            out@ == v@.take(i as int),
        decreases v.len() - i,
    {
        out.push(v[i]);
        i = i + 1;
        assert(out@ =~= v@.take(i as int));
    }
    assert(v@.take(v.len() as int) =~= v@);
    out
}

/// Plan the batches for elements pushed with `keys` (in push order): the
/// stable sort by key, with runs of equal keys merged.
pub fn plan_batches(keys: &Vec<SortKey>) -> (r: Vec<BatchPlan>)
    ensures
        is_batch_plan(keys@, r@),
{
    let mut plans: Vec<BatchPlan> = Vec::new();
    let mut i: usize = 0;
    while i < keys.len()
        invariant
            i <= keys.len(),
            is_batch_plan(keys@.take(i as int), plans@),
            forall|b: int, p: int|
                0 <= b < plans@.len() && 0 <= p < plans@[b].members@.len() ==> #[trigger] plans@[b].members@[p]
                    < i,
        decreases keys.len() - i,
    {
        let k = keys[i];
        let ghost old_plans = plans@;
        let ghost ks = keys@.take(i as int);
        let ghost ks1 = keys@.take(i + 1);
        let mut pos: usize = 0;
        while pos < plans.len() && plans[pos].key.precedes(&k)
            invariant
                pos <= plans@.len(),
                plans@ == old_plans,
                forall|b: int| 0 <= b < pos ==> key_lt(#[trigger] plans@[b].key, k),
            decreases plans.len() - pos,
        {
            pos = pos + 1;
        }
        proof {
            assert(ks1.len() == i + 1);
            assert forall|j: int| 0 <= j < i implies ks1[j] == ks[j] by {}
            assert(ks1[i as int] == k);
        }
        if pos < plans.len() && plans[pos].key == k {
            let mut m = copy_indices(&plans[pos].members);
            m.push(i);
            let g = BatchPlan { key: k, members: m };
            plans.set(pos, g);
            proof {
                let np = plans@;
                assert forall|b: int, p: int, q: int|
                    0 <= b < np.len() && 0 <= p < q < np[b].members@.len() implies #[trigger] np[b].members@[p]
                        < #[trigger] np[b].members@[q] by {
                    if b == pos && q == np[b].members@.len() - 1 {
                        assert(old_plans[b].members@[p] < i);
                    }
                }
                assert forall|b: int, p: int|
                    0 <= b < np.len() && 0 <= p < np[b].members@.len() implies #[trigger] np[b].members@[p]
                        < ks1.len() && ks1[np[b].members@[p] as int] == np[b].key by {
                    if b != pos || p < np[b].members@.len() - 1 {
                        let j = old_plans[b].members@[p];
                        assert(ks[j as int] == ks1[j as int]);
                    }
                }
                assert forall|j: int| 0 <= j < ks1.len() implies #[trigger] drawn(np, j) by {
                    if j < i {
                        assert(drawn(old_plans, j));
                        let b = choose|b: int| 0 <= b < old_plans.len() && old_plans[b].members@.contains(j as usize);
                        let p = choose|p: int| 0 <= p < old_plans[b].members@.len() && old_plans[b].members@[p] == j as usize;
                        assert(np[b].members@[p] == j as usize);
                        assert(np[b].members@.contains(j as usize));
                    } else {
                        assert(np[pos as int].members@[np[pos as int].members@.len() - 1] == i);
                        assert(np[pos as int].members@.contains(j as usize));
                    }
                }
                assert forall|b: int, p: int|
                    0 <= b < np.len() && 0 <= p < np[b].members@.len() implies #[trigger] np[b].members@[p] < i + 1 by {
                    if b != pos || p < np[b].members@.len() - 1 {
                        assert(old_plans[b].members@[p] < i);
                    }
                }
            }
        } else {
            let mut m: Vec<usize> = Vec::new();
            m.push(i);
            let g = BatchPlan { key: k, members: m };
            plans.insert(pos, g);
            proof {
                let np = plans@;
                let q = pos as int;
                if q < old_plans.len() {
                    assert(!key_lt(old_plans[q].key, k));
                    assert(old_plans[q].key != k);
                    assert(key_lt(k, old_plans[q].key));
                }
                assert forall|a: int, b: int| 0 <= a < b < np.len() implies key_lt(#[trigger] np[a].key, #[trigger] np[b].key) by {
                    if b < q {
                        assert(key_lt(old_plans[a].key, old_plans[b].key));
                    } else if b == q {
                        assert(key_lt(old_plans[a].key, k));
                    } else if a < q {
                        assert(key_lt(old_plans[a].key, k));
                        assert(key_lt(k, old_plans[q].key));
                        if b - 1 > q {
                            assert(key_lt(old_plans[q].key, old_plans[b - 1].key));
                        }
                    } else if a == q {
                        assert(key_lt(k, old_plans[q].key));
                        if b - 1 > q {
                            assert(key_lt(old_plans[q].key, old_plans[b - 1].key));
                        }
                    } else {
                        assert(key_lt(old_plans[a - 1].key, old_plans[b - 1].key));
                    }
                }
                assert forall|b: int| 0 <= b < np.len() implies #[trigger] np[b].members@.len() > 0 by {
                    if b < q {
                        assert(np[b] == old_plans[b]);
                    } else if b > q {
                        assert(np[b] == old_plans[b - 1]);
                    }
                }
                assert forall|b: int, p: int, r: int|
                    0 <= b < np.len() && 0 <= p < r < np[b].members@.len() implies #[trigger] np[b].members@[p]
                        < #[trigger] np[b].members@[r] by {
                    if b < q {
                        assert(np[b] == old_plans[b]);
                    } else if b > q {
                        assert(np[b] == old_plans[b - 1]);
                    }
                }
                assert forall|b: int, p: int|
                    0 <= b < np.len() && 0 <= p < np[b].members@.len() implies #[trigger] np[b].members@[p]
                        < ks1.len() && ks1[np[b].members@[p] as int] == np[b].key by {
                    if b != q {
                        let ob = if b < q { b } else { b - 1 };
                        assert(np[b] == old_plans[ob]);
                        let j = old_plans[ob].members@[p];
                        assert(ks[j as int] == ks1[j as int]);
                    }
                }
                assert forall|j: int| 0 <= j < ks1.len() implies #[trigger] drawn(np, j) by {
                    if j < i {
                        assert(drawn(old_plans, j));
                        let b = choose|b: int| 0 <= b < old_plans.len() && old_plans[b].members@.contains(j as usize);
                        let nb = if b < q { b } else { b + 1 };
                        assert(np[nb] == old_plans[b]);
                    } else {
                        assert(np[q].members@[0] == i);
                        assert(np[q].members@.contains(j as usize));
                    }
                }
                assert forall|b: int, p: int|
                    0 <= b < np.len() && 0 <= p < np[b].members@.len() implies #[trigger] np[b].members@[p] < i + 1 by {
                    if b != q {
                        let ob = if b < q { b } else { b - 1 };
                        assert(np[b] == old_plans[ob]);
                    }
                }
            }
        }
        i = i + 1;
    }
    assert(keys@.take(keys.len() as int) =~= keys@);
    plans
}

/// Every element whose key is a batch's key is drawn by that batch: the
/// batches are exactly the classes of equal keys.
pub proof fn lemma_batch_is_key_class(keys: Seq<SortKey>, plans: Seq<BatchPlan>, b: int, j: usize)
    requires
        is_batch_plan(keys, plans),
        0 <= b < plans.len(),
        j < keys.len(),
        keys[j as int] == plans[b].key,
    ensures
        plans[b].members@.contains(j),
{
    assert(drawn(plans, j as int));
    let c = choose|c: int| 0 <= c < plans.len() && plans[c].members@.contains(j);
    let p = choose|p: int| 0 <= p < plans[c].members@.len() && plans[c].members@[p] == j;
    assert(keys[plans[c].members@[p] as int] == plans[c].key);
    if c < b {
        assert(key_lt(plans[c].key, plans[b].key));
    } else if c > b {
        assert(key_lt(plans[b].key, plans[c].key));
    }
}

} // verus!
