//! The scheduler: ordering constraints between systems resolved once, at
//! startup, into one fixed per-tick order.
use vstd::prelude::*;

verus! {

/// System `before` must run before system `after` within a tick.
#[derive(Clone, Copy, Debug, PartialEq, Eq, Structural)]
pub struct Constraint {
    pub before: usize,
    pub after: usize,
}

/// Why no order could be made.
#[derive(Clone, Copy, Debug, PartialEq, Eq, Structural)]
pub enum ScheduleError {
    /// A constraint names a system that was not registered.
    UnknownSystem,
    /// The constraints form a cycle.
    Cycle,
}

/// Every constraint names registered systems.
pub open spec fn constraints_known(n: int, cons: Seq<Constraint>) -> bool {
    forall|k: int| 0 <= k < cons.len() ==> (#[trigger] cons[k]).before < n && cons[k].after < n
}

/// Whether system `v` appears in `order`.
pub open spec fn occurs(order: Seq<usize>, v: int) -> bool {
    exists|i: int| 0 <= i < order.len() && #[trigger] order[i] == v
}

/// `order` runs each of the `n` systems exactly once.
pub open spec fn is_order(order: Seq<usize>, n: int) -> bool {
    &&& order.len() == n
    &&& order.no_duplicates()
    &&& forall|i: int| 0 <= i < order.len() ==> #[trigger] order[i] < n
    &&& forall|v: int| 0 <= v < n ==> #[trigger] occurs(order, v)
}

/// `order` runs the first system of every constraint before the second.
pub open spec fn respects(order: Seq<usize>, cons: Seq<Constraint>) -> bool {
    forall|k: int, i: int, j: int|
        0 <= k < cons.len() && 0 <= i < order.len() && 0 <= j < order.len() && #[trigger] order[i] == cons[k].before
            && #[trigger] order[j] == (#[trigger] cons[k]).after ==> i < j
}

pub open spec fn valid_schedule(order: Seq<usize>, n: int, cons: Seq<Constraint>) -> bool {
    is_order(order, n) && respects(order, cons)
}

/// Whether some order of the `n` systems meets every constraint.
pub open spec fn schedulable(n: int, cons: Seq<Constraint>) -> bool {
    exists|order: Seq<usize>| valid_schedule(order, n, cons)
}

pub open spec fn count_false(s: Seq<bool>) -> nat
    decreases s.len(),
{
    if s.len() == 0 {
        0
    } else {
        count_false(s.drop_last()) + if s.last() { 0nat } else { 1nat }
    }
}

proof fn lemma_count_false_update(s: Seq<bool>, i: int)
    requires
        0 <= i < s.len(),
        !s[i],
    ensures
        count_false(s.update(i, true)) + 1 == count_false(s),
    decreases s.len(),
{
    let t = s.update(i, true);
    if i == s.len() - 1 {
        assert(t.drop_last() == s.drop_last());
    } else {
        lemma_count_false_update(s.drop_last(), i);
        assert(t.drop_last() == s.drop_last().update(i, true));
    }
}

proof fn lemma_count_false_some(s: Seq<bool>)
    requires
        count_false(s) > 0,
    ensures
        exists|i: int| 0 <= i < s.len() && !s[i],
    decreases s.len(),
{
    if s.last() {
        lemma_count_false_some(s.drop_last());
        let i = choose|i: int| 0 <= i < s.drop_last().len() && !s.drop_last()[i];
        assert(!s[i]);
    } else {
        assert(!s[s.len() - 1]);
    }
}

proof fn lemma_count_false_none(s: Seq<bool>)
    requires
        count_false(s) == 0,
    ensures
        forall|i: int| 0 <= i < s.len() ==> s[i],
    decreases s.len(),
{
    if s.len() > 0 {
        lemma_count_false_none(s.drop_last());
        assert forall|i: int| 0 <= i < s.len() implies s[i] by {
            if i < s.len() - 1 {
                assert(s[i] == s.drop_last()[i]);
            }
        }
    }
}

proof fn lemma_count_false_all(s: Seq<bool>)
    requires
        forall|i: int| 0 <= i < s.len() ==> !s[i],
    ensures
        count_false(s) == s.len(),
    decreases s.len(),
{
    if s.len() > 0 {
        assert forall|i: int| 0 <= i < s.drop_last().len() implies !s.drop_last()[i] by {
            assert(s.drop_last()[i] == s[i]);
        }
        lemma_count_false_all(s.drop_last());
    }
}

/// Every entry up to `k` of a valid order is a placed system, when each
/// unplaced system waits on another unplaced one.
proof fn lemma_prefix_placed(order: Seq<usize>, n: int, cons: Seq<Constraint>, placed: Seq<bool>, k: int)
    requires
        valid_schedule(order, n, cons),
        placed.len() == n,
        0 <= k < n,
        forall|v: int| 0 <= v < n && !placed[v] ==> exists|c: int| 0 <= c < cons.len() && (#[trigger] cons[c]).after == v && cons[c].before < n && !placed[cons[c].before as int],
    ensures
        forall|j: int| 0 <= j <= k ==> placed[#[trigger] order[j] as int],
    decreases k,
{
    if k > 0 {
        lemma_prefix_placed(order, n, cons, placed, k - 1);
    }
    let v = order[k] as int;
    if !placed[v] {
        let c = choose|c: int| 0 <= c < cons.len() && (#[trigger] cons[c]).after == v && cons[c].before < n && !placed[cons[c].before as int];
        let b = cons[c].before as int;
        assert(occurs(order, b));
        let i = choose|i: int| 0 <= i < order.len() && #[trigger] order[i] == b;
        assert(order[i] == cons[c].before && order[k] == cons[c].after);
        assert(i < k);
        assert(placed[order[i] as int]);
    }
    assert forall|j: int| 0 <= j <= k implies placed[#[trigger] order[j] as int] by {
        if j < k {
        }
    }
}

/// When some system is unplaced and every unplaced system waits on another
/// unplaced one, the constraints admit no order.
proof fn lemma_stuck_unschedulable(n: int, cons: Seq<Constraint>, placed: Seq<bool>)
    requires
        placed.len() == n,
        exists|v: int| 0 <= v < n && !placed[v],
        forall|v: int| 0 <= v < n && !placed[v] ==> exists|c: int| 0 <= c < cons.len() && (#[trigger] cons[c]).after == v && cons[c].before < n && !placed[cons[c].before as int],
    ensures
        !schedulable(n, cons),
{
    if schedulable(n, cons) {
        let order = choose|order: Seq<usize>| valid_schedule(order, n, cons);
        let v = choose|v: int| 0 <= v < n && !placed[v];
        lemma_prefix_placed(order, n, cons, placed, n - 1);
        assert(occurs(order, v));
        let j = choose|j: int| 0 <= j < order.len() && #[trigger] order[j] == v;
        assert(placed[order[j] as int]);
    }
}

/// Placing a ready, unplaced system keeps the scheduler's invariant.
proof fn lemma_place_next(old_order: Seq<usize>, old_placed: Seq<bool>, v: usize, n: int, cons: Seq<Constraint>)
    requires
        constraints_known(n, cons),
        old_placed.len() == n,
        0 <= v < n,
        !old_placed[v as int],
        forall|c: int| 0 <= c < cons.len() && (#[trigger] cons[c]).after == v ==> old_placed[cons[c].before as int],
        old_order.no_duplicates(),
        forall|i: int| 0 <= i < old_order.len() ==> #[trigger] old_order[i] < n,
        forall|u: int| 0 <= u < n ==> (old_placed[u] <==> exists|i: int| 0 <= i < old_order.len() && #[trigger] old_order[i] == u),
        forall|c: int, j: int|
            0 <= c < cons.len() && 0 <= j < old_order.len() && #[trigger] old_order[j] == (#[trigger] cons[c]).after
                ==> exists|i: int| 0 <= i < j && old_order[i] == cons[c].before,
    ensures
        ({
            let order = old_order.push(v);
            let placed = old_placed.update(v as int, true);
            &&& order.no_duplicates()
            &&& forall|i: int| 0 <= i < order.len() ==> #[trigger] order[i] < n
            &&& forall|u: int| 0 <= u < n ==> (placed[u] <==> exists|i: int| 0 <= i < order.len() && #[trigger] order[i] == u)
            &&& forall|c: int, j: int|
                0 <= c < cons.len() && 0 <= j < order.len() && #[trigger] order[j] == (#[trigger] cons[c]).after
                    ==> exists|i: int| 0 <= i < j && order[i] == cons[c].before
        }),
{
    let order = old_order.push(v);
    let placed = old_placed.update(v as int, true);
    assert forall|i: int, j: int| 0 <= i < order.len() && 0 <= j < order.len() && i != j implies order[i] != order[j] by {
        if i < old_order.len() && j < old_order.len() {
            assert(old_order[i] != old_order[j]);
        } else if i < old_order.len() {
            assert(old_placed[old_order[i] as int]);
        } else {
            assert(old_placed[old_order[j] as int]);
        }
    }
    assert forall|u: int| 0 <= u < n implies (placed[u] <==> exists|i: int| 0 <= i < order.len() && #[trigger] order[i] == u) by {
        if u == v {
            assert(order[old_order.len() as int] == u);
        } else {
            if old_placed[u] {
                let i = choose|i: int| 0 <= i < old_order.len() && #[trigger] old_order[i] == u;
                assert(order[i] == u);
            }
            if exists|i: int| 0 <= i < order.len() && #[trigger] order[i] == u {
                let i = choose|i: int| 0 <= i < order.len() && #[trigger] order[i] == u;
                assert(i < old_order.len());
                assert(old_order[i] == u);
            }
        }
    }
    assert forall|c: int, j: int|
        0 <= c < cons.len() && 0 <= j < order.len() && #[trigger] order[j] == (#[trigger] cons[c]).after
            implies exists|i: int| 0 <= i < j && order[i] == cons[c].before by {
        if j < old_order.len() {
            assert(old_order[j] == cons[c].after);
            let i = choose|i: int| 0 <= i < j && old_order[i] == cons[c].before;
            assert(order[i] == cons[c].before);
        } else {
            assert(cons[c].after == v);
            assert(old_placed[cons[c].before as int]);
            let i = choose|i: int| 0 <= i < old_order.len() && #[trigger] old_order[i] == cons[c].before;
            assert(order[i] == cons[c].before);
        }
    }
}

/// Whether every system that must run before `v` is placed.
fn is_ready(v: usize, cons: &Vec<Constraint>, placed: &Vec<bool>) -> (r: bool)
    requires
        constraints_known(placed@.len() as int, cons@),
    ensures
        r == forall|c: int| 0 <= c < cons@.len() && (#[trigger] cons@[c]).after == v ==> placed@[cons@[c].before as int],
{
    let mut k: usize = 0;
    while k < cons.len()
        invariant
            constraints_known(placed@.len() as int, cons@),
            k <= cons@.len(),
            forall|c: int| 0 <= c < k && (#[trigger] cons@[c]).after == v ==> placed@[cons@[c].before as int],
        decreases cons@.len() - k,
    {
        let c = cons[k];
        assert(cons@[k as int].before < placed@.len());
        if c.after == v && !placed[c.before] {
            return false;
        }
        k = k + 1;
    }
    true
}

/// The lowest-numbered unplaced system whose predecessors are all placed.
fn find_ready(n: usize, cons: &Vec<Constraint>, placed: &Vec<bool>) -> (r: Option<usize>)
    requires
        constraints_known(n as int, cons@),
        placed@.len() == n,
    ensures
        r matches Some(v) ==> v < n && !placed@[v as int] && forall|c: int| 0 <= c < cons@.len() && (#[trigger] cons@[c]).after == v ==> placed@[cons@[c].before as int],
        r is None ==> forall|u: int| 0 <= u < n && !placed@[u] ==> exists|c: int| 0 <= c < cons@.len() && (#[trigger] cons@[c]).after == u && cons@[c].before < n && !placed@[cons@[c].before as int],
{
    let mut v: usize = 0;
    while v < n
        invariant
            constraints_known(n as int, cons@),
            placed@.len() == n,
            v <= n,
            forall|u: int| 0 <= u < v && !placed@[u] ==> exists|c: int| 0 <= c < cons@.len() && (#[trigger] cons@[c]).after == u && cons@[c].before < n && !placed@[cons@[c].before as int],
        decreases n - v,
    {
        if !placed[v] && is_ready(v, cons, placed) {
            return Some(v);
        }
        v = v + 1;
    }
    None
}

/// Orders `n` systems so that every constraint holds, taking at each step the
/// lowest-numbered system whose predecessors have all been placed; the
/// result is the same on every run.
pub fn schedule(n: usize, cons: &Vec<Constraint>) -> (r: Result<Vec<usize>, ScheduleError>)
    ensures
        r matches Ok(order) ==> valid_schedule(order@, n as int, cons@),
        r is Ok <==> (constraints_known(n as int, cons@) && schedulable(n as int, cons@)),
        r == Err::<Vec<usize>, ScheduleError>(ScheduleError::UnknownSystem) <==> !constraints_known(n as int, cons@),
{
    let mut k: usize = 0;
    while k < cons.len()
        invariant
            k <= cons@.len(),
            forall|c: int| 0 <= c < k ==> (#[trigger] cons@[c]).before < n && cons@[c].after < n,
        decreases cons@.len() - k,
    {
        if cons[k].before >= n || cons[k].after >= n {
            return Err(ScheduleError::UnknownSystem);
        }
        k = k + 1;
    }
    let mut placed: Vec<bool> = Vec::new();
    let mut i: usize = 0;
    while i < n
        invariant
            i <= n,
            placed@.len() == i,
            forall|j: int| 0 <= j < i ==> !placed@[j],
        decreases n - i,
    {
        placed.push(false);
        i = i + 1;
    }
    proof {
        lemma_count_false_all(placed@);
    }
    let mut order: Vec<usize> = Vec::new();
    while order.len() < n
        invariant
            constraints_known(n as int, cons@),
            placed@.len() == n,
            order@.len() + count_false(placed@) == n,
            order@.no_duplicates(),
            forall|i: int| 0 <= i < order@.len() ==> #[trigger] order@[i] < n,
            forall|v: int| 0 <= v < n ==> (placed@[v] <==> exists|i: int| 0 <= i < order@.len() && #[trigger] order@[i] == v),
            forall|c: int, j: int|
                0 <= c < cons@.len() && 0 <= j < order@.len() && #[trigger] order@[j] == (#[trigger] cons@[c]).after
                    ==> exists|i: int| 0 <= i < j && order@[i] == cons@[c].before,
        decreases count_false(placed@),
    {
        let v = match find_ready(n, cons, &placed) {
            Some(v) => v,
            None => {
                proof {
                    lemma_count_false_some(placed@);
                    lemma_stuck_unschedulable(n as int, cons@, placed@);
                }
                return Err(ScheduleError::Cycle);
            },
        };
        proof {
            lemma_count_false_update(placed@, v as int);
        }
        let ghost old_order = order@;
        let ghost old_placed = placed@;
        placed.set(v, true);
        order.push(v);
        proof {
            assert(order@ == old_order.push(v));
            assert(placed@ == old_placed.update(v as int, true));
            lemma_place_next(old_order, old_placed, v, n as int, cons@);
        }
    }
    proof {
        lemma_count_false_none(placed@);
        assert forall|v: int| 0 <= v < n implies #[trigger] occurs(order@, v) by {
            assert(placed@[v]);
        }
        assert forall|c: int, i: int, j: int|
            0 <= c < cons@.len() && 0 <= i < order@.len() && 0 <= j < order@.len() && #[trigger] order@[i] == cons@[c].before
                && #[trigger] order@[j] == (#[trigger] cons@[c]).after implies i < j by {
            let i2 = choose|i2: int| 0 <= i2 < j && order@[i2] == cons@[c].before;
            assert(i2 == i);
        }
        assert(valid_schedule(order@, n as int, cons@));
    }
    Ok(order)
}

} // verus!
