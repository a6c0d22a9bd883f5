//! Putting module renderings that arrive in any order into module order.

use crate::render::ModuleRendering;
use vstd::prelude::*;

verus! {

/// Whether `arrivals` bring exactly one rendering for each of the first
/// `count` positions and none for any other.
pub open spec fn covers(arrivals: Seq<(usize, ModuleRendering)>, count: nat) -> bool {
    &&& forall|k: int| 0 <= k < arrivals.len() ==> (#[trigger] arrivals[k]).0 < count
    &&& forall|j: int, k: int|
        0 <= j < k < arrivals.len() ==> (#[trigger] arrivals[j]).0 != (#[trigger] arrivals[k]).0
    &&& forall|i: int| 0 <= i < count ==> #[trigger] arrives(arrivals, i)
}

/// Whether `arrivals` bring a rendering for `position`.
pub open spec fn arrives(arrivals: Seq<(usize, ModuleRendering)>, position: int) -> bool {
    exists|k: int| 0 <= k < arrivals.len() && (#[trigger] arrivals[k]).0 == position
}

/// The rendering that `arrivals` bring for `position`.
pub open spec fn arrival_for(arrivals: Seq<(usize, ModuleRendering)>, position: int) -> ModuleRendering {
    arrivals[choose|k: int| 0 <= k < arrivals.len() && (#[trigger] arrivals[k]).0 == position].1
}

/// The renderings of `arrivals`, each at its position.
pub open spec fn placed(arrivals: Seq<(usize, ModuleRendering)>, count: nat) -> Seq<
    ModuleRendering,
> {
    Seq::new(count, |i: int| arrival_for(arrivals, i))
}

/// Puts renderings that arrive in any order into module order: each
/// arrival names the position of its module in the chunk. Where the
/// arrivals do not bring exactly one rendering for each of the `count`
/// positions, nothing is put together.
pub fn collect_renderings(count: usize, arrivals: Vec<(usize, ModuleRendering)>) -> (rendered:
    Option<Vec<ModuleRendering>>)
    ensures
        match rendered {
            Some(rendered) => covers(arrivals@, count as nat) && rendered@ == placed(
                arrivals@,
                count as nat,
            ),
            None => !covers(arrivals@, count as nat),
        },
{
    let ghost all = arrivals@;
    proof {
        assert(all.take(all.len() as int) =~= all);
    }
    let mut pending = arrivals;
    let mut slots: Vec<Option<ModuleRendering>> = Vec::new();
    let mut i: usize = 0;
    while i < count
        invariant
            i <= count,
            slots@.len() == i,
            forall|p: int| 0 <= p < i ==> (#[trigger] slots@[p]) is None,
        decreases count - i,
    {
        slots.push(None);
        i += 1;
    }
    let mut left: usize = pending.len();
    while left > 0
        invariant
            left <= all.len(),
            all == arrivals@,
            pending@ == all.take(left as int),
            slots@.len() == count,
            count == slots@.len(),
            forall|k: int| left <= k < all.len() ==> (#[trigger] all[k]).0 < count,
            forall|j: int, k: int|
                left <= j < k < all.len() ==> (#[trigger] all[j]).0 != (#[trigger] all[k]).0,
            forall|p: int|
                0 <= p < count ==> ((#[trigger] slots@[p]) is Some <==> exists|k: int|
                    left <= k < all.len() && (#[trigger] all[k]).0 == p),
            forall|p: int, k: int|
                0 <= p < count && left <= k < all.len() && (#[trigger] all[k]).0 == p ==> (
                #[trigger] slots@[p]) == Some(all[k].1),
        decreases left,
    {
        left -= 1;
        let (position, rendering) = pending.pop().unwrap();
        assert(all[left as int] == (position, rendering));
        assert(pending@ =~= all.take(left as int));
        if position >= count {
            return None;
        }
        if slots[position].is_some() {
            proof {
                let k = choose|k: int| left < k < all.len() && (#[trigger] all[k]).0 == position;
                assert(all[left as int].0 == all[k].0);
            }
            return None;
        }
        slots[position] = Some(rendering);
        proof {
            assert forall|p: int| 0 <= p < count implies ((#[trigger] slots@[p]) is Some
                <==> exists|k: int| left <= k < all.len() && (#[trigger] all[k]).0 == p) by {
                if p == position {
                    assert(all[left as int].0 == p);
                } else if slots@[p] is Some {
                    let k = choose|k: int| left < k < all.len() && (#[trigger] all[k]).0 == p;
                    assert(left <= k < all.len() && all[k].0 == p);
                }
            }
        }
    }
    let mut reversed: Vec<ModuleRendering> = Vec::new();
    let ghost filled = slots@;
    let mut at: usize = count;
    while at > 0
        invariant
            at <= count,
            all == arrivals@,
            filled.len() == count,
            slots@ == filled.take(at as int),
            reversed@.len() == count - at,
            forall|p: int| at <= p < count ==> (#[trigger] filled[p]) is Some,
            forall|p: int|
                at <= p < count ==> (#[trigger] reversed@[count - 1 - p]) == filled[p]->Some_0,
            forall|p: int|
                0 <= p < count ==> ((#[trigger] filled[p]) is Some <==> arrives(all, p)),
            forall|k: int| 0 <= k < all.len() ==> (#[trigger] all[k]).0 < count,
            forall|j: int, k: int|
                0 <= j < k < all.len() ==> (#[trigger] all[j]).0 != (#[trigger] all[k]).0,
        decreases at,
    {
        at -= 1;
        let slot = slots.pop().unwrap();
        assert(slot == filled[at as int]);
        assert(slots@ =~= filled.take(at as int));
        match slot {
            Some(rendering) => {
                reversed.push(rendering);
            },
            None => {
                assert(!arrives(all, at as int));
                return None;
            },
        }
    }
    let ghost expected = placed(all, count as nat);
    proof {
        assert forall|p: int| 0 <= p < count implies #[trigger] reversed@[count - 1 - p]
            == expected[p] by {
            assert(filled[p] is Some);
            assert(arrives(all, p));
            let k = choose|k: int| 0 <= k < all.len() && (#[trigger] all[k]).0 == p;
            assert(filled[p] == Some(all[k].1));
        }
        assert forall|p: int| 0 <= p < count implies #[trigger] arrives(all, p) by {
            assert(filled[p] is Some);
        }
        assert(covers(all, count as nat));
    }
    let mut rendered: Vec<ModuleRendering> = Vec::new();
    let ghost backwards = reversed@;
    let mut rest: usize = count;
    while rest > 0
        invariant
            rest <= count,
            backwards.len() == count,
            expected.len() == count,
            reversed@ == backwards.take(rest as int),
            rendered@.len() == count - rest,
            forall|p: int| 0 <= p < count ==> #[trigger] backwards[count - 1 - p] == expected[p],
            forall|p: int| 0 <= p < count - rest ==> (#[trigger] rendered@[p]) == expected[p],
        decreases rest,
    {
        rest -= 1;
        let rendering = reversed.pop().unwrap();
        assert(rendering == backwards[rest as int]);
        assert(reversed@ =~= backwards.take(rest as int));
        assert(backwards[count - 1 - (count - 1 - rest)] == expected[count - 1 - rest]);
        rendered.push(rendering);
    }
    proof {
        assert(rendered@ =~= expected);
    }
    Some(rendered)
}

} // verus!
