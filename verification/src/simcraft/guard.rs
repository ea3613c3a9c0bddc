//! The rules that cap how many items out of a set a loadout may hold, and
//! the check that turns a loadout away as soon as it reaches a cap.

use vstd::prelude::*;
use crate::configuration::Limit;
use crate::simcraft::item::{views, Item, ItemData};

verus! {

/// How many items of a stack have an id that the list names. An item
/// counts once, however often the list names its id.
pub open spec fn occurrences(stack: Seq<ItemData>, ids: Seq<u32>) -> nat
    decreases stack.len(),
{
    if stack.len() == 0 {
        0
    } else {
        occurrences(stack.drop_last(), ids) + if ids.contains(stack.last().id) {
            1nat
        } else {
            0nat
        }
    }
}

/// Whether a stack has reached the cap of a rule.
pub open spec fn reaches(stack: Seq<ItemData>, limit: Limit) -> bool {
    occurrences(stack, limit.items@) >= limit.max
}

/// Whether a stack has reached the cap of any of the rules.
pub open spec fn violates(stack: Seq<ItemData>, limits: Seq<Limit>) -> bool {
    exists|i: int| 0 <= i < limits.len() && reaches(stack, #[trigger] limits[i])
}

/// Adding items to a stack never lowers a count.
pub proof fn lemma_occurrences_grow(stack: Seq<ItemData>, more: Seq<ItemData>, ids: Seq<u32>)
    ensures
        occurrences(stack, ids) <= occurrences(stack + more, ids),
        occurrences(stack + more, ids) <= occurrences(stack, ids) + more.len(),
    decreases more.len(),
{
    if more.len() == 0 {
        assert(stack + more == stack);
    } else {
        lemma_occurrences_grow(stack, more.drop_last(), ids);
        assert((stack + more).drop_last() == stack + more.drop_last());
    }
}

/// A stack that breaks a rule still breaks it however it is extended: to
/// turn a partial loadout away loses no loadout that would have passed.
pub proof fn lemma_violation_stays(stack: Seq<ItemData>, more: Seq<ItemData>, limits: Seq<Limit>)
    requires
        violates(stack, limits),
    ensures
        violates(stack + more, limits),
{
    let i = choose|i: int| 0 <= i < limits.len() && reaches(stack, #[trigger] limits[i]);
    lemma_occurrences_grow(stack, more, limits[i].items@);
    assert(reaches(stack + more, limits[i]));
}

/// Whether a list of ids names an id.
fn names(ids: &Vec<u32>, id: u32) -> (found: bool)
    ensures
        found == ids@.contains(id),
{
    let mut i: usize = 0;
    while i < ids.len()
        invariant
            i <= ids.len(),
            forall|k: int| 0 <= k < i ==> ids@[k] != id,
        decreases ids.len() - i,
    {
        if ids[i] == id {
            return true;
        }
        i += 1;
    }
    false
}

impl Limit {
    /// Whether the stack has reached the cap of this rule. The count stops
    /// at the item with which the cap is reached.
    pub fn reached(&self, stack: &Vec<Item>) -> (hit: bool)
        ensures
            hit == reaches(views(stack@), *self),
    {
        if self.max == 0 {
            return true;
        }
        let ghost all = views(stack@);
        let mut count: u32 = 0;
        let mut i: usize = 0;
        while i < stack.len()
            invariant
                i <= stack.len(),
                all == views(stack@),
                count == occurrences(all.take(i as int), self.items@),
                count < self.max,
            decreases stack.len() - i,
        {
            proof {
                assert(all.take(i + 1).drop_last() == all.take(i as int));
                assert(all.take(i + 1).last() == stack@[i as int]@);
            }
            if names(&self.items, stack[i].id) {
                count += 1;
                if count >= self.max {
                    proof {
                        assert(all == all.take(i + 1) + all.skip(i + 1));
                        lemma_occurrences_grow(all.take(i + 1), all.skip(i + 1), self.items@);
                    }
                    return true;
                }
            }
            i += 1;
        }
        proof {
            assert(all.take(stack@.len() as int) == all);
        }
        false
    }
}

/// Whether the stack has reached the cap of any of the rules.
pub fn violates_any(stack: &Vec<Item>, rules: &Vec<Limit>) -> (hit: bool)
    ensures
        hit == violates(views(stack@), rules@),
{
    let mut i: usize = 0;
    while i < rules.len()
        invariant
            i <= rules.len(),
            forall|k: int| 0 <= k < i ==> !reaches(views(stack@), #[trigger] rules@[k]),
        decreases rules.len() - i,
    {
        if rules[i].reached(stack) {
            return true;
        }
        i += 1;
    }
    false
}

} // verus!
