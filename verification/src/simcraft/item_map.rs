//! The catalogue: for every slot the candidates found for it, in the order
//! in which they were found.

use vstd::prelude::*;
use crate::simcraft::item::{views, Item, ItemData};
use crate::simcraft::slot::{ESlot, Slot};

verus! {

/// One slot with its candidates.
pub struct Pair {
    pub slot: Slot,
    pub items: Vec<Item>,
}

impl Pair {
    /// A slot without candidates.
    pub fn new(slot: &Slot) -> (pair: Pair)
        ensures
            pair.slot == *slot,
            pair.items@.len() == 0,
    {
        Pair { slot: slot.clone(), items: Vec::new() }
    }
}

impl Default for Pair {
    fn default() -> (pair: Pair)
        ensures
            pair.slot.slot == ESlot::Unkown,
            pair.slot.name@.len() == 0,
            pair.items@.len() == 0,
    {
        Pair { slot: Slot::default(), items: Vec::default() }
    }
}

/// The candidates of a slot in a catalogue; none where the catalogue does
/// not know the slot.
pub open spec fn candidates(pools: Map<ESlot, Seq<ItemData>>, slot: ESlot) -> Seq<ItemData> {
    if pools.contains_key(slot) {
        pools[slot]
    } else {
        Seq::empty()
    }
}

/// How many candidates a catalogue holds, over all slots.
pub open spec fn total_candidates(pools: Map<ESlot, Seq<ItemData>>) -> nat {
    candidates(pools, ESlot::Unkown).len() + candidates(pools, ESlot::Head).len() + candidates(
        pools,
        ESlot::Neck,
    ).len() + candidates(pools, ESlot::Shoulder).len() + candidates(pools, ESlot::Back).len()
        + candidates(pools, ESlot::Chest).len() + candidates(pools, ESlot::Wrist).len()
        + candidates(pools, ESlot::Hands).len() + candidates(pools, ESlot::Waist).len()
        + candidates(pools, ESlot::Legs).len() + candidates(pools, ESlot::Feet).len() + candidates(
        pools,
        ESlot::Finger,
    ).len() + candidates(pools, ESlot::Finger1).len() + candidates(pools, ESlot::Finger2).len()
        + candidates(pools, ESlot::Trinket).len() + candidates(pools, ESlot::Trinket1).len()
        + candidates(pools, ESlot::Trinket2).len() + candidates(pools, ESlot::MainHand).len()
        + candidates(pools, ESlot::OffHand).len() + candidates(pools, ESlot::WeaponHand).len()
}

/// How many candidates a catalogue holds, as far as a machine counts.
pub open spec fn counted_candidates(pools: Map<ESlot, Seq<ItemData>>) -> usize {
    if total_candidates(pools) <= usize::MAX {
        total_candidates(pools) as usize
    } else {
        usize::MAX
    }
}

/// The catalogue of candidates. A slot is known to it from the moment its
/// first candidate is pushed, so every slot it knows has a candidate.
pub struct ItemMap {
    list: Vec<Pair>,
}

/// The catalogue that a list of slots with their candidates stands for.
/// Where a slot stands twice in the list, the first entry counts.
spec fn pools_of(list: Seq<Pair>) -> Map<ESlot, Seq<ItemData>>
    decreases list.len(),
{
    if list.len() == 0 {
        Map::empty()
    } else {
        let front = pools_of(list.drop_last());
        let pair = list.last();
        if front.contains_key(pair.slot.slot) {
            front
        } else {
            front.insert(pair.slot.slot, views(pair.items@))
        }
    }
}

spec fn distinct_slots(list: Seq<Pair>) -> bool {
    forall|i: int, j: int|
        0 <= i < j < list.len() ==> (#[trigger] list[i]).slot.slot != (#[trigger] list[j]).slot.slot
}

spec fn sum_of(list: Seq<Pair>) -> nat
    decreases list.len(),
{
    if list.len() == 0 {
        0
    } else {
        sum_of(list.drop_last()) + list.last().items@.len()
    }
}

/// What the catalogue of a list without repeated slots holds: exactly the
/// slots of the list, each with the candidates of its entry.
proof fn lemma_pools_of(list: Seq<Pair>)
    requires
        distinct_slots(list),
    ensures
        forall|i: int|
            0 <= i < list.len() ==> pools_of(list).contains_key((#[trigger] list[i]).slot.slot)
                && pools_of(list)[list[i].slot.slot] == views(list[i].items@),
        forall|s: ESlot|
            pools_of(list).contains_key(s) ==> exists|i: int|
                0 <= i < list.len() && (#[trigger] list[i]).slot.slot == s,
    decreases list.len(),
{
    if list.len() > 0 {
        let front = list.drop_last();
        lemma_pools_of(front);
        let pair = list.last();
        if pools_of(front).contains_key(pair.slot.slot) {
            let i = choose|i: int| 0 <= i < front.len() && (#[trigger] front[i]).slot.slot == pair.slot.slot;
            assert(list[i].slot.slot != list[list.len() - 1].slot.slot);
        }
        assert forall|i: int| 0 <= i < list.len() implies pools_of(list).contains_key(
            (#[trigger] list[i]).slot.slot,
        ) && pools_of(list)[list[i].slot.slot] == views(list[i].items@) by {
            if i < front.len() {
                assert(front[i] == list[i]);
                assert(list[i].slot.slot != list[list.len() - 1].slot.slot);
            }
        }
        assert forall|s: ESlot| pools_of(list).contains_key(s) implies exists|i: int|
            0 <= i < list.len() && (#[trigger] list[i]).slot.slot == s by {
            if s == pair.slot.slot {
                assert(list[list.len() - 1].slot.slot == s);
            } else {
                let i = choose|i: int| 0 <= i < front.len() && (#[trigger] front[i]).slot.slot == s;
                assert(list[i].slot.slot == s);
            }
        }
    }
}

proof fn lemma_total_insert(pools: Map<ESlot, Seq<ItemData>>, slot: ESlot, items: Seq<ItemData>)
    ensures
        total_candidates(pools.insert(slot, items)) == total_candidates(pools) - candidates(
            pools,
            slot,
        ).len() + items.len(),
{
    let after = pools.insert(slot, items);
    assert forall|s: ESlot| s != slot implies candidates(after, s) == candidates(pools, s) by {}
    assert(candidates(after, slot) == items);
}

/// A list without repeated slots has as many slots as entries and as many
/// candidates as its entries have together.
proof fn lemma_pools_size(list: Seq<Pair>)
    requires
        distinct_slots(list),
    ensures
        pools_of(list).dom().finite(),
        pools_of(list).dom().len() == list.len(),
        total_candidates(pools_of(list)) == sum_of(list),
    decreases list.len(),
{
    if list.len() > 0 {
        let front = list.drop_last();
        lemma_pools_size(front);
        lemma_pools_of(front);
        let pair = list.last();
        if pools_of(front).contains_key(pair.slot.slot) {
            let i = choose|i: int| 0 <= i < front.len() && (#[trigger] front[i]).slot.slot == pair.slot.slot;
            assert(list[i].slot.slot != list[list.len() - 1].slot.slot);
        }
        lemma_total_insert(pools_of(front), pair.slot.slot, views(pair.items@));
    }
}

/// Changing the candidates of one entry changes the candidates of its
/// slot and nothing else.
proof fn lemma_pools_update(before: Seq<Pair>, after: Seq<Pair>, i: int)
    requires
        distinct_slots(before),
        0 <= i < before.len(),
        after.len() == before.len(),
        after[i].slot.slot == before[i].slot.slot,
        forall|k: int| 0 <= k < before.len() && k != i ==> after[k] == before[k],
    ensures
        distinct_slots(after),
        pools_of(before).contains_key(before[i].slot.slot),
        pools_of(before)[before[i].slot.slot] == views(before[i].items@),
        pools_of(after) == pools_of(before).insert(before[i].slot.slot, views(after[i].items@)),
{
    let slot = before[i].slot.slot;
    assert forall|a: int, b: int| 0 <= a < b < after.len() implies (#[trigger] after[a]).slot.slot
        != (#[trigger] after[b]).slot.slot by {
        assert(after[a].slot.slot == before[a].slot.slot);
        assert(after[b].slot.slot == before[b].slot.slot);
    }
    lemma_pools_of(before);
    lemma_pools_of(after);
    assert(after[i].slot.slot == slot);
    assert forall|s: ESlot| pools_of(after).contains_key(s) implies pools_of(before).contains_key(
        s,
    ) by {
        let k = choose|k: int| 0 <= k < after.len() && (#[trigger] after[k]).slot.slot == s;
        assert(before[k].slot.slot == s);
    }
    assert forall|s: ESlot| pools_of(before).contains_key(s) implies pools_of(after).contains_key(
        s,
    ) && (s != slot ==> pools_of(after)[s] == pools_of(before)[s]) by {
        let k = choose|k: int| 0 <= k < before.len() && (#[trigger] before[k]).slot.slot == s;
        assert(after[k].slot.slot == s);
        if s != slot {
            assert(after[k] == before[k]);
        }
    }
    assert(pools_of(after) =~= pools_of(before).insert(slot, views(after[i].items@)));
}

/// An entry for a slot that the list does not have adds that slot with its
/// candidates and changes nothing else.
proof fn lemma_pools_append(before: Seq<Pair>, pair: Pair)
    requires
        distinct_slots(before),
        forall|k: int| 0 <= k < before.len() ==> (#[trigger] before[k]).slot.slot != pair.slot.slot,
    ensures
        distinct_slots(before.push(pair)),
        !pools_of(before).contains_key(pair.slot.slot),
        pools_of(before.push(pair)) == pools_of(before).insert(pair.slot.slot, views(pair.items@)),
{
    let after = before.push(pair);
    lemma_pools_of(before);
    assert(after.drop_last() == before);
    if pools_of(before).contains_key(pair.slot.slot) {
        let k = choose|k: int| 0 <= k < before.len() && (#[trigger] before[k]).slot.slot == pair.slot.slot;
        assert(false);
    }
    assert forall|a: int, b: int| 0 <= a < b < after.len() implies (#[trigger] after[a]).slot.slot
        != (#[trigger] after[b]).slot.slot by {
        assert(after[a] == before[a]);
        if b < before.len() {
            assert(after[b] == before[b]);
        }
    }
}

/// Where a slot stands in a list, if it stands there.
fn position(list: &Vec<Pair>, slot: ESlot) -> (found: Option<usize>)
    ensures
        match found {
            Some(i) => i < list@.len() && list@[i as int].slot.slot == slot && forall|k: int|
                0 <= k < i ==> (#[trigger] list@[k]).slot.slot != slot,
            None => forall|k: int| 0 <= k < list@.len() ==> (#[trigger] list@[k]).slot.slot != slot,
        },
{
    let mut i: usize = 0;
    while i < list.len()
        invariant
            i <= list.len(),
            forall|k: int| 0 <= k < i ==> (#[trigger] list@[k]).slot.slot != slot,
        decreases list.len() - i,
    {
        if list[i].slot.slot == slot {
            return Some(i);
        }
        i += 1;
    }
    None
}

spec fn no_empty_pool(list: Seq<Pair>) -> bool {
    forall|i: int| 0 <= i < list.len() ==> (#[trigger] list[i]).items@.len() > 0
}

impl ItemMap {
    #[verifier::type_invariant]
    spec fn inv(&self) -> bool {
        distinct_slots(self.list@) && no_empty_pool(self.list@)
    }
}

impl View for ItemMap {
    type V = Map<ESlot, Seq<ItemData>>;

    closed spec fn view(&self) -> Map<ESlot, Seq<ItemData>> {
        pools_of(self.list@)
    }
}

impl ItemMap {
    /// A catalogue that knows no slot.
    pub fn new() -> (map: ItemMap)
        ensures
            map@ == Map::<ESlot, Seq<ItemData>>::empty(),
    {
        ItemMap { list: Vec::new() }
    }

    /// Adds a copy of `item` behind the candidates that the slot already
    /// has. Nothing else in the catalogue changes.
    pub fn push(&mut self, slot: &Slot, item: &Item)
        ensures
            final(self)@ == old(self)@.insert(slot.slot, candidates(old(self)@, slot.slot).push(item@)),
    {
        proof {
            use_type_invariant(&*self);
        }
        // The list is worked on outside the catalogue, which is empty
        // meanwhile, so that it repeats no slot at any moment.
        let mut list: Vec<Pair> = Vec::new();
        core::mem::swap(&mut self.list, &mut list);
        let ghost before = list@;
        match position(&list, slot.slot) {
            Some(i) => {
                let mut pair = list.remove(i);
                pair.items.push(item.clone());
                list.insert(i, pair);
                proof {
                    lemma_pools_update(before, list@, i as int);
                    assert(views(list@[i as int].items@) =~= views(before[i as int].items@).push(item@));
                }
            },
            None => {
                let mut entry = Pair::new(slot);
                entry.items.push(item.clone());
                list.push(entry);
                proof {
                    lemma_pools_append(before, list@.last());
                    assert(list@ == before.push(list@.last()));
                    assert(views(list@.last().items@) =~= Seq::<ItemData>::empty().push(item@));
                }
            },
        }
        core::mem::swap(&mut self.list, &mut list);
    }

    /// The candidates of a slot, if the catalogue knows the slot.
    pub fn get_slot(&self, pattern: ESlot) -> (found: Option<&Vec<Item>>)
        ensures
            match found {
                Some(items) => self@.contains_key(pattern) && views(items@) == self@[pattern]
                    && items@.len() > 0,
                None => !self@.contains_key(pattern),
            },
    {
        proof {
            use_type_invariant(self);
            lemma_pools_of(self.list@);
        }
        match position(&self.list, pattern) {
            Some(i) => Some(&self.list[i].items),
            None => {
                proof {
                    if pools_of(self.list@).contains_key(pattern) {
                        let k = choose|k: int|
                            0 <= k < self.list@.len() && (#[trigger] self.list@[k]).slot.slot == pattern;
                        assert(false);
                    }
                }
                None
            },
        }
    }

    /// How many slots the catalogue knows.
    pub fn len(&self) -> (slots: usize)
        ensures
            self@.dom().finite(),
            slots == self@.dom().len(),
    {
        proof {
            use_type_invariant(self);
            lemma_pools_size(self.list@);
        }
        self.list.len()
    }

    /// How many candidates the catalogue holds over all its slots; the
    /// largest number there is where they are more than that.
    pub fn total_items(&self) -> (total: usize)
        ensures
            total == counted_candidates(self@),
    {
        proof {
            use_type_invariant(self);
            lemma_pools_size(self.list@);
        }
        let mut total: usize = 0;
        let mut i: usize = 0;
        while i < self.list.len()
            invariant
                i <= self.list.len(),
                total == if sum_of(self.list@.take(i as int)) <= usize::MAX {
                    sum_of(self.list@.take(i as int))
                } else {
                    usize::MAX as nat
                },
            decreases self.list.len() - i,
        {
            proof {
                assert(self.list@.take(i + 1).drop_last() == self.list@.take(i as int));
            }
            total = total.saturating_add(self.list[i].items.len());
            i += 1;
        }
        proof {
            assert(self.list@.take(self.list@.len() as int) == self.list@);
        }
        total
    }
}

} // verus!
