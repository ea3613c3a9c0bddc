//! What the search produces, stated without the search: every way of
//! giving each slot one of its candidates, in the order of the walk, less
//! the loadouts that a rule turns away.

use vstd::prelude::*;
use crate::configuration::Limit;
use crate::simcraft::guard::{lemma_violation_stays, occurrences, reaches, violates};
use crate::simcraft::item::{tagged, ItemData};
use crate::simcraft::item_map::candidates;
use crate::simcraft::slot::{is_paired, slots_left, successor, ESlot};

verus! {

/// How many slots the walk still has to visit; none once it is past the
/// last.
pub open spec fn walk_left(slot: Option<ESlot>) -> nat {
    match slot {
        Some(s) => slots_left(s),
        None => 0,
    }
}

/// The ways to wear two items of one pool, from the pair at the positions
/// `first` and `second` on: the first item comes before the second in the
/// pool, so that no two items are paired twice, and two items with one id
/// are never paired. The pairs come in the order of the first position and
/// then of the second.
pub open spec fn pairings(pool: Seq<ItemData>, first: int, second: int) -> Seq<Seq<ItemData>>
    decreases pool.len() - first, pool.len() - second,
{
    if first < 0 || second <= first || first >= pool.len() {
        Seq::empty()
    } else if second >= pool.len() {
        pairings(pool, first + 1, first + 2)
    } else if pool[first].id != pool[second].id {
        seq![seq![tagged(pool[first], 1), tagged(pool[second], 2)]] + pairings(
            pool,
            first,
            second + 1,
        )
    } else {
        pairings(pool, first, second + 1)
    }
}

/// What a slot can add to a loadout. An ordinary slot adds one of its
/// candidates; a paired slot adds two of them, each in its own place. A
/// slot without a candidate, and a paired slot with fewer than two, adds
/// nothing and does not stop the walk.
pub open spec fn options(pools: Map<ESlot, Seq<ItemData>>, slot: ESlot) -> Seq<Seq<ItemData>> {
    let pool = candidates(pools, slot);
    if is_paired(slot) {
        if pool.len() < 2 {
            seq![Seq::empty()]
        } else {
            pairings(pool, 0, 1)
        }
    } else {
        if pool.len() == 0 {
            seq![Seq::empty()]
        } else {
            Seq::new(pool.len(), |i: int| seq![pool[i]])
        }
    }
}

/// Every tail, each behind the same stack.
pub open spec fn each_after(stack: Seq<ItemData>, tails: Seq<Seq<ItemData>>) -> Seq<
    Seq<ItemData>,
> {
    Seq::new(tails.len(), |i: int| stack + tails[i])
}

/// Every head followed by every tail: all the tails behind the first head,
/// then all of them behind the second, and so on.
pub open spec fn cross(heads: Seq<Seq<ItemData>>, tails: Seq<Seq<ItemData>>) -> Seq<Seq<ItemData>>
    decreases heads.len(),
{
    if heads.len() == 0 {
        Seq::empty()
    } else {
        each_after(heads.first(), tails) + cross(heads.drop_first(), tails)
    }
}

/// Every way to fill the slots from `slot` to the end of the walk.
pub open spec fn completions(pools: Map<ESlot, Seq<ItemData>>, slot: Option<ESlot>) -> Seq<
    Seq<ItemData>,
>
    decreases walk_left(slot),
{
    match slot {
        None => seq![Seq::empty()],
        Some(s) => cross(options(pools, s), completions(pools, successor(s))),
    }
}

/// The loadouts among `all` that no rule turns away, in their order.
pub open spec fn admitted(all: Seq<Seq<ItemData>>, limits: Seq<Limit>) -> Seq<Seq<ItemData>> {
    all.filter(|loadout: Seq<ItemData>| !violates(loadout, limits))
}

/// The loadouts that the search produces: every way to fill the slots of
/// the walk that no rule turns away.
pub open spec fn loadouts(pools: Map<ESlot, Seq<ItemData>>, limits: Seq<Limit>) -> Seq<Seq<ItemData>> {
    admitted(completions(pools, Some(ESlot::Head)), limits)
}

/// In how many ways two of `n` items can be worn together.
pub open spec fn pair_count(n: nat) -> nat {
    (n * (n - 1) / 2) as nat
}

/// By how much a slot multiplies the number of loadouts: an ordinary slot
/// by the number of its candidates, a paired slot by the number of pairs
/// among them, and a slot without candidates not at all. A paired slot
/// with a single candidate has no pair, so that the product is zero.
pub open spec fn choices(pools: Map<ESlot, Seq<ItemData>>, slot: ESlot) -> nat {
    let n = candidates(pools, slot).len();
    if n == 0 {
        1
    } else if is_paired(slot) {
        pair_count(n)
    } else {
        n
    }
}

/// The product of the choices of the slots from `slot` to the end of the
/// walk.
pub open spec fn iterations_from(pools: Map<ESlot, Seq<ItemData>>, slot: Option<ESlot>) -> nat
    decreases walk_left(slot),
{
    match slot {
        None => 1,
        Some(s) => choices(pools, s) * iterations_from(pools, successor(s)),
    }
}

/// How many loadouts there are to try when no rule turns any away.
pub open spec fn iterations(pools: Map<ESlot, Seq<ItemData>>) -> nat {
    iterations_from(pools, Some(ESlot::Head))
}

/// Whether no two items of a pool have one id.
pub open spec fn distinct_ids(pool: Seq<ItemData>) -> bool {
    forall|i: int, j: int| 0 <= i < j < pool.len() ==> (#[trigger] pool[i]).id != (#[trigger] pool[j]).id
}

/// Whether the pool of every paired slot is free of repeated ids.
pub open spec fn paired_ids_distinct(pools: Map<ESlot, Seq<ItemData>>) -> bool {
    &&& distinct_ids(candidates(pools, ESlot::Finger))
    &&& distinct_ids(candidates(pools, ESlot::Trinket))
    &&& distinct_ids(candidates(pools, ESlot::WeaponHand))
}

/// Whether no paired slot has exactly one candidate. Such a slot gives no
/// pair, and so counts as no choice at all, while the search passes over
/// it as it passes over a slot without candidates.
pub open spec fn no_lone_candidate(pools: Map<ESlot, Seq<ItemData>>) -> bool {
    &&& candidates(pools, ESlot::Finger).len() != 1
    &&& candidates(pools, ESlot::Trinket).len() != 1
    &&& candidates(pools, ESlot::WeaponHand).len() != 1
}

/// Whether a slot from `slot` to the end of the walk gives no choice at
/// all.
pub open spec fn has_dead_slot(pools: Map<ESlot, Seq<ItemData>>, slot: Option<ESlot>) -> bool
    decreases walk_left(slot),
{
    match slot {
        None => false,
        Some(s) => choices(pools, s) == 0 || has_dead_slot(pools, successor(s)),
    }
}

pub proof fn lemma_cross_len(heads: Seq<Seq<ItemData>>, tails: Seq<Seq<ItemData>>)
    ensures
        cross(heads, tails).len() == heads.len() * tails.len(),
    decreases heads.len(),
{
    if heads.len() > 0 {
        lemma_cross_len(heads.drop_first(), tails);
        assert(heads.len() * tails.len() == tails.len() + (heads.len() - 1) * tails.len())
            by (nonlinear_arith);
    } else {
        assert(0 * tails.len() == 0);
    }
}

/// Twice the number of pairings from a position on, in a pool without
/// repeated ids.
proof fn lemma_pairings_len(pool: Seq<ItemData>, first: int, second: int)
    requires
        distinct_ids(pool),
        0 <= first < second <= pool.len(),
    ensures
        2 * pairings(pool, first, second).len() == 2 * (pool.len() - second) + (pool.len() - first
            - 1) * (pool.len() - first - 2),
    decreases pool.len() - first, pool.len() - second,
{
    let n = pool.len() as int;
    if second >= n {
        if first + 1 < n {
            lemma_pairings_len(pool, first + 1, first + 2);
            assert(2 * (n - (first + 2)) + (n - (first + 1) - 1) * (n - (first + 1) - 2) == (n
                - first - 1) * (n - first - 2)) by (nonlinear_arith);
        } else {
            assert(pairings(pool, first + 1, first + 2).len() == 0);
            assert(n - first - 1 == 0);
            assert((n - first - 1) * (n - first - 2) == 0) by (nonlinear_arith)
                requires
                    n - first - 1 == 0,
            ;
        }
    } else {
        lemma_pairings_len(pool, first, second + 1);
        assert(pool[first].id != pool[second].id);
    }
}

/// A pool of `n` items without repeated ids gives `n * (n - 1) / 2` pairs.
pub proof fn lemma_pair_count(pool: Seq<ItemData>)
    requires
        distinct_ids(pool),
    ensures
        pairings(pool, 0, 1).len() == pool.len() * (pool.len() - 1) / 2,
        pairings(pool, 0, 1).len() == pair_count(pool.len()),
{
    let n = pool.len() as int;
    if n >= 1 {
        lemma_pairings_len(pool, 0, 1);
        assert(2 * (n - 1) + (n - 0 - 1) * (n - 0 - 2) == n * (n - 1)) by (nonlinear_arith);
    } else {
        assert(n * (n - 1) == 0) by (nonlinear_arith)
            requires
                n == 0,
        ;
    }
}

/// Whether two pairs hold the same two items, in either order.
pub open spec fn same_pair(a: Seq<ItemData>, b: Seq<ItemData>) -> bool {
    (a[0].id == b[0].id && a[1].id == b[1].id) || (a[0].id == b[1].id && a[1].id == b[0].id)
}

/// Where in the pool the two items of a pairing stand: the first before
/// the second, and neither before the position the pairings start from.
proof fn lemma_pairing_positions(pool: Seq<ItemData>, first: int, second: int, k: int) -> (at: (int, int))
    requires
        0 <= k < pairings(pool, first, second).len(),
    ensures
        first <= at.0 < at.1 < pool.len(),
        at.0 > first || at.1 >= second,
        pool[at.0].id != pool[at.1].id,
        pairings(pool, first, second)[k] == seq![tagged(pool[at.0], 1), tagged(pool[at.1], 2)],
    decreases pool.len() - first, pool.len() - second,
{
    if second >= pool.len() {
        lemma_pairing_positions(pool, first + 1, first + 2, k)
    } else if pool[first].id != pool[second].id {
        if k == 0 {
            (first, second)
        } else {
            lemma_pairing_positions(pool, first, second + 1, k - 1)
        }
    } else {
        lemma_pairing_positions(pool, first, second + 1, k)
    }
}

proof fn lemma_pairings_differ(pool: Seq<ItemData>, first: int, second: int, a: int, b: int)
    requires
        distinct_ids(pool),
        0 <= a < b < pairings(pool, first, second).len(),
    ensures
        !same_pair(pairings(pool, first, second)[a], pairings(pool, first, second)[b]),
    decreases pool.len() - first, pool.len() - second,
{
    if second >= pool.len() {
        lemma_pairings_differ(pool, first + 1, first + 2, a, b);
    } else if pool[first].id != pool[second].id {
        if a == 0 {
            let at = lemma_pairing_positions(pool, first, second + 1, b - 1);
            assert(pool[first].id == pool[at.0].id ==> first == at.0);
            assert(pool[second].id == pool[at.1].id ==> second == at.1);
            assert(pool[first].id == pool[at.1].id ==> first == at.1);
            assert(pool[second].id == pool[at.0].id ==> second == at.0);
        } else {
            lemma_pairings_differ(pool, first, second + 1, a - 1, b - 1);
        }
    } else {
        lemma_pairings_differ(pool, first, second + 1, a, b);
    }
}

/// What a paired slot makes of its pool: every pair holds two items with
/// different ids, one in each place. Where the pool of `n` items repeats no
/// id there are exactly `n * (n - 1) / 2` pairs, and no two of them hold
/// the same two items.
pub proof fn lemma_pairs(pool: Seq<ItemData>)
    ensures
        forall|k: int|
            0 <= k < pairings(pool, 0, 1).len() ==> {
                let pair = #[trigger] pairings(pool, 0, 1)[k];
                pair.len() == 2 && pair[0].id != pair[1].id
            },
        distinct_ids(pool) ==> pairings(pool, 0, 1).len() == pool.len() * (pool.len() - 1) / 2,
        distinct_ids(pool) ==> pairings(pool, 0, 1).len() == pair_count(pool.len()),
        distinct_ids(pool) ==> forall|a: int, b: int|
            0 <= a < b < pairings(pool, 0, 1).len() ==> !same_pair(
                #[trigger] pairings(pool, 0, 1)[a],
                #[trigger] pairings(pool, 0, 1)[b],
            ),
{
    assert forall|k: int| 0 <= k < pairings(pool, 0, 1).len() implies {
        let pair = #[trigger] pairings(pool, 0, 1)[k];
        pair.len() == 2 && pair[0].id != pair[1].id
    } by {
        let at = lemma_pairing_positions(pool, 0, 1, k);
    }
    if distinct_ids(pool) {
        lemma_pair_count(pool);
        assert forall|a: int, b: int| 0 <= a < b < pairings(pool, 0, 1).len() implies !same_pair(
            #[trigger] pairings(pool, 0, 1)[a],
            #[trigger] pairings(pool, 0, 1)[b],
        ) by {
            lemma_pairings_differ(pool, 0, 1, a, b);
        }
    }
}

/// The size of what a slot can add is the slot's number of choices.
proof fn lemma_options_len(pools: Map<ESlot, Seq<ItemData>>, slot: ESlot)
    requires
        paired_ids_distinct(pools),
        no_lone_candidate(pools),
    ensures
        options(pools, slot).len() == choices(pools, slot),
{
    let pool = candidates(pools, slot);
    if is_paired(slot) && pool.len() >= 2 {
        lemma_pair_count(pool);
    }
}

/// There are as many ways to fill the slots as the product of their
/// choices says.
pub proof fn lemma_completions_len(pools: Map<ESlot, Seq<ItemData>>, slot: Option<ESlot>)
    requires
        paired_ids_distinct(pools),
        no_lone_candidate(pools),
    ensures
        completions(pools, slot).len() == iterations_from(pools, slot),
    decreases walk_left(slot),
{
    match slot {
        None => {},
        Some(s) => {
            lemma_completions_len(pools, successor(s));
            lemma_options_len(pools, s);
            lemma_cross_len(options(pools, s), completions(pools, successor(s)));
        },
    }
}

/// Without rules every loadout is admitted.
pub proof fn lemma_admitted_without_rules(all: Seq<Seq<ItemData>>)
    ensures
        admitted(all, Seq::<Limit>::empty()) == all,
    decreases all.len(),
{
    reveal(Seq::filter);
    if all.len() > 0 {
        lemma_admitted_without_rules(all.drop_last());
        assert(!violates(all.last(), Seq::<Limit>::empty()));
        assert(all.drop_last().push(all.last()) == all);
    }
}

/// Without rules the search produces exactly as many loadouts as the
/// product of the choices says, as long as no pool of a paired slot
/// repeats an id or holds a single candidate.
pub proof fn lemma_iterations_counts_loadouts(pools: Map<ESlot, Seq<ItemData>>)
    requires
        paired_ids_distinct(pools),
        no_lone_candidate(pools),
    ensures
        loadouts(pools, Seq::<Limit>::empty()).len() == iterations(pools),
{
    lemma_completions_len(pools, Some(ESlot::Head));
    lemma_admitted_without_rules(completions(pools, Some(ESlot::Head)));
}

/// No loadout that the search produces reaches the cap of a rule: of the
/// items that a rule names it holds fewer than the rule's maximum.
pub proof fn lemma_loadouts_keep_rules(pools: Map<ESlot, Seq<ItemData>>, limits: Seq<Limit>)
    ensures
        forall|k: int|
            0 <= k < loadouts(pools, limits).len() ==> !violates(
                #[trigger] loadouts(pools, limits)[k],
                limits,
            ),
        forall|k: int, i: int|
            0 <= k < loadouts(pools, limits).len() && 0 <= i < limits.len() ==> occurrences(
                #[trigger] loadouts(pools, limits)[k],
                (#[trigger] limits[i]).items@,
            ) < limits[i].max,
{
    broadcast use vstd::seq_lib::group_filter_ensures;

    let all = completions(pools, Some(ESlot::Head));
    let pred = |loadout: Seq<ItemData>| !violates(loadout, limits);
    assert forall|k: int| 0 <= k < all.filter(pred).len() implies pred(#[trigger] all.filter(pred)[k]) by {}
    assert forall|k: int, i: int|
        0 <= k < loadouts(pools, limits).len() && 0 <= i < limits.len() implies occurrences(
        #[trigger] loadouts(pools, limits)[k],
        (#[trigger] limits[i]).items@,
    ) < limits[i].max by {
        assert(pred(all.filter(pred)[k]));
        assert(!reaches(loadouts(pools, limits)[k], limits[i]));
    }
}

/// The number of loadouts is zero where a slot gives no choice, and not
/// zero where every slot gives one.
pub proof fn lemma_iterations_zero(pools: Map<ESlot, Seq<ItemData>>, slot: Option<ESlot>)
    ensures
        has_dead_slot(pools, slot) <==> iterations_from(pools, slot) == 0,
    decreases walk_left(slot),
{
    match slot {
        None => {},
        Some(s) => {
            lemma_iterations_zero(pools, successor(s));
            let here = choices(pools, s);
            let behind = iterations_from(pools, successor(s));
            assert(here * behind == 0 <==> here == 0 || behind == 0) by (nonlinear_arith)
                requires
                    here >= 0,
                    behind >= 0,
            ;
        },
    }
}

/// The admitted loadouts that begin with `stack` and go on to fill the
/// slots from `slot` to the end of the walk.
pub open spec fn reachable(
    pools: Map<ESlot, Seq<ItemData>>,
    limits: Seq<Limit>,
    slot: Option<ESlot>,
    stack: Seq<ItemData>,
) -> Seq<Seq<ItemData>> {
    admitted(each_after(stack, completions(pools, slot)), limits)
}

/// The admitted loadouts that begin with `stack`, go on with one of
/// `heads` and then fill the slots behind `slot`.
pub open spec fn reachable_through(
    pools: Map<ESlot, Seq<ItemData>>,
    limits: Seq<Limit>,
    slot: ESlot,
    stack: Seq<ItemData>,
    heads: Seq<Seq<ItemData>>,
) -> Seq<Seq<ItemData>> {
    admitted(each_after(stack, cross(heads, completions(pools, successor(slot)))), limits)
}

/// The search from the empty stack at the head gives all loadouts.
pub proof fn lemma_reachable_from_start(pools: Map<ESlot, Seq<ItemData>>, limits: Seq<Limit>)
    ensures
        reachable(pools, limits, Some(ESlot::Head), Seq::empty()) == loadouts(pools, limits),
{
    let all = completions(pools, Some(ESlot::Head));
    assert forall|i: int| 0 <= i < all.len() implies Seq::<ItemData>::empty() + all[i] == all[i] by {
        assert(Seq::<ItemData>::empty() + all[i] =~= all[i]);
    }
    assert(each_after(Seq::empty(), all) =~= all);
}

/// Past the last slot the stack is the one loadout left, if no rule
/// turns it away.
pub proof fn lemma_reachable_at_end(
    pools: Map<ESlot, Seq<ItemData>>,
    limits: Seq<Limit>,
    stack: Seq<ItemData>,
)
    ensures
        reachable(pools, limits, None, stack) == if violates(stack, limits) {
            Seq::<Seq<ItemData>>::empty()
        } else {
            seq![stack]
        },
{
    reveal_with_fuel(Seq::filter, 2);
    let only = each_after(stack, completions(pools, None));
    assert(stack + Seq::<ItemData>::empty() =~= stack);
    assert(only =~= seq![stack]);
    assert(only.drop_last() =~= Seq::<Seq<ItemData>>::empty());
    assert(only.last() == stack);
}

/// At a slot the search goes through what the slot can add.
pub proof fn lemma_reachable_at_slot(
    pools: Map<ESlot, Seq<ItemData>>,
    limits: Seq<Limit>,
    slot: ESlot,
    stack: Seq<ItemData>,
)
    ensures
        reachable(pools, limits, Some(slot), stack) == reachable_through(
            pools,
            limits,
            slot,
            stack,
            options(pools, slot),
        ),
{
}

/// Nothing is reached through no head.
pub proof fn lemma_reachable_through_none(
    pools: Map<ESlot, Seq<ItemData>>,
    limits: Seq<Limit>,
    slot: ESlot,
    stack: Seq<ItemData>,
)
    ensures
        reachable_through(pools, limits, slot, stack, Seq::empty()) == Seq::<Seq<ItemData>>::empty(),
{
    reveal(Seq::filter);
    assert(each_after(stack, cross(Seq::empty(), completions(pools, successor(slot))))
        =~= Seq::<Seq<ItemData>>::empty());
}

/// What is reached through a row of heads is what is reached behind the
/// first of them, followed by what is reached through the others.
pub proof fn lemma_reachable_through_first(
    pools: Map<ESlot, Seq<ItemData>>,
    limits: Seq<Limit>,
    slot: ESlot,
    stack: Seq<ItemData>,
    heads: Seq<Seq<ItemData>>,
)
    requires
        heads.len() > 0,
    ensures
        reachable_through(pools, limits, slot, stack, heads) == reachable(
            pools,
            limits,
            successor(slot),
            stack + heads.first(),
        ) + reachable_through(pools, limits, slot, stack, heads.drop_first()),
{
    let tails = completions(pools, successor(slot));
    let front = each_after(heads.first(), tails);
    let back = cross(heads.drop_first(), tails);
    assert(cross(heads, tails) == front + back);
    assert forall|i: int| 0 <= i < tails.len() implies stack + (heads.first() + tails[i]) == (stack
        + heads.first()) + tails[i] by {
        assert(stack + (heads.first() + tails[i]) =~= (stack + heads.first()) + tails[i]);
    }
    assert(each_after(stack, front) =~= each_after(stack + heads.first(), tails));
    assert(each_after(stack, front + back) =~= each_after(stack, front) + each_after(stack, back));
    Seq::filter_distributes_over_add(
        each_after(stack, front),
        each_after(stack, back),
        |loadout: Seq<ItemData>| !violates(loadout, limits),
    );
}

/// Behind a stack that a rule turns away nothing is reached.
pub proof fn lemma_reachable_behind_violation(
    pools: Map<ESlot, Seq<ItemData>>,
    limits: Seq<Limit>,
    slot: Option<ESlot>,
    stack: Seq<ItemData>,
)
    requires
        violates(stack, limits),
    ensures
        reachable(pools, limits, slot, stack) == Seq::<Seq<ItemData>>::empty(),
{
    let all = each_after(stack, completions(pools, slot));
    let pred = |loadout: Seq<ItemData>| !violates(loadout, limits);
    assert forall|i: int| 0 <= i < all.len() implies !pred(#[trigger] all[i]) by {
        lemma_violation_stays(stack, completions(pools, slot)[i], limits);
    }
    all.lemma_all_neg_filter_empty(pred);
}

} // verus!
