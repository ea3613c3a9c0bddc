//! What is known of each item: the best results of the loadouts it was
//! part of, their average, and a rating from 0 to 100 that places this
//! average between the worst and the best result of the ranking. Items
//! that rate under a threshold are left out of further loadouts.

use vstd::prelude::*;
use crate::configuration::{Configuration, ConfigurationError};
use crate::simcraft::item::Item;
use crate::simcraft::report::{bounds, Generator};

verus! {

/// What is known of one item.
pub struct Stat {
    pub item_id: u32,
    /// The best results seen with the item, best first.
    pub window: Seq<u64>,
    /// The average of the window, rounded down.
    pub average: u64,
    /// The rating, once the item was rated.
    pub rating: Option<i32>,
    /// How often the item was seen; the count stops at the largest number.
    pub seen: u64,
}

/// The sum of the values.
pub open spec fn total(values: Seq<u64>) -> nat
    decreases values.len(),
{
    if values.len() == 0 {
        0
    } else {
        total(values.drop_last()) + values.last() as nat
    }
}

/// The average of the values, rounded down; zero where there are none.
pub open spec fn mean(values: Seq<u64>) -> nat {
    if values.len() == 0 {
        0
    } else {
        total(values) / values.len()
    }
}

/// Whether no value stands behind a smaller one.
pub open spec fn falling(values: Seq<u64>) -> bool {
    forall|i: int, j: int| 0 <= i < j < values.len() ==> values[i] >= values[j]
}

/// How many of the values are at least `sample`.
pub open spec fn at_least(values: Seq<u64>, sample: u64) -> nat
    decreases values.len(),
{
    if values.len() == 0 {
        0
    } else {
        at_least(values.drop_last(), sample) + if values.last() >= sample {
            1nat
        } else {
            0nat
        }
    }
}

/// The window after a sample was added: the sample goes behind the values
/// that are at least as large, and where the window then holds more than
/// `capacity` values it loses its last.
pub open spec fn kept(window: Seq<u64>, capacity: nat, sample: u64) -> Seq<u64> {
    let grown = window.insert(at_least(window, sample) as int, sample);
    if grown.len() > capacity {
        grown.drop_last()
    } else {
        grown
    }
}

/// What is known of an item that was seen for the first time.
pub open spec fn fresh(item_id: u32, dps: u64) -> Stat {
    Stat { item_id, window: seq![dps], average: dps, rating: None, seen: 1 }
}

/// What is known of an item after it was seen once more.
pub open spec fn sampled(stat: Stat, capacity: nat, dps: u64) -> Stat {
    let window = kept(stat.window, capacity, dps);
    Stat {
        window,
        average: mean(window) as u64,
        seen: if stat.seen < u64::MAX {
            (stat.seen + 1) as u64
        } else {
            stat.seen
        },
        ..stat
    }
}

/// Where an item stands among the items that are known: the place of the
/// first entry with its id, or the number of entries where there is none.
pub open spec fn place(stats: Seq<Stat>, item_id: u32) -> int
    decreases stats.len(),
{
    if stats.len() == 0 {
        0
    } else if stats.first().item_id == item_id {
        0
    } else {
        1 + place(stats.drop_first(), item_id)
    }
}

/// Whether an item is known.
pub open spec fn known(stats: Seq<Stat>, item_id: u32) -> bool {
    place(stats, item_id) < stats.len()
}

/// What is known after an item was seen in a loadout with the result
/// `dps`: an item that was known has the result added to its window, an
/// item that was not is now known, behind the others.
pub open spec fn recorded(stats: Seq<Stat>, capacity: nat, item_id: u32, dps: u64) -> Seq<Stat> {
    let at = place(stats, item_id);
    if at < stats.len() {
        stats.update(at, sampled(stats[at], capacity, dps))
    } else {
        stats.push(fresh(item_id, dps))
    }
}

/// What is known after every item of a loadout was seen with the result
/// `dps`, item after item. An item that the loadout holds twice is seen
/// twice.
pub open spec fn recorded_all(stats: Seq<Stat>, capacity: nat, ids: Seq<u32>, dps: u64) -> Seq<Stat>
    decreases ids.len(),
{
    if ids.len() == 0 {
        stats
    } else {
        recorded(recorded_all(stats, capacity, ids.drop_last(), dps), capacity, ids.last(), dps)
    }
}

/// By how many thousandths the tolerance is widened for an item that was
/// seen `seen` times: by a full 1000 for an item never seen, by less the
/// more often it was seen, and by nothing once it was seen `modifier`
/// times. This keeps an item from being judged on its first few results.
pub open spec fn widening(seen: u64, modifier: u64) -> nat {
    if seen < modifier {
        (1000 * (modifier - seen) / (modifier as int)) as nat
    } else {
        0
    }
}

/// The factor, in thousandths and never under 1000, by which the worst
/// ranked result is divided to get the lower bound of the rating.
pub open spec fn tolerance_factor(tolerance: u32, seen: u64, modifier: u64) -> nat {
    1000 + tolerance as nat + widening(seen, modifier)
}

/// Where an average lies between a lower bound and the best result, from
/// 0 at or under the bound to 100 at or over the best. The lower bound is
/// the worst ranked result `min` divided by the tolerance factor, which is
/// given in thousandths; whatever lies between is rounded down. Where the
/// bound and the best fall together, an average over them rates 100 and
/// any other 0.
pub open spec fn rating_of(average: u64, min: u64, max: u64, factor: nat) -> int {
    let above = average * factor - min * 1000;
    let spread = max * factor - min * 1000;
    if above <= 0 {
        0
    } else if above >= spread {
        100
    } else {
        100 * above / spread
    }
}

/// An item with its rating set anew.
pub open spec fn rated(stat: Stat, tolerance: u32, modifier: u64, min: u64, max: u64) -> Stat {
    Stat {
        rating: Some(
            rating_of(stat.average, min, max, tolerance_factor(tolerance, stat.seen, modifier)) as i32,
        ),
        ..stat
    }
}

/// Every item with its rating set anew.
pub open spec fn rated_all(stats: Seq<Stat>, tolerance: u32, modifier: u64, min: u64, max: u64) -> Seq<
    Stat,
> {
    Seq::new(stats.len(), |i: int| rated(stats[i], tolerance, modifier, min, max))
}

/// Whether an item is to be left out: it is known, it was rated, and its
/// rating lies under the threshold.
pub open spec fn ignorable(stats: Seq<Stat>, threshold: i32, item_id: u32) -> bool {
    known(stats, item_id) && match stats[place(stats, item_id)].rating {
        Some(rating) => rating < threshold,
        None => false,
    }
}

/// A rating is a number from 0 to 100.
pub proof fn lemma_rating_range(average: u64, min: u64, max: u64, factor: nat)
    ensures
        0 <= rating_of(average, min, max, factor) <= 100,
{
    let above = average * factor - min * 1000;
    let spread = max * factor - min * 1000;
    if 0 < above < spread {
        assert(0 <= 100 * above / spread <= 100) by (nonlinear_arith)
            requires
                0 < above < spread,
        ;
    }
}

/// The place of an item is the place of the first entry with its id.
pub proof fn lemma_place(stats: Seq<Stat>, item_id: u32)
    ensures
        0 <= place(stats, item_id) <= stats.len(),
        known(stats, item_id) ==> stats[place(stats, item_id)].item_id == item_id,
        forall|i: int| 0 <= i < place(stats, item_id) ==> (#[trigger] stats[i]).item_id != item_id,
    decreases stats.len(),
{
    if stats.len() > 0 && stats.first().item_id != item_id {
        let rest = stats.drop_first();
        lemma_place(rest, item_id);
        assert forall|i: int| 0 <= i < place(stats, item_id) implies (#[trigger] stats[i]).item_id
            != item_id by {
            if i > 0 {
                assert(rest[i - 1] == stats[i]);
            }
        }
    }
}

/// An item that was never seen is not left out, whatever the threshold.
pub proof fn lemma_unseen_is_kept(stats: Seq<Stat>, threshold: i32, item_id: u32)
    requires
        forall|i: int| 0 <= i < stats.len() ==> (#[trigger] stats[i]).item_id != item_id,
    ensures
        !ignorable(stats, threshold, item_id),
{
    lemma_place(stats, item_id);
}

/// The ids of the items of a stack, in their order.
pub open spec fn item_ids(stack: Seq<Item>) -> Seq<u32> {
    Seq::new(stack.len(), |i: int| stack[i].id)
}

/// Whether `root` is the square root of `n`, rounded down.
pub open spec fn is_root(root: nat, n: nat) -> bool {
    root * root <= n < (root + 1) * (root + 1)
}

/// How often an item has to be seen before it is rated without any
/// widening of the tolerance: sixteen times the square root of the number
/// of loadouts to try, divided by the number of candidates, all rounded
/// down; zero where there is no candidate.
pub open spec fn modifier_of(iterations: u64, total_items: usize) -> nat {
    if total_items == 0 {
        0
    } else {
        let root = choose|root: nat| is_root(root, iterations as nat);
        root * 16 / (total_items as nat)
    }
}

/// A number has one square root, rounded down.
proof fn lemma_one_root(a: nat, b: nat, n: nat)
    requires
        is_root(a, n),
        is_root(b, n),
    ensures
        a == b,
{
    if a < b {
        assert((a + 1) * (a + 1) <= b * b) by (nonlinear_arith)
            requires
                a + 1 <= b,
        ;
    } else if b < a {
        assert((b + 1) * (b + 1) <= a * a) by (nonlinear_arith)
            requires
                b + 1 <= a,
        ;
    }
}

/// The square root, rounded down.
fn root_of(n: u64) -> (root: u64)
    ensures
        is_root(root as nat, n as nat),
        root < 0x1_0000_0000,
{
    let mut low: u64 = 0;
    let mut high: u64 = 0x1_0000_0000;
    assert(0x1_0000_0000 * 0x1_0000_0000 > n) by (nonlinear_arith)
        requires
            n <= 0xFFFF_FFFF_FFFF_FFFF,
    ;
    while high - low > 1
        invariant
            low < high <= 0x1_0000_0000,
            low * low <= n < high * high,
        decreases high - low,
    {
        let middle: u64 = low + (high - low) / 2;
        assert(middle * middle <= 0xFFFF_FFFF * 0xFFFF_FFFF) by (nonlinear_arith)
            requires
                middle <= 0xFFFF_FFFF,
        ;
        if middle * middle <= n {
            low = middle;
        } else {
            high = middle;
        }
    }
    low
}

/// What is known of one item.
pub struct Data {
    item_id: u32,
    dps_avg: u64,
    dps_range: Vec<u64>,
    rating: Option<i32>,
    seen: u64,
}

impl View for Data {
    type V = Stat;

    closed spec fn view(&self) -> Stat {
        Stat {
            item_id: self.item_id,
            window: self.dps_range@,
            average: self.dps_avg,
            rating: self.rating,
            seen: self.seen,
        }
    }
}

/// Among values that fall, the ones at least as large as `sample` are the
/// ones in front of the first smaller one.
proof fn lemma_at_least(values: Seq<u64>, sample: u64, at: int)
    requires
        falling(values),
        0 <= at <= values.len(),
        forall|i: int| 0 <= i < at ==> values[i] >= sample,
        at < values.len() ==> values[at] < sample,
    ensures
        at_least(values, sample) == at,
    decreases values.len(),
{
    if values.len() > 0 {
        let front = values.drop_last();
        if at == values.len() {
            lemma_at_least(front, sample, at - 1);
        } else {
            assert(values[at] >= values.last());
            lemma_at_least(front, sample, at);
        }
    }
}

/// A value put behind the values at least as large leaves them falling.
proof fn lemma_insert_falling(values: Seq<u64>, sample: u64, at: int)
    requires
        falling(values),
        0 <= at <= values.len(),
        forall|i: int| 0 <= i < at ==> values[i] >= sample,
        forall|i: int| at <= i < values.len() ==> values[i] < sample,
    ensures
        falling(values.insert(at, sample)),
        falling(values.insert(at, sample).drop_last()),
{
    let grown = values.insert(at, sample);
    assert forall|i: int, j: int| 0 <= i < j < grown.len() implies grown[i] >= grown[j] by {
        if j < at {
            assert(grown[i] == values[i] && grown[j] == values[j]);
        } else if j == at {
            assert(grown[i] == values[i]);
        } else if i < at {
            assert(grown[i] == values[i] && grown[j] == values[j - 1]);
        } else if i == at {
            assert(grown[j] == values[j - 1]);
        } else {
            assert(grown[i] == values[i - 1] && grown[j] == values[j - 1]);
        }
    }
}

/// A window that is in order and holds no more values than it may stays
/// so when a sample is added. A window always holds a value, so that one
/// that may hold none still holds one.
pub proof fn lemma_kept_window(window: Seq<u64>, capacity: nat, sample: u64)
    requires
        falling(window),
        1 <= window.len(),
        window.len() <= capacity || window.len() == 1,
    ensures
        falling(kept(window, capacity, sample)),
        1 <= kept(window, capacity, sample).len(),
        kept(window, capacity, sample).len() <= capacity || kept(window, capacity, sample).len() == 1,
{
    lemma_at_least_splits(window, sample);
    lemma_insert_falling(window, sample, at_least(window, sample) as int);
}

/// Among values that fall, the ones at least as large as `sample` come
/// first and the smaller ones behind them.
proof fn lemma_at_least_splits(values: Seq<u64>, sample: u64)
    requires
        falling(values),
    ensures
        at_least(values, sample) <= values.len(),
        forall|i: int| 0 <= i < at_least(values, sample) ==> values[i] >= sample,
        forall|i: int| at_least(values, sample) <= i < values.len() ==> values[i] < sample,
    decreases values.len(),
{
    if values.len() > 0 {
        let front = values.drop_last();
        lemma_at_least_splits(front, sample);
        if values.last() >= sample {
            assert forall|i: int| 0 <= i < values.len() implies values[i] >= sample by {
                assert(values[i] >= values.last());
            }
            if at_least(front, sample) < front.len() {
                assert(front[at_least(front, sample) as int] < sample);
                assert(false);
            }
        } else {
            assert forall|i: int| 0 <= i < at_least(values, sample) implies values[i] >= sample by {
                assert(front[i] == values[i]);
            }
            assert forall|i: int| at_least(values, sample) <= i < values.len() implies values[i]
                < sample by {
                if i < front.len() {
                    assert(front[i] == values[i]);
                }
            }
        }
    }
}

/// The sum of values is no more than their number times the largest value.
proof fn lemma_total_bound(values: Seq<u64>)
    ensures
        total(values) <= values.len() * 0xFFFF_FFFF_FFFF_FFFF,
        values.len() > 0 ==> mean(values) <= 0xFFFF_FFFF_FFFF_FFFF,
    decreases values.len(),
{
    if values.len() > 0 {
        lemma_total_bound(values.drop_last());
        let n = values.len() as int;
        assert((n - 1) * 0xFFFF_FFFF_FFFF_FFFF + 0xFFFF_FFFF_FFFF_FFFF == n * 0xFFFF_FFFF_FFFF_FFFF)
            by (nonlinear_arith);
        let sum = total(values) as int;
        assert(sum / n <= 0xFFFF_FFFF_FFFF_FFFF) by (nonlinear_arith)
            requires
                n > 0,
                0 <= sum <= n * 0xFFFF_FFFF_FFFF_FFFF,
        ;
    }
}

impl Data {
    #[verifier::type_invariant]
    spec fn inv(&self) -> bool {
        self.dps_range@.len() >= 1 && falling(self.dps_range@)
    }

    /// What is known of an item after its first result.
    pub fn new(id: u32, dps: u64) -> (data: Data)
        ensures
            data@ == fresh(id, dps),
    {
        let mut range: Vec<u64> = Vec::new();
        range.push(dps);
        Data { item_id: id, dps_avg: dps, dps_range: range, rating: None, seen: 1 }
    }

    /// The id of the item.
    pub fn item_id(&self) -> (id: u32)
        ensures
            id == self@.item_id,
    {
        self.item_id
    }

    /// The rating of the item, once it was rated.
    pub fn rating(&self) -> (rating: Option<i32>)
        ensures
            rating == self@.rating,
    {
        self.rating
    }

    /// The average of the best results seen with the item.
    pub fn dps_avg(&self) -> (average: u64)
        ensures
            average == self@.average,
    {
        self.dps_avg
    }

    /// How often the item was seen.
    pub fn seen(&self) -> (seen: u64)
        ensures
            seen == self@.seen,
    {
        self.seen
    }

    fn _calc_avg_dps(&mut self, dps: u64, range_size: usize)
        ensures
            final(self)@ == sampled(old(self)@, range_size as nat, dps),
    {
        proof {
            use_type_invariant(&*self);
        }
        // The window is worked on outside the item, which meanwhile holds
        // a window of one value, so that it is in order at every moment.
        let mut range: Vec<u64> = Vec::new();
        range.push(dps);
        core::mem::swap(&mut self.dps_range, &mut range);
        let ghost before = range@;
        let mut at: usize = 0;
        while at < range.len() && dps <= range[at]
            invariant
                at <= range@.len(),
                forall|i: int| 0 <= i < at ==> range@[i] >= dps,
            decreases range@.len() - at,
        {
            at += 1;
        }
        proof {
            lemma_at_least(before, dps, at as int);
            assert forall|i: int| at <= i < before.len() implies before[i] < dps by {
                assert(before[at as int] >= before[i]);
            }
            lemma_insert_falling(before, dps, at as int);
        }
        range.insert(at, dps);
        if range.len() > range_size {
            range.pop();
        }
        proof {
            assert(range@ == kept(before, range_size as nat, dps));
            lemma_total_bound(range@);
        }
        let mut sum: u128 = 0;
        let mut i: usize = 0;
        while i < range.len()
            invariant
                i <= range@.len(),
                sum == total(range@.take(i as int)),
                sum <= i * 0xFFFF_FFFF_FFFF_FFFF,
            decreases range@.len() - i,
        {
            proof {
                assert(range@.take(i + 1).drop_last() == range@.take(i as int));
                assert(i * 0xFFFF_FFFF_FFFF_FFFF <= 0xFFFF_FFFF_FFFF_FFFF * 0xFFFF_FFFF_FFFF_FFFF)
                    by (nonlinear_arith)
                    requires
                        i <= 0xFFFF_FFFF_FFFF_FFFF,
                ;
                assert((i + 1) * 0xFFFF_FFFF_FFFF_FFFF == i * 0xFFFF_FFFF_FFFF_FFFF
                    + 0xFFFF_FFFF_FFFF_FFFF) by (nonlinear_arith);
            }
            sum = sum + range[i] as u128;
            i += 1;
        }
        proof {
            assert(range@.take(range@.len() as int) == range@);
        }
        let average: u64 = (sum / (range.len() as u128)) as u64;
        self.dps_avg = average;
        self.seen = if self.seen < u64::MAX {
            self.seen + 1
        } else {
            self.seen
        };
        core::mem::swap(&mut self.dps_range, &mut range);
    }

    fn set_rating(&mut self, rating: i32)
        ensures
            final(self)@ == (Stat { rating: Some(rating), ..old(self)@ }),
    {
        proof {
            use_type_invariant(&*self);
        }
        self.rating = Some(rating);
    }
}

/// What is known of every item, and how strictly weak items are left out.
pub struct Statistic {
    pub items: Vec<Data>,
    /// By how many thousandths the worst ranked result is lowered before
    /// an item is rated against it.
    pub tolerance: u32,
    /// The rating under which an item is left out.
    pub threshold: i32,
    /// How many loadouts there are to try.
    pub iterations: u64,
    /// How many results the window of an item keeps.
    pub range_size: usize,
    /// How often an item has to be seen before it is rated without any
    /// widening of the tolerance.
    pub modifier: u64,
}

impl View for Statistic {
    type V = Seq<Stat>;

    open spec fn view(&self) -> Seq<Stat> {
        Seq::new(self.items@.len(), |i: int| self.items@[i]@)
    }
}

/// What is known after a loadout was tried: every item of the loadout was
/// seen with its result, and where the ranking holds a result every item
/// that is known, in the loadout or not, is rated anew against the worst
/// and the best of the ranking. While the ranking is empty nothing is
/// rated.
pub open spec fn updated(
    stats: Seq<Stat>,
    capacity: nat,
    tolerance: u32,
    modifier: u64,
    ids: Seq<u32>,
    dps: u64,
    ranking: Seq<crate::simcraft::report::Report>,
) -> Seq<Stat> {
    let seen = recorded_all(stats, capacity, ids, dps);
    if ranking.len() == 0 {
        seen
    } else {
        rated_all(seen, tolerance, modifier, bounds(ranking).0, bounds(ranking).1)
    }
}

impl Statistic {
    /// Knows nothing yet. The tolerance and the threshold come from the
    /// configuration, the windows keep as many results as the ranking.
    pub fn new(config: &Configuration, iterations: u64, total_items: usize) -> (made: Statistic)
        ensures
            made.items@.len() == 0,
            made.tolerance == config.statistic.tolerance,
            made.threshold == config.statistic.threshold,
            made.iterations == iterations,
            made.range_size == config.simcraft.best_of,
            made.modifier == modifier_of(iterations, total_items),
    {
        let modifier: u64 = if total_items == 0 {
            0
        } else {
            let root = root_of(iterations);
            proof {
                let chosen = choose|r: nat| is_root(r, iterations as nat);
                lemma_one_root(root as nat, chosen, iterations as nat);
            }
            root * 16 / (total_items as u64)
        };
        Statistic {
            items: Vec::new(),
            tolerance: config.statistic.tolerance,
            threshold: config.statistic.threshold,
            iterations,
            range_size: config.simcraft.best_of,
            modifier,
        }
    }

    /// Takes in the result of a loadout, with the ranking as it stands
    /// after the result was offered to it.
    pub fn update(&mut self, stack: &Vec<Item>, dps: u64, ranking: &Generator)
        ensures
            final(self)@ == updated(
                old(self)@,
                old(self).range_size as nat,
                old(self).tolerance,
                old(self).modifier,
                item_ids(stack@),
                dps,
                ranking@,
            ),
            final(self).tolerance == old(self).tolerance,
            final(self).threshold == old(self).threshold,
            final(self).iterations == old(self).iterations,
            final(self).range_size == old(self).range_size,
            final(self).modifier == old(self).modifier,
    {
        let ghost ids = item_ids(stack@);
        let mut i: usize = 0;
        while i < stack.len()
            invariant
                i <= stack@.len(),
                ids == item_ids(stack@),
                self@ == recorded_all(old(self)@, self.range_size as nat, ids.take(i as int), dps),
                self.tolerance == old(self).tolerance,
                self.threshold == old(self).threshold,
                self.iterations == old(self).iterations,
                self.range_size == old(self).range_size,
                self.modifier == old(self).modifier,
            decreases stack@.len() - i,
        {
            proof {
                assert(ids.take(i + 1).drop_last() == ids.take(i as int));
                assert(ids.take(i + 1).last() == stack@[i as int].id);
            }
            self._add_new_one(&stack[i], dps);
            i += 1;
        }
        proof {
            assert(ids.take(stack@.len() as int) == ids);
        }
        if ranking.len() == 0 {
            return ;
        }
        let range = ranking.min_max_dps();
        let ghost seen = self@;
        let mut k: usize = 0;
        while k < self.items.len()
            invariant
                k <= self@.len(),
                self@.len() == self.items@.len(),
                self@.len() == seen.len(),
                forall|j: int|
                    0 <= j < k ==> self@[j] == rated(
                        #[trigger] seen[j],
                        self.tolerance,
                        self.modifier,
                        range.0,
                        range.1,
                    ),
                forall|j: int| k <= j < seen.len() ==> self@[j] == #[trigger] seen[j],
                self.tolerance == old(self).tolerance,
                self.threshold == old(self).threshold,
                self.iterations == old(self).iterations,
                self.range_size == old(self).range_size,
                self.modifier == old(self).modifier,
            decreases self@.len() - k,
        {
            self._rate_item(k, range.0, range.1);
            k += 1;
        }
        proof {
            assert(self@ =~= rated_all(seen, self.tolerance, self.modifier, range.0, range.1));
        }
    }

    /// Whether the stack holds an item that is to be left out.
    pub fn has_ignores(&self, stack: &Vec<Item>) -> (found: bool)
        ensures
            found == exists|k: int|
                0 <= k < stack@.len() && ignorable(self@, self.threshold, (#[trigger] stack@[k]).id),
    {
        let mut i: usize = 0;
        while i < stack.len()
            invariant
                i <= stack@.len(),
                forall|k: int| 0 <= k < i ==> !ignorable(self@, self.threshold, (#[trigger] stack@[k]).id),
            decreases stack@.len() - i,
        {
            if self.ignore(&stack[i]) {
                return true;
            }
            i += 1;
        }
        false
    }

    /// Whether an item is to be left out: it was seen, it was rated, and
    /// its rating lies under the threshold. An item that was never seen is
    /// never left out.
    pub fn ignore(&self, item: &Item) -> (ignored: bool)
        ensures
            ignored == ignorable(self@, self.threshold, item.id),
    {
        match self.find(item.id) {
            Some(at) => match self.items[at].rating() {
                Some(rating) => rating < self.threshold,
                None => false,
            },
            None => false,
        }
    }

    /// Where an item stands among the items that are known, if it is.
    fn find(&self, item_id: u32) -> (found: Option<usize>)
        ensures
            match found {
                Some(at) => known(self@, item_id) && at == place(self@, item_id),
                None => !known(self@, item_id) && place(self@, item_id) == self@.len(),
            },
    {
        let mut i: usize = 0;
        while i < self.items.len()
            invariant
                i <= self.items@.len(),
                forall|k: int| 0 <= k < i ==> (#[trigger] self@[k]).item_id != item_id,
            decreases self.items@.len() - i,
        {
            if self.items[i].item_id() == item_id {
                proof {
                    lemma_place_found(self@, item_id, i as int);
                }
                return Some(i);
            }
            i += 1;
        }
        proof {
            lemma_place(self@, item_id);
            if known(self@, item_id) {
                assert(self@[place(self@, item_id)].item_id == item_id);
            }
        }
        None
    }

    fn _add_new_one(&mut self, item: &Item, dps: u64)
        ensures
            final(self)@ == recorded(old(self)@, old(self).range_size as nat, item.id, dps),
            final(self).tolerance == old(self).tolerance,
            final(self).threshold == old(self).threshold,
            final(self).iterations == old(self).iterations,
            final(self).range_size == old(self).range_size,
            final(self).modifier == old(self).modifier,
    {
        match self.find(item.id) {
            Some(at) => {
                let range_size = self.range_size;
                self.items[at]._calc_avg_dps(dps, range_size);
                proof {
                    assert(self@ =~= recorded(old(self)@, old(self).range_size as nat, item.id, dps));
                }
            },
            None => {
                self.items.push(Data::new(item.id, dps));
                proof {
                    assert(self@ =~= recorded(old(self)@, old(self).range_size as nat, item.id, dps));
                }
            },
        }
    }

    fn _rate_item(&mut self, at: usize, min_dps: u64, max_dps: u64)
        requires
            at < old(self).items@.len(),
        ensures
            final(self)@ == old(self)@.update(
                at as int,
                rated(old(self)@[at as int], old(self).tolerance, old(self).modifier, min_dps, max_dps),
            ),
            final(self).tolerance == old(self).tolerance,
            final(self).threshold == old(self).threshold,
            final(self).iterations == old(self).iterations,
            final(self).range_size == old(self).range_size,
            final(self).modifier == old(self).modifier,
    {
        let rating = self.rate(&self.items[at], min_dps, max_dps);
        self.items[at].set_rating(rating);
        proof {
            assert(self@ =~= old(self)@.update(
                at as int,
                rated(old(self)@[at as int], old(self).tolerance, old(self).modifier, min_dps, max_dps),
            ));
        }
    }

    /// The rating of an item against the worst and the best result of the
    /// ranking: where its average lies between the worst result, lowered
    /// by the tolerance, and the best.
    pub fn rate(&self, data: &Data, min_dps: u64, max_dps: u64) -> (rating: i32)
        ensures
            rating == rating_of(
                data@.average,
                min_dps,
                max_dps,
                tolerance_factor(self.tolerance, data@.seen, self.modifier),
            ),
            0 <= rating <= 100,
    {
        let seen = data.seen();
        let wider: u128 = if seen < self.modifier {
            let left: u128 = (self.modifier - seen) as u128;
            assert(1000 * left / (self.modifier as int) <= 1000) by (nonlinear_arith)
                requires
                    0 < left <= self.modifier,
            ;
            1000 * left / (self.modifier as u128)
        } else {
            0
        };
        let factor: i128 = 1000 + self.tolerance as i128 + wider as i128;
        let average: i128 = data.dps_avg() as i128;
        proof {
            lemma_rating_range(data@.average, min_dps, max_dps, factor as nat);
            assert(0 <= average * factor <= 0xFFFF_FFFF_FFFF_FFFF * 0x1_0000_07D0) by (nonlinear_arith)
                requires
                    0 <= average <= 0xFFFF_FFFF_FFFF_FFFF,
                    0 <= factor <= 0x1_0000_07D0,
            ;
            assert(0 <= max_dps * factor <= 0xFFFF_FFFF_FFFF_FFFF * 0x1_0000_07D0) by (nonlinear_arith)
                requires
                    0 <= max_dps <= 0xFFFF_FFFF_FFFF_FFFF,
                    0 <= factor <= 0x1_0000_07D0,
            ;
        }
        let above: i128 = average * factor - (min_dps as i128) * 1000;
        let spread: i128 = (max_dps as i128) * factor - (min_dps as i128) * 1000;
        if above <= 0 {
            0
        } else if above >= spread {
            100
        } else {
            (100 * above / spread) as i32
        }
    }
}

/// An entry with the id of an item, with no such entry before it, is the
/// place of the item.
proof fn lemma_place_found(stats: Seq<Stat>, item_id: u32, at: int)
    requires
        0 <= at < stats.len(),
        stats[at].item_id == item_id,
        forall|k: int| 0 <= k < at ==> (#[trigger] stats[k]).item_id != item_id,
    ensures
        place(stats, item_id) == at,
{
    lemma_place(stats, item_id);
    let found = place(stats, item_id);
    if found < at {
        assert(stats[found].item_id == item_id);
    } else if found > at {
        assert(stats[at].item_id != item_id);
    }
}

} // verus!
