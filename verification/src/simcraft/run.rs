//! One pass over the loadouts. The loadouts are tried in an order that
//! chance decides; a loadout that holds an item rated too low is skipped.
//! The pass itself only decides: whoever drives it runs the simulator on
//! the loadout it is handed and brings back the result.

use vstd::prelude::*;
use crate::random::random_index;
use crate::simcraft::item::{views, Item, ItemData};
use crate::simcraft::item_map::counted_candidates;
use crate::simcraft::loadout::loadouts;
use crate::simcraft::report::{pushed, Generator};
use crate::simcraft::statistic::{ignorable, modifier_of, updated, Stat, Statistic};
use crate::simcraft::{snapshots, Simcraft};

verus! {

/// Why the simulator gave no result for a loadout.
#[derive(Debug)]
pub struct EvaluationError {
    pub message: String,
}

/// The result of the simulator for a loadout: how well the loadout
/// performed, and where the account of it lies.
#[derive(Debug)]
pub struct Evaluation {
    pub dps: u64,
    pub html: String,
}

/// What is to be done next in a pass.
pub enum Step {
    /// The simulator is to be run on this loadout.
    Evaluate(Vec<Item>),
    /// A loadout was skipped, as it holds an item that is rated too low.
    Skipped,
    /// No loadout is left.
    Finished,
}

/// A pass: the loadouts that are still to be tried, what is known of the
/// items, and how often the simulator failed.
pub struct Run {
    pending: Vec<Vec<Item>>,
    statistic: Statistic,
    failed: u64,
}

/// Whether a loadout holds an item that is to be left out.
pub open spec fn has_ignorable(stats: Seq<Stat>, threshold: i32, stack: Seq<ItemData>) -> bool {
    exists|k: int| 0 <= k < stack.len() && ignorable(stats, threshold, (#[trigger] stack[k]).id)
}

/// What it means to have drawn the loadout at `index` from a pass: the
/// loadout has left the pass, and it is handed out unless it holds an
/// item that is to be left out. Nothing else has changed.
pub open spec fn drawn(before: Run, after: Run, index: int, step: Step) -> bool {
    &&& 0 <= index < before.pending().len()
    &&& after.pending() == before.pending().remove(index)
    &&& after.tracker() == before.tracker()
    &&& after.failures() == before.failures()
    &&& match step {
        Step::Evaluate(stack) => views(stack@) == before.pending()[index] && !has_ignorable(
            before.tracker()@,
            before.tracker().threshold,
            before.pending()[index],
        ),
        Step::Skipped => has_ignorable(
            before.tracker()@,
            before.tracker().threshold,
            before.pending()[index],
        ),
        Step::Finished => false,
    }
}

impl Run {
    /// The loadouts that are still to be tried.
    pub closed spec fn pending(&self) -> Seq<Seq<ItemData>> {
        snapshots(self.pending@)
    }

    /// What is known of the items.
    pub closed spec fn tracker(&self) -> Statistic {
        self.statistic
    }

    /// How often the simulator failed; the count stops at the largest
    /// number.
    pub closed spec fn failures(&self) -> u64 {
        self.failed
    }

    /// How many loadouts are still to be tried.
    pub fn remaining(&self) -> (count: usize)
        ensures
            count == self.pending().len(),
    {
        self.pending.len()
    }

    /// What is known of the items.
    pub fn statistic(&self) -> (statistic: &Statistic)
        ensures
            *statistic == self.tracker(),
    {
        &self.statistic
    }

    /// How often the simulator failed.
    pub fn failed(&self) -> (count: u64)
        ensures
            count == self.failures(),
    {
        self.failed
    }

    /// Takes the loadout at `index` out of the pass, and hands it out
    /// unless it holds an item that is to be left out.
    pub fn draw(&mut self, index: usize) -> (step: Step)
        requires
            index < old(self).pending().len(),
        ensures
            drawn(*old(self), *final(self), index as int, step),
    {
        let ghost before = snapshots(self.pending@);
        let stack = self.pending.remove(index);
        proof {
            assert(snapshots(self.pending@) =~= before.remove(index as int));
            assert(views(stack@) == before[index as int]);
            assert forall|k: int| 0 <= k < stack@.len() implies (#[trigger] views(stack@)[k]).id
                == stack@[k].id by {}
        }
        if self.statistic.has_ignores(&stack) {
            proof {
                let k = choose|k: int|
                    0 <= k < stack@.len() && ignorable(
                        self.statistic@,
                        self.statistic.threshold,
                        (#[trigger] stack@[k]).id,
                    );
                assert(ignorable(self.statistic@, self.statistic.threshold, views(stack@)[k].id));
            }
            Step::Skipped
        } else {
            proof {
                if has_ignorable(self.statistic@, self.statistic.threshold, views(stack@)) {
                    let k = choose|k: int|
                        0 <= k < views(stack@).len() && ignorable(
                            self.statistic@,
                            self.statistic.threshold,
                            (#[trigger] views(stack@)[k]).id,
                        );
                    assert(ignorable(self.statistic@, self.statistic.threshold, stack@[k].id));
                }
            }
            Step::Evaluate(stack)
        }
    }

    /// Draws a loadout by chance. Where none is left the pass is
    /// finished.
    pub fn pick(&mut self) -> (step: Step)
        ensures
            old(self).pending().len() == 0 ==> step is Finished && *final(self) == *old(self),
            old(self).pending().len() > 0 ==> exists|index: int|
                drawn(*old(self), *final(self), index, step),
    {
        if self.pending.len() == 0 {
            return Step::Finished;
        }
        let index = random_index(self.pending.len());
        let step = self.draw(index);
        proof {
            assert(drawn(*old(self), *self, index as int, step));
        }
        step
    }
}

impl Simcraft {
    /// Begins a pass: every loadout is still to be tried and nothing is
    /// known of any item. `iterations` is the number of loadouts to try,
    /// from which it follows how long an item is judged mildly.
    pub fn permutation(&self, iterations: u64) -> (run: Run)
        ensures
            run.pending() == loadouts(self.catalogue(), self.rules()),
            run.failures() == 0,
            run.tracker().items@.len() == 0,
            run.tracker().tolerance == self.settings().statistic.tolerance,
            run.tracker().threshold == self.settings().statistic.threshold,
            run.tracker().iterations == iterations,
            run.tracker().range_size == self.settings().simcraft.best_of,
            run.tracker().modifier == modifier_of(iterations, counted_candidates(self.catalogue())),
    {
        let pending = self.build_permutation_array();
        let statistic = Statistic::new(&self.config, iterations, self.items.total_items());
        Run { pending, statistic, failed: 0 }
    }

    /// Takes in what the simulator made of a loadout. A result is offered
    /// to the ranking, and then every item of the loadout is seen with it
    /// and all items are rated against the ranking as it now stands; the
    /// place that the result took in the ranking is handed back. A failure
    /// is counted and changes nothing else: the pass goes on.
    pub fn record(
        &mut self,
        run: &mut Run,
        stack: &Vec<Item>,
        outcome: Result<Evaluation, EvaluationError>,
    ) -> (rank: Option<usize>)
        ensures
            final(self).settings() == old(self).settings(),
            final(self).catalogue() == old(self).catalogue(),
            final(self).directories() == old(self).directories(),
            final(self).script() == old(self).script(),
            final(self).profile() == old(self).profile(),
            final(self).ranking().capacity() == old(self).ranking().capacity(),
            final(self).ranking().directory() == old(self).ranking().directory(),
            final(self).ranking().report_template() == old(self).ranking().report_template(),
            final(self).ranking().entry_template() == old(self).ranking().entry_template(),
            final(run).pending() == old(run).pending(),
            final(run).tracker().tolerance == old(run).tracker().tolerance,
            final(run).tracker().threshold == old(run).tracker().threshold,
            final(run).tracker().iterations == old(run).tracker().iterations,
            final(run).tracker().range_size == old(run).tracker().range_size,
            final(run).tracker().modifier == old(run).tracker().modifier,
            match outcome {
                Ok(result) => {
                    &&& pushed(
                        old(self).ranking()@,
                        old(self).ranking().capacity(),
                        result.dps,
                        result.html@,
                        rank,
                        final(self).ranking()@,
                    )
                    &&& final(run).tracker()@ == updated(
                        old(run).tracker()@,
                        old(run).tracker().range_size as nat,
                        old(run).tracker().tolerance,
                        old(run).tracker().modifier,
                        crate::simcraft::statistic::item_ids(stack@),
                        result.dps,
                        final(self).ranking()@,
                    )
                    &&& final(run).failures() == old(run).failures()
                },
                Err(_) => {
                    &&& rank is None
                    &&& final(self).ranking()@ == old(self).ranking()@
                    &&& final(run).tracker() == old(run).tracker()
                    &&& final(run).failures() == if old(run).failures() < u64::MAX {
                        (old(run).failures() + 1) as u64
                    } else {
                        old(run).failures()
                    }
                },
            },
    {
        match outcome {
            Ok(result) => {
                let rank = self.report.push(result.dps, result.html.as_str());
                run.statistic.update(stack, result.dps, &self.report);
                rank
            },
            Err(_) => {
                if run.failed < u64::MAX {
                    run.failed = run.failed + 1;
                }
                None
            },
        }
    }

    /// Writes the report of the run; see [`Generator::compile`].
    pub fn finish(&mut self) -> (text: String)
        ensures
            final(self).settings() == old(self).settings(),
            final(self).catalogue() == old(self).catalogue(),
            final(self).directories() == old(self).directories(),
            final(self).script() == old(self).script(),
            final(self).profile() == old(self).profile(),
            final(self).ranking()@ == old(self).ranking()@,
            final(self).ranking().capacity() == old(self).ranking().capacity(),
            final(self).ranking().directory() == old(self).ranking().directory(),
            final(self).ranking().entry_template() == crate::simcraft::report::entries_rendered(
                old(self).ranking().entry_template(),
                old(self).ranking().directory(),
                old(self).ranking()@,
                crate::simcraft::report::bounds(old(self).ranking()@).1,
            ).0,
            final(self).ranking().report_template() == crate::simcraft::report::report_filled(
                old(self).ranking().report_template(),
                crate::simcraft::report::bounds(old(self).ranking()@).0,
                crate::simcraft::report::bounds(old(self).ranking()@).1,
                crate::simcraft::report::entries_rendered(
                    old(self).ranking().entry_template(),
                    old(self).ranking().directory(),
                    old(self).ranking()@,
                    crate::simcraft::report::bounds(old(self).ranking()@).1,
                ).1,
            ),
            text@ == crate::template::compiled(final(self).ranking().report_template()),
    {
        self.report.compile()
    }
}

} // verus!
