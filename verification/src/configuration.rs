//! What a run is configured with: where its files go, how the simulator is
//! called, which items are forced into a slot, which items may not be worn
//! together, and how strictly weak items are pruned.

use vstd::prelude::*;
use crate::simcraft::slot::{slot_of_name, Slot};

verus! {

/// A cap on how many items out of a given set an outfit may hold: an
/// outfit breaks the rule when it holds `max` or more of them.
#[derive(Debug, Clone, Default)]
pub struct Limit {
    pub max: u32,
    pub items: Vec<u32>,
}

/// An item that is forced into a slot, in place of every candidate found
/// for that slot.
#[derive(Debug, Clone, Default)]
pub struct ReplacedItem {
    pub slot: String,
    pub id: u32,
    pub name: String,
    pub bonus_id: String,
    pub gem_id: String,
    pub relic_id: String,
    pub enchant_id: u32,
    pub azerite_power: String,
    pub azerite_level: u32,
}

/// An enchantment that is forced onto whatever item a slot holds.
#[derive(Debug, Default)]
pub struct ReplacedEnchantment {
    pub slot: String,
    pub id: u32,
}

impl Clone for ReplacedEnchantment {
    fn clone(&self) -> (copy: ReplacedEnchantment)
        ensures
            copy == *self,
    {
        ReplacedEnchantment { slot: self.slot.clone(), id: self.id }
    }
}

#[derive(Debug, Clone)]
pub struct Replacement {
    pub items: Vec<ReplacedItem>,
    pub enchantments: Vec<ReplacedEnchantment>,
}

/// How the simulator is called and how many of the best results are kept.
#[derive(Debug, Clone)]
pub struct Simcraft {
    pub best_of: usize,
    pub template: String,
    pub process_template: String,
    pub executeable: String,
    pub html: String,
    pub json: String,
    pub override_spec: bool,
    pub override_talents: bool,
    pub replace_weaponhand_enum: bool,
}

/// How strictly weak items are pruned.
///
/// `tolerance` is in thousandths: with a tolerance of 50 the lower bound
/// against which an item is rated is the worst ranked result divided by
/// 1.05. An item whose rating lies under `threshold` is left out of
/// further outfits.
#[derive(Debug, Clone)]
pub struct Statistic {
    pub tolerance: u32,
    pub threshold: i32,
}

#[derive(Debug, Clone)]
pub struct Configuration {
    pub output_dir: String,
    pub report_dir: String,
    pub template_dir: String,
    pub log_dir: String,
    pub simcraft: Simcraft,
    pub replaces: Replacement,
    pub limits: Vec<Limit>,
    pub statistic: Statistic,
}

pub const CONFIG_FILE: &'static str = "config.json";

/// What is wrong with a configuration.
#[derive(PartialEq, Eq, Structural, Clone, Copy, Debug)]
pub enum ConfigurationError {
    /// No result at all would be kept.
    EmptyRanking,
    /// The limit at `index` forbids every outfit or names no item.
    MalformedLimit { index: usize },
    /// The forced item at `index` names a slot that does not exist.
    UnknownSlot { index: usize },
}

impl Limit {
    /// A limit is well formed when it names at least one item and lets at
    /// least the outfit without any of them pass.
    pub open spec fn well_formed(&self) -> bool {
        self.max >= 1 && self.items@.len() >= 1
    }
}

impl Configuration {
    /// Whether the first `n` limits are all well formed.
    pub open spec fn limits_well_formed(&self, n: int) -> bool {
        forall|i: int| 0 <= i < n ==> (#[trigger] self.limits@[i]).well_formed()
    }

    /// Whether the first `n` forced items all name a slot.
    pub open spec fn replaced_slots_known(&self, n: int) -> bool {
        forall|i: int| 0 <= i < n ==> slot_of_name((#[trigger] self.replaces.items@[i]).slot@) is Some
    }

    /// The first thing that is wrong with the configuration, looking at the
    /// size of the ranking, then at the limits in their order, then at the
    /// forced items in theirs; `None` when nothing is.
    pub open spec fn first_error(&self) -> Option<ConfigurationError> {
        if self.simcraft.best_of == 0 {
            Some(ConfigurationError::EmptyRanking)
        } else if !self.limits_well_formed(self.limits@.len() as int) {
            let index = choose|i: int|
                0 <= i < self.limits@.len() && !self.limits@[i].well_formed()
                    && self.limits_well_formed(i);
            Some(ConfigurationError::MalformedLimit { index: index as usize })
        } else if !self.replaced_slots_known(self.replaces.items@.len() as int) {
            let index = choose|i: int|
                0 <= i < self.replaces.items@.len() && slot_of_name(self.replaces.items@[i].slot@) is None
                    && self.replaced_slots_known(i);
            Some(ConfigurationError::UnknownSlot { index: index as usize })
        } else {
            None
        }
    }

    /// Checks the configuration and names the first thing wrong with it.
    pub fn validate(&self) -> (checked: Result<(), ConfigurationError>)
        ensures
            match checked {
                Ok(_) => self.first_error() is None,
                Err(e) => self.first_error() == Some(e),
            },
    {
        if self.simcraft.best_of == 0 {
            return Err(ConfigurationError::EmptyRanking);
        }
        let mut i: usize = 0;
        while i < self.limits.len()
            invariant
                i <= self.limits@.len(),
                self.limits_well_formed(i as int),
                self.simcraft.best_of != 0,
            decreases self.limits@.len() - i,
        {
            if self.limits[i].max == 0 || self.limits[i].items.len() == 0 {
                proof {
                    self.lemma_first_bad_limit(i as int);
                }
                return Err(ConfigurationError::MalformedLimit { index: i });
            }
            i += 1;
        }
        let mut k: usize = 0;
        while k < self.replaces.items.len()
            invariant
                k <= self.replaces.items@.len(),
                self.replaced_slots_known(k as int),
                self.limits_well_formed(self.limits@.len() as int),
                self.simcraft.best_of != 0,
            decreases self.replaces.items@.len() - k,
        {
            if Slot::from_str(self.replaces.items[k].slot.as_str()).is_err() {
                proof {
                    self.lemma_first_unknown_slot(k as int);
                }
                return Err(ConfigurationError::UnknownSlot { index: k });
            }
            k += 1;
        }
        Ok(())
    }

    proof fn lemma_first_bad_limit(&self, i: int)
        requires
            0 <= i < self.limits@.len(),
            !self.limits@[i].well_formed(),
            self.limits_well_formed(i),
        ensures
            !self.limits_well_formed(self.limits@.len() as int),
            (choose|j: int|
                0 <= j < self.limits@.len() && !self.limits@[j].well_formed()
                    && self.limits_well_formed(j)) == i,
    {
        let j = choose|j: int|
            0 <= j < self.limits@.len() && !self.limits@[j].well_formed()
                && self.limits_well_formed(j);
        if j < i {
            assert(self.limits@[j].well_formed());
        } else if i < j {
            assert(self.limits@[i].well_formed());
        }
    }

    proof fn lemma_first_unknown_slot(&self, i: int)
        requires
            0 <= i < self.replaces.items@.len(),
            slot_of_name(self.replaces.items@[i].slot@) is None,
            self.replaced_slots_known(i),
        ensures
            !self.replaced_slots_known(self.replaces.items@.len() as int),
            (choose|j: int|
                0 <= j < self.replaces.items@.len() && slot_of_name(self.replaces.items@[j].slot@) is None
                    && self.replaced_slots_known(j)) == i,
    {
        let j = choose|j: int|
            0 <= j < self.replaces.items@.len() && slot_of_name(self.replaces.items@[j].slot@) is None
                && self.replaced_slots_known(j);
        if j < i {
            assert(slot_of_name(self.replaces.items@[j].slot@) is Some);
        } else if i < j {
            assert(slot_of_name(self.replaces.items@[i].slot@) is Some);
        }
    }
}

} // verus!
