//! The search itself: slots, items, the item catalogue, the rules that
//! turn loadouts away, and the walk that produces every loadout.

pub mod guard;
pub mod item;
pub mod item_map;
pub mod loadout;
pub mod parse;
pub mod render;
pub mod run;
pub mod report;
pub mod slot;
pub mod statistic;

use vstd::prelude::*;
use crate::configuration::{Configuration, ConfigurationError, Limit, ReplacedItem};
use crate::random::fresh_name;
use crate::simcraft::guard::{lemma_violation_stays, violates, violates_any};
use crate::simcraft::item::{tagged, views, Item, ItemData};
use crate::simcraft::item_map::{candidates, ItemMap};
use crate::simcraft::loadout::{
    choices, has_dead_slot, iterations, iterations_from, lemma_iterations_zero,
    lemma_reachable_at_end, lemma_reachable_at_slot, lemma_reachable_behind_violation,
    lemma_reachable_from_start, lemma_reachable_through_first, lemma_reachable_through_none,
    loadouts, options, pairings, reachable, reachable_through, walk_left,
};
use crate::simcraft::report::{report_prepared, Generator, Report};
use crate::simcraft::slot::{
    is_paired, name_of, pool_of, slot_of_name, slots_left, successor, ESlot, Slot,
};
use crate::template::{blank, Template, TemplateData};
use crate::text::{chars_of, joined, string_of};

verus! {

/// One run of the search: the configuration it was started with, the
/// catalogue of candidates, what the input said of the character, the
/// template of the simulator's input, the directories of the run and the
/// ranking of its results.
pub struct Simcraft {
    config: Configuration,
    items: ItemMap,
    template: Template,
    run: String,
    output_dir: String,
    report_dir: String,
    compile_dir: String,
    log_dir: String,
    report: Generator,
    spec: String,
    talents: String,
    level: u32,
}

/// What the input has said of the character and its items so far.
#[verifier::ext_equal]
pub struct Profile {
    pub spec: Seq<char>,
    pub talents: Seq<char>,
    pub level: u32,
    pub pools: Map<ESlot, Seq<ItemData>>,
}

/// A slot that has to hold an item has no candidate.
#[derive(PartialEq, Eq, Structural, Clone, Copy, Debug)]
pub struct CatalogError {
    pub slot: ESlot,
}

/// Where the first slot without a candidate stands in a row of slots, or
/// the length of the row where every slot has one.
pub open spec fn first_empty(pools: Map<ESlot, Seq<ItemData>>, slots: Seq<ESlot>) -> int
    decreases slots.len(),
{
    if slots.len() == 0 {
        0
    } else if candidates(pools, slots.first()).len() == 0 {
        0
    } else {
        1 + first_empty(pools, slots.drop_first())
    }
}

/// The directories of a run.
pub struct Directories {
    /// Where everything of the run goes.
    pub output: Seq<char>,
    /// Where the accounts of the results go.
    pub report: Seq<char>,
    /// Where the inputs of the simulator go.
    pub compile: Seq<char>,
    /// Where what the simulator prints goes.
    pub log: Seq<char>,
}

/// The directories of the run of the given name: the run has a directory
/// of its name in the output directory of the configuration, and in it
/// one directory each for the reports, the inputs and the logs.
pub open spec fn directories_of(config: Configuration, run: Seq<char>) -> Directories {
    let output = config.output_dir@ + "/"@ + run;
    Directories {
        output,
        report: output + "/"@ + config.report_dir@,
        compile: output + "/compiles"@,
        log: output + "/"@ + config.log_dir@,
    }
}

/// What a forced item says, as plain values.
pub open spec fn forced_item(forced: ReplacedItem) -> ItemData {
    let slot = match slot_of_name(forced.slot@) {
        Some(slot) => pool_of(slot),
        None => ESlot::Unkown,
    };
    ItemData {
        id: forced.id,
        slot,
        slot_name: name_of(slot),
        name: forced.name@,
        bonus_id: forced.bonus_id@,
        gem_id: forced.gem_id@,
        relic_id: forced.relic_id@,
        enchant_id: forced.enchant_id,
        azerite_power: forced.azerite_power@,
        azerite_level: forced.azerite_level,
    }
}

/// The catalogue that holds the forced items and nothing else, each in
/// the pool of its slot, in their order.
pub open spec fn forced(items: Seq<ReplacedItem>) -> Map<ESlot, Seq<ItemData>>
    decreases items.len(),
{
    if items.len() == 0 {
        Map::empty()
    } else {
        let before = forced(items.drop_last());
        let item = forced_item(items.last());
        before.insert(item.slot, candidates(before, item.slot).push(item))
    }
}

/// What a row of stored loadouts says, loadout by loadout.
pub open spec fn snapshots(found: Seq<Vec<Item>>) -> Seq<Seq<ItemData>> {
    Seq::new(found.len(), |i: int| views(found[i]@))
}

/// While the first item of a pair is turned away, none of its pairs is
/// reached.
proof fn lemma_first_rejected(
    pools: Map<ESlot, Seq<ItemData>>,
    limits: Seq<Limit>,
    slot: ESlot,
    stack: Seq<ItemData>,
    pool: Seq<ItemData>,
    i: int,
    j: int,
)
    requires
        0 <= i < j <= pool.len(),
        violates(stack.push(tagged(pool[i], 1)), limits),
    ensures
        reachable_through(pools, limits, slot, stack, pairings(pool, i, j)) == reachable_through(
            pools,
            limits,
            slot,
            stack,
            pairings(pool, i + 1, i + 2),
        ),
    decreases pool.len() - j,
{
    if j < pool.len() {
        lemma_first_rejected(pools, limits, slot, stack, pool, i, j + 1);
        if pool[i].id != pool[j].id {
            let pair = seq![tagged(pool[i], 1), tagged(pool[j], 2)];
            let heads = pairings(pool, i, j);
            assert(heads.first() == pair);
            assert(heads.drop_first() =~= pairings(pool, i, j + 1));
            lemma_reachable_through_first(pools, limits, slot, stack, heads);
            assert(stack + pair =~= stack.push(tagged(pool[i], 1)) + seq![tagged(pool[j], 2)]);
            lemma_violation_stays(
                stack.push(tagged(pool[i], 1)),
                seq![tagged(pool[j], 2)],
                limits,
            );
            lemma_reachable_behind_violation(pools, limits, successor(slot), stack + pair);
        }
    }
}

/// The copy of an item that is worn in the first or second place of its
/// paired slot.
fn tag(item: &Item, part: u8) -> (worn: Item)
    requires
        part == 1 || part == 2,
    ensures
        worn@ == tagged(item@, part),
{
    let mut worn = item.clone();
    match Slot::get_real_slot(&item.slot, part) {
        Ok(place) => {
            worn.slot = place;
        },
        Err(_) => {},
    }
    worn
}

impl Simcraft {
    /// The catalogue of candidates of the run.
    pub closed spec fn catalogue(&self) -> Map<ESlot, Seq<ItemData>> {
        self.items@
    }

    /// The configuration of the run.
    pub closed spec fn settings(&self) -> Configuration {
        self.config
    }

    /// The rules of the run.
    pub open spec fn rules(&self) -> Seq<Limit> {
        self.settings().limits@
    }

    /// The name of the run.
    pub closed spec fn run_name(&self) -> Seq<char> {
        self.run@
    }

    /// The directories of the run.
    pub closed spec fn directories(&self) -> Directories {
        Directories {
            output: self.output_dir@,
            report: self.report_dir@,
            compile: self.compile_dir@,
            log: self.log_dir@,
        }
    }

    /// The ranking of the results of the run.
    pub closed spec fn ranking(&self) -> Generator {
        self.report
    }

    /// The template of the simulator's input.
    pub closed spec fn script(&self) -> TemplateData {
        self.template@
    }

    /// The specialisation of the character.
    pub closed spec fn specialisation(&self) -> Seq<char> {
        self.spec@
    }

    /// The talents of the character.
    pub closed spec fn talent_choice(&self) -> Seq<char> {
        self.talents@
    }

    /// The level of the character.
    pub closed spec fn character_level(&self) -> u32 {
        self.level
    }

    /// What the input has said of the character and its items so far.
    pub open spec fn profile(&self) -> Profile {
        Profile {
            spec: self.specialisation(),
            talents: self.talent_choice(),
            level: self.character_level(),
            pools: self.catalogue(),
        }
    }

    /// Whether the run is as a run starts out: it holds the configuration
    /// and the directories that follow from it and from the name of the
    /// run, its catalogue holds the forced items of the configuration and
    /// no others, its ranking is empty and keeps as many results as the
    /// configuration says, the templates of the report are in place, the
    /// template of the simulator's input is blank, and of the character
    /// only the talents are known, at level 120.
    pub open spec fn started(
        &self,
        config: Configuration,
        talents: Seq<char>,
        report: TemplateData,
        list_entry: TemplateData,
    ) -> bool {
        let directories = directories_of(config, self.run_name());
        &&& self.settings() == config
        &&& self.catalogue() == forced(config.replaces.items@)
        &&& self.directories() == directories
        &&& self.ranking()@ == Seq::<Report>::empty()
        &&& self.ranking().capacity() == config.simcraft.best_of
        &&& self.ranking().directory() == directories.report
        &&& self.ranking().report_template() == report_prepared(
            report,
            config.simcraft.best_of,
            directories.report,
        )
        &&& self.ranking().entry_template() == list_entry
        &&& self.script() == blank()
        &&& self.specialisation() == Seq::<char>::empty()
        &&& self.talent_choice() == talents
        &&& self.character_level() == 120
    }

    /// A run under a name of its own, which chance decides. A
    /// configuration with which no run can be made is refused, with the
    /// first thing that is wrong with it. `report` and `list_entry` are
    /// the templates of the report and of one line of its list.
    pub fn new(
        config: Configuration,
        talents: &str,
        report: Template,
        list_entry: Template,
    ) -> (made: Result<Simcraft, ConfigurationError>)
        ensures
            match made {
                Ok(run) => config.first_error() is None && run.started(
                    config,
                    talents@,
                    report@,
                    list_entry@,
                ),
                Err(e) => config.first_error() == Some(e),
            },
    {
        let name = fresh_name();
        Simcraft::with_name(config, talents, name.as_str(), report, list_entry)
    }

    /// A run under the given name.
    pub fn with_name(
        config: Configuration,
        talents: &str,
        name: &str,
        report: Template,
        list_entry: Template,
    ) -> (made: Result<Simcraft, ConfigurationError>)
        ensures
            match made {
                Ok(run) => config.first_error() is None && run.run_name() == name@ && run.started(
                    config,
                    talents@,
                    report@,
                    list_entry@,
                ),
                Err(e) => config.first_error() == Some(e),
            },
    {
        match config.validate() {
            Ok(_) => {},
            Err(e) => {
                return Err(e);
            },
        }
        let slash = chars_of("/");
        let output = joined(&joined(&chars_of(config.output_dir.as_str()), &slash), &chars_of(name));
        let report_dir = joined(&joined(&output, &slash), &chars_of(config.report_dir.as_str()));
        let compile_dir = joined(&output, &chars_of("/compiles"));
        let log_dir = joined(&joined(&output, &slash), &chars_of(config.log_dir.as_str()));
        let mut item_map = ItemMap::new();
        let mut i: usize = 0;
        while i < config.replaces.items.len()
            invariant
                i <= config.replaces.items@.len(),
                config.replaced_slots_known(config.replaces.items@.len() as int),
                item_map@ == forced(config.replaces.items@.take(i as int)),
            decreases config.replaces.items@.len() - i,
        {
            proof {
                let all = config.replaces.items@;
                assert(all.take(i + 1).drop_last() =~= all.take(i as int));
                assert(all.take(i + 1).last() == all[i as int]);
                assert(slot_of_name(all[i as int].slot@) is Some);
            }
            let item = Item::from_replaced_item(&config.replaces.items[i]);
            item_map.push(&item.slot, &item);
            proof {
                assert(item@ =~= forced_item(config.replaces.items@[i as int]));
            }
            i += 1;
        }
        proof {
            let all = config.replaces.items@;
            assert(all.take(all.len() as int) =~= all);
        }
        let report_dir = string_of(&report_dir);
        let ranking = match Generator::new(&config, report_dir.as_str(), report, list_entry) {
            Ok(ranking) => ranking,
            Err(e) => {
                return Err(e);
            },
        };
        Ok(
            Simcraft {
                config,
                items: item_map,
                template: Template::default(),
                run: String::from_str(name),
                output_dir: string_of(&output),
                report_dir,
                compile_dir: string_of(&compile_dir),
                log_dir: string_of(&log_dir),
                report: ranking,
                spec: String::new(),
                talents: String::from_str(talents),
                level: 120,
            },
        )
    }

    /// The slots that every character fills: the ten places for armour.
    /// Rings, trinkets and what the hands hold may be missing.
    pub fn mandatory_slots() -> (slots: Vec<ESlot>)
        ensures
            slots@ == seq![
                ESlot::Head,
                ESlot::Neck,
                ESlot::Shoulder,
                ESlot::Back,
                ESlot::Chest,
                ESlot::Wrist,
                ESlot::Hands,
                ESlot::Waist,
                ESlot::Legs,
                ESlot::Feet,
            ],
    {
        let mut slots: Vec<ESlot> = Vec::new();
        slots.push(ESlot::Head);
        slots.push(ESlot::Neck);
        slots.push(ESlot::Shoulder);
        slots.push(ESlot::Back);
        slots.push(ESlot::Chest);
        slots.push(ESlot::Wrist);
        slots.push(ESlot::Hands);
        slots.push(ESlot::Waist);
        slots.push(ESlot::Legs);
        slots.push(ESlot::Feet);
        proof {
            assert(slots@ =~= seq![
                ESlot::Head,
                ESlot::Neck,
                ESlot::Shoulder,
                ESlot::Back,
                ESlot::Chest,
                ESlot::Wrist,
                ESlot::Hands,
                ESlot::Waist,
                ESlot::Legs,
                ESlot::Feet,
            ]);
        }
        slots
    }

    /// Makes sure that every slot that has to hold an item has a
    /// candidate, and names the first that has none. This is to be asked
    /// before the search starts: the search itself passes over a slot
    /// without candidates.
    pub fn check_catalog(&self, mandatory: &Vec<ESlot>) -> (checked: Result<(), CatalogError>)
        ensures
            match checked {
                Ok(_) => first_empty(self.catalogue(), mandatory@) == mandatory@.len(),
                Err(e) => first_empty(self.catalogue(), mandatory@) < mandatory@.len() && e.slot
                    == mandatory@[first_empty(self.catalogue(), mandatory@)],
            },
    {
        let ghost pools = self.catalogue();
        let mut i: usize = 0;
        proof {
            assert(mandatory@.skip(0) =~= mandatory@);
        }
        while i < mandatory.len()
            invariant
                i <= mandatory@.len(),
                pools == self.catalogue(),
                first_empty(pools, mandatory@) == i + first_empty(pools, mandatory@.skip(i as int)),
            decreases mandatory@.len() - i,
        {
            proof {
                assert(mandatory@.skip(i as int).first() == mandatory@[i as int]);
                assert(mandatory@.skip(i as int).drop_first() =~= mandatory@.skip(i + 1));
            }
            let empty = match self.items.get_slot(mandatory[i]) {
                Some(items) => items.len() == 0,
                None => true,
            };
            if empty {
                return Err(CatalogError { slot: mandatory[i] });
            }
            i += 1;
        }
        proof {
            assert(mandatory@.skip(mandatory@.len() as int) =~= Seq::<ESlot>::empty());
        }
        Ok(())
    }

    /// The directory of the run.
    pub fn output_dir(&self) -> (dir: &String)
        ensures
            dir@ == self.directories().output,
    {
        &self.output_dir
    }

    /// The directory of the accounts of the results.
    pub fn report_dir(&self) -> (dir: &String)
        ensures
            dir@ == self.directories().report,
    {
        &self.report_dir
    }

    /// The directory of the inputs of the simulator.
    pub fn compile_dir(&self) -> (dir: &String)
        ensures
            dir@ == self.directories().compile,
    {
        &self.compile_dir
    }

    /// The directory of what the simulator prints.
    pub fn log_dir(&self) -> (dir: &String)
        ensures
            dir@ == self.directories().log,
    {
        &self.log_dir
    }

    /// The catalogue of candidates.
    pub fn items(&self) -> (items: &ItemMap)
        ensures
            items@ == self.catalogue(),
    {
        &self.items
    }

    /// The ranking of the results.
    pub fn report(&self) -> (ranking: &Generator)
        ensures
            *ranking == self.ranking(),
    {
        &self.report
    }

    /// The slot that the walk visits after `current`; none after the last.
    pub fn next_slot(current: ESlot) -> (next: Option<ESlot>)
        ensures
            next == successor(current),
    {
        match current {
            ESlot::Head => Some(ESlot::Neck),
            ESlot::Neck => Some(ESlot::Shoulder),
            ESlot::Shoulder => Some(ESlot::Back),
            ESlot::Back => Some(ESlot::Chest),
            ESlot::Chest => Some(ESlot::Waist),
            ESlot::Waist => Some(ESlot::Wrist),
            ESlot::Wrist => Some(ESlot::Hands),
            ESlot::Hands => Some(ESlot::Feet),
            ESlot::Feet => Some(ESlot::Legs),
            ESlot::Legs => Some(ESlot::Finger),
            ESlot::Finger => Some(ESlot::Trinket),
            ESlot::Trinket => Some(ESlot::MainHand),
            ESlot::MainHand => Some(ESlot::OffHand),
            ESlot::OffHand => Some(ESlot::WeaponHand),
            _ => None,
        }
    }

    /// Whether a slot stands for two places with one pool.
    pub fn is_paired(slot: ESlot) -> (paired: bool)
        ensures
            paired == is_paired(slot),
    {
        match slot {
            ESlot::Finger => true,
            ESlot::Trinket => true,
            ESlot::WeaponHand => true,
            _ => false,
        }
    }

    /// Whether a rule of the run turns the stack away.
    pub fn has_multiple_of_them(&self, stack: &Vec<Item>) -> (hit: bool)
        ensures
            hit == violates(views(stack@), self.rules()),
    {
        violates_any(stack, &self.config.limits)
    }

    /// How many loadouts there are to try when no rule turns any away: the
    /// product, over the slots of the walk, of the number of candidates of
    /// an ordinary slot and of the number of pairs of a paired one. A slot
    /// without candidates is left out of the product. `None` where the
    /// number does not fit.
    pub fn calculate_iterations(&self) -> (count: Option<u64>)
        ensures
            match count {
                Some(n) => n == iterations(self.catalogue()),
                None => iterations(self.catalogue()) > u64::MAX,
            },
    {
        self._calculate_iterations_at(ESlot::Head)
    }

    fn _calculate_iterations_at(&self, start_slot: ESlot) -> (count: Option<u64>)
        ensures
            match count {
                Some(n) => n == iterations_from(self.catalogue(), Some(start_slot)),
                None => iterations_from(self.catalogue(), Some(start_slot)) > u64::MAX,
            },
    {
        let ghost pools = self.catalogue();
        let ghost all = iterations_from(pools, Some(start_slot));
        if self.has_dead_slot(start_slot) {
            proof {
                lemma_iterations_zero(pools, Some(start_slot));
            }
            return Some(0);
        }
        let mut total: u64 = 1;
        let mut slot: Option<ESlot> = Some(start_slot);
        loop
            invariant
                pools == self.catalogue(),
                all == iterations_from(pools, Some(start_slot)),
                !has_dead_slot(pools, slot),
                total >= 1,
                total * iterations_from(pools, slot) == all,
            decreases walk_left(slot),
        {
            let s = match slot {
                Some(s) => s,
                None => {
                    assert(total * 1 == total);
                    return Some(total);
                },
            };
            let ghost rest = iterations_from(pools, successor(s));
            let ghost factor = choices(pools, s);
            let ghost before = total;
            proof {
                lemma_iterations_zero(pools, successor(s));
                assert(total * (factor * rest) == (total * factor) * rest) by (nonlinear_arith);
            }
            let choice = match self.choices_of(s) {
                Some(choice) => choice,
                None => {
                    proof {
                        assert((total * factor) * rest > u64::MAX) by (nonlinear_arith)
                            requires
                                total >= 1,
                                rest >= 1,
                                factor > u64::MAX,
                        ;
                    }
                    return None;
                },
            };
            total = match total.checked_mul(choice) {
                Some(product) => product,
                None => {
                    proof {
                        assert((total * factor) * rest > u64::MAX) by (nonlinear_arith)
                            requires
                                rest >= 1,
                                total * factor > u64::MAX,
                        ;
                    }
                    return None;
                },
            };
            proof {
                assert(before * factor >= 1) by (nonlinear_arith)
                    requires
                        before >= 1,
                        factor >= 1,
                ;
            }
            slot = Simcraft::next_slot(s);
        }
    }

    /// Whether a slot from `start_slot` to the end of the walk gives no
    /// choice at all.
    fn has_dead_slot(&self, start_slot: ESlot) -> (dead: bool)
        ensures
            dead == has_dead_slot(self.catalogue(), Some(start_slot)),
    {
        let ghost pools = self.catalogue();
        let mut slot: Option<ESlot> = Some(start_slot);
        loop
            invariant
                pools == self.catalogue(),
                has_dead_slot(pools, Some(start_slot)) == has_dead_slot(pools, slot),
            decreases walk_left(slot),
        {
            let s = match slot {
                Some(s) => s,
                None => {
                    return false;
                },
            };
            match self.choices_of(s) {
                Some(choice) => {
                    if choice == 0 {
                        return true;
                    }
                },
                None => {},
            }
            slot = Simcraft::next_slot(s);
        }
    }

    /// By how much a slot multiplies the number of loadouts; `None` where
    /// that does not fit.
    fn choices_of(&self, slot: ESlot) -> (count: Option<u64>)
        ensures
            match count {
                Some(n) => n == choices(self.catalogue(), slot),
                None => choices(self.catalogue(), slot) > u64::MAX,
            },
    {
        let n: usize = match self.items.get_slot(slot) {
            Some(items) => items.len(),
            None => 0,
        };
        if n == 0 {
            Some(1)
        } else if Simcraft::is_paired(slot) {
            let wide: u128 = n as u128;
            assert(wide * (wide - 1) <= 0xFFFF_FFFF_FFFF_FFFF * 0xFFFF_FFFF_FFFF_FFFF)
                by (nonlinear_arith)
                requires
                    1 <= wide <= 0xFFFF_FFFF_FFFF_FFFF,
            ;
            let pairs: u128 = wide * (wide - 1) / 2;
            if pairs > u64::MAX as u128 {
                None
            } else {
                Some(pairs as u64)
            }
        } else {
            Some(n as u64)
        }
    }

    /// Produces every loadout, in the order of the walk: for each slot in
    /// turn every candidate in the order of the catalogue, for a paired
    /// slot every pair.
    pub fn build_permutation_array(&self) -> (found: Vec<Vec<Item>>)
        ensures
            snapshots(found@) == loadouts(self.catalogue(), self.rules()),
    {
        let mut found: Vec<Vec<Item>> = Vec::new();
        let mut stack: Vec<Item> = Vec::new();
        if !self.has_multiple_of_them(&stack) {
            self.permut_iteration_single(ESlot::Head, &mut stack, &mut found);
            proof {
                lemma_reachable_from_start(self.catalogue(), self.rules());
                assert(views(Seq::<Item>::empty()) =~= Seq::<ItemData>::empty());
                assert(snapshots(Seq::<Vec<Item>>::empty()) =~= Seq::<Seq<ItemData>>::empty());
            }
        } else {
            proof {
                lemma_reachable_from_start(self.catalogue(), self.rules());
                assert(views(Seq::<Item>::empty()) =~= Seq::<ItemData>::empty());
                lemma_reachable_behind_violation(
                    self.catalogue(),
                    self.rules(),
                    Some(ESlot::Head),
                    Seq::empty(),
                );
                assert(snapshots(found@) =~= Seq::<Seq<ItemData>>::empty());
            }
        }
        found
    }

    /// Tries every candidate of an ordinary slot on top of the stack and
    /// walks on from each that no rule turns away. The stack is handed
    /// back as it came.
    fn permut_iteration_single(
        &self,
        slot: ESlot,
        stack: &mut Vec<Item>,
        iterations: &mut Vec<Vec<Item>>,
    )
        requires
            !is_paired(slot),
            !violates(views(old(stack)@), self.rules()),
        ensures
            final(stack)@ == old(stack)@,
            snapshots(final(iterations)@) == snapshots(old(iterations)@) + reachable(
                self.catalogue(),
                self.rules(),
                Some(slot),
                views(old(stack)@),
            ),
        decreases slots_left(slot), 1nat,
    {
        let ghost base = views(stack@);
        let ghost start = stack@;
        let ghost target = snapshots(iterations@) + reachable(
            self.catalogue(),
            self.rules(),
            Some(slot),
            base,
        );
        proof {
            lemma_reachable_at_slot(self.catalogue(), self.rules(), slot, base);
        }
        let items = match self.items.get_slot(slot) {
            Some(items) => items,
            None => {
                proof {
                    self.lemma_skipped(slot, base);
                }
                self.handle_iteration_step(slot, stack, iterations);
                return ;
            },
        };
        if items.len() == 0 {
            proof {
                self.lemma_skipped(slot, base);
            }
            self.handle_iteration_step(slot, stack, iterations);
            return ;
        }
        let ghost heads = options(self.catalogue(), slot);
        let mut k: usize = 0;
        proof {
            assert(heads.skip(0) =~= heads);
        }
        while k < items.len()
            invariant
                k <= items.len(),
                !is_paired(slot),
                views(items@) == candidates(self.catalogue(), slot),
                heads == options(self.catalogue(), slot),
                heads.len() == items@.len(),
                stack@ == start,
                base == views(start),
                !violates(base, self.rules()),
                snapshots(iterations@) + reachable_through(
                    self.catalogue(),
                    self.rules(),
                    slot,
                    base,
                    heads.skip(k as int),
                ) == target,
            decreases items.len() - k,
        {
            let ghost before = snapshots(iterations@);
            let ghost rest = heads.skip(k as int);
            proof {
                assert(rest.first() == seq![views(items@)[k as int]]);
                assert(rest.drop_first() =~= heads.skip(k + 1));
                lemma_reachable_through_first(self.catalogue(), self.rules(), slot, base, rest);
            }
            stack.push(items[k].clone());
            proof {
                assert(views(stack@) =~= base + rest.first());
            }
            if self.has_multiple_of_them(stack) {
                proof {
                    lemma_reachable_behind_violation(
                        self.catalogue(),
                        self.rules(),
                        successor(slot),
                        base + rest.first(),
                    );
                }
            } else {
                self.handle_iteration_step(slot, stack, iterations);
            }
            stack.pop();
            proof {
                assert(stack@ =~= start);
                let step = reachable(
                    self.catalogue(),
                    self.rules(),
                    successor(slot),
                    base + rest.first(),
                );
                let later = reachable_through(
                    self.catalogue(),
                    self.rules(),
                    slot,
                    base,
                    heads.skip(k + 1),
                );
                assert(snapshots(iterations@) == before + step);
                assert((before + step) + later =~= before + (step + later));
            }
            k += 1;
        }
        proof {
            assert(heads.skip(items@.len() as int) =~= Seq::<Seq<ItemData>>::empty());
            lemma_reachable_through_none(self.catalogue(), self.rules(), slot, base);
            assert(snapshots(iterations@) + Seq::<Seq<ItemData>>::empty() =~= snapshots(
                iterations@,
            ));
        }
    }

    /// Done with a slot: walks on to the next one, or stores a copy of the
    /// stack where there is none. The stack is handed back as it came.
    fn handle_iteration_step(
        &self,
        slot: ESlot,
        stack: &mut Vec<Item>,
        iterations: &mut Vec<Vec<Item>>,
    )
        requires
            !violates(views(old(stack)@), self.rules()),
        ensures
            final(stack)@ == old(stack)@,
            snapshots(final(iterations)@) == snapshots(old(iterations)@) + reachable(
                self.catalogue(),
                self.rules(),
                successor(slot),
                views(old(stack)@),
            ),
        decreases slots_left(slot), 0nat,
    {
        if let Some(next) = Simcraft::next_slot(slot) {
            if Simcraft::is_paired(next) {
                self.permut_iteration_double(next, stack, iterations);
            } else {
                self.permut_iteration_single(next, stack, iterations);
            }
            return ;
        }
        let ghost before = snapshots(iterations@);
        let copy = stack.clone();
        proof {
            assert(views(copy@) =~= views(stack@));
            lemma_reachable_at_end(self.catalogue(), self.rules(), views(stack@));
        }
        iterations.push(copy);
        proof {
            assert(snapshots(iterations@) =~= before + seq![views(stack@)]);
        }
    }

    /// A slot that adds nothing leaves the search to the slots behind it.
    proof fn lemma_skipped(&self, slot: ESlot, stack: Seq<ItemData>)
        requires
            options(self.catalogue(), slot) == seq![Seq::<ItemData>::empty()],
        ensures
            reachable(self.catalogue(), self.rules(), Some(slot), stack) == reachable(
                self.catalogue(),
                self.rules(),
                successor(slot),
                stack,
            ),
    {
        let heads = options(self.catalogue(), slot);
        lemma_reachable_at_slot(self.catalogue(), self.rules(), slot, stack);
        lemma_reachable_through_first(self.catalogue(), self.rules(), slot, stack, heads);
        assert(heads.drop_first() =~= Seq::<Seq<ItemData>>::empty());
        lemma_reachable_through_none(self.catalogue(), self.rules(), slot, stack);
        assert(stack + heads.first() =~= stack);
        let behind = reachable(self.catalogue(), self.rules(), successor(slot), stack);
        assert(behind + Seq::<Seq<ItemData>>::empty() =~= behind);
    }

    /// Tries every pair of a paired slot on top of the stack, the first
    /// item in the first place and an item that comes later in the pool
    /// in the second, and walks on from each pair that no rule turns
    /// away. The stack is handed back as it came.
    fn permut_iteration_double(
        &self,
        slot: ESlot,
        stack: &mut Vec<Item>,
        iterations: &mut Vec<Vec<Item>>,
    )
        requires
            is_paired(slot),
            !violates(views(old(stack)@), self.rules()),
        ensures
            final(stack)@ == old(stack)@,
            snapshots(final(iterations)@) == snapshots(old(iterations)@) + reachable(
                self.catalogue(),
                self.rules(),
                Some(slot),
                views(old(stack)@),
            ),
        decreases slots_left(slot), 1nat,
    {
        let ghost base = views(stack@);
        let ghost start = stack@;
        let ghost target = snapshots(iterations@) + reachable(
            self.catalogue(),
            self.rules(),
            Some(slot),
            base,
        );
        proof {
            lemma_reachable_at_slot(self.catalogue(), self.rules(), slot, base);
        }
        let items = match self.items.get_slot(slot) {
            Some(items) => items,
            None => {
                proof {
                    self.lemma_skipped(slot, base);
                }
                self.handle_iteration_step(slot, stack, iterations);
                return ;
            },
        };
        if items.len() < 2 {
            proof {
                self.lemma_skipped(slot, base);
            }
            self.handle_iteration_step(slot, stack, iterations);
            return ;
        }
        let ghost pool = views(items@);
        let mut i: usize = 0;
        while i < items.len()
            invariant
                i <= items.len(),
                is_paired(slot),
                pool == views(items@),
                stack@ == start,
                base == views(start),
                !violates(base, self.rules()),
                snapshots(iterations@) + reachable_through(
                    self.catalogue(),
                    self.rules(),
                    slot,
                    base,
                    pairings(pool, i as int, i + 1),
                ) == target,
            decreases items.len() - i,
        {
            let first = tag(&items[i], 1);
            stack.push(first);
            let ghost with_first = stack@;
            proof {
                assert(views(with_first) =~= base.push(tagged(pool[i as int], 1)));
            }
            if self.has_multiple_of_them(stack) {
                proof {
                    lemma_first_rejected(
                        self.catalogue(),
                        self.rules(),
                        slot,
                        base,
                        pool,
                        i as int,
                        i + 1,
                    );
                }
            } else {
                let mut j: usize = i + 1;
                while j < items.len()
                    invariant
                        i < j <= items.len(),
                        is_paired(slot),
                        pool == views(items@),
                        stack@ == with_first,
                        views(with_first) == base.push(tagged(pool[i as int], 1)),
                        !violates(views(with_first), self.rules()),
                        snapshots(iterations@) + reachable_through(
                            self.catalogue(),
                            self.rules(),
                            slot,
                            base,
                            pairings(pool, i as int, j as int),
                        ) == target,
                    decreases items.len() - j,
                {
                    if items[i].id != items[j].id {
                        let ghost before = snapshots(iterations@);
                        let ghost pair = seq![tagged(pool[i as int], 1), tagged(pool[j as int], 2)];
                        let ghost heads = pairings(pool, i as int, j as int);
                        proof {
                            assert(heads.first() == pair);
                            assert(heads.drop_first() =~= pairings(pool, i as int, j + 1));
                            lemma_reachable_through_first(
                                self.catalogue(),
                                self.rules(),
                                slot,
                                base,
                                heads,
                            );
                        }
                        let second = tag(&items[j], 2);
                        stack.push(second);
                        proof {
                            assert forall|k: int| 0 <= k < with_first.len() implies views(
                                stack@,
                            )[k] == (base + pair)[k] by {
                                assert(views(with_first)[k] == with_first[k]@);
                                assert(views(with_first).len() == with_first.len());
                            }
                            assert(views(stack@) =~= base + pair);
                        }
                        if self.has_multiple_of_them(stack) {
                            proof {
                                lemma_reachable_behind_violation(
                                    self.catalogue(),
                                    self.rules(),
                                    successor(slot),
                                    base + pair,
                                );
                            }
                        } else {
                            self.handle_iteration_step(slot, stack, iterations);
                        }
                        stack.pop();
                        proof {
                            assert(stack@ =~= with_first);
                            let step = reachable(
                                self.catalogue(),
                                self.rules(),
                                successor(slot),
                                base + pair,
                            );
                            let later = reachable_through(
                                self.catalogue(),
                                self.rules(),
                                slot,
                                base,
                                pairings(pool, i as int, j + 1),
                            );
                            assert(snapshots(iterations@) == before + step);
                            assert((before + step) + later =~= before + (step + later));
                        }
                    }
                    j += 1;
                }
            }
            stack.pop();
            proof {
                assert(stack@ =~= start);
            }
            i += 1;
        }
        proof {
            lemma_reachable_through_none(self.catalogue(), self.rules(), slot, base);
            assert(snapshots(iterations@) + Seq::<Seq<ItemData>>::empty() =~= snapshots(
                iterations@,
            ));
        }
    }
}

} // verus!
