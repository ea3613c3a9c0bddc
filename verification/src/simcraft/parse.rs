//! Reading the input: the lines that say what the character is and which
//! items it owns.

use vstd::prelude::*;
use crate::configuration::ReplacedItem;
use crate::pattern::{captures, group, group_of, regex_captures, strings_view};
use crate::simcraft::item::{Item, ItemData};
use crate::simcraft::item_map::candidates;
use crate::simcraft::slot::{name_of, pool_of, slot_of_name, ESlot, Slot};
use crate::simcraft::{Profile, Simcraft};
use crate::text::{chars_of, parse_u32, parsed, str_eq};

verus! {

/// The line that names the specialisation; its first group is the name.
pub const SPEC_PATTERN: &'static str = "^spec=(.*)$";

/// The line that gives the talents; its first group is the talents.
pub const TALENTS_PATTERN: &'static str = "^talents=(.*)$";

/// The line that gives the level; its first group is the level.
pub const LEVEL_PATTERN: &'static str = "^level=(.*)$";

/// An item: its first group is the slot, its second the name of the item,
/// its third what else is said of the item.
pub const ITEM_PATTERN: &'static str =
    "(head|neck|shoulder|back|chest|wrist|waist|hands|legs|feet|finger1|finger2|trinket1|trinket2|main_hand|off_hand)=([a-zA-Z0-9]*),(.*)";

/// One thing said of an item: its first group is what is said, its second
/// the value.
pub const IDS_PATTERN: &'static str =
    "(id|gem_id|bonus_id|relic_id|enchant_id|azerite_powers|azerite_level)=([\\d/:]+)";

/// Why a line could not be read.
#[derive(PartialEq, Eq, Structural, Clone, Copy, Debug)]
pub enum ParseError {
    /// The level is no number, or too large a one.
    InvalidLevel,
    /// The id, the enchantment or the level of an item is no number, or
    /// too large a one.
    InvalidNumber,
}

/// A line without the white space at its ends, as `str::trim` of the
/// standard library leaves it.
pub uninterp spec fn trimmed(line: Seq<char>) -> Seq<char>;

/// Cuts the white space off both ends of a line.
///
/// This is `str::trim` of the standard library, which removes leading and
/// trailing white space as Unicode defines it. What counts as white space
/// is left to the standard library.
#[verifier::external_body]
fn trim(line: &str) -> (cut: &str)
    ensures
        cut@ == trimmed(line@),
{
    line.trim()
}

/// An item after one more thing was said of it. The id, the enchantment
/// and the level have to be numbers; what is said of anything else than
/// the seven things an item has is passed over.
pub open spec fn attribute_read(item: ItemData, key: Seq<char>, value: Seq<char>) -> Result<
    ItemData,
    ParseError,
> {
    if key == "id"@ {
        match parsed(value) {
            Some(id) => Ok(ItemData { id, ..item }),
            None => Err(ParseError::InvalidNumber),
        }
    } else if key == "gem_id"@ {
        Ok(ItemData { gem_id: value, ..item })
    } else if key == "bonus_id"@ {
        Ok(ItemData { bonus_id: value, ..item })
    } else if key == "relic_id"@ {
        Ok(ItemData { relic_id: value, ..item })
    } else if key == "enchant_id"@ {
        match parsed(value) {
            Some(enchant_id) => Ok(ItemData { enchant_id, ..item }),
            None => Err(ParseError::InvalidNumber),
        }
    } else if key == "azerite_powers"@ {
        Ok(ItemData { azerite_power: value, ..item })
    } else if key == "azerite_level"@ {
        match parsed(value) {
            Some(azerite_level) => Ok(ItemData { azerite_level, ..item }),
            None => Err(ParseError::InvalidNumber),
        }
    } else {
        Ok(item)
    }
}

/// An item after the first `n` of the things said of it.
pub open spec fn attributes_read(
    item: ItemData,
    keys: Seq<Seq<char>>,
    values: Seq<Seq<char>>,
    n: nat,
) -> Result<ItemData, ParseError>
    decreases n,
{
    if n == 0 {
        Ok(item)
    } else {
        match attributes_read(item, keys, values, (n - 1) as nat) {
            Ok(before) => attribute_read(before, keys[n - 1], values[n - 1]),
            Err(e) => Err(e),
        }
    }
}

/// The pool that an item of the named slot goes to: the pool of the slot,
/// or the pool of both hands where the hands are merged and the slot is
/// one of them. `None` for a name that is no slot's.
pub open spec fn pool_read(slot_name: Seq<char>, merge_hands: bool) -> Option<ESlot> {
    match slot_of_name(slot_name) {
        Some(slot) => {
            let pool = pool_of(slot);
            if merge_hands && (pool == ESlot::MainHand || pool == ESlot::OffHand) {
                Some(ESlot::WeaponHand)
            } else {
                Some(pool)
            }
        },
        None => None,
    }
}

/// Whether an item is forced into the slot of that name.
pub open spec fn is_replaced(forced: Seq<ReplacedItem>, slot_name: Seq<char>) -> bool {
    exists|i: int| 0 <= i < forced.len() && (#[trigger] forced[i]).slot@ == slot_name
}

/// The smaller of two numbers.
pub open spec fn least(a: nat, b: nat) -> nat {
    if a < b {
        a
    } else {
        b
    }
}

/// The item that a match of the item pattern stands for: `None` where the
/// slot is unknown or has an item forced into it. Of what is said of the
/// item, a key without a value and a value without a key are passed over.
pub open spec fn item_read(
    forced: Seq<ReplacedItem>,
    merge_hands: bool,
    slot_name: Seq<char>,
    name: Seq<char>,
    keys: Seq<Seq<char>>,
    values: Seq<Seq<char>>,
) -> Result<Option<ItemData>, ParseError> {
    match pool_read(slot_name, merge_hands) {
        None => Ok(None),
        Some(slot) => if is_replaced(forced, name_of(slot)) {
            Ok(None)
        } else {
            let blank = ItemData {
                id: 0,
                slot,
                slot_name: name_of(slot),
                name,
                bonus_id: Seq::empty(),
                gem_id: Seq::empty(),
                relic_id: Seq::empty(),
                enchant_id: 0,
                azerite_power: Seq::empty(),
                azerite_level: 0,
            };
            match attributes_read(blank, keys, values, least(keys.len(), values.len())) {
                Ok(item) => Ok(Some(item)),
                Err(e) => Err(e),
            }
        },
    }
}

/// The items that the first `n` matches of the item pattern in a line
/// stand for, in their order.
pub open spec fn items_read(
    forced: Seq<ReplacedItem>,
    merge_hands: bool,
    slots: Seq<Seq<char>>,
    names: Seq<Seq<char>>,
    rests: Seq<Seq<char>>,
    n: nat,
) -> Result<Seq<ItemData>, ParseError>
    decreases n,
{
    if n == 0 {
        Ok(Seq::empty())
    } else {
        match items_read(forced, merge_hands, slots, names, rests, (n - 1) as nat) {
            Err(e) => Err(e),
            Ok(before) => {
                let said = regex_captures(IDS_PATTERN@, rests[n - 1]);
                match item_read(
                    forced,
                    merge_hands,
                    slots[n - 1],
                    names[n - 1],
                    group_of(said, 1),
                    group_of(said, 2),
                ) {
                    Err(e) => Err(e),
                    Ok(Some(item)) => Ok(before.push(item)),
                    Ok(None) => Ok(before),
                }
            },
        }
    }
}

/// The catalogue with the items added, each behind the candidates of its
/// slot.
pub open spec fn pools_with(pools: Map<ESlot, Seq<ItemData>>, items: Seq<ItemData>) -> Map<
    ESlot,
    Seq<ItemData>,
>
    decreases items.len(),
{
    if items.len() == 0 {
        pools
    } else {
        let before = pools_with(pools, items.drop_last());
        let item = items.last();
        before.insert(item.slot, candidates(before, item.slot).push(item))
    }
}

/// What is known after a line was read. A line that names the
/// specialisation sets it; a line that gives the talents sets them where
/// none are known yet; a line that gives the level sets it; every item in
/// the line is added to the catalogue. A line that cannot be read gives
/// its error.
pub open spec fn line_read(
    profile: Profile,
    forced: Seq<ReplacedItem>,
    merge_hands: bool,
    line: Seq<char>,
) -> Result<Profile, ParseError> {
    let text = trimmed(line);
    let spec = group_of(regex_captures(SPEC_PATTERN@, text), 1);
    let talents = group_of(regex_captures(TALENTS_PATTERN@, text), 1);
    let level = group_of(regex_captures(LEVEL_PATTERN@, text), 1);
    let found = regex_captures(ITEM_PATTERN@, text);
    let slots = group_of(found, 1);
    if level.len() > 0 && parsed(level[0]) is None {
        Err(ParseError::InvalidLevel)
    } else {
        match items_read(
            forced,
            merge_hands,
            slots,
            group_of(found, 2),
            group_of(found, 3),
            slots.len(),
        ) {
            Err(e) => Err(e),
            Ok(items) => Ok(
                Profile {
                    spec: if spec.len() > 0 {
                        spec[0]
                    } else {
                        profile.spec
                    },
                    talents: if profile.talents.len() == 0 && talents.len() > 0 {
                        talents[0]
                    } else {
                        profile.talents
                    },
                    level: if level.len() > 0 {
                        parsed(level[0])->0
                    } else {
                        profile.level
                    },
                    pools: pools_with(profile.pools, items),
                },
            ),
        }
    }
}

/// What is known after the first `n` lines were read, one after the
/// other, and the error of the first line that could not be read, where
/// there is one: the lines behind it are not read.
pub open spec fn lines_read(
    profile: Profile,
    forced: Seq<ReplacedItem>,
    merge_hands: bool,
    lines: Seq<Seq<char>>,
    n: nat,
) -> (Profile, Option<ParseError>)
    decreases n,
{
    if n == 0 {
        (profile, None)
    } else {
        let before = lines_read(profile, forced, merge_hands, lines, (n - 1) as nat);
        if before.1 is Some {
            before
        } else {
            match line_read(before.0, forced, merge_hands, lines[n - 1]) {
                Ok(after) => (after, None),
                Err(e) => (before.0, Some(e)),
            }
        }
    }
}

/// Once a line cannot be read, no line behind it is.
proof fn lemma_lines_fail(
    profile: Profile,
    forced: Seq<ReplacedItem>,
    merge_hands: bool,
    lines: Seq<Seq<char>>,
    at: nat,
    n: nat,
)
    requires
        at <= n,
        lines_read(profile, forced, merge_hands, lines, at).1 is Some,
    ensures
        lines_read(profile, forced, merge_hands, lines, n) == lines_read(
            profile,
            forced,
            merge_hands,
            lines,
            at,
        ),
    decreases n - at,
{
    if at < n {
        lemma_lines_fail(profile, forced, merge_hands, lines, at, (n - 1) as nat);
    }
}

impl Simcraft {
    /// Reads the lines of the input, one after the other, up to the first
    /// that cannot be read.
    pub fn parse_simc_file(&mut self, lines: &Vec<String>) -> (done: Result<(), ParseError>)
        ensures
            final(self).settings() == old(self).settings(),
            final(self).directories() == old(self).directories(),
            final(self).ranking() == old(self).ranking(),
            final(self).script() == old(self).script(),
            final(self).profile() == lines_read(
                old(self).profile(),
                old(self).settings().replaces.items@,
                old(self).settings().simcraft.replace_weaponhand_enum,
                strings_view(lines@),
                lines@.len(),
            ).0,
            done == match lines_read(
                old(self).profile(),
                old(self).settings().replaces.items@,
                old(self).settings().simcraft.replace_weaponhand_enum,
                strings_view(lines@),
                lines@.len(),
            ).1 {
                Some(e) => Err::<(), ParseError>(e),
                None => Ok::<(), ParseError>(()),
            },
    {
        let ghost all = strings_view(lines@);
        let ghost forced = self.settings().replaces.items@;
        let ghost merge = self.settings().simcraft.replace_weaponhand_enum;
        let mut i: usize = 0;
        while i < lines.len()
            invariant
                i <= lines@.len(),
                all == strings_view(lines@),
                self.settings() == old(self).settings(),
                self.directories() == old(self).directories(),
                self.ranking() == old(self).ranking(),
                self.script() == old(self).script(),
                forced == old(self).settings().replaces.items@,
                merge == old(self).settings().simcraft.replace_weaponhand_enum,
                lines_read(old(self).profile(), forced, merge, all, i as nat) == (
                    self.profile(),
                    None::<ParseError>,
                ),
            decreases lines@.len() - i,
        {
            proof {
                assert(all[i as int] == lines@[i as int]@);
            }
            match self.parse_line(lines[i].as_str()) {
                Ok(_) => {},
                Err(e) => {
                    proof {
                        lemma_lines_fail(
                            old(self).profile(),
                            forced,
                            merge,
                            all,
                            (i + 1) as nat,
                            lines@.len(),
                        );
                    }
                    return Err(e);
                },
            }
            i += 1;
        }
        Ok(())
    }

    /// Whether an item is forced into the slot.
    pub fn is_replaced_by_item(&self, slot: &Slot) -> (found: bool)
        ensures
            found == is_replaced(self.settings().replaces.items@, slot.name@),
    {
        let mut i: usize = 0;
        while i < self.config.replaces.items.len()
            invariant
                i <= self.config.replaces.items@.len(),
                forall|k: int| 0 <= k < i ==> (#[trigger] self.config.replaces.items@[k]).slot@ != slot.name@,
            decreases self.config.replaces.items@.len() - i,
        {
            if str_eq(self.config.replaces.items[i].slot.as_str(), slot.name.as_str()) {
                return true;
            }
            i += 1;
        }
        false
    }

    /// The item that a match of the item pattern stands for, from the
    /// slot and the name that the match gives and from what the rest of
    /// the match says of the item.
    pub fn read_item(
        &self,
        slot_name: &str,
        name: &str,
        keys: &Vec<String>,
        values: &Vec<String>,
    ) -> (read: Result<Option<Item>, ParseError>)
        ensures
            match read {
                Ok(Some(item)) => item_read(
                    self.settings().replaces.items@,
                    self.settings().simcraft.replace_weaponhand_enum,
                    slot_name@,
                    name@,
                    strings_view(keys@),
                    strings_view(values@),
                ) == Ok::<Option<ItemData>, ParseError>(Some(item@)),
                Ok(None) => item_read(
                    self.settings().replaces.items@,
                    self.settings().simcraft.replace_weaponhand_enum,
                    slot_name@,
                    name@,
                    strings_view(keys@),
                    strings_view(values@),
                ) == Ok::<Option<ItemData>, ParseError>(None),
                Err(e) => item_read(
                    self.settings().replaces.items@,
                    self.settings().simcraft.replace_weaponhand_enum,
                    slot_name@,
                    name@,
                    strings_view(keys@),
                    strings_view(values@),
                ) == Err::<Option<ItemData>, ParseError>(e),
            },
    {
        let slot = match Slot::from_str(slot_name) {
            Ok(slot) => {
                if self.config.simcraft.replace_weaponhand_enum && (slot.slot == ESlot::MainHand
                    || slot.slot == ESlot::OffHand) {
                    Slot::from_enum(ESlot::WeaponHand)
                } else {
                    slot
                }
            },
            Err(_) => {
                return Ok(None);
            },
        };
        if self.is_replaced_by_item(&slot) {
            return Ok(None);
        }
        let mut item: Item = Item::new();
        item.name = String::from_str(name);
        item.slot = slot.clone();
        let ghost blank = item@;
        let ghost all_keys = strings_view(keys@);
        let ghost all_values = strings_view(values@);
        let ghost whole = item_read(
            self.settings().replaces.items@,
            self.settings().simcraft.replace_weaponhand_enum,
            slot_name@,
            name@,
            all_keys,
            all_values,
        );
        proof {
            assert(pool_read(slot_name@, self.settings().simcraft.replace_weaponhand_enum) == Some(
                slot.slot,
            ));
            assert(blank =~= (ItemData {
                id: 0,
                slot: slot.slot,
                slot_name: name_of(slot.slot),
                name: name@,
                bonus_id: Seq::empty(),
                gem_id: Seq::empty(),
                relic_id: Seq::empty(),
                enchant_id: 0,
                azerite_power: Seq::empty(),
                azerite_level: 0,
            }));
        }
        let said: usize = if keys.len() < values.len() {
            keys.len()
        } else {
            values.len()
        };
        let mut i: usize = 0;
        while i < said
            invariant
                i <= said,
                said == least(keys@.len(), values@.len()),
                all_keys == strings_view(keys@),
                all_values == strings_view(values@),
                whole == match attributes_read(blank, all_keys, all_values, said as nat) {
                    Ok(item) => Ok::<Option<ItemData>, ParseError>(Some(item)),
                    Err(e) => Err::<Option<ItemData>, ParseError>(e),
                },
                whole == item_read(
                    self.settings().replaces.items@,
                    self.settings().simcraft.replace_weaponhand_enum,
                    slot_name@,
                    name@,
                    strings_view(keys@),
                    strings_view(values@),
                ),
                attributes_read(blank, all_keys, all_values, i as nat) == Ok::<ItemData, ParseError>(
                    item@,
                ),
            decreases said - i,
        {
            let key = keys[i].as_str();
            let value = values[i].as_str();
            let ghost before = item@;
            let ghost next = attribute_read(before, key@, value@);
            proof {
                assert(all_keys[i as int] == key@);
                assert(all_values[i as int] == value@);
                assert(attributes_read(blank, all_keys, all_values, (i + 1) as nat) == next);
            }
            if str_eq(key, "id") {
                match parse_u32(&chars_of(value)) {
                    Some(id) => {
                        item.id = id;
                    },
                    None => {
                        proof {
                            lemma_attributes_fail(blank, all_keys, all_values, (i + 1) as nat, said as nat);
                        }
                        return Err(ParseError::InvalidNumber);
                    },
                }
            } else if str_eq(key, "gem_id") {
                item.gem_id = String::from_str(value);
            } else if str_eq(key, "bonus_id") {
                item.bonus_id = String::from_str(value);
            } else if str_eq(key, "relic_id") {
                item.relic_id = String::from_str(value);
            } else if str_eq(key, "enchant_id") {
                match parse_u32(&chars_of(value)) {
                    Some(enchant_id) => {
                        item.enchant_id = enchant_id;
                    },
                    None => {
                        proof {
                            lemma_attributes_fail(blank, all_keys, all_values, (i + 1) as nat, said as nat);
                        }
                        return Err(ParseError::InvalidNumber);
                    },
                }
            } else if str_eq(key, "azerite_powers") {
                item.azerite_power = String::from_str(value);
            } else if str_eq(key, "azerite_level") {
                match parse_u32(&chars_of(value)) {
                    Some(azerite_level) => {
                        item.azerite_level = azerite_level;
                    },
                    None => {
                        proof {
                            lemma_attributes_fail(blank, all_keys, all_values, (i + 1) as nat, said as nat);
                        }
                        return Err(ParseError::InvalidNumber);
                    },
                }
            }
            proof {
                assert(item@ =~= next->Ok_0);
            }
            i += 1;
        }
        Ok(Some(item))
    }

    /// The items in a line, from the slots, the names and the rests that
    /// the matches of the item pattern give. Where one of the three rows
    /// is shorter than the others, what the others hold more is passed
    /// over.
    pub fn read_items(&self, slots: &Vec<String>, names: &Vec<String>, rests: &Vec<String>) -> (read:
        Result<Vec<Item>, ParseError>)
        ensures
            match read {
                Ok(items) => items_read(
                    self.settings().replaces.items@,
                    self.settings().simcraft.replace_weaponhand_enum,
                    strings_view(slots@),
                    strings_view(names@),
                    strings_view(rests@),
                    least(slots@.len(), least(names@.len(), rests@.len())),
                ) == Ok::<Seq<ItemData>, ParseError>(crate::simcraft::item::views(items@)),
                Err(e) => items_read(
                    self.settings().replaces.items@,
                    self.settings().simcraft.replace_weaponhand_enum,
                    strings_view(slots@),
                    strings_view(names@),
                    strings_view(rests@),
                    least(slots@.len(), least(names@.len(), rests@.len())),
                ) == Err::<Seq<ItemData>, ParseError>(e),
            },
    {
        let ghost forced = self.settings().replaces.items@;
        let ghost merge = self.settings().simcraft.replace_weaponhand_enum;
        let ghost all_slots = strings_view(slots@);
        let ghost all_names = strings_view(names@);
        let ghost all_rests = strings_view(rests@);
        let mut items: Vec<Item> = Vec::new();
        let mut found: usize = slots.len();
        if names.len() < found {
            found = names.len();
        }
        if rests.len() < found {
            found = rests.len();
        }
        let mut i: usize = 0;
        proof {
            assert(crate::simcraft::item::views(items@) =~= Seq::<ItemData>::empty());
        }
        while i < found
            invariant
                i <= found,
                found == least(slots@.len(), least(names@.len(), rests@.len())),
                forced == self.settings().replaces.items@,
                merge == self.settings().simcraft.replace_weaponhand_enum,
                all_slots == strings_view(slots@),
                all_names == strings_view(names@),
                all_rests == strings_view(rests@),
                items_read(forced, merge, all_slots, all_names, all_rests, i as nat) == Ok::<
                    Seq<ItemData>,
                    ParseError,
                >(crate::simcraft::item::views(items@)),
            decreases found - i,
        {
            let said = captures(IDS_PATTERN, rests[i].as_str());
            let keys = group(&said, 1);
            let values = group(&said, 2);
            proof {
                assert(all_slots[i as int] == slots@[i as int]@);
                assert(all_names[i as int] == names@[i as int]@);
                assert(all_rests[i as int] == rests@[i as int]@);
            }
            let ghost before = crate::simcraft::item::views(items@);
            match self.read_item(slots[i].as_str(), names[i].as_str(), &keys, &values) {
                Ok(Some(item)) => {
                    items.push(item);
                    proof {
                        assert(crate::simcraft::item::views(items@) =~= before.push(item@));
                    }
                },
                Ok(None) => {},
                Err(e) => {
                    proof {
                        lemma_items_fail(
                            forced,
                            merge,
                            all_slots,
                            all_names,
                            all_rests,
                            (i + 1) as nat,
                            found as nat,
                        );
                    }
                    return Err(e);
                },
            }
            i += 1;
        }
        Ok(items)
    }

    /// Reads one line of the input. A line that cannot be read changes
    /// nothing.
    pub fn parse_line(&mut self, line: &str) -> (done: Result<(), ParseError>)
        ensures
            final(self).settings() == old(self).settings(),
            final(self).directories() == old(self).directories(),
            final(self).ranking() == old(self).ranking(),
            final(self).script() == old(self).script(),
            match done {
                Ok(_) => line_read(
                    old(self).profile(),
                    old(self).settings().replaces.items@,
                    old(self).settings().simcraft.replace_weaponhand_enum,
                    line@,
                ) == Ok::<Profile, ParseError>(final(self).profile()),
                Err(e) => line_read(
                    old(self).profile(),
                    old(self).settings().replaces.items@,
                    old(self).settings().simcraft.replace_weaponhand_enum,
                    line@,
                ) == Err::<Profile, ParseError>(e) && final(self).profile() == old(self).profile(),
            },
    {
        let text = trim(line);
        let spec = group(&captures(SPEC_PATTERN, text), 1);
        let talents = group(&captures(TALENTS_PATTERN, text), 1);
        let level = group(&captures(LEVEL_PATTERN, text), 1);
        let found = captures(ITEM_PATTERN, text);
        let slots = group(&found, 1);
        let names = group(&found, 2);
        let rests = group(&found, 3);
        proof {
            assert(strings_view(slots@).len() == strings_view(names@).len());
            assert(strings_view(slots@).len() == strings_view(rests@).len());
            assert(strings_view(spec@).len() == spec@.len());
            assert(strings_view(talents@).len() == talents@.len());
            assert(strings_view(level@).len() == level@.len());
        }
        let new_level: Option<u32> = if level.len() > 0 {
            proof {
                assert(strings_view(level@)[0] == level@[0]@);
            }
            match parse_u32(&chars_of(level[0].as_str())) {
                Some(number) => Some(number),
                None => {
                    return Err(ParseError::InvalidLevel);
                },
            }
        } else {
            None
        };
        let items = match self.read_items(&slots, &names, &rests) {
            Ok(items) => items,
            Err(e) => {
                return Err(e);
            },
        };
        if spec.len() > 0 {
            proof {
                assert(strings_view(spec@)[0] == spec@[0]@);
            }
            self.spec = spec[0].clone();
        }
        if self.talents.as_str().unicode_len() == 0 && talents.len() > 0 {
            proof {
                assert(strings_view(talents@)[0] == talents@[0]@);
            }
            self.talents = talents[0].clone();
        }
        match new_level {
            Some(number) => {
                self.level = number;
            },
            None => {},
        }
        self.add_items(&items);
        proof {
            let read = line_read(
                old(self).profile(),
                old(self).settings().replaces.items@,
                old(self).settings().simcraft.replace_weaponhand_enum,
                line@,
            );
            assert(read is Ok);
            assert(self.profile().spec == read->Ok_0.spec);
            assert(self.profile().talents == read->Ok_0.talents);
            assert(self.profile().level == read->Ok_0.level);
            assert(self.profile().pools == read->Ok_0.pools);
            assert(self.profile() =~= read->Ok_0);
        }
        Ok(())
    }

    /// Adds items to the catalogue, each behind the candidates of its
    /// slot.
    pub fn add_items(&mut self, items: &Vec<Item>)
        ensures
            final(self).catalogue() == pools_with(
                old(self).catalogue(),
                crate::simcraft::item::views(items@),
            ),
            final(self).settings() == old(self).settings(),
            final(self).directories() == old(self).directories(),
            final(self).ranking() == old(self).ranking(),
            final(self).script() == old(self).script(),
            final(self).specialisation() == old(self).specialisation(),
            final(self).talent_choice() == old(self).talent_choice(),
            final(self).character_level() == old(self).character_level(),
    {
        let ghost all = crate::simcraft::item::views(items@);
        let mut i: usize = 0;
        while i < items.len()
            invariant
                i <= items@.len(),
                all == crate::simcraft::item::views(items@),
                self.items@ == pools_with(old(self).items@, all.take(i as int)),
                self.config == old(self).config,
                self.template == old(self).template,
                self.run == old(self).run,
                self.output_dir == old(self).output_dir,
                self.report_dir == old(self).report_dir,
                self.compile_dir == old(self).compile_dir,
                self.log_dir == old(self).log_dir,
                self.report == old(self).report,
                self.spec == old(self).spec,
                self.talents == old(self).talents,
                self.level == old(self).level,
            decreases items@.len() - i,
        {
            proof {
                assert(all.take(i + 1).drop_last() =~= all.take(i as int));
                assert(all.take(i + 1).last() == items@[i as int]@);
            }
            self.items.push(&items[i].slot, &items[i]);
            i += 1;
        }
        proof {
            assert(all.take(items@.len() as int) =~= all);
        }
    }
}

/// Once something said of an item cannot be read, the item cannot be.
proof fn lemma_attributes_fail(
    item: ItemData,
    keys: Seq<Seq<char>>,
    values: Seq<Seq<char>>,
    at: nat,
    n: nat,
)
    requires
        at <= n,
        attributes_read(item, keys, values, at) is Err,
    ensures
        attributes_read(item, keys, values, n) == attributes_read(item, keys, values, at),
    decreases n - at,
{
    if at < n {
        lemma_attributes_fail(item, keys, values, at, (n - 1) as nat);
    }
}

/// Once an item of a line cannot be read, the line cannot be.
proof fn lemma_items_fail(
    forced: Seq<ReplacedItem>,
    merge_hands: bool,
    slots: Seq<Seq<char>>,
    names: Seq<Seq<char>>,
    rests: Seq<Seq<char>>,
    at: nat,
    n: nat,
)
    requires
        at <= n,
        items_read(forced, merge_hands, slots, names, rests, at) is Err,
    ensures
        items_read(forced, merge_hands, slots, names, rests, n) == items_read(
            forced,
            merge_hands,
            slots,
            names,
            rests,
            at,
        ),
    decreases n - at,
{
    if at < n {
        lemma_items_fail(forced, merge_hands, slots, names, rests, at, (n - 1) as nat);
    }
}

} // verus!
