//! One piece of equipment.

use vstd::prelude::*;
use crate::configuration::ReplacedItem;
use crate::simcraft::slot::{name_of, place_of, pool_of, slot_of_name, ESlot, Slot};

verus! {

/// A candidate for a slot: its id, the slot it is for, and the modifiers
/// that the simulator is told about. An item is never changed once it is
/// in the catalogue; the search works on copies.
#[derive(Default, Debug)]
pub struct Item {
    pub id: u32,
    pub slot: Slot,
    pub name: String,
    pub bonus_id: String,
    pub gem_id: String,
    pub relic_id: String,
    pub enchant_id: u32,
    pub azerite_power: String,
    pub azerite_level: u32,
}

/// What an item says, as plain values.
#[verifier::ext_equal]
pub struct ItemData {
    pub id: u32,
    pub slot: ESlot,
    pub slot_name: Seq<char>,
    pub name: Seq<char>,
    pub bonus_id: Seq<char>,
    pub gem_id: Seq<char>,
    pub relic_id: Seq<char>,
    pub enchant_id: u32,
    pub azerite_power: Seq<char>,
    pub azerite_level: u32,
}

impl View for Item {
    type V = ItemData;

    open spec fn view(&self) -> ItemData {
        ItemData {
            id: self.id,
            slot: self.slot.slot,
            slot_name: self.slot.name@,
            name: self.name@,
            bonus_id: self.bonus_id@,
            gem_id: self.gem_id@,
            relic_id: self.relic_id@,
            enchant_id: self.enchant_id,
            azerite_power: self.azerite_power@,
            azerite_level: self.azerite_level,
        }
    }
}

/// What a row of items says, item by item.
pub open spec fn views(items: Seq<Item>) -> Seq<ItemData> {
    Seq::new(items.len(), |i: int| items[i]@)
}

/// The item as it is worn in the first or second place of its paired
/// slot: the same item, in the slot of that place and under its name. An
/// item of an unpaired slot stays as it is, up to the name of its slot.
pub open spec fn tagged(item: ItemData, part: u8) -> ItemData {
    let place = match place_of(item.slot, part) {
        Some(place) => place,
        None => item.slot,
    };
    ItemData { slot: place, slot_name: name_of(place), ..item }
}

impl Clone for Item {
    fn clone(&self) -> (copy: Item)
        ensures
            copy == *self,
    {
        Item {
            id: self.id,
            slot: self.slot.clone(),
            name: self.name.clone(),
            bonus_id: self.bonus_id.clone(),
            gem_id: self.gem_id.clone(),
            relic_id: self.relic_id.clone(),
            enchant_id: self.enchant_id,
            azerite_power: self.azerite_power.clone(),
            azerite_level: self.azerite_level,
        }
    }
}

impl Item {
    /// An item without id, slot, name or modifiers.
    pub fn new() -> (item: Item)
        ensures
            item.id == 0,
            item.slot.slot == ESlot::Unkown,
            item.slot.name@.len() == 0,
            item.name@.len() == 0,
            item.bonus_id@.len() == 0,
            item.gem_id@.len() == 0,
            item.relic_id@.len() == 0,
            item.enchant_id == 0,
            item.azerite_power@.len() == 0,
            item.azerite_level == 0,
    {
        Item {
            id: 0,
            slot: Slot::new(),
            name: String::new(),
            bonus_id: String::new(),
            gem_id: String::new(),
            relic_id: String::new(),
            enchant_id: 0,
            azerite_power: String::new(),
            azerite_level: 0,
        }
    }

    /// The item that a configuration forces into a slot. The slot that the
    /// configuration names has to exist.
    pub fn from_replaced_item(other: &ReplacedItem) -> (item: Item)
        requires
            slot_of_name(other.slot@) is Some,
        ensures
            item.id == other.id,
            item.slot.slot == pool_of(slot_of_name(other.slot@)->0),
            item.slot.well_named(),
            item.name@ == other.name@,
            item.bonus_id@ == other.bonus_id@,
            item.gem_id@ == other.gem_id@,
            item.relic_id@ == other.relic_id@,
            item.enchant_id == other.enchant_id,
            item.azerite_power@ == other.azerite_power@,
            item.azerite_level == other.azerite_level,
    {
        let slot = match Slot::from_str(other.slot.as_str()) {
            Ok(slot) => slot,
            Err(_) => Slot::new(),
        };
        Item {
            id: other.id,
            slot,
            name: other.name.clone(),
            bonus_id: other.bonus_id.clone(),
            gem_id: other.gem_id.clone(),
            relic_id: other.relic_id.clone(),
            enchant_id: other.enchant_id,
            azerite_power: other.azerite_power.clone(),
            azerite_level: other.azerite_level,
        }
    }
}

} // verus!
