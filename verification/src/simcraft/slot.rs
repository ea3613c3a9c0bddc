//! Equipment slots: their names, the two physical places behind a paired
//! slot, and the order in which the search walks them.

use vstd::prelude::*;
use crate::text::str_eq;

verus! {

/// A place where a character wears an item.
///
/// `Finger`, `Trinket` and `WeaponHand` are paired: each stands for two
/// physical places that draw from one pool of candidates.
#[derive(PartialEq, Eq, Structural, PartialOrd, Hash, Clone, Copy, Debug)]
pub enum ESlot {
    Unkown,
    Head,
    Neck,
    Shoulder,
    Back,
    Chest,
    Wrist,
    Hands,
    Waist,
    Legs,
    Feet,
    Finger,
    Finger1,
    Finger2,
    Trinket,
    Trinket1,
    Trinket2,
    MainHand,
    OffHand,
    WeaponHand,
}

/// Why a slot could not be made.
#[derive(PartialEq, Eq, Structural, Clone, Copy, Debug)]
pub enum SlotError {
    /// The name is not the name of any slot.
    InvalidName,
    /// A paired slot has a first and a second place and no other.
    InvalidPart,
}

/// A slot together with the name under which the simulator knows it.
#[derive(PartialOrd, Hash, Debug)]
pub struct Slot {
    pub slot: ESlot,
    pub name: String,
}

pub open spec fn name_of(slot: ESlot) -> Seq<char> {
    match slot {
        ESlot::Head => "head"@,
        ESlot::Neck => "neck"@,
        ESlot::Shoulder => "shoulder"@,
        ESlot::Back => "back"@,
        ESlot::Chest => "chest"@,
        ESlot::Wrist => "wrist"@,
        ESlot::Waist => "waist"@,
        ESlot::Hands => "hands"@,
        ESlot::Legs => "legs"@,
        ESlot::Feet => "feet"@,
        ESlot::Finger => "finger"@,
        ESlot::Finger1 => "finger1"@,
        ESlot::Finger2 => "finger2"@,
        ESlot::Trinket => "trinket"@,
        ESlot::Trinket1 => "trinket1"@,
        ESlot::Trinket2 => "trinket2"@,
        ESlot::MainHand => "main_hand"@,
        ESlot::OffHand => "off_hand"@,
        ESlot::WeaponHand => Seq::<char>::empty(),
        ESlot::Unkown => Seq::<char>::empty(),
    }
}

/// The slot that a name stands for, if it is the name of one.
pub open spec fn slot_of_name(name: Seq<char>) -> Option<ESlot> {
    if name == "head"@ {
        Some(ESlot::Head)
    } else if name == "neck"@ {
        Some(ESlot::Neck)
    } else if name == "shoulder"@ {
        Some(ESlot::Shoulder)
    } else if name == "back"@ {
        Some(ESlot::Back)
    } else if name == "chest"@ {
        Some(ESlot::Chest)
    } else if name == "wrist"@ {
        Some(ESlot::Wrist)
    } else if name == "waist"@ {
        Some(ESlot::Waist)
    } else if name == "hands"@ {
        Some(ESlot::Hands)
    } else if name == "feet"@ {
        Some(ESlot::Feet)
    } else if name == "legs"@ {
        Some(ESlot::Legs)
    } else if name == "finger"@ {
        Some(ESlot::Finger)
    } else if name == "finger1"@ {
        Some(ESlot::Finger1)
    } else if name == "finger2"@ {
        Some(ESlot::Finger2)
    } else if name == "trinket"@ {
        Some(ESlot::Trinket)
    } else if name == "trinket1"@ {
        Some(ESlot::Trinket1)
    } else if name == "trinket2"@ {
        Some(ESlot::Trinket2)
    } else if name == "main_hand"@ {
        Some(ESlot::MainHand)
    } else if name == "off_hand"@ {
        Some(ESlot::OffHand)
    } else {
        None
    }
}

/// The pool that a slot draws from: a physical finger or trinket place
/// draws from the pool of its pair, every other slot from its own.
pub open spec fn pool_of(slot: ESlot) -> ESlot {
    match slot {
        ESlot::Finger1 | ESlot::Finger2 => ESlot::Finger,
        ESlot::Trinket1 | ESlot::Trinket2 => ESlot::Trinket,
        _ => slot,
    }
}

/// Whether a slot stands for two physical places with one pool.
pub open spec fn is_paired(slot: ESlot) -> bool {
    slot == ESlot::Finger || slot == ESlot::Trinket || slot == ESlot::WeaponHand
}

/// The physical place behind a slot: the first or second place of a
/// paired slot, the slot itself otherwise. A paired slot has no place but
/// its first and its second.
pub open spec fn place_of(slot: ESlot, part: u8) -> Option<ESlot> {
    match slot {
        ESlot::Finger => if part == 1 {
            Some(ESlot::Finger1)
        } else if part == 2 {
            Some(ESlot::Finger2)
        } else {
            None
        },
        ESlot::Trinket => if part == 1 {
            Some(ESlot::Trinket1)
        } else if part == 2 {
            Some(ESlot::Trinket2)
        } else {
            None
        },
        ESlot::WeaponHand => if part == 1 {
            Some(ESlot::MainHand)
        } else if part == 2 {
            Some(ESlot::OffHand)
        } else {
            None
        },
        _ => Some(slot),
    }
}

/// The slot that the search visits after `slot`; `None` after the last.
/// The walk starts at the head and visits fifteen slots.
pub open spec fn successor(slot: ESlot) -> Option<ESlot> {
    match slot {
        ESlot::Head => Some(ESlot::Neck),
        ESlot::Neck => Some(ESlot::Shoulder),
        ESlot::Shoulder => Some(ESlot::Back),
        ESlot::Back => Some(ESlot::Chest),
        ESlot::Chest => Some(ESlot::Waist),
        ESlot::Waist => Some(ESlot::Wrist),
        ESlot::Wrist => Some(ESlot::Hands),
        ESlot::Hands => Some(ESlot::Feet),
        ESlot::Feet => Some(ESlot::Legs),
        ESlot::Legs => Some(ESlot::Finger),
        ESlot::Finger => Some(ESlot::Trinket),
        ESlot::Trinket => Some(ESlot::MainHand),
        ESlot::MainHand => Some(ESlot::OffHand),
        ESlot::OffHand => Some(ESlot::WeaponHand),
        _ => None,
    }
}

/// How many slots the walk still has to visit when it stands at `slot`,
/// that slot included.
pub open spec fn slots_left(slot: ESlot) -> nat {
    match slot {
        ESlot::Head => 15,
        ESlot::Neck => 14,
        ESlot::Shoulder => 13,
        ESlot::Back => 12,
        ESlot::Chest => 11,
        ESlot::Waist => 10,
        ESlot::Wrist => 9,
        ESlot::Hands => 8,
        ESlot::Feet => 7,
        ESlot::Legs => 6,
        ESlot::Finger => 5,
        ESlot::Trinket => 4,
        ESlot::MainHand => 3,
        ESlot::OffHand => 2,
        _ => 1,
    }
}

impl Clone for Slot {
    fn clone(&self) -> (copy: Slot)
        ensures
            copy == *self,
    {
        Slot { slot: self.slot, name: self.name.clone() }
    }
}

impl Default for Slot {
    fn default() -> (slot: Slot)
        ensures
            slot.slot == ESlot::Unkown,
            slot.name@ == Seq::<char>::empty(),
    {
        Slot { slot: ESlot::Unkown, name: String::new() }
    }
}

/// Two slots are equal when they are the same place, whatever their names.
impl PartialEq for Slot {
    fn eq(&self, other: &Slot) -> (same: bool) {
        self.slot == other.slot
    }
}

impl vstd::std_specs::cmp::PartialEqSpecImpl for Slot {
    open spec fn obeys_eq_spec() -> bool {
        true
    }

    open spec fn eq_spec(&self, other: &Slot) -> bool {
        self.slot == other.slot
    }
}

impl Eq for Slot {

}

impl Slot {
    /// Whether the slot carries the name that belongs to its place.
    pub open spec fn well_named(&self) -> bool {
        self.name@ == name_of(self.slot)
    }

    /// The unknown slot, without a name.
    pub fn new() -> (slot: Slot)
        ensures
            slot.slot == ESlot::Unkown,
            slot.name@ == Seq::<char>::empty(),
            slot.well_named(),
    {
        Slot { slot: ESlot::Unkown, name: String::new() }
    }

    /// The slot of the pool that a name refers to: naming one of the two
    /// finger or trinket places gives the paired slot. A name that is no
    /// slot's name is refused.
    pub fn from_str(name: &str) -> (made: Result<Slot, SlotError>)
        ensures
            match made {
                Ok(slot) => slot_of_name(name@) matches Some(named) && slot.slot == pool_of(named)
                    && slot.well_named(),
                Err(e) => slot_of_name(name@) is None && e == SlotError::InvalidName,
            },
    {
        let eslot: ESlot = match Slot::_get_eslot(name) {
            Ok(s) => Slot::fix_slot(&s),
            Err(err) => {
                return Err(err);
            },
        };
        Ok(Slot { slot: eslot, name: Slot::_get_name(&eslot) })
    }

    /// The slot of a place, under that place's name.
    pub fn from_enum(slot: ESlot) -> (made: Slot)
        ensures
            made.slot == slot,
            made.well_named(),
    {
        Slot { slot, name: Slot::_get_name(&slot) }
    }

    /// The name under which the simulator knows the slot.
    pub fn get_name(&self) -> (name: String)
        ensures
            name@ == self.name@,
    {
        self.name.clone()
    }

    /// The pool that a slot draws from.
    pub fn fix_slot(eslot: &ESlot) -> (pool: ESlot)
        ensures
            pool == pool_of(*eslot),
    {
        match eslot {
            ESlot::Finger1 => ESlot::Finger,
            ESlot::Finger2 => ESlot::Finger,
            ESlot::Trinket1 => ESlot::Trinket,
            ESlot::Trinket2 => ESlot::Trinket,
            _ => *eslot,
        }
    }

    /// The physical place behind a slot. For a paired slot `part` says
    /// which of the two places is meant and must be 1 or 2; for any other
    /// slot it is not looked at.
    pub fn get_real_slot(slot: &Slot, part: u8) -> (made: Result<Slot, SlotError>)
        ensures
            match made {
                Ok(place) => place_of(slot.slot, part) == Some(place.slot) && place.well_named(),
                Err(e) => place_of(slot.slot, part) is None && e == SlotError::InvalidPart,
            },
    {
        let eslot: ESlot = match slot.slot {
            ESlot::Trinket => {
                match part {
                    1 => ESlot::Trinket1,
                    2 => ESlot::Trinket2,
                    _ => {
                        return Err(SlotError::InvalidPart);
                    },
                }
            },
            ESlot::Finger => {
                match part {
                    1 => ESlot::Finger1,
                    2 => ESlot::Finger2,
                    _ => {
                        return Err(SlotError::InvalidPart);
                    },
                }
            },
            ESlot::WeaponHand => {
                match part {
                    1 => ESlot::MainHand,
                    2 => ESlot::OffHand,
                    _ => {
                        return Err(SlotError::InvalidPart);
                    },
                }
            },
            _ => slot.slot,
        };
        Ok(Slot { slot: eslot, name: Slot::_get_name(&eslot) })
    }

    fn _get_eslot(name: &str) -> (found: Result<ESlot, SlotError>)
        ensures
            match found {
                Ok(slot) => slot_of_name(name@) == Some(slot),
                Err(e) => slot_of_name(name@) is None && e == SlotError::InvalidName,
            },
    {
        if str_eq(name, "head") {
            Ok(ESlot::Head)
        } else if str_eq(name, "neck") {
            Ok(ESlot::Neck)
        } else if str_eq(name, "shoulder") {
            Ok(ESlot::Shoulder)
        } else if str_eq(name, "back") {
            Ok(ESlot::Back)
        } else if str_eq(name, "chest") {
            Ok(ESlot::Chest)
        } else if str_eq(name, "wrist") {
            Ok(ESlot::Wrist)
        } else if str_eq(name, "waist") {
            Ok(ESlot::Waist)
        } else if str_eq(name, "hands") {
            Ok(ESlot::Hands)
        } else if str_eq(name, "feet") {
            Ok(ESlot::Feet)
        } else if str_eq(name, "legs") {
            Ok(ESlot::Legs)
        } else if str_eq(name, "finger") {
            Ok(ESlot::Finger)
        } else if str_eq(name, "finger1") {
            Ok(ESlot::Finger1)
        } else if str_eq(name, "finger2") {
            Ok(ESlot::Finger2)
        } else if str_eq(name, "trinket") {
            Ok(ESlot::Trinket)
        } else if str_eq(name, "trinket1") {
            Ok(ESlot::Trinket1)
        } else if str_eq(name, "trinket2") {
            Ok(ESlot::Trinket2)
        } else if str_eq(name, "main_hand") {
            Ok(ESlot::MainHand)
        } else if str_eq(name, "off_hand") {
            Ok(ESlot::OffHand)
        } else {
            Err(SlotError::InvalidName)
        }
    }

    fn _get_name(slot: &ESlot) -> (name: String)
        ensures
            name@ == name_of(*slot),
    {
        match slot {
            ESlot::Head => String::from_str("head"),
            ESlot::Neck => String::from_str("neck"),
            ESlot::Shoulder => String::from_str("shoulder"),
            ESlot::Back => String::from_str("back"),
            ESlot::Chest => String::from_str("chest"),
            ESlot::Wrist => String::from_str("wrist"),
            ESlot::Waist => String::from_str("waist"),
            ESlot::Hands => String::from_str("hands"),
            ESlot::Legs => String::from_str("legs"),
            ESlot::Feet => String::from_str("feet"),
            ESlot::Finger => String::from_str("finger"),
            ESlot::Finger1 => String::from_str("finger1"),
            ESlot::Finger2 => String::from_str("finger2"),
            ESlot::Trinket => String::from_str("trinket"),
            ESlot::Trinket1 => String::from_str("trinket1"),
            ESlot::Trinket2 => String::from_str("trinket2"),
            ESlot::MainHand => String::from_str("main_hand"),
            ESlot::OffHand => String::from_str("off_hand"),
            _ => String::new(),
        }
    }
}

/// Every slot that has a name is found again under it.
pub proof fn lemma_name_round_trip(slot: ESlot)
    requires
        slot != ESlot::Unkown,
        slot != ESlot::WeaponHand,
    ensures
        slot_of_name(name_of(slot)) == Some(slot),
{
    reveal_strlit("head");
    reveal_strlit("neck");
    reveal_strlit("shoulder");
    reveal_strlit("back");
    reveal_strlit("chest");
    reveal_strlit("wrist");
    reveal_strlit("waist");
    reveal_strlit("hands");
    reveal_strlit("feet");
    reveal_strlit("legs");
    reveal_strlit("finger");
    reveal_strlit("finger1");
    reveal_strlit("finger2");
    reveal_strlit("trinket");
    reveal_strlit("trinket1");
    reveal_strlit("trinket2");
    reveal_strlit("main_hand");
    reveal_strlit("off_hand");
    assert("head"@.len() == 4 && "head"@[0] == 'h'
        && "head"@[1] == 'e' && "head"@[3] == 'd');
    assert("neck"@.len() == 4 && "neck"@[0] == 'n'
        && "neck"@[1] == 'e' && "neck"@[3] == 'k');
    assert("shoulder"@.len() == 8 && "shoulder"@[0] == 's'
        && "shoulder"@[1] == 'h' && "shoulder"@[7] == 'r');
    assert("back"@.len() == 4 && "back"@[0] == 'b'
        && "back"@[1] == 'a' && "back"@[3] == 'k');
    assert("chest"@.len() == 5 && "chest"@[0] == 'c'
        && "chest"@[1] == 'h' && "chest"@[4] == 't');
    assert("wrist"@.len() == 5 && "wrist"@[0] == 'w'
        && "wrist"@[1] == 'r' && "wrist"@[4] == 't');
    assert("waist"@.len() == 5 && "waist"@[0] == 'w'
        && "waist"@[1] == 'a' && "waist"@[4] == 't');
    assert("hands"@.len() == 5 && "hands"@[0] == 'h'
        && "hands"@[1] == 'a' && "hands"@[4] == 's');
    assert("feet"@.len() == 4 && "feet"@[0] == 'f'
        && "feet"@[1] == 'e' && "feet"@[3] == 't');
    assert("legs"@.len() == 4 && "legs"@[0] == 'l'
        && "legs"@[1] == 'e' && "legs"@[3] == 's');
    assert("finger"@.len() == 6 && "finger"@[0] == 'f'
        && "finger"@[1] == 'i' && "finger"@[5] == 'r');
    assert("finger1"@.len() == 7 && "finger1"@[0] == 'f'
        && "finger1"@[1] == 'i' && "finger1"@[6] == '1');
    assert("finger2"@.len() == 7 && "finger2"@[0] == 'f'
        && "finger2"@[1] == 'i' && "finger2"@[6] == '2');
    assert("trinket"@.len() == 7 && "trinket"@[0] == 't'
        && "trinket"@[1] == 'r' && "trinket"@[6] == 't');
    assert("trinket1"@.len() == 8 && "trinket1"@[0] == 't'
        && "trinket1"@[1] == 'r' && "trinket1"@[7] == '1');
    assert("trinket2"@.len() == 8 && "trinket2"@[0] == 't'
        && "trinket2"@[1] == 'r' && "trinket2"@[7] == '2');
    assert("main_hand"@.len() == 9 && "main_hand"@[0] == 'm'
        && "main_hand"@[1] == 'a' && "main_hand"@[8] == 'd');
    assert("off_hand"@.len() == 8 && "off_hand"@[0] == 'o'
        && "off_hand"@[1] == 'f' && "off_hand"@[7] == 'd');
}

} // verus!
