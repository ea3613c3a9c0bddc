use simpermut::simcraft::slot::{ESlot, Slot, SlotError};
use simpermut::simcraft::Simcraft;

#[test]
fn slot_new_is_unknown_and_unnamed() {
    let slot = Slot::new();
    assert_eq!(slot.slot, ESlot::Unkown);
    assert_eq!(slot.name, "");
    let default = Slot::default();
    assert_eq!(default.slot, ESlot::Unkown);
    assert_eq!(default.name, "");
}

#[test]
fn slot_from_str_knows_every_name() {
    let names = vec![
        ("head", ESlot::Head),
        ("neck", ESlot::Neck),
        ("shoulder", ESlot::Shoulder),
        ("back", ESlot::Back),
        ("chest", ESlot::Chest),
        ("wrist", ESlot::Wrist),
        ("waist", ESlot::Waist),
        ("hands", ESlot::Hands),
        ("feet", ESlot::Feet),
        ("legs", ESlot::Legs),
        ("finger", ESlot::Finger),
        ("trinket", ESlot::Trinket),
        ("main_hand", ESlot::MainHand),
        ("off_hand", ESlot::OffHand),
    ];
    for (name, slot) in names {
        let made = Slot::from_str(name).unwrap();
        assert_eq!(made.slot, slot);
        assert_eq!(made.name, name);
    }
}

#[test]
fn slot_from_str_folds_places_into_their_pair() {
    let finger = Slot::from_str("finger2").unwrap();
    assert_eq!(finger.slot, ESlot::Finger);
    assert_eq!(finger.name, "finger");
    let trinket = Slot::from_str("trinket1").unwrap();
    assert_eq!(trinket.slot, ESlot::Trinket);
    assert_eq!(trinket.name, "trinket");
}

#[test]
fn slot_from_str_refuses_unknown_names() {
    assert_eq!(Slot::from_str("tabard").err(), Some(SlotError::InvalidName));
    assert_eq!(Slot::from_str("").err(), Some(SlotError::InvalidName));
    assert_eq!(Slot::from_str("Head").err(), Some(SlotError::InvalidName));
    assert_eq!(Slot::from_str("head ").err(), Some(SlotError::InvalidName));
}

#[test]
fn fix_slot_maps_places_to_pairs() {
    assert_eq!(Slot::fix_slot(&ESlot::Finger1), ESlot::Finger);
    assert_eq!(Slot::fix_slot(&ESlot::Finger2), ESlot::Finger);
    assert_eq!(Slot::fix_slot(&ESlot::Trinket1), ESlot::Trinket);
    assert_eq!(Slot::fix_slot(&ESlot::Trinket2), ESlot::Trinket);
    assert_eq!(Slot::fix_slot(&ESlot::Head), ESlot::Head);
    assert_eq!(Slot::fix_slot(&ESlot::MainHand), ESlot::MainHand);
}

#[test]
fn get_real_slot_resolves_both_places() {
    let finger = Slot::from_enum(ESlot::Finger);
    let first = Slot::get_real_slot(&finger, 1).unwrap();
    assert_eq!(first.slot, ESlot::Finger1);
    assert_eq!(first.name, "finger1");
    let second = Slot::get_real_slot(&finger, 2).unwrap();
    assert_eq!(second.slot, ESlot::Finger2);
    assert_eq!(second.name, "finger2");
    let trinket = Slot::from_enum(ESlot::Trinket);
    assert_eq!(Slot::get_real_slot(&trinket, 1).unwrap().slot, ESlot::Trinket1);
    assert_eq!(Slot::get_real_slot(&trinket, 2).unwrap().name, "trinket2");
    let hands = Slot::from_enum(ESlot::WeaponHand);
    assert_eq!(Slot::get_real_slot(&hands, 1).unwrap().name, "main_hand");
    assert_eq!(Slot::get_real_slot(&hands, 2).unwrap().slot, ESlot::OffHand);
}

#[test]
fn get_real_slot_refuses_a_third_place() {
    let finger = Slot::from_enum(ESlot::Finger);
    assert_eq!(Slot::get_real_slot(&finger, 0).err(), Some(SlotError::InvalidPart));
    assert_eq!(Slot::get_real_slot(&finger, 3).err(), Some(SlotError::InvalidPart));
    let trinket = Slot::from_enum(ESlot::Trinket);
    assert_eq!(Slot::get_real_slot(&trinket, 7).err(), Some(SlotError::InvalidPart));
}

#[test]
fn get_real_slot_leaves_ordinary_slots_alone() {
    let head = Slot::from_enum(ESlot::Head);
    let same = Slot::get_real_slot(&head, 9).unwrap();
    assert_eq!(same.slot, ESlot::Head);
    assert_eq!(same.name, "head");
}

#[test]
fn slots_are_equal_by_place() {
    let a = Slot { slot: ESlot::Head, name: String::from("head") };
    let b = Slot { slot: ESlot::Head, name: String::from("something else") };
    let c = Slot { slot: ESlot::Neck, name: String::from("head") };
    assert!(a == b);
    assert!(a != c);
}

#[test]
fn walk_visits_fifteen_slots_in_order() {
    let expected = vec![
        ESlot::Head,
        ESlot::Neck,
        ESlot::Shoulder,
        ESlot::Back,
        ESlot::Chest,
        ESlot::Waist,
        ESlot::Wrist,
        ESlot::Hands,
        ESlot::Feet,
        ESlot::Legs,
        ESlot::Finger,
        ESlot::Trinket,
        ESlot::MainHand,
        ESlot::OffHand,
        ESlot::WeaponHand,
    ];
    let mut walked = vec![ESlot::Head];
    let mut slot = ESlot::Head;
    while let Some(next) = Simcraft::next_slot(slot) {
        walked.push(next);
        slot = next;
    }
    assert_eq!(walked, expected);
    assert_eq!(Simcraft::next_slot(ESlot::Finger1), None);
    assert_eq!(Simcraft::next_slot(ESlot::Unkown), None);
}

#[test]
fn only_three_slots_are_paired() {
    assert!(Simcraft::is_paired(ESlot::Finger));
    assert!(Simcraft::is_paired(ESlot::Trinket));
    assert!(Simcraft::is_paired(ESlot::WeaponHand));
    assert!(!Simcraft::is_paired(ESlot::Head));
    assert!(!Simcraft::is_paired(ESlot::Finger1));
    assert!(!Simcraft::is_paired(ESlot::MainHand));
    assert!(!Simcraft::is_paired(ESlot::OffHand));
}
