use simpermut::configuration::ReplacedItem;
use simpermut::simcraft::item::Item;
use simpermut::simcraft::item_map::{ItemMap, Pair};
use simpermut::simcraft::slot::{ESlot, Slot};

fn item(id: u32, slot: &str) -> Item {
    let mut item = Item::new();
    item.id = id;
    item.slot = Slot::from_str(slot).unwrap();
    item.name = format!("item{}", id);
    item
}

#[test]
fn item_new_is_blank() {
    let item = Item::new();
    assert_eq!(item.id, 0);
    assert_eq!(item.slot.slot, ESlot::Unkown);
    assert_eq!(item.name, "");
    assert_eq!(item.bonus_id, "");
    assert_eq!(item.gem_id, "");
    assert_eq!(item.relic_id, "");
    assert_eq!(item.enchant_id, 0);
    assert_eq!(item.azerite_power, "");
    assert_eq!(item.azerite_level, 0);
}

#[test]
fn item_from_replaced_item_takes_everything_over() {
    let forced = ReplacedItem {
        slot: String::from("finger2"),
        id: 132444,
        name: String::from("prydaz"),
        bonus_id: String::from("3459/3630"),
        gem_id: String::from("130220"),
        relic_id: String::from("1/2"),
        enchant_id: 5427,
        azerite_power: String::from("13:22"),
        azerite_level: 27,
    };
    let item = Item::from_replaced_item(&forced);
    assert_eq!(item.id, 132444);
    assert_eq!(item.slot.slot, ESlot::Finger);
    assert_eq!(item.slot.name, "finger");
    assert_eq!(item.name, "prydaz");
    assert_eq!(item.bonus_id, "3459/3630");
    assert_eq!(item.gem_id, "130220");
    assert_eq!(item.relic_id, "1/2");
    assert_eq!(item.enchant_id, 5427);
    assert_eq!(item.azerite_power, "13:22");
    assert_eq!(item.azerite_level, 27);
}

#[test]
fn item_clone_copies_every_field() {
    let mut first = item(7, "head");
    first.gem_id = String::from("1");
    first.enchant_id = 9;
    let copy = first.clone();
    assert_eq!(copy.id, 7);
    assert_eq!(copy.slot.slot, ESlot::Head);
    assert_eq!(copy.name, "item7");
    assert_eq!(copy.gem_id, "1");
    assert_eq!(copy.enchant_id, 9);
}

#[test]
fn pair_new_has_the_slot_and_no_items() {
    let pair = Pair::new(&Slot::from_enum(ESlot::Neck));
    assert_eq!(pair.slot.slot, ESlot::Neck);
    assert_eq!(pair.slot.name, "neck");
    assert!(pair.items.is_empty());
    let default = Pair::default();
    assert_eq!(default.slot.slot, ESlot::Unkown);
    assert!(default.items.is_empty());
}

#[test]
fn item_map_new_knows_nothing() {
    let map = ItemMap::new();
    assert_eq!(map.len(), 0);
    assert_eq!(map.total_items(), 0);
    assert!(map.get_slot(ESlot::Head).is_none());
}

#[test]
fn item_map_push_keeps_the_order_of_arrival() {
    let mut map = ItemMap::new();
    let head = Slot::from_enum(ESlot::Head);
    let neck = Slot::from_enum(ESlot::Neck);
    map.push(&head, &item(1, "head"));
    map.push(&neck, &item(2, "neck"));
    map.push(&head, &item(3, "head"));
    assert_eq!(map.len(), 2);
    assert_eq!(map.total_items(), 3);
    let heads = map.get_slot(ESlot::Head).unwrap();
    assert_eq!(heads.len(), 2);
    assert_eq!(heads[0].id, 1);
    assert_eq!(heads[1].id, 3);
    let necks = map.get_slot(ESlot::Neck).unwrap();
    assert_eq!(necks.len(), 1);
    assert_eq!(necks[0].id, 2);
    assert!(map.get_slot(ESlot::Finger).is_none());
}

#[test]
fn item_map_push_stores_a_copy() {
    let mut map = ItemMap::new();
    let mut first = item(1, "head");
    map.push(&Slot::from_enum(ESlot::Head), &first);
    first.id = 99;
    assert_eq!(map.get_slot(ESlot::Head).unwrap()[0].id, 1);
}

#[test]
fn item_map_files_by_the_slot_given_not_the_items_own() {
    let mut map = ItemMap::new();
    map.push(&Slot::from_enum(ESlot::WeaponHand), &item(5, "main_hand"));
    assert!(map.get_slot(ESlot::MainHand).is_none());
    let pool = map.get_slot(ESlot::WeaponHand).unwrap();
    assert_eq!(pool[0].id, 5);
    assert_eq!(pool[0].slot.slot, ESlot::MainHand);
}
