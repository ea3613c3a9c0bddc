use simpermut::configuration::{
    Configuration, Limit, Replacement, Simcraft as SimcraftSettings, Statistic as StatisticSettings,
};
use simpermut::simcraft::guard::violates_any;
use simpermut::simcraft::item::Item;
use simpermut::simcraft::slot::{ESlot, Slot};
use simpermut::simcraft::{CatalogError, Simcraft};
use simpermut::template::Template;

fn config(limits: Vec<Limit>) -> Configuration {
    Configuration {
        output_dir: String::from("out"),
        report_dir: String::from("reports"),
        template_dir: String::from("templates"),
        log_dir: String::from("logs"),
        simcraft: SimcraftSettings {
            best_of: 10,
            template: String::from("simc.tpl"),
            process_template: String::from("process_{}.simc"),
            executeable: String::from("simc"),
            html: String::from("report_{}.html"),
            json: String::from("report_{}.json"),
            override_spec: true,
            override_talents: true,
            replace_weaponhand_enum: false,
        },
        replaces: Replacement { items: Vec::new(), enchantments: Vec::new() },
        limits,
        statistic: StatisticSettings { tolerance: 50, threshold: 30 },
    }
}

fn item(id: u32, slot: &str) -> Item {
    let mut item = Item::new();
    item.id = id;
    item.slot = Slot::from_str(slot).unwrap();
    item.name = format!("item{}", id);
    item
}

fn run_with(limits: Vec<Limit>, items: Vec<Item>) -> Simcraft {
    let mut run = Simcraft::with_name(
        config(limits),
        "",
        "test",
        Template::default(),
        Template::default(),
    )
    .unwrap();
    run.add_items(&items);
    run
}

fn ids(loadout: &Vec<Item>) -> Vec<u32> {
    loadout.iter().map(|item| item.id).collect()
}

fn count(loadout: &Vec<Item>, id: u32) -> usize {
    loadout.iter().filter(|item| item.id == id).count()
}

#[test]
fn head_neck_and_two_fingers_give_one_loadout() {
    let run = run_with(
        Vec::new(),
        vec![item(1, "head"), item(2, "neck"), item(3, "finger1"), item(4, "finger2")],
    );
    assert_eq!(run.calculate_iterations(), Some(1));
    let found = run.build_permutation_array();
    assert_eq!(found.len(), 1);
    assert_eq!(ids(&found[0]), vec![1, 2, 3, 4]);
    assert_eq!(found[0][0].slot.slot, ESlot::Head);
    assert_eq!(found[0][1].slot.slot, ESlot::Neck);
    assert_eq!(found[0][2].slot.slot, ESlot::Finger1);
    assert_eq!(found[0][2].slot.name, "finger1");
    assert_eq!(found[0][3].slot.slot, ESlot::Finger2);
    assert_eq!(found[0][3].slot.name, "finger2");
}

#[test]
fn limit_of_one_turns_a_second_listed_item_away() {
    let rules = vec![Limit { max: 1, items: vec![1, 2] }];
    let stack = vec![item(1, "head"), item(1, "neck")];
    assert!(violates_any(&stack, &rules));
    let run = run_with(
        vec![Limit { max: 1, items: vec![1, 2] }],
        vec![item(1, "head"), item(1, "head"), item(1, "neck"), item(5, "neck")],
    );
    assert!(run.has_multiple_of_them(&stack));
    let found = run.build_permutation_array();
    for loadout in &found {
        assert!(count(loadout, 1) < 2);
    }
}

#[test]
fn limit_of_two_lets_one_listed_item_pass() {
    let run = run_with(
        vec![Limit { max: 2, items: vec![1, 2] }],
        vec![item(1, "head"), item(1, "head"), item(1, "neck"), item(5, "neck"), item(2, "back")],
    );
    assert!(!run.has_multiple_of_them(&vec![item(1, "head")]));
    assert!(run.has_multiple_of_them(&vec![item(1, "head"), item(1, "neck")]));
    assert!(run.has_multiple_of_them(&vec![item(1, "head"), item(5, "neck"), item(2, "back")]));
    let found = run.build_permutation_array();
    assert_eq!(found.len(), 0);
    let run = run_with(
        vec![Limit { max: 2, items: vec![1, 2] }],
        vec![item(1, "head"), item(1, "head"), item(1, "neck"), item(5, "neck")],
    );
    let found = run.build_permutation_array();
    assert_eq!(found.len(), 2);
    for loadout in &found {
        assert_eq!(ids(loadout), vec![1, 5]);
    }
}

#[test]
fn count_equals_enumeration_without_limits() {
    let run = run_with(
        Vec::new(),
        vec![
            item(1, "head"),
            item(2, "head"),
            item(3, "head"),
            item(10, "neck"),
            item(11, "neck"),
            item(20, "finger1"),
            item(21, "finger2"),
            item(22, "finger1"),
            item(23, "finger1"),
            item(30, "trinket1"),
            item(31, "trinket2"),
            item(32, "trinket1"),
            item(40, "main_hand"),
        ],
    );
    assert_eq!(run.calculate_iterations(), Some(3 * 2 * 6 * 3 * 1));
    let found = run.build_permutation_array();
    assert_eq!(found.len(), 108);
    for loadout in &found {
        assert_eq!(loadout.len(), 7);
    }
}

#[test]
fn four_rings_give_six_pairs_in_pool_order() {
    let run = run_with(
        Vec::new(),
        vec![item(1, "finger1"), item(2, "finger1"), item(3, "finger2"), item(4, "finger2")],
    );
    assert_eq!(run.calculate_iterations(), Some(6));
    let found = run.build_permutation_array();
    let pairs: Vec<Vec<u32>> = found.iter().map(ids).collect();
    assert_eq!(
        pairs,
        vec![vec![1, 2], vec![1, 3], vec![1, 4], vec![2, 3], vec![2, 4], vec![3, 4]]
    );
    for loadout in &found {
        assert_eq!(loadout[0].slot.slot, ESlot::Finger1);
        assert_eq!(loadout[1].slot.slot, ESlot::Finger2);
        assert!(loadout[0].id != loadout[1].id);
    }
}

#[test]
fn equal_ids_are_never_paired() {
    let run = run_with(
        Vec::new(),
        vec![item(7, "trinket1"), item(7, "trinket2"), item(8, "trinket1")],
    );
    let found = run.build_permutation_array();
    let pairs: Vec<Vec<u32>> = found.iter().map(ids).collect();
    assert_eq!(pairs, vec![vec![7, 8], vec![7, 8]]);
    let run = run_with(Vec::new(), vec![item(7, "trinket1"), item(7, "trinket2")]);
    assert_eq!(run.build_permutation_array().len(), 0);
}

#[test]
fn paired_slot_with_one_candidate_is_passed_over() {
    let run = run_with(Vec::new(), vec![item(1, "head"), item(2, "head"), item(9, "finger1")]);
    let found = run.build_permutation_array();
    let all: Vec<Vec<u32>> = found.iter().map(ids).collect();
    assert_eq!(all, vec![vec![1], vec![2]]);
}

#[test]
fn lone_candidate_of_a_paired_slot_counts_as_no_pair() {
    let run = run_with(Vec::new(), vec![item(1, "head"), item(2, "head"), item(9, "finger1")]);
    assert_eq!(run.calculate_iterations(), Some(0));
    let run = run_with(Vec::new(), vec![item(9, "trinket2")]);
    assert_eq!(run.calculate_iterations(), Some(0));
    let run = run_with(Vec::new(), vec![item(9, "trinket2"), item(8, "trinket2")]);
    assert_eq!(run.calculate_iterations(), Some(1));
    let run = run_with(
        Vec::new(),
        vec![item(9, "trinket2"), item(8, "trinket2"), item(7, "trinket1")],
    );
    assert_eq!(run.calculate_iterations(), Some(3));
}

#[test]
fn empty_catalogue_gives_the_empty_loadout() {
    let run = run_with(Vec::new(), Vec::new());
    assert_eq!(run.calculate_iterations(), Some(1));
    let found = run.build_permutation_array();
    assert_eq!(found.len(), 1);
    assert!(found[0].is_empty());
}

#[test]
fn enumeration_follows_the_walk_and_the_pool_order() {
    let run = run_with(
        Vec::new(),
        vec![item(2, "neck"), item(1, "head"), item(4, "neck"), item(3, "head")],
    );
    let found = run.build_permutation_array();
    let all: Vec<Vec<u32>> = found.iter().map(ids).collect();
    assert_eq!(all, vec![vec![1, 2], vec![1, 4], vec![3, 2], vec![3, 4]]);
}

#[test]
fn merged_hands_are_worn_in_main_and_off_hand() {
    let mut settings = config(Vec::new());
    settings.simcraft.replace_weaponhand_enum = true;
    let mut run =
        Simcraft::with_name(settings, "", "test", Template::default(), Template::default()).unwrap();
    run.parse_line("main_hand=sword,id=1").unwrap();
    run.parse_line("off_hand=dagger,id=2").unwrap();
    run.parse_line("main_hand=axe,id=3").unwrap();
    assert_eq!(run.calculate_iterations(), Some(3));
    let found = run.build_permutation_array();
    let all: Vec<Vec<u32>> = found.iter().map(ids).collect();
    assert_eq!(all, vec![vec![1, 2], vec![1, 3], vec![2, 3]]);
    assert_eq!(found[0][0].slot.name, "main_hand");
    assert_eq!(found[0][1].slot.name, "off_hand");
}

#[test]
fn no_loadout_reaches_the_cap_of_a_rule() {
    let run = run_with(
        vec![Limit { max: 2, items: vec![5] }, Limit { max: 3, items: vec![6, 7] }],
        vec![
            item(5, "head"),
            item(1, "head"),
            item(5, "neck"),
            item(6, "neck"),
            item(5, "back"),
            item(7, "back"),
            item(6, "chest"),
            item(2, "chest"),
        ],
    );
    let found = run.build_permutation_array();
    assert!(!found.is_empty());
    for loadout in &found {
        assert!(count(loadout, 5) < 2);
        assert!(count(loadout, 6) + count(loadout, 7) < 3);
    }
    assert_eq!(found.len(), 6);
}

#[test]
fn guard_counts_an_item_once_however_often_it_is_listed() {
    let rules = vec![Limit { max: 2, items: vec![1, 1, 1] }];
    assert!(!violates_any(&vec![item(1, "head")], &rules));
    assert!(violates_any(&vec![item(1, "head"), item(1, "neck")], &rules));
    assert!(!violates_any(&Vec::new(), &rules));
    assert!(!violates_any(&vec![item(1, "head")], &Vec::new()));
    assert!(Limit { max: 0, items: vec![1] }.reached(&Vec::new()));
    assert!(!Limit { max: 1, items: vec![1] }.reached(&vec![item(2, "head")]));
    assert!(Limit { max: 1, items: vec![1] }.reached(&vec![item(1, "head")]));
}

#[test]
fn count_that_does_not_fit_is_none() {
    let mut items = Vec::new();
    let slots = vec![
        "head", "neck", "shoulder", "back", "chest", "waist", "wrist", "hands", "feet", "legs",
        "main_hand", "off_hand",
    ];
    for slot in slots {
        for id in 0..60 {
            items.push(item(id, slot));
        }
    }
    let run = run_with(Vec::new(), items.clone());
    assert_eq!(run.calculate_iterations(), None);
    items.push(item(1, "finger1"));
    let run = run_with(Vec::new(), items);
    assert_eq!(run.calculate_iterations(), Some(0));
    let mut items = Vec::new();
    for slot in vec!["head", "neck", "shoulder"] {
        for id in 0..60 {
            items.push(item(id, slot));
        }
    }
    let run = run_with(Vec::new(), items);
    assert_eq!(run.calculate_iterations(), Some(216000));
}

#[test]
fn check_catalog_names_the_first_empty_mandatory_slot() {
    let run = run_with(Vec::new(), vec![item(1, "head"), item(2, "neck")]);
    assert_eq!(run.check_catalog(&vec![ESlot::Head, ESlot::Neck]), Ok(()));
    assert_eq!(run.check_catalog(&Vec::new()), Ok(()));
    assert_eq!(
        run.check_catalog(&vec![ESlot::Head, ESlot::Chest, ESlot::Back]),
        Err(CatalogError { slot: ESlot::Chest })
    );
    assert_eq!(
        run.check_catalog(&Simcraft::mandatory_slots()),
        Err(CatalogError { slot: ESlot::Shoulder })
    );
    assert_eq!(Simcraft::mandatory_slots().len(), 10);
}
