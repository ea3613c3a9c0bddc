use simpermut::configuration::{
    Configuration, Replacement, Simcraft as SimcraftSettings, Statistic as StatisticSettings,
};
use simpermut::simcraft::item::Item;
use simpermut::simcraft::report::Generator;
use simpermut::simcraft::slot::Slot;
use simpermut::simcraft::statistic::{Data, Statistic};
use simpermut::template::Template;

fn config(best_of: usize, tolerance: u32, threshold: i32) -> Configuration {
    Configuration {
        output_dir: String::from("out"),
        report_dir: String::from("reports"),
        template_dir: String::from("templates"),
        log_dir: String::from("logs"),
        simcraft: SimcraftSettings {
            best_of,
            template: String::from("simc.tpl"),
            process_template: String::from("process_{}.simc"),
            executeable: String::from("simc"),
            html: String::from("report_{}.html"),
            json: String::from("report_{}.json"),
            override_spec: true,
            override_talents: true,
            replace_weaponhand_enum: false,
        },
        replaces: Replacement { items: Vec::new(), enchantments: Vec::new() },
        limits: Vec::new(),
        statistic: StatisticSettings { tolerance, threshold },
    }
}

fn item(id: u32) -> Item {
    let mut item = Item::new();
    item.id = id;
    item.slot = Slot::from_str("head").unwrap();
    item
}

fn ranking(best_of: usize, values: Vec<u64>) -> Generator {
    let mut ranking =
        Generator::new(&config(best_of, 0, 0), "r", Template::default(), Template::default())
            .unwrap();
    for value in values {
        ranking.push(value, "x");
    }
    ranking
}

fn data<'a>(statistic: &'a Statistic, id: u32) -> &'a Data {
    statistic.items.iter().find(|d| d.item_id() == id).unwrap()
}

#[test]
fn new_statistic_takes_its_settings_from_the_configuration() {
    let statistic = Statistic::new(&config(7, 50, 30), 10000, 32);
    assert!(statistic.items.is_empty());
    assert_eq!(statistic.tolerance, 50);
    assert_eq!(statistic.threshold, 30);
    assert_eq!(statistic.iterations, 10000);
    assert_eq!(statistic.range_size, 7);
    assert_eq!(statistic.modifier, 50);
}

#[test]
fn modifier_is_sixteen_roots_over_the_candidates() {
    assert_eq!(Statistic::new(&config(1, 0, 0), 0, 10).modifier, 0);
    assert_eq!(Statistic::new(&config(1, 0, 0), 99, 16).modifier, 9);
    assert_eq!(Statistic::new(&config(1, 0, 0), 100, 16).modifier, 10);
    assert_eq!(Statistic::new(&config(1, 0, 0), 1_000_000, 100).modifier, 160);
    assert_eq!(Statistic::new(&config(1, 0, 0), 1_000_000, 0).modifier, 0);
    assert_eq!(Statistic::new(&config(1, 0, 0), u64::MAX, 1).modifier, 4294967295 * 16);
    assert_eq!(Statistic::new(&config(1, 0, 0), 24, 3).modifier, 21);
}

#[test]
fn unseen_item_is_never_ignored() {
    let mut statistic = Statistic::new(&config(3, 0, i32::MAX), 100, 10);
    assert!(!statistic.ignore(&item(1)));
    assert!(!statistic.has_ignores(&vec![item(1), item(2)]));
    let ranking = ranking(3, vec![100]);
    statistic.update(&vec![item(2)], 10, &ranking);
    assert!(statistic.ignore(&item(2)));
    assert!(!statistic.ignore(&item(1)));
    assert!(statistic.has_ignores(&vec![item(1), item(2)]));
    assert!(!statistic.has_ignores(&vec![item(1), item(3)]));
    assert!(!statistic.has_ignores(&Vec::new()));
    statistic.threshold = i32::MIN;
    assert!(!statistic.ignore(&item(1)));
    assert!(!statistic.ignore(&item(2)));
}

#[test]
fn item_is_not_rated_while_the_ranking_is_empty() {
    let mut statistic = Statistic::new(&config(3, 0, 50), 0, 0);
    let empty = ranking(3, Vec::new());
    statistic.update(&vec![item(1)], 0, &empty);
    assert_eq!(data(&statistic, 1).rating(), None);
    assert_eq!(data(&statistic, 1).seen(), 1);
    assert!(!statistic.ignore(&item(1)));
    let filled = ranking(3, vec![100, 50]);
    statistic.update(&vec![item(2)], 60, &filled);
    assert_eq!(data(&statistic, 1).rating(), Some(0));
    assert_eq!(data(&statistic, 2).rating(), Some(20));
    assert!(statistic.ignore(&item(1)));
    assert!(statistic.ignore(&item(2)));
}

#[test]
fn rating_places_the_average_between_the_bounds() {
    let statistic = Statistic::new(&config(3, 0, 0), 0, 0);
    assert_eq!(statistic.rate(&Data::new(1, 80), 50, 100), 60);
    assert_eq!(statistic.rate(&Data::new(1, 50), 50, 100), 0);
    assert_eq!(statistic.rate(&Data::new(1, 40), 50, 100), 0);
    assert_eq!(statistic.rate(&Data::new(1, 100), 50, 100), 100);
    assert_eq!(statistic.rate(&Data::new(1, 120), 50, 100), 100);
    assert_eq!(statistic.rate(&Data::new(1, 99), 50, 100), 98);
    assert_eq!(statistic.rate(&Data::new(1, 51), 50, 100), 2);
}

#[test]
fn tolerance_lowers_the_bound() {
    let statistic = Statistic::new(&config(3, 250, 0), 0, 0);
    assert_eq!(statistic.rate(&Data::new(1, 80), 50, 100), 66);
    assert_eq!(statistic.rate(&Data::new(1, 40), 50, 100), 0);
    assert_eq!(statistic.rate(&Data::new(1, 41), 50, 100), 1);
    assert_eq!(statistic.rate(&Data::new(1, 50), 50, 100), 16);
}

#[test]
fn rarely_seen_items_are_judged_mildly() {
    let mut statistic = Statistic::new(&config(3, 0, 0), 0, 0);
    statistic.modifier = 4;
    assert_eq!(statistic.rate(&Data::new(1, 50), 50, 100), 30);
    statistic.modifier = 1;
    assert_eq!(statistic.rate(&Data::new(1, 50), 50, 100), 0);
    statistic.modifier = 2;
    assert_eq!(statistic.rate(&Data::new(1, 50), 50, 100), 25);
}

#[test]
fn rating_where_the_bounds_fall_together() {
    let statistic = Statistic::new(&config(3, 0, 0), 0, 0);
    assert_eq!(statistic.rate(&Data::new(1, 50), 50, 50), 0);
    assert_eq!(statistic.rate(&Data::new(1, 51), 50, 50), 100);
    assert_eq!(statistic.rate(&Data::new(1, 49), 50, 50), 0);
    assert_eq!(statistic.rate(&Data::new(1, 0), 0, 0), 0);
    assert_eq!(statistic.rate(&Data::new(1, 1), 0, 0), 100);
    assert_eq!(
        statistic.rate(&Data::new(1, u64::MAX), u64::MAX, u64::MAX),
        0
    );
    assert_eq!(statistic.rate(&Data::new(1, u64::MAX), 0, u64::MAX), 100);
    assert_eq!(statistic.rate(&Data::new(1, u64::MAX / 2), 0, u64::MAX), 49);
}

#[test]
fn window_keeps_the_best_results_and_their_average() {
    let mut statistic = Statistic::new(&config(3, 0, 0), 0, 0);
    let ranking = ranking(3, vec![1000, 1]);
    statistic.update(&vec![item(1)], 10, &ranking);
    assert_eq!(data(&statistic, 1).dps_avg(), 10);
    statistic.update(&vec![item(1)], 21, &ranking);
    assert_eq!(data(&statistic, 1).dps_avg(), 15);
    statistic.update(&vec![item(1)], 5, &ranking);
    assert_eq!(data(&statistic, 1).dps_avg(), 12);
    statistic.update(&vec![item(1)], 100, &ranking);
    assert_eq!(data(&statistic, 1).dps_avg(), 43);
    statistic.update(&vec![item(1)], 1, &ranking);
    assert_eq!(data(&statistic, 1).dps_avg(), 43);
    assert_eq!(data(&statistic, 1).seen(), 5);
    assert_eq!(statistic.items.len(), 1);
}

#[test]
fn update_sees_every_item_of_the_loadout_and_rates_all() {
    let mut statistic = Statistic::new(&config(2, 0, 50), 0, 0);
    let ranking = ranking(2, vec![100, 0]);
    statistic.update(&vec![item(1), item(2)], 80, &ranking);
    statistic.update(&vec![item(2), item(3), item(2)], 20, &ranking);
    assert_eq!(statistic.items.len(), 3);
    assert_eq!(statistic.items[0].item_id(), 1);
    assert_eq!(statistic.items[1].item_id(), 2);
    assert_eq!(statistic.items[2].item_id(), 3);
    assert_eq!(data(&statistic, 1).dps_avg(), 80);
    assert_eq!(data(&statistic, 1).seen(), 1);
    assert_eq!(data(&statistic, 2).dps_avg(), 50);
    assert_eq!(data(&statistic, 2).seen(), 3);
    assert_eq!(data(&statistic, 3).dps_avg(), 20);
    assert_eq!(data(&statistic, 1).rating(), Some(80));
    assert_eq!(data(&statistic, 2).rating(), Some(50));
    assert_eq!(data(&statistic, 3).rating(), Some(20));
    assert!(!statistic.ignore(&item(1)));
    assert!(!statistic.ignore(&item(2)));
    assert!(statistic.ignore(&item(3)));
    let better = {
        let mut better = Generator::new(
            &config(2, 0, 0),
            "r",
            Template::default(),
            Template::default(),
        )
        .unwrap();
        better.push(200, "x");
        better.push(100, "y");
        better
    };
    statistic.update(&Vec::new(), 0, &better);
    assert_eq!(data(&statistic, 1).rating(), Some(0));
    assert!(statistic.ignore(&item(1)));
}

#[test]
fn data_new_holds_the_first_result() {
    let data = Data::new(9, 77);
    assert_eq!(data.item_id(), 9);
    assert_eq!(data.dps_avg(), 77);
    assert_eq!(data.rating(), None);
    assert_eq!(data.seen(), 1);
}
