use simpermut::configuration::{
    Configuration, ConfigurationError, Limit, ReplacedItem, Replacement,
    Simcraft as SimcraftSettings, Statistic as StatisticSettings,
};
use simpermut::simcraft::report::{Generator, Report};
use simpermut::template::Template;

fn config(best_of: usize) -> Configuration {
    Configuration {
        output_dir: String::from("out"),
        report_dir: String::from("reports"),
        template_dir: String::from("templates"),
        log_dir: String::from("logs"),
        simcraft: SimcraftSettings {
            best_of,
            template: String::from("simc.tpl"),
            process_template: String::from("process_{}.simc"),
            executeable: String::from("simc"),
            html: String::from("report_{}.html"),
            json: String::from("report_{}.json"),
            override_spec: true,
            override_talents: true,
            replace_weaponhand_enum: false,
        },
        replaces: Replacement { items: Vec::new(), enchantments: Vec::new() },
        limits: Vec::new(),
        statistic: StatisticSettings { tolerance: 50, threshold: 30 },
    }
}

fn ranking(best_of: usize) -> Generator {
    Generator::new(&config(best_of), "out/reports", Template::default(), Template::default())
        .unwrap()
}

fn listed(ranking: &Generator) -> Vec<(String, u64)> {
    ranking.finalize().iter().map(|r: &Report| (r.html.clone(), r.dps)).collect()
}

fn pair(name: &str, dps: u64) -> (String, u64) {
    (String::from(name), dps)
}

#[test]
fn best_of_two_keeps_the_two_best() {
    let mut ranking = ranking(2);
    assert_eq!(ranking.push(50, "a"), Some(0));
    assert_eq!(ranking.push(70, "b"), Some(0));
    assert_eq!(ranking.push(60, "c"), Some(1));
    assert_eq!(listed(&ranking), vec![pair("b", 70), pair("c", 60)]);
    assert_eq!(ranking.min_max_dps(), (60, 70));
    assert_eq!(ranking.len(), 2);
}

#[test]
fn empty_ranking_has_zero_bounds() {
    let ranking = ranking(3);
    assert_eq!(ranking.min_max_dps(), (0, 0));
    assert_eq!(ranking.len(), 0);
    assert!(ranking.finalize().is_empty());
}

#[test]
fn ranking_without_room_is_refused() {
    let made = Generator::new(&config(0), "out", Template::default(), Template::default());
    assert_eq!(made.err(), Some(ConfigurationError::EmptyRanking));
}

#[test]
fn equal_results_keep_their_order_of_arrival() {
    let mut ranking = ranking(4);
    assert_eq!(ranking.push(60, "first"), Some(0));
    assert_eq!(ranking.push(60, "second"), Some(1));
    assert_eq!(ranking.push(70, "top"), Some(0));
    assert_eq!(ranking.push(60, "third"), Some(3));
    assert_eq!(
        listed(&ranking),
        vec![pair("top", 70), pair("first", 60), pair("second", 60), pair("third", 60)]
    );
}

#[test]
fn result_no_better_than_the_last_of_a_full_ranking_is_not_taken() {
    let mut ranking = ranking(2);
    ranking.push(50, "a");
    ranking.push(70, "b");
    assert_eq!(ranking.push(50, "late"), None);
    assert_eq!(ranking.push(10, "worse"), None);
    assert_eq!(listed(&ranking), vec![pair("b", 70), pair("a", 50)]);
    assert_eq!(ranking.min_max_dps(), (50, 70));
}

#[test]
fn ranking_stays_sorted_and_bounded_under_any_offers() {
    let mut ranking = ranking(5);
    let mut value: u64 = 12345;
    for round in 0..200 {
        value = (value * 1103515245 + 12345) % 1000;
        ranking.push(value, "x");
        let entries = ranking.finalize();
        assert!(entries.len() <= 5);
        assert_eq!(entries.len(), std::cmp::min(round + 1, 5));
        for i in 1..entries.len() {
            assert!(entries[i - 1].dps >= entries[i].dps);
        }
        let (min, max) = ranking.min_max_dps();
        assert_eq!(max, entries[0].dps);
        assert_eq!(min, entries[entries.len() - 1].dps);
    }
}

#[test]
fn ranking_of_one_keeps_the_best() {
    let mut ranking = ranking(1);
    assert_eq!(ranking.push(5, "a"), Some(0));
    assert_eq!(ranking.push(5, "b"), None);
    assert_eq!(ranking.push(6, "c"), Some(0));
    assert_eq!(listed(&ranking), vec![pair("c", 6)]);
    assert_eq!(ranking.min_max_dps(), (6, 6));
}

#[test]
fn report_is_rendered_from_the_templates() {
    let report = Template::new(
        "report.html",
        "best of #[[var=best_of]] in #[[var=report_dir]] v#[[var=version]]: #[[var=min_dps]]..#[[var=max_dps]]\n#[[var=report_list]]",
        Vec::new(),
    );
    let entry = Template::new(
        "report_list_entry.html",
        "#[[var=dps]] (#[[var=val_now]]%) #[[var=html_report_file]] #[[var=html_report_name]]\n",
        Vec::new(),
    );
    let mut ranking = Generator::new(&config(3), "out/reports", report, entry).unwrap();
    ranking.push(50, "out/reports/report_1.html");
    ranking.push(200, "out/reports/sub/report_2.html");
    ranking.push(101, "short");
    let text = ranking.compile();
    assert_eq!(
        text,
        "best of 3 in out/reports v0.3.1: 50..200\n\
         200 (100%) sub/report_2.html /report_2.html\n\
         101 (51%) unkown unknown\n\
         50 (25%) report_1.html /report_1.html\n"
    );
    assert_eq!(ranking.report_path(), "out/reports/report.html");
    assert_eq!(ranking.len(), 3);
}

#[test]
fn configuration_is_checked_in_order() {
    let mut settings = config(0);
    settings.limits.push(Limit { max: 0, items: vec![1] });
    assert_eq!(settings.validate(), Err(ConfigurationError::EmptyRanking));
    settings.simcraft.best_of = 1;
    assert_eq!(settings.validate(), Err(ConfigurationError::MalformedLimit { index: 0 }));
    settings.limits = vec![Limit { max: 1, items: vec![1] }, Limit { max: 2, items: Vec::new() }];
    assert_eq!(settings.validate(), Err(ConfigurationError::MalformedLimit { index: 1 }));
    settings.limits = vec![Limit { max: 1, items: vec![1] }];
    settings.replaces.items = vec![
        ReplacedItem { slot: String::from("head"), ..ReplacedItem::default() },
        ReplacedItem { slot: String::from("nose"), ..ReplacedItem::default() },
    ];
    assert_eq!(settings.validate(), Err(ConfigurationError::UnknownSlot { index: 1 }));
    settings.replaces.items.pop();
    assert_eq!(settings.validate(), Ok(()));
}
