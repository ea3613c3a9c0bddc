use simpermut::configuration::{
    Configuration, ConfigurationError, Limit, ReplacedEnchantment, ReplacedItem, Replacement,
    Simcraft as SimcraftSettings, Statistic as StatisticSettings,
};
use simpermut::simcraft::item::Item;
use simpermut::simcraft::parse::ParseError;
use simpermut::simcraft::slot::{ESlot, Slot};
use simpermut::simcraft::Simcraft;
use simpermut::template::Template;

fn config() -> Configuration {
    Configuration {
        output_dir: String::from("out"),
        report_dir: String::from("reports"),
        template_dir: String::from("templates"),
        log_dir: String::from("logs"),
        simcraft: SimcraftSettings {
            best_of: 10,
            template: String::from("simc.tpl"),
            process_template: String::from("process_{}.simc"),
            executeable: String::from("simc"),
            html: String::from("html/report_{}.html"),
            json: String::from("json/report_{}.json"),
            override_spec: true,
            override_talents: true,
            replace_weaponhand_enum: false,
        },
        replaces: Replacement { items: Vec::new(), enchantments: Vec::new() },
        limits: Vec::new(),
        statistic: StatisticSettings { tolerance: 50, threshold: 30 },
    }
}

fn run(config: Configuration, talents: &str) -> Simcraft {
    Simcraft::with_name(config, talents, "test", Template::default(), Template::default()).unwrap()
}

fn item(id: u32, slot: ESlot) -> Item {
    let mut item = Item::new();
    item.id = id;
    item.slot = Slot::from_enum(slot);
    item
}

#[test]
fn run_is_laid_out_under_its_name() {
    let run = run(config(), "1231231");
    assert_eq!(run.output_dir(), "out/test");
    assert_eq!(run.report_dir(), "out/test/reports");
    assert_eq!(run.compile_dir(), "out/test/compiles");
    assert_eq!(run.log_dir(), "out/test/logs");
    assert_eq!(run.template_path(), "templates/simc.tpl");
    assert_eq!(run.items().len(), 0);
    assert_eq!(run.report().len(), 0);
    assert_eq!(run.report().report_path(), "out/test/reports/report.html");
}

#[test]
fn every_run_gets_a_name_of_its_own() {
    let first = Simcraft::new(config(), "", Template::default(), Template::default()).unwrap();
    let second = Simcraft::new(config(), "", Template::default(), Template::default()).unwrap();
    assert!(first.output_dir().starts_with("out/"));
    assert!(first.output_dir().len() > "out/".len());
    assert_eq!(first.report_dir(), &format!("{}/reports", first.output_dir()));
    assert_eq!(first.compile_dir(), &format!("{}/compiles", first.output_dir()));
    assert_eq!(first.log_dir(), &format!("{}/logs", first.output_dir()));
    assert!(first.output_dir() != second.output_dir());
}

#[test]
fn run_is_refused_on_a_bad_configuration() {
    let mut settings = config();
    settings.simcraft.best_of = 0;
    let made = Simcraft::new(settings, "", Template::default(), Template::default());
    assert_eq!(made.err(), Some(ConfigurationError::EmptyRanking));
    let mut settings = config();
    settings.limits.push(Limit { max: 0, items: vec![1] });
    let made = Simcraft::with_name(settings, "", "x", Template::default(), Template::default());
    assert_eq!(made.err(), Some(ConfigurationError::MalformedLimit { index: 0 }));
    let mut settings = config();
    settings.replaces.items.push(ReplacedItem { slot: String::from("ear"), ..ReplacedItem::default() });
    let made = Simcraft::with_name(settings, "", "x", Template::default(), Template::default());
    assert_eq!(made.err(), Some(ConfigurationError::UnknownSlot { index: 0 }));
}

#[test]
fn forced_items_start_the_catalogue() {
    let mut settings = config();
    settings.replaces.items = vec![
        ReplacedItem { slot: String::from("head"), id: 1, ..ReplacedItem::default() },
        ReplacedItem { slot: String::from("finger1"), id: 2, ..ReplacedItem::default() },
        ReplacedItem { slot: String::from("head"), id: 3, ..ReplacedItem::default() },
    ];
    let run = run(settings, "");
    assert_eq!(run.items().len(), 2);
    let heads = run.items().get_slot(ESlot::Head).unwrap();
    assert_eq!(heads.len(), 2);
    assert_eq!(heads[0].id, 1);
    assert_eq!(heads[1].id, 3);
    assert_eq!(run.items().get_slot(ESlot::Finger).unwrap()[0].id, 2);
}

#[test]
fn item_line_is_read_with_all_it_says() {
    let mut run = run(config(), "");
    run.parse_line(
        "  head=raddons,id=137061,bonus_id=3459/3630,gem_id=130220,relic_id=1:2,enchant_id=5427,azerite_powers=13/22,azerite_level=27  ",
    )
    .unwrap();
    run.parse_line("head=raddons_cascading_eyes,id=1").unwrap();
    run.parse_line("head=,id").unwrap();
    let heads = run.items().get_slot(ESlot::Head).unwrap();
    assert_eq!(heads[0].id, 137061);
    assert_eq!(heads[0].slot.slot, ESlot::Head);
    assert_eq!(heads[0].slot.name, "head");
    assert_eq!(heads[0].name, "raddons");
    assert_eq!(heads[0].bonus_id, "3459/3630");
    assert_eq!(heads[0].gem_id, "130220");
    assert_eq!(heads[0].relic_id, "1:2");
    assert_eq!(heads[0].enchant_id, 5427);
    assert_eq!(heads[0].azerite_power, "13/22");
    assert_eq!(heads[0].azerite_level, 27);
    assert_eq!(heads.len(), 2);
    assert_eq!(heads[1].id, 0);
    assert_eq!(heads[1].name, "");
}

#[test]
fn rings_and_trinkets_go_to_the_pool_of_their_pair() {
    let mut run = run(config(), "");
    run.parse_line("finger1=ring,id=1").unwrap();
    run.parse_line("finger2=band,id=2").unwrap();
    run.parse_line("trinket2=charm,id=3").unwrap();
    run.parse_line("# a comment").unwrap();
    run.parse_line("").unwrap();
    assert_eq!(run.items().len(), 2);
    let rings = run.items().get_slot(ESlot::Finger).unwrap();
    assert_eq!(rings.len(), 2);
    assert_eq!(rings[0].slot.name, "finger");
    assert_eq!(run.items().get_slot(ESlot::Trinket).unwrap()[0].id, 3);
    assert_eq!(run.items().total_items(), 3);
}

#[test]
fn forced_slot_takes_no_item_from_the_input() {
    let mut settings = config();
    settings.replaces.items =
        vec![ReplacedItem { slot: String::from("head"), id: 1, ..ReplacedItem::default() }];
    let mut run = run(settings, "");
    run.parse_line("head=helm,id=2").unwrap();
    run.parse_line("neck=chain,id=3").unwrap();
    let heads = run.items().get_slot(ESlot::Head).unwrap();
    assert_eq!(heads.len(), 1);
    assert_eq!(heads[0].id, 1);
    assert_eq!(run.items().get_slot(ESlot::Neck).unwrap()[0].id, 3);
    assert!(run.is_replaced_by_item(&Slot::from_enum(ESlot::Head)));
    assert!(!run.is_replaced_by_item(&Slot::from_enum(ESlot::Neck)));
}

#[test]
fn hands_are_merged_where_the_configuration_says_so() {
    let mut settings = config();
    settings.simcraft.replace_weaponhand_enum = true;
    let mut run = run(settings, "");
    run.parse_line("main_hand=sword,id=1").unwrap();
    run.parse_line("off_hand=shield,id=2").unwrap();
    assert!(run.items().get_slot(ESlot::MainHand).is_none());
    assert!(run.items().get_slot(ESlot::OffHand).is_none());
    let both = run.items().get_slot(ESlot::WeaponHand).unwrap();
    assert_eq!(both.len(), 2);
    assert_eq!(both[0].slot.slot, ESlot::WeaponHand);
}

#[test]
fn line_with_a_bad_number_is_refused_and_changes_nothing() {
    let mut run = run(config(), "");
    assert_eq!(run.parse_line("head=helm,id=99999999999"), Err(ParseError::InvalidNumber));
    assert_eq!(run.parse_line("head=helm,id=1/2"), Err(ParseError::InvalidNumber));
    assert_eq!(run.parse_line("head=helm,id=1,enchant_id=1:1"), Err(ParseError::InvalidNumber));
    assert_eq!(
        run.parse_line("head=helm,id=1,azerite_level=4294967296"),
        Err(ParseError::InvalidNumber)
    );
    assert_eq!(run.parse_line("level=high"), Err(ParseError::InvalidLevel));
    assert_eq!(run.parse_line("level="), Err(ParseError::InvalidLevel));
    assert_eq!(run.items().len(), 0);
    assert_eq!(run.parse_line("head=helm,id=1"), Ok(()));
    assert_eq!(run.items().total_items(), 1);
}

#[test]
fn input_is_read_up_to_the_first_bad_line() {
    let mut run = run(config(), "");
    let lines = vec![
        String::from("head=helm,id=1"),
        String::from("neck=chain,id=x2,gem_id=7"),
        String::from("back=cloak,id=0000000000000003000000000000"),
        String::from("chest=robe,id=4"),
    ];
    assert_eq!(run.parse_simc_file(&lines), Err(ParseError::InvalidNumber));
    assert_eq!(run.items().total_items(), 2);
    let necks = run.items().get_slot(ESlot::Neck).unwrap();
    assert_eq!(necks[0].id, 0);
    assert_eq!(necks[0].gem_id, "7");
    assert!(run.items().get_slot(ESlot::Chest).is_none());
    let mut run = self::run(config(), "");
    let lines = vec![String::from("head=helm,id=1"), String::from("chest=robe,id=4")];
    assert_eq!(run.parse_simc_file(&lines), Ok(()));
    assert_eq!(run.items().total_items(), 2);
}

fn script(run: &mut Simcraft) -> String {
    run.set_template(Template::new(
        "simc.tpl",
        "spec=#[[var=spec]]\ntalents=#[[var=talents]]\nlevel=#[[var=level]]\n#[[var=item_list]]html=#[[var=report_html]]\njson=#[[var=report_json]]\n",
        Vec::new(),
    ));
    run.process_simc_file(&Vec::new(), 0).script
}

#[test]
fn character_lines_set_spec_talents_and_level() {
    let mut run = run(config(), "");
    run.parse_line("spec=havoc").unwrap();
    run.parse_line("\t talents=1231231 \r\n").unwrap();
    run.parse_line("talents=3333333").unwrap();
    run.parse_line("  level=110  ").unwrap();
    run.parse_line(" spec=vengeance").unwrap();
    run.parse_line("my spec=fury").unwrap();
    assert_eq!(
        script(&mut run),
        "spec=vengeance\ntalents=1231231\nlevel=110\nhtml=out/test/reports/html/report_1.html\njson=out/test/reports/json/report_1.json\n"
    );
}

#[test]
fn talents_from_the_start_are_kept() {
    let mut run = run(config(), "2222222");
    run.parse_line("talents=1231231").unwrap();
    assert_eq!(
        script(&mut run),
        "spec=\ntalents=2222222\nlevel=120\nhtml=out/test/reports/html/report_1.html\njson=out/test/reports/json/report_1.json\n"
    );
}

#[test]
fn overrides_are_left_out_where_the_configuration_says_so() {
    let mut settings = config();
    settings.simcraft.override_spec = false;
    settings.simcraft.override_talents = false;
    let mut run = run(settings, "2222222");
    run.parse_line("spec=havoc").unwrap();
    assert_eq!(
        script(&mut run),
        "spec=\ntalents=\nlevel=\nhtml=out/test/reports/html/report_1.html\njson=out/test/reports/json/report_1.json\n"
    );
}

#[test]
fn job_names_the_files_of_a_loadout() {
    let mut run = run(config(), "");
    let job = run.process_simc_file(&Vec::new(), 41);
    assert_eq!(job.parse_counter, 42);
    assert_eq!(job.report_html, "out/test/reports/html/report_42.html");
    assert_eq!(job.report_json, "out/test/reports/json/report_42.json");
    assert_eq!(job.process_tpl, "out/test/compiles/process_42.simc");
    assert_eq!(job.stdout, "out/test/logs/stdout_42.log");
    assert_eq!(job.stderr, "out/test/logs/stderr_42.log");
    assert_eq!(job.script, "");
    assert_eq!(Simcraft::extract_path(&job.report_html), "out/test/reports/html");
    assert_eq!(Simcraft::extract_path("file"), "file");
    assert_eq!(Simcraft::extract_path("/file"), "");
}

#[test]
fn items_are_listed_for_the_simulator() {
    let mut settings = config();
    settings.replaces.enchantments = vec![
        ReplacedEnchantment { slot: String::from("finger"), id: 5428 },
        ReplacedEnchantment { slot: String::from("finger"), id: 1 },
        ReplacedEnchantment { slot: String::from("finger1"), id: 2 },
    ];
    let run = run(settings, "");
    let mut helm = item(137061, ESlot::Head);
    helm.gem_id = String::from("130220");
    helm.relic_id = String::from("1:2");
    helm.bonus_id = String::from("3459/3630");
    helm.enchant_id = 5427;
    helm.azerite_level = 27;
    helm.azerite_power = String::from("13/22");
    let mut ring = item(2, ESlot::Finger1);
    ring.enchant_id = 7;
    let plain = item(3, ESlot::Neck);
    let list: String = run.item_list(&vec![helm, ring, plain]).iter().collect();
    assert_eq!(
        list,
        "head=,id=137061,gem_id=130220,relic_id=1:2,bonus_id=3459/3630,enchant_id=5427,azerite_level=27,azerite_powers=13/22\n\
         finger1=,id=2,enchant_id=5428\n\
         neck=,id=3\n"
    );
    assert_eq!(run.get_replaced_enchantment(&Slot::from_enum(ESlot::Finger2)).unwrap().id, 5428);
    assert!(run.get_replaced_enchantment(&Slot::from_enum(ESlot::Head)).is_none());
}

#[test]
fn read_item_passes_over_unknown_slots_and_keys() {
    let run = run(config(), "");
    let keys = vec![String::from("id"), String::from("colour"), String::from("id")];
    let values = vec![String::from("5"), String::from("red"), String::from("6")];
    let item = run.read_item("wrist", "bracer", &keys, &values).unwrap().unwrap();
    assert_eq!(item.id, 6);
    assert_eq!(item.name, "bracer");
    assert_eq!(item.slot.slot, ESlot::Wrist);
    assert!(run.read_item("ear", "ring", &keys, &values).unwrap().is_none());
    let bad = vec![String::from("x"), String::from("1"), String::from("2")];
    assert_eq!(run.read_item("wrist", "bracer", &keys, &bad).err(), Some(ParseError::InvalidNumber));
    let slots = vec![String::from("wrist"), String::from("ear"), String::from("feet")];
    let names = vec![String::from("a"), String::from("b"), String::from("c")];
    let rests = vec![String::from("id=1"), String::from("id=2"), String::from("gem_id=3,id=4")];
    let items = run.read_items(&slots, &names, &rests).unwrap();
    assert_eq!(items.len(), 2);
    assert_eq!(items[0].id, 1);
    assert_eq!(items[1].id, 4);
    assert_eq!(items[1].gem_id, "3");
    assert_eq!(items[1].slot.slot, ESlot::Feet);
}
