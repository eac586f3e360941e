use wfinfo::database::{Database, Item};
use wfinfo::statistics::Expectation;
use wfinfo::wfinfo_data::{
    DucatItem, EquipmentItem, EquipmentType, FilteredItems, PriceItem, Refinement, Relic, Relics,
};

fn price(name: &str, custom_avg: u32, yesterday_vol: usize, today_vol: usize) -> PriceItem {
    PriceItem {
        name: name.to_string(),
        custom_avg,
        yesterday_vol,
        today_vol,
    }
}

fn equipment(
    name: &str,
    item_type: EquipmentType,
    parts: &[(&str, usize)],
) -> (String, EquipmentItem) {
    (
        name.to_string(),
        EquipmentItem {
            item_type,
            vaulted: false,
            parts: parts
                .iter()
                .map(|(part, ducats)| (part.to_string(), DucatItem { ducats: *ducats }))
                .collect(),
        },
    )
}

fn relic(common: [&str; 3], uncommon: [&str; 2], rare: &str) -> Relic {
    Relic {
        vaulted: false,
        rare1: rare.to_string(),
        uncommon1: uncommon[0].to_string(),
        uncommon2: uncommon[1].to_string(),
        common1: common[0].to_string(),
        common2: common[1].to_string(),
        common3: common[2].to_string(),
    }
}

fn prices() -> Vec<PriceItem> {
    vec![
        price("Octavia Prime Blueprint", 12_500, 40, 30),
        price("Octavia Prime Systems Blueprint", 8_000, 25, 31),
        price("Octavia Prime Neuroptics Blueprint", 6_250, 12, 12),
        price("Octavia Prime Set", 60_000, 9, 9),
        price("Titania Prime Blueprint", 4_000, 10, 3),
        price("Akstiletto Prime Receiver", 30_000, 50, 20),
        price("Akstiletto Prime Barrel", 9_000, 5, 9),
        price("Tenora Prime Blueprint", 3_330, 7, 7),
        price("Harrow Prime Systems Blueprint", 2_000, 3, 0),
        price("Odonata Prime Wings Blueprint", 5_000, 2, 1),
        price("Tenora Prime Blueprint", 3_500, 8, 6),
        price("Forma Blueprint", 1, 1, 1),
    ]
}

fn tables() -> FilteredItems {
    FilteredItems {
        errors: vec![],
        relics: Relics {
            lith: vec![
                (
                    "A1".to_string(),
                    relic(
                        [
                            "Tenora Prime Blueprint",
                            "Harrow Prime Systems",
                            "Forma Blueprint",
                        ],
                        ["Titania Prime Blueprint", "Octavia Prime Neuroptics"],
                        "Akstiletto Prime Receiver",
                    ),
                ),
                (
                    "B2".to_string(),
                    relic(
                        [
                            "Forma Blueprint",
                            "Forma Blueprint",
                            "Akstiletto Prime Barrel",
                        ],
                        ["Octavia Prime Systems", "Tenora Prime Blueprint"],
                        "Octavia Prime Blueprint",
                    ),
                ),
            ],
            neo: vec![(
                "N1".to_string(),
                relic(
                    [
                        "Octavia Prime Blueprint",
                        "Octavia Prime Blueprint",
                        "Octavia Prime Blueprint",
                    ],
                    ["Octavia Prime Blueprint", "Octavia Prime Blueprint"],
                    "Octavia Prime Blueprint",
                ),
            )],
            meso: vec![],
            axi: vec![(
                "Z9".to_string(),
                relic(
                    ["Forma Blueprint", "Kuva", "Forma Blueprint"],
                    ["Tenora Prime Blueprint", "Forma Blueprint"],
                    "Odonata Prime Wings",
                ),
            )],
        },
        eqmt: vec![
            equipment(
                "Octavia Prime",
                EquipmentType::Warframes,
                &[
                    ("Octavia Prime Blueprint", 45),
                    ("Octavia Prime Systems", 15),
                    ("Octavia Prime Neuroptics", 100),
                    ("Octavia Prime Set", 0),
                    ("Octavia Prime Chassis", 65),
                ],
            ),
            equipment(
                "Titania Prime",
                EquipmentType::Warframes,
                &[("Titania Prime Blueprint", 100)],
            ),
            equipment(
                "Akstiletto Prime",
                EquipmentType::Secondary,
                &[
                    ("Akstiletto Prime Receiver", 45),
                    ("Akstiletto Prime Barrel", 15),
                ],
            ),
            equipment(
                "Tenora Prime",
                EquipmentType::Primary,
                &[("Tenora Prime Blueprint", 15)],
            ),
            equipment(
                "Harrow Prime",
                EquipmentType::Warframes,
                &[("Harrow Prime Systems", 15)],
            ),
            equipment(
                "Odonata Prime",
                EquipmentType::Archwing,
                &[("Odonata Prime Wings", 45)],
            ),
            equipment(
                "Wings Of Glass",
                EquipmentType::Skins,
                &[("Glass Wings", 5)],
            ),
        ],
        ignored_items: vec![
            ("Forma Blueprint".to_string(), DucatItem { ducats: 0 }),
            ("Kuva".to_string(), DucatItem { ducats: 0 }),
        ],
    }
}

fn load() -> Database {
    Database::from_tables(&prices(), tables())
}

fn as_float(e: Expectation) -> f64 {
    e.numerator as f64 / e.denominator as f64
}

#[test]
fn can_load_database() {
    let db = load();
    let names: Vec<&str> = db.items().iter().map(|item| item.name.as_str()).collect();
    assert_eq!(
        names,
        vec![
            "Octavia Prime Blueprint",
            "Octavia Prime Systems",
            "Octavia Prime Neuroptics",
            "Octavia Prime Set",
            "Titania Prime Blueprint",
            "Akstiletto Prime Receiver",
            "Akstiletto Prime Barrel",
            "Tenora Prime Blueprint",
            "Harrow Prime Systems",
            "Odonata Prime Wings",
            "Forma Blueprint",
            "Kuva",
        ]
    );
    assert_eq!(db.relics.lith.len(), 2);
    assert_eq!(db.relics.axi[0].0, "Z9");
}

#[test]
fn components_are_shown_as_blueprints() {
    let db = load();
    let shown = |name: &str| db.find_item_exact(name).unwrap().drop_name.clone();
    assert_eq!(shown("Octavia Prime Systems"), "Octavia Prime Systems Blueprint");
    assert_eq!(shown("Octavia Prime Neuroptics"), "Octavia Prime Neuroptics Blueprint");
    assert_eq!(shown("Harrow Prime Systems"), "Harrow Prime Systems Blueprint");
    assert_eq!(shown("Odonata Prime Wings"), "Odonata Prime Wings Blueprint");
    assert_eq!(shown("Octavia Prime Blueprint"), "Octavia Prime Blueprint");
    assert_eq!(shown("Akstiletto Prime Receiver"), "Akstiletto Prime Receiver");
    assert_eq!(shown("Kuva"), "Kuva");
}

#[test]
fn prices_are_joined_by_name_or_blueprint_name() {
    let db = load();
    let systems = db.find_item_exact("Octavia Prime Systems").unwrap();
    assert_eq!(
        (systems.platinum, systems.ducats, systems.yesterday_vol, systems.today_vol),
        (8_000, 15, 25, 31)
    );
    // the later of two prices under one name counts
    let tenora = db.find_item_exact("Tenora Prime Blueprint").unwrap();
    assert_eq!((tenora.platinum, tenora.yesterday_vol, tenora.today_vol), (3_500, 8, 6));
    // a part without a price is left out
    assert!(db.find_item_exact("Octavia Prime Chassis").is_none());
    assert!(db.find_item_exact("Glass Wings").is_none());
    // ignored items are worth nothing, but for the forma
    let kuva = db.find_item_exact("Kuva").unwrap();
    assert_eq!((kuva.platinum, kuva.ducats), (0, 0));
    assert_eq!(db.find_item_exact("Forma Blueprint").unwrap().platinum, 11_667);
}

#[test]
fn only_the_first_forma_gets_the_fixed_price() {
    let mut tables = tables();
    tables
        .ignored_items
        .push(("Forma Blueprint".to_string(), DucatItem { ducats: 0 }));
    let db = Database::from_tables(&prices(), tables);
    let formas: Vec<u32> = db
        .items()
        .iter()
        .filter(|item| item.name == "Forma Blueprint")
        .map(|item| item.platinum)
        .collect();
    assert_eq!(formas, vec![11_667, 0]);
}

#[test]
fn can_find_items() {
    let db = load();

    let item = db
        .find_item("TitaniaPrimeBlueprint", Some(0))
        .expect("Failed to find Titania Prime Blueprint in database");
    assert_eq!(item.name, "Titania Prime Blueprint");

    let item = db
        .find_item("OctaviaPrimeBlueprint", Some(0))
        .expect("Failed to find Octavia Prime Blueprint in database");
    assert_eq!(item.name, "Octavia Prime Blueprint");
}

#[test]
fn can_find_fuzzy_items() {
    let db = load();

    let item = db
        .find_item("Akstlett Prlme Recver", None)
        .expect("Failed to fuzzy find Akstiletto Prime Receiver in database");
    assert_eq!(item.name, "Akstiletto Prime Receiver");

    let item = db
        .find_item("ctavio Prlme Blueprnt", None)
        .expect("Failed to fuzzy find Octavia Prime Blueprint in database");
    assert_eq!(item.name, "Octavia Prime Blueprint");

    let item = db
        .find_item("Oclavia Prime Syslems\nBlueprint\n", None)
        .expect("Failed to fuzzy find Octavia Prime Blueprint in database");
    assert_eq!(item.name, "Octavia Prime Systems");
}

#[test]
fn the_threshold_decides() {
    let db = load();
    // one letter off the name without spaces
    assert!(db.find_item("OctaviaPrimeBlueprnt", Some(0)).is_none());
    assert_eq!(
        db.find_item("OctaviaPrimeBlueprnt", Some(1)).unwrap().name,
        "Octavia Prime Blueprint"
    );
    // "Kuva" is the nearest to "Kxyz" at distance 3; a third of its length is 1
    assert!(db.find_item("Kxyz", None).is_none());
    assert_eq!(db.find_item("Kuvx", None).unwrap().name, "Kuva");
    assert_eq!(db.find_item("Kxyz", Some(3)).unwrap().name, "Kuva");
    // unrelated text resolves to nothing
    assert!(db.find_item("Zzzzzzzzzzzzzzzzzzzzzzzzzzzzzzzzzzzz", None).is_none());
    assert!(Database::new(vec![], tables().relics).find_item("Kuva", None).is_none());
}

#[test]
fn sets_are_never_found() {
    let db = load();
    let found = db.find_item("OctaviaPrimeSet", None);
    assert!(found.map_or(true, |item| !item.name.ends_with("Set")));
    assert!(db.find_item("Octavia Prime Set", Some(0)).is_none());
    let only_sets = Database::new(
        vec![Item {
            name: "Octavia Prime Set".to_string(),
            drop_name: "Octavia Prime Set".to_string(),
            platinum: 1,
            ducats: 0,
            yesterday_vol: 0,
            today_vol: 0,
        }],
        tables().relics,
    );
    assert!(only_sets.find_item("Octavia Prime Set", Some(100)).is_none());
    assert!(only_sets.find_item_exact("Octavia Prime Set").is_some());
}

#[test]
fn of_equally_near_names_the_first_is_taken() {
    let item = |name: &str, platinum: u32| Item {
        name: name.to_string(),
        drop_name: name.to_string(),
        platinum,
        ducats: 0,
        yesterday_vol: 0,
        today_vol: 0,
    };
    let db = Database::new(
        vec![item("Abcd", 1), item("Abce", 2), item("Abcf", 3), item("Abce", 4)],
        tables().relics,
    );
    assert_eq!(db.find_item("Abcx", Some(1)).unwrap().platinum, 1);
    assert_eq!(db.find_item("Abce", None).unwrap().platinum, 2);
    assert_eq!(db.find_item_exact("Abce").unwrap().platinum, 2);
    assert!(db.find_item_exact("abce").is_none());
}

#[test]
fn relics_resolve_or_not() {
    let db = load();
    assert!(db.resolves(&db.relics.lith[0].1));
    assert!(db.resolves(&db.relics.lith[1].1));
    assert!(db.resolves(&db.relics.axi[0].1));
    let unknown = relic(
        ["Forma Blueprint", "Nowhere Prime", "Forma Blueprint"],
        ["Forma Blueprint", "Forma Blueprint"],
        "Forma Blueprint",
    );
    assert!(!db.resolves(&unknown));
}

#[test]
fn the_value_of_one_relic() {
    let db = load();
    let relic = &db.relics.lith[0].1;
    // commons 3500, 2000, 11667; uncommons 4000, 6250; rare 30000
    let intact = db.single_relic_value(relic, Refinement::Intact);
    assert_eq!(
        intact,
        Expectation {
            numerator: (3_500 + 2_000 + 11_667) * 2533 + (4_000 + 6_250) * 1100 + 30_000 * 200,
            denominator: 10000
        }
    );
    let radiant = db.single_relic_value(relic, Refinement::Radiant);
    assert_eq!(
        radiant.numerator,
        (3_500 + 2_000 + 11_667) * 1667 + (4_000 + 6_250) * 2000 + 30_000 * 1000
    );
    assert!((as_float(radiant) / 1000.0 - 7.9117389).abs() < 0.0000001);
    let outcomes = db.relic_outcomes(relic, Refinement::Flawless);
    let pairs: Vec<(u32, u32)> = outcomes.iter().map(|o| (o.value, o.probability)).collect();
    assert_eq!(
        pairs,
        vec![
            (3_500, 2000),
            (2_000, 2000),
            (11_667, 2000),
            (4_000, 1700),
            (6_250, 1700),
            (30_000, 600)
        ]
    );
    let bucket = db.relic_to_bucket(relic, Refinement::Flawless);
    let values: Vec<u32> = bucket.items().iter().map(|o| o.value).collect();
    assert_eq!(values, vec![2_000, 3_500, 4_000, 6_250, 11_667, 30_000]);
    assert_eq!(bucket.scale(), 10000);
}

#[test]
fn one_relic_shared_is_one_relic() {
    let db = load();
    for (_, relic) in db.relics.lith.iter().chain(db.relics.neo.iter()) {
        for refinement in [
            Refinement::Intact,
            Refinement::Exceptional,
            Refinement::Flawless,
            Refinement::Radiant,
        ] {
            assert_eq!(
                db.shared_relic_value(relic, refinement, 1),
                Some(db.single_relic_value(relic, refinement))
            );
        }
    }
}

#[test]
fn validate_shared_relic_values() {
    let database = load();

    for (_name, relic) in database.relics.lith.iter() {
        let shared = database.shared_relic_value(relic, Refinement::Radiant, 4).unwrap();
        let brute = database
            .shared_relic_value_bruteforce(relic, Refinement::Radiant, 4)
            .unwrap();
        assert!((as_float(shared) / 1000.0 - as_float(brute) / 1000.0).abs() < 0.01);
        assert_eq!(shared, brute);
    }
    for (_name, relic) in database.relics.meso.iter() {
        let shared = database.shared_relic_value(relic, Refinement::Radiant, 4).unwrap();
        let brute = database
            .shared_relic_value_bruteforce(relic, Refinement::Radiant, 4)
            .unwrap();
        assert!((as_float(shared) / 1000.0 - as_float(brute) / 1000.0).abs() < 0.01);
        assert_eq!(shared, brute);
    }
    for (_name, relic) in database.relics.neo.iter() {
        let shared = database.shared_relic_value(relic, Refinement::Radiant, 4).unwrap();
        let brute = database
            .shared_relic_value_bruteforce(relic, Refinement::Radiant, 4)
            .unwrap();
        assert!((as_float(shared) / 1000.0 - as_float(brute) / 1000.0).abs() < 0.01);
        assert_eq!(shared, brute);
    }
    for (_name, relic) in database.relics.axi.iter() {
        let shared = database.shared_relic_value(relic, Refinement::Radiant, 4).unwrap();
        let brute = database
            .shared_relic_value_bruteforce(relic, Refinement::Radiant, 4)
            .unwrap();
        assert!((as_float(shared) / 1000.0 - as_float(brute) / 1000.0).abs() < 0.01);
        assert_eq!(shared, brute);
    }
}

#[test]
fn enumeration_agrees_at_every_refinement_and_count() {
    let db = load();
    let relic = &db.relics.lith[1].1;
    for refinement in [
        Refinement::Intact,
        Refinement::Exceptional,
        Refinement::Flawless,
        Refinement::Radiant,
    ] {
        for n in 1..=5 {
            assert_eq!(
                db.shared_relic_value(relic, refinement, n),
                db.shared_relic_value_bruteforce(relic, refinement, n)
            );
        }
    }
    // a relic of one and the same item is worth that item, however many are opened
    let same = &db.relics.neo[0].1;
    let four = db.shared_relic_value(same, Refinement::Flawless, 4).unwrap();
    assert_eq!(four.denominator, 10_000u128.pow(4));
    assert_eq!(four.numerator, 12_500 * 10_000u128.pow(4));
    // too many relics to enumerate, or to fit
    assert_eq!(db.shared_relic_value_bruteforce(relic, Refinement::Radiant, 129), None);
    assert_eq!(db.shared_relic_value_bruteforce(relic, Refinement::Radiant, 9), None);
    assert_eq!(db.shared_relic_value(relic, Refinement::Radiant, 10), None);
}

#[test]
fn the_chances_of_each_refinement() {
    let chances = |r: Refinement| (r.common_chance(), r.uncommon_chance(), r.rare_chance());
    assert_eq!(chances(Refinement::Intact), (2533, 1100, 200));
    assert_eq!(chances(Refinement::Exceptional), (2333, 1300, 400));
    assert_eq!(chances(Refinement::Flawless), (2000, 1700, 600));
    assert_eq!(chances(Refinement::Radiant), (1667, 2000, 1000));
}

#[test]
fn the_best_refinement_of_a_relic() {
    let db = load();
    // a valuable rare reward: refining raises its chance
    let rare = &db.relics.lith[0].1;
    let (refinement, value) = db.best_refinement(rare, 1).unwrap();
    assert_eq!(refinement, Refinement::Radiant);
    assert_eq!(Some(value), db.shared_relic_value(rare, Refinement::Radiant, 1));
    // one and the same item in every slot: the sum of the chances decides,
    // which is highest when radiant
    let same = &db.relics.neo[0].1;
    let (refinement, value) = db.best_refinement(same, 1).unwrap();
    assert_eq!(refinement, Refinement::Radiant);
    assert_eq!(value.numerator, 12_500 * 10_001);
    // opened by the dozen nothing fits any more
    assert_eq!(db.best_refinement(rare, 12), None);
}

#[test]
fn spaces_count_in_neither_text_when_the_threshold_is_tested() {
    let db = Database::new(
        vec![Item {
            name: "Forma Blueprint".to_string(),
            drop_name: "Forma Blueprint".to_string(),
            platinum: 11_667,
            ducats: 0,
            yesterday_vol: 0,
            today_vol: 0,
        }],
        tables().relics,
    );
    assert_eq!(
        db.find_item("Forma Blueprint", Some(0)).map(|item| item.name.as_str()),
        Some("Forma Blueprint")
    );
    assert_eq!(
        db.find_item(" F orma  Blue print ", Some(0)).map(|item| item.name.as_str()),
        Some("Forma Blueprint")
    );
    assert!(db.find_item("Forma Blueprin", Some(0)).is_none());
    assert!(db.find_item("Forma\nBlueprint", Some(0)).is_none());
    // in the full catalog the same name is found as well
    assert_eq!(
        load().find_item("Octavia Prime Blueprint", Some(0)).map(|item| item.name.as_str()),
        Some("Octavia Prime Blueprint")
    );
}
