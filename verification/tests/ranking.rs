use wfinfo::config::{BestItemMode, InfoDisplayMode};
use wfinfo::database::{Database, Item};
use wfinfo::ranking::{
    best_item, highlight, item_worth, resolve_rewards, volatility, Highlight,
};
use wfinfo::wfinfo_data::Relics;

fn item(name: &str, platinum: u32, ducats: usize, yesterday_vol: usize, today_vol: usize) -> Item {
    Item {
        name: name.to_string(),
        drop_name: name.to_string(),
        platinum,
        ducats,
        yesterday_vol,
        today_vol,
    }
}

fn no_relics() -> Relics {
    Relics {
        lith: vec![],
        neo: vec![],
        meso: vec![],
        axi: vec![],
    }
}

#[test]
fn what_an_item_is_worth() {
    // 12.5 platinum, 45 ducats, volume down from 40 to 30
    let a = item("A", 12_500, 45, 40, 30);
    assert_eq!(item_worth(&a, BestItemMode::Platinum), 1_250_000);
    assert_eq!(item_worth(&a, BestItemMode::Ducats), 450_000);
    // max(12.5, 4.5 + 0.125)
    assert_eq!(item_worth(&a, BestItemMode::Combined), 1_250_000);
    // 10 * 12.5
    assert_eq!(item_worth(&a, BestItemMode::Volatility), 12_500_000);
    // 2 platinum, 100 ducats, volume up
    let b = item("B", 2_000, 100, 3, 8);
    // max(2, 10 + 0.02)
    assert_eq!(item_worth(&b, BestItemMode::Combined), 1_002_000);
    assert_eq!(item_worth(&b, BestItemMode::Volatility), 0);
}

#[test]
fn the_last_of_the_best_is_picked() {
    let a = item("A", 12_500, 45, 40, 30);
    let b = item("B", 2_000, 100, 3, 8);
    let c = item("C", 12_500, 15, 0, 0);
    let slots = vec![Some(&a), None, Some(&b), Some(&c)];
    assert_eq!(best_item(&slots, BestItemMode::Platinum), Some(3));
    assert_eq!(best_item(&slots, BestItemMode::Ducats), Some(2));
    assert_eq!(best_item(&slots, BestItemMode::Combined), Some(3));
    assert_eq!(best_item(&slots, BestItemMode::Volatility), Some(0));
    assert_eq!(best_item(&vec![], BestItemMode::Platinum), None);
    assert_eq!(best_item(&vec![None, None], BestItemMode::Platinum), Some(1));
    assert_eq!(best_item(&vec![Some(&b), None], BestItemMode::Volatility), Some(1));
}

#[test]
fn texts_resolve_to_items() {
    let db = Database::new(
        vec![
            item("Octavia Prime Blueprint", 12_500, 45, 0, 0),
            item("Tenora Prime Blueprint", 3_500, 15, 0, 0),
        ],
        no_relics(),
    );
    let texts = vec![
        "Octavia Prime\nBlueprint\n".to_string(),
        "~~ 12 ~~".to_string(),
        "Tenora Prlme Blueprint".to_string(),
    ];
    let slots = resolve_rewards(&db, &texts);
    let names: Vec<Option<&str>> = slots.iter().map(|s| s.map(|i| i.name.as_str())).collect();
    assert_eq!(
        names,
        vec![Some("Octavia Prime Blueprint"), None, Some("Tenora Prime Blueprint")]
    );
    assert_eq!(best_item(&slots, BestItemMode::default()), Some(0));
}

#[test]
fn the_defaults() {
    assert_eq!(BestItemMode::default(), BestItemMode::Combined);
    assert_eq!(InfoDisplayMode::default(), InfoDisplayMode::Minimal);
}

#[test]
fn what_is_pointed_out() {
    let a = item("A", 12_500, 45, 40, 30);
    let b = item("B", 2_000, 100, 3, 8);
    let even = item("C", 4_500, 45, 0, 0);
    assert_eq!(highlight(&a, BestItemMode::Combined), Highlight::Platinum);
    assert_eq!(highlight(&b, BestItemMode::Combined), Highlight::Ducats);
    assert_eq!(highlight(&even, BestItemMode::Combined), Highlight::Ducats);
    assert_eq!(highlight(&b, BestItemMode::Platinum), Highlight::Platinum);
    assert_eq!(highlight(&a, BestItemMode::Ducats), Highlight::Ducats);
    assert_eq!(highlight(&a, BestItemMode::Volatility), Highlight::Neither);
    assert_eq!(volatility(&a), 125_000);
    assert_eq!(volatility(&b), 0);
}
