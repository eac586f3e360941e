//! Joining the price table to the equipment table.
//!
//! Every part of every piece of equipment becomes an item, priced under its
//! own name or, failing that, under its name with " Blueprint" behind it. A
//! part without a price is left out. The ignored items follow, priced at
//! nothing, and at last the first "Forma Blueprint" is given its fixed
//! price.

use crate::database::{first_named, Database, Item, ItemModel};
use crate::text::{ends_with, from_chars, is_suffix, join_text, to_chars};
use crate::wfinfo_data::{DucatItem, EquipmentItem, EquipmentType, FilteredItems, PriceItem};
use vstd::prelude::*;

verus! {

/// What a Forma blueprint is worth, in thousandths of a platinum: a third
/// of 35, rounded.
pub const FORMA_PRICE: u32 = 11667;

/// " Blueprint"
pub open spec fn blueprint_suffix() -> Seq<char> {
    seq![' ', 'B', 'l', 'u', 'e', 'p', 'r', 'i', 'n', 't']
}

/// "Blueprint"
pub open spec fn blueprint_word() -> Seq<char> {
    seq!['B', 'l', 'u', 'e', 'p', 'r', 'i', 'n', 't']
}

/// "Forma Blueprint"
pub open spec fn forma_name() -> Seq<char> {
    seq!['F', 'o', 'r', 'm', 'a', ' ', 'B', 'l', 'u', 'e', 'p', 'r', 'i', 'n', 't']
}

/// Whether the name is that of a component that the reward screen shows as
/// a blueprint: it ends in Systems, Neuroptics, Chassis, Harness or Wings.
pub open spec fn is_component(name: Seq<char>) -> bool {
    is_suffix(seq!['S', 'y', 's', 't', 'e', 'm', 's'], name) || is_suffix(
        seq!['N', 'e', 'u', 'r', 'o', 'p', 't', 'i', 'c', 's'],
        name,
    ) || is_suffix(seq!['C', 'h', 'a', 's', 's', 'i', 's'], name) || is_suffix(
        seq!['H', 'a', 'r', 'n', 'e', 's', 's'],
        name,
    ) || is_suffix(seq!['W', 'i', 'n', 'g', 's'], name)
}

/// The name under which the reward screen shows a part: components of
/// warframes and archwings get " Blueprint" behind their name.
pub open spec fn shown_as(kind: EquipmentType, name: Seq<char>) -> Seq<char> {
    if (kind == EquipmentType::Warframes || kind == EquipmentType::Archwing) && is_component(name)
        && !is_suffix(blueprint_word(), name) {
        name + blueprint_suffix()
    } else {
        name
    }
}

/// The index of the last of the first `n` prices under this name.
pub open spec fn priced(prices: Seq<PriceItem>, name: Seq<char>, n: int) -> Option<int>
    decreases n,
{
    if n <= 0 {
        None
    } else if prices[n - 1].name@ == name {
        Some(n - 1)
    } else {
        priced(prices, name, n - 1)
    }
}

/// The index of the price of a part: under its name, else under its name
/// with " Blueprint" behind it.
pub open spec fn price_index(prices: Seq<PriceItem>, name: Seq<char>) -> Option<int> {
    match priced(prices, name, prices.len() as int) {
        Some(i) => Some(i),
        None => priced(prices, name + blueprint_suffix(), prices.len() as int),
    }
}

/// The item that a part becomes, if it has a price.
pub open spec fn part_entry(
    prices: Seq<PriceItem>,
    kind: EquipmentType,
    name: Seq<char>,
    ducats: usize,
) -> Option<ItemModel> {
    match price_index(prices, name) {
        Some(i) => Some(
            ItemModel {
                name,
                drop_name: shown_as(kind, name),
                platinum: prices[i].custom_avg,
                ducats,
                yesterday_vol: prices[i].yesterday_vol,
                today_vol: prices[i].today_vol,
            },
        ),
        None => None,
    }
}

/// The items of the first `n` parts of one piece of equipment.
pub open spec fn part_entries(
    prices: Seq<PriceItem>,
    kind: EquipmentType,
    parts: Seq<(String, DucatItem)>,
    n: int,
) -> Seq<ItemModel>
    decreases n,
{
    if n <= 0 {
        Seq::empty()
    } else {
        let before = part_entries(prices, kind, parts, n - 1);
        match part_entry(prices, kind, parts[n - 1].0@, parts[n - 1].1.ducats) {
            Some(item) => before.push(item),
            None => before,
        }
    }
}

/// The items of the first `n` pieces of equipment.
pub open spec fn equipment_entries(
    prices: Seq<PriceItem>,
    equipment: Seq<(String, EquipmentItem)>,
    n: int,
) -> Seq<ItemModel>
    decreases n,
{
    if n <= 0 {
        Seq::empty()
    } else {
        equipment_entries(prices, equipment, n - 1) + part_entries(
            prices,
            equipment[n - 1].1.item_type,
            equipment[n - 1].1.parts@,
            equipment[n - 1].1.parts@.len() as int,
        )
    }
}

/// The items of the first `n` ignored entries: worth nothing.
pub open spec fn ignored_entries(ignored: Seq<(String, DucatItem)>, n: int) -> Seq<ItemModel>
    decreases n,
{
    if n <= 0 {
        Seq::empty()
    } else {
        ignored_entries(ignored, n - 1).push(
            ItemModel {
                name: ignored[n - 1].0@,
                drop_name: ignored[n - 1].0@,
                platinum: 0,
                ducats: 0,
                yesterday_vol: 0,
                today_vol: 0,
            },
        )
    }
}

/// The items with the first one named "Forma Blueprint" priced at
/// `FORMA_PRICE`.
pub open spec fn with_forma_price(items: Seq<ItemModel>) -> Seq<ItemModel> {
    match first_named(items, forma_name(), items.len() as int) {
        Some(i) => items.update(
            i,
            ItemModel {
                name: items[i].name,
                drop_name: items[i].drop_name,
                platinum: FORMA_PRICE,
                ducats: items[i].ducats,
                yesterday_vol: items[i].yesterday_vol,
                today_vol: items[i].today_vol,
            },
        ),
        None => items,
    }
}

/// The catalog that the two tables make.
pub open spec fn catalog_of(prices: Seq<PriceItem>, filtered: FilteredItems) -> Seq<ItemModel> {
    with_forma_price(
        equipment_entries(prices, filtered.eqmt@, filtered.eqmt@.len() as int) + ignored_entries(
            filtered.ignored_items@,
            filtered.ignored_items@.len() as int,
        ),
    )
}

/// What a list of items holds.
pub open spec fn models(items: Seq<Item>) -> Seq<ItemModel> {
    Seq::new(items.len(), |i: int| items[i]@)
}

fn find_price(prices: &Vec<PriceItem>, name: &String) -> (at: Option<usize>)
    ensures
        match at {
            Some(i) => priced(prices@, name@, prices@.len() as int) == Some(i as int) && i
                < prices@.len(),
            None => priced(prices@, name@, prices@.len() as int) is None,
        },
{
    let mut n: usize = prices.len();
    while n > 0
        invariant
            n <= prices.len(),
            priced(prices@, name@, prices@.len() as int) == priced(prices@, name@, n as int),
        decreases n,
    {
        if prices[n - 1].name == *name {
            return Some(n - 1);
        }
        n = n - 1;
    }
    None
}

fn component(name: &Vec<char>) -> (b: bool)
    ensures
        b == is_component(name@),
{
    let systems = to_chars("Systems");
    let neuroptics = to_chars("Neuroptics");
    let chassis = to_chars("Chassis");
    let harness = to_chars("Harness");
    let wings = to_chars("Wings");
    proof {
        reveal_strlit("Systems");
        reveal_strlit("Neuroptics");
        reveal_strlit("Chassis");
        reveal_strlit("Harness");
        reveal_strlit("Wings");
        assert(systems@ =~= seq!['S', 'y', 's', 't', 'e', 'm', 's']);
        assert(neuroptics@ =~= seq!['N', 'e', 'u', 'r', 'o', 'p', 't', 'i', 'c', 's']);
        assert(chassis@ =~= seq!['C', 'h', 'a', 's', 's', 'i', 's']);
        assert(harness@ =~= seq!['H', 'a', 'r', 'n', 'e', 's', 's']);
        assert(wings@ =~= seq!['W', 'i', 'n', 'g', 's']);
    }
    ends_with(name, &systems) || ends_with(name, &neuroptics) || ends_with(name, &chassis)
        || ends_with(name, &harness) || ends_with(name, &wings)
}

fn part_item(prices: &Vec<PriceItem>, kind: EquipmentType, name: &String, ducats: usize) -> (r:
    Option<Item>)
    ensures
        match r {
            Some(item) => part_entry(prices@, kind, name@, ducats) == Some(item@),
            None => part_entry(prices@, kind, name@, ducats) is None,
        },
{
    let chars = to_chars(name.as_str());
    let suffix = to_chars(" Blueprint");
    let word = to_chars("Blueprint");
    proof {
        reveal_strlit(" Blueprint");
        reveal_strlit("Blueprint");
        assert(suffix@ =~= blueprint_suffix());
        assert(word@ =~= blueprint_word());
    }
    let longer = from_chars(&join_text(&chars, &suffix));
    let at = match find_price(prices, name) {
        Some(i) => Some(i),
        None => find_price(prices, &longer),
    };
    match at {
        None => None,
        Some(i) => {
            let as_blueprint = match kind {
                EquipmentType::Warframes => true,
                EquipmentType::Archwing => true,
                _ => false,
            } && component(&chars) && !ends_with(&chars, &word);
            let drop_name = if as_blueprint {
                longer
            } else {
                name.clone()
            };
            Some(
                Item {
                    name: name.clone(),
                    drop_name,
                    platinum: prices[i].custom_avg,
                    ducats,
                    yesterday_vol: prices[i].yesterday_vol,
                    today_vol: prices[i].today_vol,
                },
            )
        },
    }
}

impl Database {
    /// The catalog that the price table and the equipment table make, with
    /// the relic tables that come with the latter.
    pub fn from_tables(prices: &Vec<PriceItem>, filtered: FilteredItems) -> (db: Database)
        ensures
            db.catalog() == catalog_of(prices@, filtered),
            db.relics == filtered.relics,
    {
        let mut items: Vec<Item> = Vec::new();
        let mut e: usize = 0;
        while e < filtered.eqmt.len()
            invariant
                e <= filtered.eqmt.len(),
                models(items@) == equipment_entries(prices@, filtered.eqmt@, e as int),
            decreases filtered.eqmt.len() - e,
        {
            let equipment = &filtered.eqmt[e].1;
            let ghost before = models(items@);
            let mut p: usize = 0;
            while p < equipment.parts.len()
                invariant
                    p <= equipment.parts.len(),
                    models(items@) == before + part_entries(
                        prices@,
                        equipment.item_type,
                        equipment.parts@,
                        p as int,
                    ),
                decreases equipment.parts.len() - p,
            {
                let part = &equipment.parts[p];
                let ghost so_far = models(items@);
                match part_item(prices, equipment.item_type, &part.0, part.1.ducats) {
                    Some(item) => {
                        items.push(item);
                        assert(models(items@) =~= so_far.push(item@));
                    },
                    None => {},
                }
                p = p + 1;
                assert(models(items@) =~= before + part_entries(
                    prices@,
                    equipment.item_type,
                    equipment.parts@,
                    p as int,
                ));
            }
            e = e + 1;
        }
        let ghost from_equipment = models(items@);
        let mut g: usize = 0;
        while g < filtered.ignored_items.len()
            invariant
                g <= filtered.ignored_items.len(),
                models(items@) == from_equipment + ignored_entries(
                    filtered.ignored_items@,
                    g as int,
                ),
            decreases filtered.ignored_items.len() - g,
        {
            let name = &filtered.ignored_items[g].0;
            let item = Item {
                name: name.clone(),
                drop_name: name.clone(),
                platinum: 0,
                ducats: 0,
                yesterday_vol: 0,
                today_vol: 0,
            };
            let ghost so_far = models(items@);
            items.push(item);
            g = g + 1;
            assert(models(items@) =~= so_far.push(item@));
            assert(models(items@) =~= from_equipment + ignored_entries(
                filtered.ignored_items@,
                g as int,
            ));
        }
        let ghost joined = models(items@);
        let forma = from_chars(&to_chars("Forma Blueprint"));
        proof {
            reveal_strlit("Forma Blueprint");
            assert(forma@ =~= forma_name());
        }
        let mut f: usize = 0;
        while f < items.len()
            invariant
                f <= items.len(),
                models(items@) == joined,
                with_forma_price(joined) == catalog_of(prices@, filtered),
                forma@ == forma_name(),
                first_named(joined, forma_name(), f as int) is None,
            decreases items.len() - f,
        {
            if items[f].name == forma {
                let mut item = items.remove(f);
                item.platinum = FORMA_PRICE;
                items.insert(f, item);
                proof {
                    crate::database::lemma_first_named_stays(
                        joined,
                        forma_name(),
                        f + 1,
                        joined.len() as int,
                    );
                    assert(models(items@) =~= with_forma_price(joined));
                }
                let ghost made = models(items@);
                let db = Database::new(items, filtered.relics);
                assert(db.catalog() =~= made);
                return db;
            }
            f = f + 1;
        }
        let db = Database::new(items, filtered.relics);
        assert(db.catalog() =~= joined);
        db
    }
}

} // verus!
