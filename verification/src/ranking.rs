//! From recognised text to items, and the pick among them.

use crate::arith::monus;
use crate::config::BestItemMode;
use crate::database::{resolved, Database, Item, ItemModel};
use crate::text::{letters_of, normalize_string};
use vstd::prelude::*;

verus! {

/// What an item is worth under a ranking, in hundred-thousandths of a
/// platinum.
///
/// A ducat counts as a tenth of a platinum. `Combined` is the larger of the
/// price and of the ducats plus a hundredth of the price. `Volatility` is
/// the price times the drop in trade volume since yesterday.
pub open spec fn worth(item: ItemModel, mode: BestItemMode) -> int {
    match mode {
        BestItemMode::Combined => {
            let plain = 100 * item.platinum;
            let mixed = 10000 * item.ducats + item.platinum;
            if plain >= mixed {
                plain
            } else {
                mixed
            }
        },
        BestItemMode::Platinum => 100 * item.platinum,
        BestItemMode::Ducats => 10000 * item.ducats,
        BestItemMode::Volatility => 100 * monus(
            item.yesterday_vol as int,
            item.today_vol as int,
        ) * item.platinum,
    }
}

/// What a slot is worth: an unknown item is worth nothing.
pub open spec fn slot_worth(slot: Option<&Item>, mode: BestItemMode) -> int {
    match slot {
        Some(item) => worth(item@, mode),
        None => 0,
    }
}

/// `k` is the last slot that is worth the most.
pub open spec fn is_best(slots: Seq<Option<&Item>>, mode: BestItemMode, k: int) -> bool {
    &&& 0 <= k < slots.len()
    &&& forall|j: int|
        0 <= j < slots.len() ==> slot_worth(#[trigger] slots[j], mode) <= slot_worth(
            slots[k],
            mode,
        )
    &&& forall|j: int|
        k < j < slots.len() ==> slot_worth(#[trigger] slots[j], mode) < slot_worth(slots[k], mode)
}

/// What an item is worth under a ranking.
pub fn item_worth(item: &Item, mode: BestItemMode) -> (w: u128)
    ensures
        w == worth(item@, mode),
{
    let platinum = item.platinum as u128;
    let ducats = item.ducats as u128;
    match mode {
        BestItemMode::Combined => {
            let plain = 100 * platinum;
            let mixed = 10000 * ducats + platinum;
            if plain >= mixed {
                plain
            } else {
                mixed
            }
        },
        BestItemMode::Platinum => 100 * platinum,
        BestItemMode::Ducats => 10000 * ducats,
        BestItemMode::Volatility => {
            let drop: u128 = if item.yesterday_vol >= item.today_vol {
                (item.yesterday_vol - item.today_vol) as u128
            } else {
                0
            };
            assert(100 * drop * platinum <= 100 * 0xffff_ffff_ffff_ffff * 0xffff_ffff)
                by (nonlinear_arith)
                requires
                    0 <= drop <= 0xffff_ffff_ffff_ffff,
                    0 <= platinum <= 0xffff_ffff,
            ;
            100 * drop * platinum
        },
    }
}

/// The slot to point out: the last of those worth the most, or `None`
/// where there is no slot.
pub fn best_item(slots: &Vec<Option<&Item>>, mode: BestItemMode) -> (r: Option<usize>)
    ensures
        r is None <==> slots@.len() == 0,
        r is Some ==> is_best(slots@, mode, r->0 as int),
{
    if slots.len() == 0 {
        return None;
    }
    let mut best: usize = 0;
    let mut best_worth: u128 = match slots[0] {
        Some(item) => item_worth(item, mode),
        None => 0,
    };
    let mut i: usize = 1;
    while i < slots.len()
        invariant
            1 <= i <= slots.len(),
            best < i,
            best_worth == slot_worth(slots@[best as int], mode),
            forall|j: int|
                0 <= j < i ==> slot_worth(#[trigger] slots@[j], mode) <= best_worth,
            forall|j: int|
                best < j < i ==> slot_worth(#[trigger] slots@[j], mode) < best_worth,
        decreases slots.len() - i,
    {
        let w: u128 = match slots[i] {
            Some(item) => item_worth(item, mode),
            None => 0,
        };
        if w >= best_worth {
            best = i;
            best_worth = w;
        }
        i = i + 1;
    }
    Some(best)
}

/// For each recognised text, the item it stands for: the text is
/// normalized and looked up with the default tolerance.
pub fn resolve_rewards<'a>(db: &'a Database, texts: &Vec<String>) -> (slots: Vec<Option<&'a Item>>)
    ensures
        slots@.len() == texts@.len(),
        forall|i: int|
            0 <= i < slots@.len() ==> ((#[trigger] slots@[i]) is Some <==> resolved(
                db.catalog(),
                letters_of(texts@[i]@),
                None,
            ) is Some),
        forall|i: int|
            0 <= i < slots@.len() && slots@[i] is Some ==> (#[trigger] slots@[i])->0@
                == db.catalog()[resolved(db.catalog(), letters_of(texts@[i]@), None)->0],
{
    let mut slots: Vec<Option<&'a Item>> = Vec::new();
    let mut i: usize = 0;
    while i < texts.len()
        invariant
            i <= texts.len(),
            slots@.len() == i,
            forall|k: int|
                0 <= k < i ==> ((#[trigger] slots@[k]) is Some <==> resolved(
                    db.catalog(),
                    letters_of(texts@[k]@),
                    None,
                ) is Some),
            forall|k: int|
                0 <= k < i && slots@[k] is Some ==> (#[trigger] slots@[k])->0@
                    == db.catalog()[resolved(db.catalog(), letters_of(texts@[k]@), None)->0],
        decreases texts.len() - i,
    {
        let key = normalize_string(texts[i].as_str());
        let found = db.find_item(key.as_str(), None);
        slots.push(found);
        i = i + 1;
    }
    slots
}

/// Which of an item's two worths is pointed out.
#[derive(Clone, Copy, Debug, PartialEq, Eq, Structural)]
pub enum Highlight {
    Platinum,
    Ducats,
    Neither,
}

/// What is pointed out of an item under a ranking: the price, the ducats,
/// or under `Combined` the price where it is worth more than the ducats and
/// the ducats otherwise. `Volatility` points out neither.
pub open spec fn highlighted(item: ItemModel, mode: BestItemMode) -> Highlight {
    match mode {
        BestItemMode::Platinum => Highlight::Platinum,
        BestItemMode::Ducats => Highlight::Ducats,
        BestItemMode::Combined => if 100 * item.platinum > 10000 * item.ducats {
            Highlight::Platinum
        } else {
            Highlight::Ducats
        },
        BestItemMode::Volatility => Highlight::Neither,
    }
}

/// What to point out of an item under a ranking.
pub fn highlight(item: &Item, mode: BestItemMode) -> (h: Highlight)
    ensures
        h == highlighted(item@, mode),
{
    match mode {
        BestItemMode::Platinum => Highlight::Platinum,
        BestItemMode::Ducats => Highlight::Ducats,
        BestItemMode::Combined => if 100 * (item.platinum as u128) > 10000 * (item.ducats as u128) {
            Highlight::Platinum
        } else {
            Highlight::Ducats
        },
        BestItemMode::Volatility => Highlight::Neither,
    }
}

/// The drop in trade volume since yesterday times the price, in
/// thousandths of a platinum.
pub fn volatility(item: &Item) -> (v: u128)
    ensures
        100 * v == worth(item@, BestItemMode::Volatility),
{
    let drop: u128 = if item.yesterday_vol >= item.today_vol {
        (item.yesterday_vol - item.today_vol) as u128
    } else {
        0
    };
    let platinum = item.platinum as u128;
    assert(drop * platinum <= 0xffff_ffff_ffff_ffff * 0xffff_ffff) by (nonlinear_arith)
        requires
            0 <= drop <= 0xffff_ffff_ffff_ffff,
            0 <= platinum <= 0xffff_ffff,
    ;
    assert(100 * (drop * platinum) == 100 * drop * platinum) by (nonlinear_arith);
    drop * platinum
}


} // verus!
