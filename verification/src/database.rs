//! The item catalog: approximate lookup of recognised text, exact lookup of
//! names, and the value of relics.

use crate::statistics::{Bucket, Expectation};
use crate::text::{ends_with, from_chars, is_suffix, remove_spaces, to_chars, without_spaces};
use crate::wfinfo_data::{Refinement, Relic, Relics, CHANCE_SCALE};
use vstd::prelude::*;
use vstd::utf8::encode_utf8;

verus! {

/// A tradable item.
#[derive(Clone, Debug)]
pub struct Item {
    /// The name under which the item is priced.
    pub name: String,
    /// The name under which the reward screen shows it.
    pub drop_name: String,
    /// The price, in thousandths of a platinum.
    pub platinum: u32,
    pub ducats: usize,
    pub yesterday_vol: usize,
    pub today_vol: usize,
}

/// What an item holds.
pub struct ItemModel {
    pub name: Seq<char>,
    pub drop_name: Seq<char>,
    pub platinum: u32,
    pub ducats: usize,
    pub yesterday_vol: usize,
    pub today_vol: usize,
}

impl View for Item {
    type V = ItemModel;

    open spec fn view(&self) -> ItemModel {
        ItemModel {
            name: self.name@,
            drop_name: self.drop_name@,
            platinum: self.platinum,
            ducats: self.ducats,
            yesterday_vol: self.yesterday_vol,
            today_vol: self.today_vol,
        }
    }
}

/// The catalog of items and the relic tables.
#[derive(Clone, Debug)]
pub struct Database {
    pub items: Vec<Item>,
    pub relics: Relics,
}

/// The least of three numbers.
pub open spec fn least(a: nat, b: nat, c: nat) -> nat {
    if a <= b && a <= c {
        a
    } else if b <= c {
        b
    } else {
        c
    }
}

/// The edit distance between two texts: the least number of characters to
/// insert, delete or replace to turn one into the other.
pub open spec fn levenshtein_distance(a: Seq<char>, b: Seq<char>) -> nat
    decreases a.len() + b.len(),
{
    if a.len() == 0 {
        b.len()
    } else if b.len() == 0 {
        a.len()
    } else {
        least(
            levenshtein_distance(a.drop_last(), b.drop_last()) + if a.last() == b.last() {
                0nat
            } else {
                1nat
            },
            levenshtein_distance(a.drop_last(), b) + 1,
            levenshtein_distance(a, b.drop_last()) + 1,
        )
    }
}

/// `levenshtein::levenshtein` returns the edit distance between its two
/// arguments, counted in characters: insertions, deletions and
/// replacements each cost one.
#[verifier::external_body]
fn edit_distance(a: &str, b: &str) -> (d: usize)
    ensures
        d == levenshtein_distance(a@, b@),
{
    levenshtein::levenshtein(a, b)
}

/// The ending that marks a whole set, which never drops by itself.
pub open spec fn set_suffix() -> Seq<char> {
    seq!['S', 'e', 't']
}

/// Whether recognised text may resolve to the item: it is no set.
pub open spec fn is_candidate(item: ItemModel) -> bool {
    !is_suffix(set_suffix(), item.name)
}

/// Among the first `n` items, the first candidate whose display name is
/// nearest to `needle`.
pub open spec fn nearest_candidate(items: Seq<ItemModel>, needle: Seq<char>, n: int) -> Option<int>
    decreases n,
{
    if n <= 0 {
        None
    } else {
        let before = nearest_candidate(items, needle, n - 1);
        if !is_candidate(items[n - 1]) {
            before
        } else {
            match before {
                None => Some(n - 1),
                Some(b) => if levenshtein_distance(items[n - 1].drop_name, needle)
                    < levenshtein_distance(items[b].drop_name, needle) {
                    Some(n - 1)
                } else {
                    Some(b)
                },
            }
        }
    }
}

/// How far the display name may be from the needle: the given threshold, or
/// a third of the name's length in bytes.
pub open spec fn tolerance(item: ItemModel, threshold: Option<usize>) -> int {
    match threshold {
        Some(t) => t as int,
        None => encode_utf8(item.drop_name).len() as int / 3,
    }
}

/// Whether the nearest candidate is near enough: with the spaces taken out
/// of both, its display name is within the tolerance of the needle.
pub open spec fn near_enough(item: ItemModel, needle: Seq<char>, threshold: Option<usize>) -> bool {
    levenshtein_distance(without_spaces(item.drop_name), without_spaces(needle)) <= tolerance(
        item,
        threshold,
    )
}

/// The index of the item that recognised text resolves to.
pub open spec fn resolved(items: Seq<ItemModel>, needle: Seq<char>, threshold: Option<usize>) -> Option<
    int,
> {
    match nearest_candidate(items, needle, items.len() as int) {
        Some(b) => if near_enough(items[b], needle, threshold) {
            Some(b)
        } else {
            None
        },
        None => None,
    }
}

/// The index of the first of the first `n` items with exactly this name.
pub open spec fn first_named(items: Seq<ItemModel>, name: Seq<char>, n: int) -> Option<int>
    decreases n,
{
    if n <= 0 {
        None
    } else {
        match first_named(items, name, n - 1) {
            Some(i) => Some(i),
            None => if items[n - 1].name == name {
                Some(n - 1)
            } else {
                None
            },
        }
    }
}

/// The name in slot `slot` of a relic: the three common rewards, the two
/// uncommon ones, then the rare one.
pub open spec fn slot_name(relic: Relic, slot: int) -> Seq<char> {
    if slot == 0 {
        relic.common1@
    } else if slot == 1 {
        relic.common2@
    } else if slot == 2 {
        relic.common3@
    } else if slot == 3 {
        relic.uncommon1@
    } else if slot == 4 {
        relic.uncommon2@
    } else {
        relic.rare1@
    }
}

/// The weight of slot `slot` at the given refinement.
pub open spec fn slot_chance(refinement: Refinement, slot: int) -> int {
    if slot < 3 {
        refinement.spec_common_chance()
    } else if slot < 5 {
        refinement.spec_uncommon_chance()
    } else {
        refinement.spec_rare_chance()
    }
}

/// Every slot of the relic names an item of the catalog.
pub open spec fn resolves(items: Seq<ItemModel>, relic: Relic) -> bool {
    forall|slot: int|
        0 <= slot < 6 ==> (#[trigger] first_named(
            items,
            slot_name(relic, slot),
            items.len() as int,
        )) is Some
}

/// The six outcomes of opening a relic: for each slot the price of its item
/// and the slot's weight.
pub open spec fn outcomes(items: Seq<ItemModel>, relic: Relic, refinement: Refinement) -> Seq<
    crate::statistics::Item,
> {
    Seq::new(
        6,
        |slot: int|
            crate::statistics::Item {
                value: items[first_named(
                    items,
                    slot_name(relic, slot),
                    items.len() as int,
                )->0].platinum,
                probability: slot_chance(refinement, slot) as u32,
            },
    )
}

/// The expected price of what one relic yields.
pub open spec fn single_value(items: Seq<ItemModel>, relic: Relic, refinement: Refinement) -> Expectation {
    Expectation {
        numerator: crate::statistics::weighted_sum(outcomes(items, relic, refinement), 6) as u128,
        denominator: CHANCE_SCALE as u128,
    }
}

/// The expected price of the best of what `n` relics yield.
pub open spec fn shared_value(
    items: Seq<ItemModel>,
    relic: Relic,
    refinement: Refinement,
    n: nat,
) -> Option<Expectation> {
    (crate::statistics::BucketModel {
        items: crate::statistics::sorted_by_value(outcomes(items, relic, refinement)),
        scale: CHANCE_SCALE as nat,
    }).best_of(n)
}

/// The four refinements, from the plainest to the best.
pub open spec fn refinement_at(k: int) -> Refinement {
    if k <= 0 {
        Refinement::Intact
    } else if k == 1 {
        Refinement::Exceptional
    } else if k == 2 {
        Refinement::Flawless
    } else {
        Refinement::Radiant
    }
}

/// Of the first `m` refinements, the last at which `n` relics opened
/// together are worth the most.
pub open spec fn most_valuable_among(
    items: Seq<ItemModel>,
    relic: Relic,
    n: nat,
    m: nat,
) -> int
    decreases m,
{
    if m <= 1 {
        0
    } else {
        let best = most_valuable_among(items, relic, n, (m - 1) as nat);
        if shared_value(items, relic, refinement_at(m - 1), n)->0.numerator >= shared_value(
            items,
            relic,
            refinement_at(best),
            n,
        )->0.numerator {
            m - 1
        } else {
            best
        }
    }
}

impl Database {
    /// The items of the catalog, in order.
    pub open spec fn catalog(&self) -> Seq<ItemModel> {
        Seq::new(self.items@.len(), |i: int| self.items@[i]@)
    }

    /// A catalog of the given items, with the given relic tables.
    pub fn new(items: Vec<Item>, relics: Relics) -> (db: Database)
        ensures
            db.catalog() == Seq::new(items@.len(), |i: int| items@[i]@),
            db.relics == relics,
    {
        Database { items, relics }
    }

    /// The items of the catalog.
    pub fn items(&self) -> (items: &Vec<Item>)
        ensures
            items@.len() == self.catalog().len(),
            forall|i: int| 0 <= i < items@.len() ==> (#[trigger] items@[i])@ == self.catalog()[i],
    {
        &self.items
    }

    /// The item that recognised text stands for, if any is near enough.
    ///
    /// Of the items that are no sets, the first whose display name has the
    /// least edit distance to `needle` is picked. It is the answer if, with
    /// the spaces taken out of both, its display name is within `threshold`
    /// of the needle, or within a third of the display name's length in
    /// bytes where no threshold is given.
    pub fn find_item(&self, needle: &str, threshold: Option<usize>) -> (r: Option<&Item>)
        ensures
            r is Some <==> resolved(self.catalog(), needle@, threshold) is Some,
            r is Some ==> r->0@ == self.catalog()[resolved(
                self.catalog(),
                needle@,
                threshold,
            )->0],
            r is Some ==> !is_suffix(set_suffix(), r->0@.name),
    {
        let set = to_chars("Set");
        proof {
            reveal_strlit("Set");
            assert(set@ =~= set_suffix());
        }
        let mut best: Option<usize> = None;
        let mut best_distance: usize = 0;
        let mut i: usize = 0;
        while i < self.items.len()
            invariant
                i <= self.items.len(),
                set@ == set_suffix(),
                match best {
                    Some(b) => nearest_candidate(self.catalog(), needle@, i as int) == Some(
                        b as int,
                    ) && b < i && best_distance == levenshtein_distance(
                        self.catalog()[b as int].drop_name,
                        needle@,
                    ) && is_candidate(self.catalog()[b as int]),
                    None => nearest_candidate(self.catalog(), needle@, i as int) is None,
                },
            decreases self.items.len() - i,
        {
            let name = to_chars(self.items[i].name.as_str());
            if !ends_with(&name, &set) {
                let d = edit_distance(self.items[i].drop_name.as_str(), needle);
                match best {
                    None => {
                        best = Some(i);
                        best_distance = d;
                    },
                    Some(_) => {
                        if d < best_distance {
                            best = Some(i);
                            best_distance = d;
                        }
                    },
                }
            }
            i = i + 1;
        }
        match best {
            None => None,
            Some(b) => {
                let item = &self.items[b];
                let shown = to_chars(item.drop_name.as_str());
                let squeezed = from_chars(&remove_spaces(&shown));
                let wanted = from_chars(&remove_spaces(&to_chars(needle)));
                let d = edit_distance(squeezed.as_str(), wanted.as_str());
                let limit: usize = match threshold {
                    Some(t) => t,
                    None => item.drop_name.as_str().as_bytes().len() / 3,
                };
                if d <= limit {
                    Some(item)
                } else {
                    None
                }
            },
        }
    }

    /// The first item with exactly this name.
    pub fn find_item_exact(&self, needle: &str) -> (r: Option<&Item>)
        ensures
            r is Some <==> first_named(self.catalog(), needle@, self.catalog().len() as int)
                is Some,
            r is Some ==> r->0@ == self.catalog()[first_named(
                self.catalog(),
                needle@,
                self.catalog().len() as int,
            )->0],
    {
        let wanted = to_chars(needle);
        let mut i: usize = 0;
        while i < self.items.len()
            invariant
                i <= self.items.len(),
                wanted@ == needle@,
                first_named(self.catalog(), needle@, i as int) is None,
            decreases self.items.len() - i,
        {
            let name = to_chars(self.items[i].name.as_str());
            if crate::text::same_text(&name, &wanted) {
                proof {
                    lemma_first_named_stays(
                        self.catalog(),
                        needle@,
                        i + 1,
                        self.catalog().len() as int,
                    );
                }
                return Some(&self.items[i]);
            }
            i = i + 1;
        }
        None
    }

    /// Whether every slot of the relic names an item of the catalog.
    pub fn resolves(&self, relic: &Relic) -> (b: bool)
        ensures
            b == resolves(self.catalog(), *relic),
    {
        let found = self.find_item_exact(relic.common1.as_str()).is_some()
            && self.find_item_exact(relic.common2.as_str()).is_some() && self.find_item_exact(
            relic.common3.as_str(),
        ).is_some() && self.find_item_exact(relic.uncommon1.as_str()).is_some()
            && self.find_item_exact(relic.uncommon2.as_str()).is_some() && self.find_item_exact(
            relic.rare1.as_str(),
        ).is_some();
        proof {
            let items = self.catalog();
            let n = items.len() as int;
            if found {
                assert forall|slot: int| 0 <= slot < 6 implies (#[trigger] first_named(
                    items,
                    slot_name(*relic, slot),
                    n,
                )) is Some by {}
            } else {
                assert(first_named(items, slot_name(*relic, 0), n) is None || first_named(
                    items,
                    slot_name(*relic, 1),
                    n,
                ) is None || first_named(items, slot_name(*relic, 2), n) is None || first_named(
                    items,
                    slot_name(*relic, 3),
                    n,
                ) is None || first_named(items, slot_name(*relic, 4), n) is None || first_named(
                    items,
                    slot_name(*relic, 5),
                    n,
                ) is None);
            }
        }
        found
    }

    fn price_of(&self, name: &str) -> (price: u32)
        requires
            first_named(self.catalog(), name@, self.catalog().len() as int) is Some,
        ensures
            price == self.catalog()[first_named(
                self.catalog(),
                name@,
                self.catalog().len() as int,
            )->0].platinum,
    {
        match self.find_item_exact(name) {
            Some(item) => item.platinum,
            None => 0,
        }
    }

    /// The six outcomes of opening the relic, slot by slot.
    pub fn relic_outcomes(&self, relic: &Relic, refinement: Refinement) -> (all: Vec<
        crate::statistics::Item,
    >)
        requires
            resolves(self.catalog(), *relic),
        ensures
            all@ == outcomes(self.catalog(), *relic, refinement),
    {
        let common = refinement.common_chance();
        let uncommon = refinement.uncommon_chance();
        let rare = refinement.rare_chance();
        proof {
            let items = self.catalog();
            let n = items.len() as int;
            assert(first_named(items, slot_name(*relic, 0), n) is Some);
            assert(first_named(items, slot_name(*relic, 1), n) is Some);
            assert(first_named(items, slot_name(*relic, 2), n) is Some);
            assert(first_named(items, slot_name(*relic, 3), n) is Some);
            assert(first_named(items, slot_name(*relic, 4), n) is Some);
            assert(first_named(items, slot_name(*relic, 5), n) is Some);
        }
        let mut all: Vec<crate::statistics::Item> = Vec::new();
        all.push(
            crate::statistics::Item {
                value: self.price_of(relic.common1.as_str()),
                probability: common,
            },
        );
        all.push(
            crate::statistics::Item {
                value: self.price_of(relic.common2.as_str()),
                probability: common,
            },
        );
        all.push(
            crate::statistics::Item {
                value: self.price_of(relic.common3.as_str()),
                probability: common,
            },
        );
        all.push(
            crate::statistics::Item {
                value: self.price_of(relic.uncommon1.as_str()),
                probability: uncommon,
            },
        );
        all.push(
            crate::statistics::Item {
                value: self.price_of(relic.uncommon2.as_str()),
                probability: uncommon,
            },
        );
        all.push(
            crate::statistics::Item {
                value: self.price_of(relic.rare1.as_str()),
                probability: rare,
            },
        );
        assert(all@ =~= outcomes(self.catalog(), *relic, refinement));
        all
    }

    /// The bucket of the relic's outcomes, with weights over
    /// `CHANCE_SCALE`.
    pub fn relic_to_bucket(&self, relic: &Relic, refinement: Refinement) -> (bucket: Bucket)
        requires
            resolves(self.catalog(), *relic),
        ensures
            bucket@.items == crate::statistics::sorted_by_value(
                outcomes(self.catalog(), *relic, refinement),
            ),
            bucket@.scale == CHANCE_SCALE,
    {
        Bucket::new(self.relic_outcomes(relic, refinement), CHANCE_SCALE)
    }

    /// The expected price of what one relic yields: each slot's price
    /// times its chance, summed. In thousandths of a platinum.
    pub fn single_relic_value(&self, relic: &Relic, refinement: Refinement) -> (value: Expectation)
        requires
            resolves(self.catalog(), *relic),
        ensures
            value == single_value(self.catalog(), *relic, refinement),
    {
        let all = self.relic_outcomes(relic, refinement);
        let mut total: u128 = 0;
        let mut i: usize = 0;
        while i < 6
            invariant
                i <= 6,
                all@.len() == 6,
                total == crate::statistics::weighted_sum(all@, i as int),
                total <= i * 0x1_0000_0000_0000_0000,
            decreases 6 - i,
        {
            let v = all[i].value as u128;
            let w = all[i].probability as u128;
            assert(v * w <= 0x1_0000_0000_0000_0000) by (nonlinear_arith)
                requires
                    0 <= v <= 0xffff_ffff,
                    0 <= w <= 0xffff_ffff,
            ;
            total = total + v * w;
            i = i + 1;
        }
        Expectation { numerator: total, denominator: CHANCE_SCALE as u128 }
    }

    /// The refinement at which `number_of_relics` relics opened together are
    /// worth the most, with that worth: of several such the last.
    ///
    /// `None` where the worth at some refinement does not fit 128 bits.
    pub fn best_refinement(&self, relic: &Relic, number_of_relics: u32) -> (r: Option<
        (Refinement, Expectation),
    >)
        requires
            resolves(self.catalog(), *relic),
        ensures
            r is Some <==> forall|k: int|
                0 <= k < 4 ==> (#[trigger] shared_value(
                    self.catalog(),
                    *relic,
                    refinement_at(k),
                    number_of_relics as nat,
                )) is Some,
            match r {
                Some((refinement, value)) => refinement == refinement_at(
                    most_valuable_among(self.catalog(), *relic, number_of_relics as nat, 4),
                ) && Some(value) == shared_value(
                    self.catalog(),
                    *relic,
                    refinement,
                    number_of_relics as nat,
                ),
                None => true,
            },
    {
        let ghost items = self.catalog();
        let ghost n = number_of_relics as nat;
        let mut best = Refinement::Intact;
        let mut best_value = match self.shared_relic_value(relic, Refinement::Intact, number_of_relics) {
            Some(v) => v,
            None => {
                assert(shared_value(items, *relic, refinement_at(0), n) is None);
                return None;
            },
        };
        let mut k: usize = 1;
        while k < 4
            invariant
                1 <= k <= 4,
                items == self.catalog(),
                n == number_of_relics as nat,
                resolves(items, *relic),
                forall|j: int|
                    0 <= j < k ==> (#[trigger] shared_value(items, *relic, refinement_at(j), n))
                        is Some,
                best == refinement_at(most_valuable_among(items, *relic, n, k as nat)),
                0 <= most_valuable_among(items, *relic, n, k as nat) < k,
                Some(best_value) == shared_value(items, *relic, best, n),
            decreases 4 - k,
        {
            let refinement = if k == 1 {
                Refinement::Exceptional
            } else if k == 2 {
                Refinement::Flawless
            } else {
                Refinement::Radiant
            };
            let value = match self.shared_relic_value(relic, refinement, number_of_relics) {
                Some(v) => v,
                None => {
                    assert(shared_value(items, *relic, refinement_at(k as int), n) is None);
                    return None;
                },
            };
            if value.numerator >= best_value.numerator {
                best = refinement;
                best_value = value;
            }
            k = k + 1;
        }
        Some((best, best_value))
    }

    /// The same expectation as `shared_relic_value`, found by going through
    /// every way the relics can fall: for checking the other against.
    ///
    /// `None` exactly where the enumeration is not made.
    pub fn shared_relic_value_bruteforce(
        &self,
        relic: &Relic,
        refinement: Refinement,
        number_of_relics: u32,
    ) -> (value: Option<Expectation>)
        requires
            resolves(self.catalog(), *relic),
        ensures
            value is Some <==> crate::statistics::enumerable(
                outcomes(self.catalog(), *relic, refinement),
                CHANCE_SCALE as nat,
                number_of_relics as nat,
            ),
            value is Some ==> value->0.numerator == crate::statistics::enumerated(
                outcomes(self.catalog(), *relic, refinement),
                number_of_relics as nat,
                0,
                1,
                6,
            ) && value->0.denominator == crate::statistics::power(
                CHANCE_SCALE as int,
                number_of_relics as nat,
            ),
    {
        let all = self.relic_outcomes(relic, refinement);
        crate::statistics::best_of_n_enumerated(&all, CHANCE_SCALE, number_of_relics)
    }

    /// The expected price of the best of what `number_of_relics` relics
    /// yield when opened together, as an exact fraction in thousandths of a
    /// platinum.
    ///
    /// `None` where the fraction does not fit 128 bits.
    pub fn shared_relic_value(
        &self,
        relic: &Relic,
        refinement: Refinement,
        number_of_relics: u32,
    ) -> (value: Option<Expectation>)
        requires
            resolves(self.catalog(), *relic),
        ensures
            value == shared_value(self.catalog(), *relic, refinement, number_of_relics as nat),
    {
        let bucket = self.relic_to_bucket(relic, refinement);
        bucket.expectation_of_best_of_n(number_of_relics)
    }
}

/// Once a name has been found among the first `a` items, it is found at the
/// same place among more.
pub proof fn lemma_first_named_stays(items: Seq<ItemModel>, name: Seq<char>, a: int, b: int)
    requires
        0 <= a <= b,
        first_named(items, name, a) is Some,
    ensures
        first_named(items, name, b) == first_named(items, name, a),
    decreases b,
{
    if a < b {
        lemma_first_named_stays(items, name, a, b - 1);
    }
}

/// Opening one relic alone is worth what one relic yields: the shared value
/// of one relic is the single value, at every refinement.
pub proof fn lemma_shared_of_one_is_single(
    items: Seq<ItemModel>,
    relic: Relic,
    refinement: Refinement,
)
    requires
        resolves(items, relic),
    ensures
        shared_value(items, relic, refinement, 1) == Some(single_value(items, relic, refinement)),
{
    let all = outcomes(items, relic, refinement);
    lemma_outcomes_bounded(all, 6);
    crate::statistics::lemma_best_of_one(all, CHANCE_SCALE as nat);
}

/// Sums over a few 32-bit outcomes stay far below 128 bits.
pub proof fn lemma_outcomes_bounded(all: Seq<crate::statistics::Item>, m: int)
    requires
        0 <= m <= all.len(),
    ensures
        0 <= crate::statistics::weighted_sum(all, m) <= m * 0x1_0000_0000_0000_0000,
        0 <= crate::statistics::cumulative_weight(all, m) <= m * 0x1_0000_0000,
    decreases m,
{
    if m > 0 {
        lemma_outcomes_bounded(all, m - 1);
        let v = all[m - 1].value as int;
        let w = all[m - 1].probability as int;
        assert(0 <= v * w <= 0x1_0000_0000_0000_0000) by (nonlinear_arith)
            requires
                0 <= v <= 0xffff_ffff,
                0 <= w <= 0xffff_ffff,
        ;
    }
}


/// What `nearest_candidate` picks is no set, no other item that is no set
/// is nearer to the needle, and none before it is as near. It picks
/// nothing only where every item is a set.
pub proof fn lemma_nearest_candidate(items: Seq<ItemModel>, needle: Seq<char>, n: int)
    requires
        0 <= n <= items.len(),
    ensures
        match nearest_candidate(items, needle, n) {
            Some(b) => {
                &&& 0 <= b < n
                &&& is_candidate(items[b])
                &&& forall|j: int|
                    0 <= j < n && is_candidate(#[trigger] items[j]) ==> levenshtein_distance(
                        items[b].drop_name,
                        needle,
                    ) <= levenshtein_distance(items[j].drop_name, needle)
                &&& forall|j: int|
                    0 <= j < b && is_candidate(#[trigger] items[j]) ==> levenshtein_distance(
                        items[b].drop_name,
                        needle,
                    ) < levenshtein_distance(items[j].drop_name, needle)
            },
            None => forall|j: int| 0 <= j < n ==> !is_candidate(#[trigger] items[j]),
        },
    decreases n,
{
    if n > 0 {
        lemma_nearest_candidate(items, needle, n - 1);
    }
}

/// Recognised text never resolves to a set.
pub proof fn lemma_never_a_set(items: Seq<ItemModel>, needle: Seq<char>, threshold: Option<usize>)
    ensures
        resolved(items, needle, threshold) is Some ==> 0 <= resolved(items, needle, threshold)->0
            < items.len() && !is_suffix(
            set_suffix(),
            items[resolved(items, needle, threshold)->0].name,
        ),
{
    lemma_nearest_candidate(items, needle, items.len() as int);
}


/// The shared value of a relic and its enumeration are the same fraction:
/// for one relic or more, the numerator that the order statistics give is
/// the numerator that going through every way the relics can fall gives,
/// over the same denominator.
pub proof fn lemma_shared_value_is_enumerated(
    items: Seq<ItemModel>,
    relic: Relic,
    refinement: Refinement,
    n: nat,
)
    requires
        resolves(items, relic),
        n >= 1,
    ensures
        crate::statistics::best_of_numerator(
            crate::statistics::sorted_by_value(outcomes(items, relic, refinement)),
            n,
            6,
        ) == crate::statistics::enumerated(outcomes(items, relic, refinement), n, 0, 1, 6),
        shared_value(items, relic, refinement, n) is Some ==> shared_value(
            items,
            relic,
            refinement,
            n,
        )->0.numerator == crate::statistics::enumerated(
            outcomes(items, relic, refinement),
            n,
            0,
            1,
            6,
        ) && shared_value(items, relic, refinement, n)->0.denominator
            == crate::statistics::power(CHANCE_SCALE as int, n),
{
    let all = outcomes(items, relic, refinement);
    let sorted = crate::statistics::sorted_by_value(all);
    crate::agreement::lemma_enumeration_is_closed_form(all, n);
    crate::statistics::lemma_sorted_by_value(all);
    crate::statistics::lemma_numerator_monotone(sorted, n, 0, 6);
    crate::statistics::lemma_power_monotone(0, CHANCE_SCALE as int, n);
}


/// What `first_named` finds among the first `n` items is the first of them
/// with that name; it finds nothing only where none of them has it.
pub proof fn lemma_first_named(items: Seq<ItemModel>, name: Seq<char>, n: int)
    requires
        0 <= n <= items.len(),
    ensures
        match first_named(items, name, n) {
            Some(i) => 0 <= i < n && items[i].name == name && forall|j: int|
                0 <= j < i ==> (#[trigger] items[j]).name != name,
            None => forall|j: int| 0 <= j < n ==> (#[trigger] items[j]).name != name,
        },
    decreases n,
{
    if n > 0 {
        lemma_first_named(items, name, n - 1);
    }
}


/// The weights of the six slots, summed.
pub open spec fn chance_total(refinement: Refinement) -> int {
    3 * refinement.spec_common_chance() + 2 * refinement.spec_uncommon_chance()
        + refinement.spec_rare_chance()
}

/// One more relic is never worth less, at the refinements whose chances
/// make up the whole scale: flawless and radiant. The two fractions are
/// compared over the common denominator.
///
/// The chances of an intact and of an exceptional relic add up to 9999 of
/// 10000, and there more relics can be worth less.
pub proof fn lemma_more_relics_not_worth_less(
    items: Seq<ItemModel>,
    relic: Relic,
    refinement: Refinement,
    n: nat,
)
    requires
        resolves(items, relic),
        n >= 1,
        chance_total(refinement) >= CHANCE_SCALE,
    ensures
        crate::statistics::best_of_numerator(
            crate::statistics::sorted_by_value(outcomes(items, relic, refinement)),
            (n + 1) as nat,
            6,
        ) >= CHANCE_SCALE * crate::statistics::best_of_numerator(
            crate::statistics::sorted_by_value(outcomes(items, relic, refinement)),
            n,
            6,
        ),
{
    let all = outcomes(items, relic, refinement);
    let sorted = crate::statistics::sorted_by_value(all);
    crate::statistics::lemma_sorted_by_value(all);
    crate::statistics::lemma_sorting_keeps_weight(all);
    assert(crate::statistics::cumulative_weight(all, 6) == chance_total(refinement)) by {
        reveal_with_fuel(crate::statistics::cumulative_weight, 8);
    }
    crate::agreement::lemma_more_draws_not_worth_less(sorted, CHANCE_SCALE as int, n);
}


} // verus!
