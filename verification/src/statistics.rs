//! The expected value of the best of several draws.
//!
//! A bucket is a list of outcomes, each with a value and an integer weight;
//! the probability of an outcome is its weight over the bucket's scale.
//! Expectations are exact fractions.

use vstd::prelude::*;

verus! {

/// One outcome: its value, and its weight in units of one over the bucket's
/// scale.
#[derive(Copy, Clone, Debug, PartialEq, Eq, Structural)]
pub struct Item {
    pub value: u32,
    pub probability: u32,
}

/// An exact expectation, `numerator / denominator`, in the unit of the
/// values.
#[derive(Copy, Clone, Debug, PartialEq, Eq, Structural)]
pub struct Expectation {
    pub numerator: u128,
    pub denominator: u128,
}

/// `b` to the power `n`.
pub open spec fn power(b: int, n: nat) -> int
    decreases n,
{
    if n == 0 {
        1
    } else {
        b * power(b, (n - 1) as nat)
    }
}

/// `x` put into an ascending list behind every item that is not above it.
pub open spec fn insert_by_value(sorted: Seq<Item>, x: Item) -> Seq<Item>
    decreases sorted.len(),
{
    if sorted.len() == 0 {
        seq![x]
    } else if sorted.last().value <= x.value {
        sorted.push(x)
    } else {
        insert_by_value(sorted.drop_last(), x).push(sorted.last())
    }
}

/// The items in ascending order of value; items of equal value keep their
/// order.
pub open spec fn sorted_by_value(items: Seq<Item>) -> Seq<Item>
    decreases items.len(),
{
    if items.len() == 0 {
        Seq::empty()
    } else {
        insert_by_value(sorted_by_value(items.drop_last()), items.last())
    }
}

/// No item is above a later one.
pub open spec fn ascending(items: Seq<Item>) -> bool {
    forall|i: int, j: int| 0 <= i <= j < items.len() ==> items[i].value <= items[j].value
}

/// The weights of the first `m` items, summed.
pub open spec fn cumulative_weight(items: Seq<Item>, m: int) -> int
    decreases m,
{
    if m <= 0 {
        0
    } else {
        cumulative_weight(items, m - 1) + items[m - 1].probability
    }
}

/// The weight, to the power `n`, of all `n` draws falling among the first
/// `m` items. Nothing falls among no items.
pub open spec fn reached(items: Seq<Item>, n: nat, m: int) -> int {
    if m <= 0 {
        0
    } else {
        power(cumulative_weight(items, m), n)
    }
}

/// The first `m` terms of the expectation's numerator: each item's value
/// times the weight of it being the best of `n` draws.
pub open spec fn best_of_numerator(items: Seq<Item>, n: nat, m: int) -> int
    decreases m,
{
    if m <= 0 {
        0
    } else {
        best_of_numerator(items, n, m - 1) + items[m - 1].value * (reached(items, n, m) - reached(
            items,
            n,
            m - 1,
        ))
    }
}

/// The value times the weight of each item, summed over the first `m`.
pub open spec fn weighted_sum(items: Seq<Item>, m: int) -> int
    decreases m,
{
    if m <= 0 {
        0
    } else {
        weighted_sum(items, m - 1) + items[m - 1].value * items[m - 1].probability
    }
}

/// What a bucket holds: its items in ascending order of value, and the
/// scale of their weights.
pub struct BucketModel {
    pub items: Seq<Item>,
    pub scale: nat,
}

impl BucketModel {
    /// Whether the expectation of the best of `n` fits 128 bits: the
    /// numerator, the denominator, and the full weight to the power `n`.
    pub open spec fn fits(self, n: nat) -> bool {
        &&& power(cumulative_weight(self.items, self.items.len() as int), n) <= u128::MAX
        &&& power(self.scale as int, n) <= u128::MAX
        &&& best_of_numerator(self.items, n, self.items.len() as int) <= u128::MAX
    }

    /// The expectation of the best of `n` draws.
    pub open spec fn best_of(self, n: nat) -> Option<Expectation> {
        if self.fits(n) {
            Some(
                Expectation {
                    numerator: best_of_numerator(self.items, n, self.items.len() as int) as u128,
                    denominator: power(self.scale as int, n) as u128,
                },
            )
        } else {
            None
        }
    }
}

/// Outcomes in ascending order of value.
#[derive(Debug)]
pub struct Bucket {
    items: Vec<Item>,
    scale: u32,
}

impl View for Bucket {
    type V = BucketModel;

    closed spec fn view(&self) -> BucketModel {
        BucketModel { items: self.items@, scale: self.scale as nat }
    }
}

impl Clone for Bucket {
    fn clone(&self) -> (copy: Bucket)
        ensures
            copy@ == self@,
    {
        proof {
            use_type_invariant(self);
        }
        let mut items: Vec<Item> = Vec::new();
        let mut i: usize = 0;
        while i < self.items.len()
            invariant
                i <= self.items.len(),
                items@ == self.items@.subrange(0, i as int),
            decreases self.items.len() - i,
        {
            items.push(self.items[i]);
            i = i + 1;
            assert(items@ =~= self.items@.subrange(0, i as int));
        }
        assert(self.items@.subrange(0, self.items@.len() as int) =~= self.items@);
        Bucket { items, scale: self.scale }
    }
}

/// A power of a natural number is a natural number, and grows with its base.
pub proof fn lemma_power_monotone(a: int, b: int, n: nat)
    requires
        0 <= a <= b,
    ensures
        0 <= power(a, n) <= power(b, n),
    decreases n,
{
    if n > 0 {
        lemma_power_monotone(a, b, (n - 1) as nat);
        let pa = power(a, (n - 1) as nat);
        let pb = power(b, (n - 1) as nat);
        assert(0 <= a * pa <= b * pb) by (nonlinear_arith)
            requires
                0 <= a <= b,
                0 <= pa <= pb,
        ;
    }
}

/// A power of a positive number grows with its exponent.
pub proof fn lemma_power_grows(b: int, m: nat, n: nat)
    requires
        b >= 1,
        m <= n,
    ensures
        1 <= power(b, m) <= power(b, n),
    decreases n,
{
    if n == 0 {
    } else if m == n {
        lemma_power_grows(b, (m - 1) as nat, (n - 1) as nat);
        let p = power(b, (n - 1) as nat);
        assert(b * p >= 1) by (nonlinear_arith)
            requires
                b >= 1,
                p >= 1,
        ;
    } else {
        lemma_power_grows(b, m, (n - 1) as nat);
        let p = power(b, (n - 1) as nat);
        assert(b * p >= p) by (nonlinear_arith)
            requires
                b >= 1,
                p >= 1,
        ;
    }
}

/// The cumulative weight is a natural number and grows with the number of
/// items, by at most `u32::MAX` an item.
pub proof fn lemma_cumulative_monotone(items: Seq<Item>, a: int, b: int)
    requires
        0 <= a <= b <= items.len(),
    ensures
        0 <= cumulative_weight(items, a) <= cumulative_weight(items, b),
        cumulative_weight(items, b) <= b * u32::MAX,
    decreases b,
{
    if b > 0 {
        if a < b {
            lemma_cumulative_monotone(items, a, b - 1);
        } else {
            lemma_cumulative_monotone(items, a - 1, b - 1);
        }
    }
}

/// The numerator is a sum of terms that are not negative.
pub proof fn lemma_numerator_monotone(items: Seq<Item>, n: nat, a: int, b: int)
    requires
        0 <= a <= b <= items.len(),
    ensures
        0 <= best_of_numerator(items, n, a) <= best_of_numerator(items, n, b),
    decreases b,
{
    if b > 0 {
        if a < b {
            lemma_numerator_monotone(items, n, a, b - 1);
        } else {
            lemma_numerator_monotone(items, n, a - 1, b - 1);
        }
        lemma_term_positive(items, n, b);
    }
}

/// No term of the numerator is negative.
pub proof fn lemma_term_positive(items: Seq<Item>, n: nat, m: int)
    requires
        1 <= m <= items.len(),
    ensures
        0 <= reached(items, n, m - 1) <= reached(items, n, m),
        0 <= items[m - 1].value * (reached(items, n, m) - reached(items, n, m - 1)),
{
    lemma_cumulative_monotone(items, m - 1, m);
    lemma_cumulative_monotone(items, 0, m - 1);
    lemma_power_monotone(cumulative_weight(items, m - 1), cumulative_weight(items, m), n);
    let v = items[m - 1].value as int;
    let d = reached(items, n, m) - reached(items, n, m - 1);
    assert(0 <= v * d) by (nonlinear_arith)
        requires
            0 <= v,
            0 <= d,
    ;
}

/// `base` to the power `n`, or `None` where that does not fit 128 bits.
pub fn checked_power(base: u128, n: u32) -> (r: Option<u128>)
    ensures
        r is Some <==> power(base as int, n as nat) <= u128::MAX,
        r is Some ==> r->0 == power(base as int, n as nat),
{
    if base <= 1 {
        proof {
            lemma_small_power(base as int, n as nat);
        }
        return Some(if n == 0 {
            1
        } else {
            base
        });
    }
    let mut acc: u128 = 1;
    let mut k: u32 = 0;
    while k < n
        invariant
            k <= n,
            base >= 2,
            acc == power(base as int, k as nat),
        decreases n - k,
    {
        match acc.checked_mul(base) {
            Some(next) => {
                acc = next;
            },
            None => {
                proof {
                    assert(power(base as int, (k + 1) as nat) == base * acc);
                    lemma_power_grows(base as int, (k + 1) as nat, n as nat);
                }
                return None;
            },
        }
        k = k + 1;
    }
    Some(acc)
}

/// The powers of zero and of one.
pub proof fn lemma_small_power(b: int, n: nat)
    requires
        0 <= b <= 1,
    ensures
        power(b, n) == if n == 0 {
            1
        } else {
            b
        },
    decreases n,
{
    if n >= 1 {
        lemma_small_power(b, (n - 1) as nat);
        if b == 0 {
            assert(b * power(b, (n - 1) as nat) == 0);
        } else {
            assert(b * power(b, (n - 1) as nat) == 1);
        }
    }
}

/// Inserting by value is inserting at the place behind the last item that
/// is not above the new one.
pub proof fn lemma_insert_place(sorted: Seq<Item>, x: Item, place: int)
    requires
        0 <= place <= sorted.len(),
        forall|j: int| place <= j < sorted.len() ==> sorted[j].value > x.value,
        place > 0 ==> sorted[place - 1].value <= x.value,
    ensures
        insert_by_value(sorted, x) == sorted.insert(place, x),
    decreases sorted.len(),
{
    if sorted.len() == 0 {
        assert(seq![x] =~= sorted.insert(place, x));
    } else if sorted.last().value <= x.value {
        assert(place == sorted.len());
        assert(sorted.push(x) =~= sorted.insert(place, x));
    } else {
        assert(place < sorted.len());
        lemma_insert_place(sorted.drop_last(), x, place);
        assert(sorted.drop_last().insert(place, x).push(sorted.last()) =~= sorted.insert(
            place,
            x,
        ));
    }
}

/// Sorting by value yields an ascending list with the same items, each as
/// often as before.
pub proof fn lemma_sorted_by_value(items: Seq<Item>)
    ensures
        ascending(sorted_by_value(items)),
        sorted_by_value(items).len() == items.len(),
        sorted_by_value(items).to_multiset() == items.to_multiset(),
    decreases items.len(),
{
    broadcast use vstd::seq_lib::group_to_multiset_ensures;

    if items.len() > 0 {
        let rest = sorted_by_value(items.drop_last());
        let x = items.last();
        lemma_sorted_by_value(items.drop_last());
        let place = insertion_place(rest, x, rest.len() as int);
        lemma_insertion_place(rest, x, rest.len() as int);
        lemma_insert_place(rest, x, place);
        let out = rest.insert(place, x);
        assert(ascending(out)) by {
            assert forall|i: int, j: int| 0 <= i <= j < out.len() implies out[i].value
                <= out[j].value by {
                if i < place && j > place {
                    assert(out[i] == rest[i] && out[j] == rest[j - 1]);
                } else if i < place && j == place {
                    assert(rest[i].value <= rest[place - 1].value);
                } else if i < place {
                    assert(out[i] == rest[i] && out[j] == rest[j]);
                } else if i == place && j > place {
                    assert(out[j] == rest[j - 1]);
                } else if i > place {
                    assert(out[i] == rest[i - 1] && out[j] == rest[j - 1]);
                }
            }
        }
        assert(items =~= items.drop_last().push(x));
        assert(out.to_multiset() =~= items.to_multiset());
    }
}

/// The place behind the last of the first `m` items that is not above `x`,
/// in an ascending list.
pub open spec fn insertion_place(sorted: Seq<Item>, x: Item, m: int) -> int
    decreases m,
{
    if m <= 0 {
        0
    } else if sorted[m - 1].value <= x.value {
        m
    } else {
        insertion_place(sorted, x, m - 1)
    }
}

/// The insertion place splits the first `m` items into those not above `x`
/// and those above it.
pub proof fn lemma_insertion_place(sorted: Seq<Item>, x: Item, m: int)
    requires
        0 <= m <= sorted.len(),
    ensures
        0 <= insertion_place(sorted, x, m) <= m,
        forall|j: int| insertion_place(sorted, x, m) <= j < m ==> sorted[j].value > x.value,
        insertion_place(sorted, x, m) > 0 ==> sorted[insertion_place(sorted, x, m) - 1].value
            <= x.value,
    decreases m,
{
    if m > 0 && sorted[m - 1].value > x.value {
        lemma_insertion_place(sorted, x, m - 1);
    }
}

impl Bucket {
    #[verifier::type_invariant]
    pub closed spec fn valid(&self) -> bool {
        ascending(self.items@)
    }

    /// A bucket of the given outcomes, whose weights are in units of one
    /// over `scale`.
    pub fn new(items: Vec<Item>, scale: u32) -> (bucket: Bucket)
        ensures
            bucket@.items == sorted_by_value(items@),
            bucket@.scale == scale,
    {
        let mut sorted: Vec<Item> = Vec::new();
        let mut i: usize = 0;
        while i < items.len()
            invariant
                i <= items.len(),
                sorted@ == sorted_by_value(items@.subrange(0, i as int)),
            decreases items.len() - i,
        {
            let x = items[i];
            let mut place: usize = sorted.len();
            while place > 0 && sorted[place - 1].value > x.value
                invariant
                    place <= sorted.len(),
                    forall|j: int| place <= j < sorted@.len() ==> sorted@[j].value > x.value,
                decreases place,
            {
                place = place - 1;
            }
            proof {
                lemma_insert_place(sorted@, x, place as int);
                assert(items@.subrange(0, i + 1).drop_last() =~= items@.subrange(0, i as int));
            }
            sorted.insert(place, x);
            i = i + 1;
        }
        proof {
            assert(items@.subrange(0, items.len() as int) =~= items@);
            lemma_sorted_by_value(items@);
        }
        Bucket { items: sorted, scale }
    }

    /// The outcomes, in ascending order of value.
    pub fn items(&self) -> (items: &Vec<Item>)
        ensures
            items@ == self@.items,
            ascending(items@),
    {
        proof {
            use_type_invariant(self);
        }
        &self.items
    }

    /// The scale of the weights.
    pub fn scale(&self) -> (scale: u32)
        ensures
            scale == self@.scale,
    {
        self.scale
    }

    /// For each outcome, the weight of all outcomes up to and including it.
    pub fn cumulative(&self) -> (sums: Vec<u128>)
        ensures
            sums@.len() == self@.items.len(),
            forall|i: int|
                0 <= i < sums@.len() ==> #[trigger] sums@[i] == cumulative_weight(
                    self@.items,
                    i + 1,
                ),
    {
        let mut sums: Vec<u128> = Vec::new();
        let mut running: u128 = 0;
        let mut i: usize = 0;
        while i < self.items.len()
            invariant
                i <= self.items.len(),
                running == cumulative_weight(self.items@, i as int),
                running <= i * u32::MAX,
                sums@.len() == i,
                forall|k: int|
                    0 <= k < i ==> #[trigger] sums@[k] == cumulative_weight(self.items@, k + 1),
            decreases self.items.len() - i,
        {
            assert(i * u32::MAX + u32::MAX <= u128::MAX) by (nonlinear_arith)
                requires
                    i <= usize::MAX,
            ;
            running = running + self.items[i].probability as u128;
            sums.push(running);
            i = i + 1;
        }
        sums
    }

    /// The expected value of the best of `n` draws, as an exact fraction
    /// over the scale to the power `n`.
    ///
    /// `None` where that fraction does not fit 128 bits.
    pub fn expectation_of_best_of_n(&self, n: u32) -> (r: Option<Expectation>)
        ensures
            r == self@.best_of(n as nat),
    {
        let sums = self.cumulative();
        let ghost items = self.items@;
        let ghost len = items.len() as int;
        let mut total: u128 = 0;
        let mut previous: u128 = 0;
        let mut i: usize = 0;
        while i < self.items.len()
            invariant
                i <= self.items.len(),
                items == self.items@,
                len == items.len(),
                sums@.len() == len,
                forall|k: int|
                    0 <= k < len ==> #[trigger] sums@[k] == cumulative_weight(items, k + 1),
                total == best_of_numerator(items, n as nat, i as int),
                previous == reached(items, n as nat, i as int),
                i > 0 ==> power(cumulative_weight(items, i as int), n as nat) <= u128::MAX,
            decreases self.items.len() - i,
        {
            proof {
                lemma_term_positive(items, n as nat, i + 1);
                lemma_numerator_monotone(items, n as nat, i + 1, len);
                lemma_numerator_monotone(items, n as nat, i as int, i + 1);
                lemma_cumulative_monotone(items, i + 1, len);
                lemma_power_monotone(
                    cumulative_weight(items, i + 1),
                    cumulative_weight(items, len),
                    n as nat,
                );
            }
            let power_here = match checked_power(sums[i], n) {
                Some(p) => p,
                None => {
                    return None;
                },
            };
            let share: u128 = power_here - previous;
            let term = match (self.items[i].value as u128).checked_mul(share) {
                Some(t) => t,
                None => {
                    return None;
                },
            };
            total = match total.checked_add(term) {
                Some(t) => t,
                None => {
                    return None;
                },
            };
            previous = power_here;
            i = i + 1;
        }
        proof {
            if len == 0 {
                lemma_small_power(0, n as nat);
            }
        }
        match checked_power(self.scale as u128, n) {
            Some(denominator) => Some(Expectation { numerator: total, denominator }),
            None => None,
        }
    }
}


/// The weighted sum of the first `m` items depends on those items alone.
pub proof fn lemma_weighted_sum_prefix(a: Seq<Item>, b: Seq<Item>, m: int)
    requires
        0 <= m <= a.len(),
        m <= b.len(),
        forall|i: int| 0 <= i < m ==> a[i] == b[i],
    ensures
        weighted_sum(a, m) == weighted_sum(b, m),
    decreases m,
{
    if m > 0 {
        lemma_weighted_sum_prefix(a, b, m - 1);
    }
}

/// Inserting an item adds its value times its weight to the weighted sum.
pub proof fn lemma_insert_adds(sorted: Seq<Item>, x: Item)
    ensures
        insert_by_value(sorted, x).len() == sorted.len() + 1,
        weighted_sum(insert_by_value(sorted, x), sorted.len() as int + 1) == weighted_sum(
            sorted,
            sorted.len() as int,
        ) + x.value * x.probability,
    decreases sorted.len(),
{
    let n = sorted.len() as int;
    if n == 0 {
        assert(weighted_sum(seq![x], 0) == 0);
    } else if sorted.last().value <= x.value {
        lemma_weighted_sum_prefix(sorted.push(x), sorted, n);
    } else {
        let rest = sorted.drop_last();
        lemma_insert_adds(rest, x);
        let inner = insert_by_value(rest, x);
        lemma_weighted_sum_prefix(inner.push(sorted.last()), inner, n);
        lemma_weighted_sum_prefix(sorted, rest, n - 1);
    }
}

/// Sorting does not change the weighted sum.
pub proof fn lemma_sorting_keeps_sum(items: Seq<Item>)
    ensures
        sorted_by_value(items).len() == items.len(),
        weighted_sum(sorted_by_value(items), items.len() as int) == weighted_sum(
            items,
            items.len() as int,
        ),
    decreases items.len(),
{
    if items.len() > 0 {
        let rest = items.drop_last();
        lemma_sorting_keeps_sum(rest);
        lemma_insert_adds(sorted_by_value(rest), items.last());
        lemma_weighted_sum_prefix(items, rest, items.len() - 1);
    }
}

/// With a single draw, the weight of an item being the best is its own
/// weight: the numerator is the weighted sum.
pub proof fn lemma_single_draw(items: Seq<Item>, m: int)
    requires
        0 <= m <= items.len(),
    ensures
        best_of_numerator(items, 1, m) == weighted_sum(items, m),
    decreases m,
{
    if m > 0 {
        lemma_single_draw(items, m - 1);
        lemma_power_one(cumulative_weight(items, m));
        lemma_power_one(cumulative_weight(items, m - 1));
        let v = items[m - 1].value as int;
        let w = items[m - 1].probability as int;
        assert(reached(items, 1, m) - reached(items, 1, m - 1) == w);
    }
}

/// The first power of a number is the number.
pub proof fn lemma_power_one(b: int)
    ensures
        power(b, 1) == b,
{
    assert(power(b, 0) == 1);
    assert(power(b, 1) == b * power(b, 0));
}

/// The expected best of one draw is the plain expectation, whatever the
/// order in which the outcomes were given.
pub proof fn lemma_best_of_one(items: Seq<Item>, scale: nat)
    requires
        weighted_sum(items, items.len() as int) <= u128::MAX,
        cumulative_weight(items, items.len() as int) <= u128::MAX,
        scale <= u128::MAX,
    ensures
        (BucketModel { items: sorted_by_value(items), scale }).best_of(1) == Some(
            Expectation {
                numerator: weighted_sum(items, items.len() as int) as u128,
                denominator: scale as u128,
            },
        ),
{
    let sorted = sorted_by_value(items);
    lemma_sorting_keeps_sum(items);
    lemma_sorted_by_value(items);
    lemma_single_draw(sorted, sorted.len() as int);
    lemma_sorting_keeps_weight(items);
    lemma_power_one(scale as int);
    lemma_power_one(cumulative_weight(sorted, sorted.len() as int));
}

/// Inserting an item adds its weight to the full weight.
pub proof fn lemma_insert_adds_weight(sorted: Seq<Item>, x: Item)
    ensures
        insert_by_value(sorted, x).len() == sorted.len() + 1,
        cumulative_weight(insert_by_value(sorted, x), sorted.len() as int + 1) == cumulative_weight(
            sorted,
            sorted.len() as int,
        ) + x.probability,
    decreases sorted.len(),
{
    let n = sorted.len() as int;
    if n == 0 {
        assert(cumulative_weight(seq![x], 0) == 0);
    } else if sorted.last().value <= x.value {
        lemma_cumulative_prefix(sorted.push(x), sorted, n);
    } else {
        let rest = sorted.drop_last();
        lemma_insert_adds_weight(rest, x);
        let inner = insert_by_value(rest, x);
        lemma_cumulative_prefix(inner.push(sorted.last()), inner, n);
        lemma_cumulative_prefix(sorted, rest, n - 1);
    }
}

/// The weight of the first `m` items depends on those items alone.
pub proof fn lemma_cumulative_prefix(a: Seq<Item>, b: Seq<Item>, m: int)
    requires
        0 <= m <= a.len(),
        m <= b.len(),
        forall|i: int| 0 <= i < m ==> a[i] == b[i],
    ensures
        cumulative_weight(a, m) == cumulative_weight(b, m),
    decreases m,
{
    if m > 0 {
        lemma_cumulative_prefix(a, b, m - 1);
    }
}

/// Sorting does not change the full weight.
pub proof fn lemma_sorting_keeps_weight(items: Seq<Item>)
    ensures
        sorted_by_value(items).len() == items.len(),
        cumulative_weight(sorted_by_value(items), items.len() as int) == cumulative_weight(
            items,
            items.len() as int,
        ),
    decreases items.len(),
{
    if items.len() > 0 {
        let rest = items.drop_last();
        lemma_sorting_keeps_weight(rest);
        lemma_insert_adds_weight(sorted_by_value(rest), items.last());
        lemma_cumulative_prefix(items, rest, items.len() - 1);
    }
}


/// The larger of two numbers.
pub open spec fn larger(a: int, b: int) -> int {
    if a >= b {
        a
    } else {
        b
    }
}

/// The sum, over every way to make `n` more draws, of the best value drawn
/// times the weight of the draws, where `top` is the best value drawn so
/// far and `weight` the weight of the draws so far. The next draw is taken
/// from the first `m` items only.
pub open spec fn enumerated(items: Seq<Item>, n: nat, top: int, weight: int, m: int) -> int
    decreases n, m,
{
    if n == 0 {
        top * weight
    } else if m <= 0 {
        0
    } else {
        enumerated(items, n, top, weight, m - 1) + enumerated(
            items,
            (n - 1) as nat,
            larger(top, items[m - 1].value as int),
            weight * items[m - 1].probability,
            items.len() as int,
        )
    }
}

/// The largest value among the first `m` items, and at least one.
pub open spec fn value_cap(items: Seq<Item>, m: int) -> int
    decreases m,
{
    if m <= 0 {
        1
    } else {
        larger(value_cap(items, m - 1), items[m - 1].value as int)
    }
}

/// The most draws that are enumerated.
pub const MAX_ENUMERATED_DRAWS: u32 = 128;

/// Whether the enumeration of `n` draws is made: there are at most
/// `MAX_ENUMERATED_DRAWS`, and the full weight to the power `n` times the
/// largest value fits 128 bits, as does the scale to the power `n`.
pub open spec fn enumerable(items: Seq<Item>, scale: nat, n: nat) -> bool {
    &&& n <= MAX_ENUMERATED_DRAWS
    &&& power(cumulative_weight(items, items.len() as int), n) * value_cap(
        items,
        items.len() as int,
    ) <= u128::MAX
    &&& power(scale as int, n) <= u128::MAX
}

/// No value is above the cap, and the cap grows with the items.
pub proof fn lemma_value_cap(items: Seq<Item>, m: int, i: int)
    requires
        0 <= i < m <= items.len(),
    ensures
        1 <= value_cap(items, m),
        items[i].value <= value_cap(items, m),
    decreases m,
{
    lemma_cap_positive(items, m);
    if i < m - 1 {
        lemma_value_cap(items, m - 1, i);
    }
}

/// The cap is at least one.
pub proof fn lemma_cap_positive(items: Seq<Item>, m: int)
    ensures
        1 <= value_cap(items, m),
    decreases m,
{
    if m > 0 {
        lemma_cap_positive(items, m - 1);
    }
}

/// No weight is above the full weight.
pub proof fn lemma_weight_below_total(items: Seq<Item>, i: int)
    requires
        0 <= i < items.len(),
    ensures
        items[i].probability <= cumulative_weight(items, items.len() as int),
{
    lemma_cumulative_monotone(items, i + 1, items.len() as int);
    lemma_cumulative_monotone(items, 0, i);
}

fn enumerate(
    items: &Vec<Item>,
    n: u32,
    top: u32,
    weight: u128,
    Ghost(total): Ghost<int>,
    Ghost(cap): Ghost<int>,
) -> (sum: u128)
    requires
        total == cumulative_weight(items@, items@.len() as int),
        cap == value_cap(items@, items@.len() as int),
        top <= cap,
        weight * power(total, n as nat) * cap <= u128::MAX,
    ensures
        sum == enumerated(items@, n as nat, top as int, weight as int, items@.len() as int),
        sum <= weight * power(total, n as nat) * cap,
    decreases n,
{
    proof {
        lemma_cumulative_monotone(items@, 0, items@.len() as int);
        lemma_power_monotone(0, total, n as nat);
        lemma_cap_positive(items@, items@.len() as int);
    }
    if n == 0 {
        proof {
            let w = weight as int;
            let t = top as int;
            assert(0 <= t * w <= w * 1 * cap) by (nonlinear_arith)
                requires
                    0 <= t <= cap,
                    0 <= w,
            ;
        }
        return (top as u128) * weight;
    }
    let ghost rest = power(total, (n - 1) as nat);
    proof {
        lemma_power_monotone(0, total, (n - 1) as nat);
        assert(power(total, n as nat) == total * rest);
    }
    let mut sum: u128 = 0;
    let mut m: usize = 0;
    while m < items.len()
        invariant
            m <= items.len(),
            n > 0,
            total == cumulative_weight(items@, items@.len() as int),
            cap == value_cap(items@, items@.len() as int),
            top <= cap,
            rest == power(total, (n - 1) as nat),
            0 <= rest,
            1 <= cap,
            0 <= total,
            weight * (total * rest) * cap <= u128::MAX,
            sum == enumerated(items@, n as nat, top as int, weight as int, m as int),
            sum <= weight * cumulative_weight(items@, m as int) * rest * cap,
        decreases items.len() - m,
    {
        let item = items[m];
        let ghost w = weight as int;
        let ghost p = item.probability as int;
        let ghost before = cumulative_weight(items@, m as int);
        proof {
            lemma_weight_below_total(items@, m as int);
            lemma_value_cap(items@, items@.len() as int, m as int);
            lemma_cumulative_monotone(items@, m + 1, items@.len() as int);
            lemma_cumulative_monotone(items@, 0, m as int);
            assert(w * (before + p) * rest * cap <= w * (total * rest) * cap) by (nonlinear_arith)
                requires
                    0 <= w,
                    0 <= before + p <= total,
                    0 <= rest,
                    1 <= cap,
            ;
            assert(w * (before + p) * rest * cap == w * before * rest * cap + (w * p) * rest
                * cap) by (nonlinear_arith);
            assert(0 <= w * before * rest * cap) by (nonlinear_arith)
                requires
                    0 <= w,
                    0 <= before,
                    0 <= rest,
                    1 <= cap,
            ;
            assert(0 <= w * p <= (w * p) * rest * cap || rest == 0) by (nonlinear_arith)
                requires
                    0 <= w,
                    0 <= p,
                    0 <= rest,
                    1 <= cap,
            ;
            if rest == 0 {
                // a power of the full weight is zero only where that weight is zero
                if total >= 1 {
                    lemma_power_grows(total, 0, (n - 1) as nat);
                }
                assert(p == 0);
                assert(w * p == 0) by (nonlinear_arith)
                    requires
                        p == 0,
                ;
            }
        }
        let next_weight: u128 = weight * item.probability as u128;
        let next_top: u32 = if top >= item.value {
            top
        } else {
            item.value
        };
        let part = enumerate(items, n - 1, next_top, next_weight, Ghost(total), Ghost(cap));
        sum = sum + part;
        m = m + 1;
    }
    proof {
        assert(weight * total * rest * cap == weight * (total * rest) * cap) by (nonlinear_arith);
        assert(weight * (total * rest) * cap == weight * power(total, n as nat) * cap);
    }
    sum
}

/// The expected value of the best of `n` draws, found by going through
/// every way the `n` draws can fall.
///
/// `None` exactly where the enumeration is not made. The outcomes may be
/// given in any order.
pub fn best_of_n_enumerated(items: &Vec<Item>, scale: u32, n: u32) -> (r: Option<Expectation>)
    ensures
        r is Some <==> enumerable(items@, scale as nat, n as nat),
        r is Some ==> r->0.numerator == enumerated(items@, n as nat, 0, 1, items@.len() as int)
            && r->0.denominator == power(scale as int, n as nat),
{
    if n > MAX_ENUMERATED_DRAWS {
        return None;
    }
    let mut total: u128 = 0;
    let mut cap: u32 = 1;
    let mut i: usize = 0;
    while i < items.len()
        invariant
            i <= items.len(),
            total == cumulative_weight(items@, i as int),
            total <= i * u32::MAX,
            cap == value_cap(items@, i as int),
            cap >= 1,
        decreases items.len() - i,
    {
        assert(i * u32::MAX + u32::MAX <= u128::MAX) by (nonlinear_arith)
            requires
                i <= usize::MAX,
        ;
        total = total + items[i].probability as u128;
        if items[i].value > cap {
            cap = items[i].value;
        }
        i = i + 1;
    }
    let reach = match checked_power(total, n) {
        Some(p) => p,
        None => {
            proof {
                let p = power(total as int, n as nat);
                let c = cap as int;
                assert(p * c >= p) by (nonlinear_arith)
                    requires
                        p >= 0,
                        c >= 1,
                ;
            }
            return None;
        },
    };
    if reach.checked_mul(cap as u128).is_none() {
        return None;
    }
    let denominator = match checked_power(scale as u128, n) {
        Some(d) => d,
        None => {
            return None;
        },
    };
    proof {
        assert(1 * power(total as int, n as nat) * cap == power(total as int, n as nat) * cap)
            by (nonlinear_arith);
    }
    let numerator = enumerate(items, n, 0, 1, Ghost(total as int), Ghost(cap as int));
    Some(Expectation { numerator, denominator })
}


/// The items of value `v`, in order.
pub open spec fn of_value(items: Seq<Item>, v: u32) -> Seq<Item> {
    items.filter(|item: Item| item.value == v)
}

/// Taking the items of one value distributes over appending an item.
pub proof fn lemma_of_value_push(items: Seq<Item>, x: Item, v: u32)
    ensures
        of_value(items.push(x), v) == if x.value == v {
            of_value(items, v).push(x)
        } else {
            of_value(items, v)
        },
{
    reveal(Seq::filter);
    assert(items.push(x).drop_last() =~= items);
    assert(items.push(x).last() == x);
}

/// An inserted item comes behind the items of its own value.
pub proof fn lemma_insert_is_stable(sorted: Seq<Item>, x: Item, v: u32)
    ensures
        of_value(insert_by_value(sorted, x), v) == if x.value == v {
            of_value(sorted, v).push(x)
        } else {
            of_value(sorted, v)
        },
    decreases sorted.len(),
{
    if sorted.len() == 0 {
        assert(seq![x] =~= Seq::<Item>::empty().push(x));
        lemma_of_value_push(Seq::empty(), x, v);
        assert(sorted =~= Seq::<Item>::empty());
    } else if sorted.last().value <= x.value {
        lemma_of_value_push(sorted, x, v);
    } else {
        let rest = sorted.drop_last();
        let last = sorted.last();
        lemma_insert_is_stable(rest, x, v);
        lemma_of_value_push(insert_by_value(rest, x), last, v);
        lemma_of_value_push(rest, last, v);
        assert(sorted =~= rest.push(last));
    }
}

/// Sorting is stable: the items of any one value stand in the sorted list
/// in the order in which they were given.
pub proof fn lemma_sorting_is_stable(items: Seq<Item>, v: u32)
    ensures
        of_value(sorted_by_value(items), v) == of_value(items, v),
    decreases items.len(),
{
    if items.len() == 0 {
        assert(items =~= Seq::<Item>::empty());
    } else {
        let rest = items.drop_last();
        lemma_sorting_is_stable(rest, v);
        lemma_insert_is_stable(sorted_by_value(rest), items.last(), v);
        lemma_of_value_push(rest, items.last(), v);
        assert(items =~= rest.push(items.last()));
    }
}


} // verus!
