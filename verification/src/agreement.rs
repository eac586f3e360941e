//! Why the closed form and the enumeration agree.
//!
//! Both equal one sum over thresholds `t`: the full weight to the power `n`,
//! less the weight of the outcomes of value at most `t` to the power `n`.
//! That is the weight of the draws whose best value is above `t`, and a
//! value is the number of thresholds below it.

use crate::statistics::{
    ascending, best_of_numerator, cumulative_weight, enumerated, insert_by_value, larger,
    lemma_cumulative_prefix, lemma_sorted_by_value, lemma_sorting_keeps_weight, lemma_value_cap,
    power, reached, sorted_by_value, value_cap, Item,
};
use vstd::prelude::*;

verus! {

/// The weight of those of the first `m` outcomes whose value is at most
/// `t`.
pub open spec fn weight_up_to(items: Seq<Item>, t: int, m: int) -> int
    decreases m,
{
    if m <= 0 {
        0
    } else {
        weight_up_to(items, t, m - 1) + if items[m - 1].value <= t {
            items[m - 1].probability as int
        } else {
            0
        }
    }
}

/// `f(0) + ... + f(v - 1)`.
pub open spec fn sum_below(f: spec_fn(int) -> int, v: int) -> int
    decreases v,
{
    if v <= 0 {
        0
    } else {
        sum_below(f, v - 1) + f(v - 1)
    }
}

/// The weight of `n` draws whose best value, or else `top`, is above `t`.
pub open spec fn layer(items: Seq<Item>, n: nat, top: int) -> spec_fn(int) -> int {
    |t: int|
        power(cumulative_weight(items, items.len() as int), n) - if top <= t {
            power(weight_up_to(items, t, items.len() as int), n)
        } else {
            0
        }
}

/// The same with the first of the `n` draws taken from the first `m`
/// outcomes only.
pub open spec fn partial_layer(items: Seq<Item>, n: nat, top: int, m: int) -> spec_fn(int) -> int {
    |t: int|
        cumulative_weight(items, m) * power(
            cumulative_weight(items, items.len() as int),
            (n - 1) as nat,
        ) - if top <= t {
            weight_up_to(items, t, m) * power(
                weight_up_to(items, t, items.len() as int),
                (n - 1) as nat,
            )
        } else {
            0
        }
}

/// The weight of `n` draws from the first `m` outcomes whose best value is
/// above `t`.
pub open spec fn prefix_layer(items: Seq<Item>, n: nat, m: int) -> spec_fn(int) -> int {
    |t: int| power(cumulative_weight(items, m), n) - power(weight_up_to(items, t, m), n)
}

/// `d` below `x`, nothing from `x` on.
pub open spec fn step(d: int, x: int) -> spec_fn(int) -> int {
    |t: int|
        if t < x {
            d
        } else {
            0
        }
}

/// Sums of functions that agree below `v` agree.
pub proof fn lemma_sum_agrees(f: spec_fn(int) -> int, g: spec_fn(int) -> int, v: int)
    requires
        forall|t: int| 0 <= t < v ==> #[trigger] f(t) == g(t),
    ensures
        sum_below(f, v) == sum_below(g, v),
    decreases v,
{
    if v > 0 {
        lemma_sum_agrees(f, g, v - 1);
    }
}

/// The sum of `a + c * b` is the sum of `a` plus `c` times the sum of `b`.
pub proof fn lemma_sum_linear(
    f: spec_fn(int) -> int,
    a: spec_fn(int) -> int,
    b: spec_fn(int) -> int,
    c: int,
    v: int,
)
    requires
        forall|t: int| 0 <= t < v ==> #[trigger] f(t) == a(t) + c * b(t),
    ensures
        sum_below(f, v) == sum_below(a, v) + c * sum_below(b, v),
    decreases v,
{
    if v > 0 {
        lemma_sum_linear(f, a, b, c, v - 1);
        let s = sum_below(b, v - 1);
        let last = b(v - 1);
        assert(c * (s + last) == c * s + c * last) by (nonlinear_arith);
    }
}

/// The sum of a step is its height times its width.
pub proof fn lemma_sum_step(d: int, x: int, v: int)
    requires
        0 <= x <= v,
    ensures
        sum_below(step(d, x), v) == x * d,
    decreases v,
{
    if v > 0 {
        if x == v {
            lemma_sum_step(d, x - 1, v - 1);
            lemma_sum_agrees(step(d, x), step(d, x - 1), v - 1);
            assert(x * d == (x - 1) * d + d) by (nonlinear_arith);
        } else {
            lemma_sum_step(d, x, v - 1);
        }
    } else {
        assert(x * d == 0) by (nonlinear_arith)
            requires
                x == 0,
        ;
    }
}

/// The weight up to a threshold of the first `m` outcomes depends on those
/// outcomes alone.
pub proof fn lemma_weight_up_to_prefix(a: Seq<Item>, b: Seq<Item>, t: int, m: int)
    requires
        0 <= m <= a.len(),
        m <= b.len(),
        forall|i: int| 0 <= i < m ==> a[i] == b[i],
    ensures
        weight_up_to(a, t, m) == weight_up_to(b, t, m),
    decreases m,
{
    if m > 0 {
        lemma_weight_up_to_prefix(a, b, t, m - 1);
    }
}

/// Inserting an outcome adds its weight at every threshold from its value
/// on.
pub proof fn lemma_insert_adds_up_to(sorted: Seq<Item>, x: Item, t: int)
    ensures
        insert_by_value(sorted, x).len() == sorted.len() + 1,
        weight_up_to(insert_by_value(sorted, x), t, sorted.len() as int + 1) == weight_up_to(
            sorted,
            t,
            sorted.len() as int,
        ) + if x.value <= t {
            x.probability as int
        } else {
            0
        },
    decreases sorted.len(),
{
    let n = sorted.len() as int;
    if n == 0 {
        assert(weight_up_to(seq![x], t, 0) == 0);
    } else if sorted.last().value <= x.value {
        lemma_weight_up_to_prefix(sorted.push(x), sorted, t, n);
    } else {
        let rest = sorted.drop_last();
        lemma_insert_adds_up_to(rest, x, t);
        let inner = insert_by_value(rest, x);
        lemma_weight_up_to_prefix(inner.push(sorted.last()), inner, t, n);
        lemma_weight_up_to_prefix(sorted, rest, t, n - 1);
    }
}

/// Sorting does not change the weight up to any threshold.
pub proof fn lemma_sorting_keeps_up_to(items: Seq<Item>, t: int)
    ensures
        sorted_by_value(items).len() == items.len(),
        weight_up_to(sorted_by_value(items), t, items.len() as int) == weight_up_to(
            items,
            t,
            items.len() as int,
        ),
    decreases items.len(),
{
    if items.len() > 0 {
        let rest = items.drop_last();
        lemma_sorting_keeps_up_to(rest, t);
        lemma_insert_adds_up_to(sorted_by_value(rest), items.last(), t);
        lemma_weight_up_to_prefix(items, rest, t, items.len() - 1);
    }
}

/// From the value of outcome `m - 1` of an ascending list on, the weight up
/// to the threshold of the first `k <= m` outcomes is their whole weight.
pub proof fn lemma_all_below(items: Seq<Item>, t: int, m: int, k: int)
    requires
        ascending(items),
        1 <= m <= items.len(),
        0 <= k <= m,
        items[m - 1].value <= t,
    ensures
        weight_up_to(items, t, k) == cumulative_weight(items, k),
    decreases k,
{
    if k > 0 {
        lemma_all_below(items, t, m, k - 1);
        assert(items[k - 1].value <= items[m - 1].value);
    }
}

/// The product that starts a power.
pub proof fn lemma_power_unfold(b: int, n: nat)
    requires
        n >= 1,
    ensures
        power(b, n) == b * power(b, (n - 1) as nat),
{
}

/// The enumeration of `n` draws, the first from the first `m` outcomes, is
/// the weight so far times the sum of the partial layers. Without a draw
/// left it is the weight so far times the best value so far.
pub proof fn lemma_enumerated_partial(
    items: Seq<Item>,
    n: nat,
    top: int,
    weight: int,
    bound: int,
    m: int,
)
    requires
        0 <= top <= bound,
        forall|i: int| 0 <= i < items.len() ==> (#[trigger] items[i]).value <= bound,
        0 <= m <= items.len(),
        n >= 1,
    ensures
        enumerated(items, n, top, weight, m) == weight * sum_below(
            partial_layer(items, n, top, m),
            bound,
        ),
    decreases n, m,
{
    if m == 0 {
        lemma_sum_agrees(partial_layer(items, n, top, 0), step(0, 0), bound);
        lemma_sum_step(0, 0, bound);
        let p = power(cumulative_weight(items, items.len() as int), (n - 1) as nat);
        assert forall|t: int| 0 <= t < bound implies #[trigger] partial_layer(items, n, top, 0)(
            t,
        ) == step(0, 0)(t) by {
            let q = power(weight_up_to(items, t, items.len() as int), (n - 1) as nat);
            assert(0 * p == 0 && 0 * q == 0) by (nonlinear_arith);
        }
        assert(weight * 0 == 0) by (nonlinear_arith);
    } else {
        let item = items[m - 1];
        let v = item.value as int;
        let w = item.probability as int;
        let next_top = larger(top, v);
        lemma_enumerated_partial(items, n, top, weight, bound, m - 1);
        lemma_enumerated_full(items, (n - 1) as nat, next_top, weight * w, bound);
        let before = partial_layer(items, n, top, m - 1);
        let here = partial_layer(items, n, top, m);
        let inner = layer(items, (n - 1) as nat, next_top);
        let p = power(cumulative_weight(items, items.len() as int), (n - 1) as nat);
        assert forall|t: int| 0 <= t < bound implies #[trigger] here(t) == before(t) + w * inner(
            t,
        ) by {
            let q = power(weight_up_to(items, t, items.len() as int), (n - 1) as nat);
            let c = cumulative_weight(items, m - 1);
            let u = weight_up_to(items, t, m - 1);
            assert((c + w) * p == c * p + w * p) by (nonlinear_arith);
            assert((u + w) * q == u * q + w * q) by (nonlinear_arith);
            assert(w * (p - q) == w * p - w * q) by (nonlinear_arith);
            assert(w * (p - 0) == w * p) by (nonlinear_arith);
        }
        lemma_sum_linear(here, before, inner, w, bound);
        let a = sum_below(before, bound);
        let b = sum_below(inner, bound);
        assert(weight * (a + w * b) == weight * a + (weight * w) * b) by (nonlinear_arith);
    }
}

/// The enumeration of `n` draws is the weight so far times the sum of the
/// layers.
pub proof fn lemma_enumerated_full(items: Seq<Item>, n: nat, top: int, weight: int, bound: int)
    requires
        0 <= top <= bound,
        forall|i: int| 0 <= i < items.len() ==> (#[trigger] items[i]).value <= bound,
    ensures
        enumerated(items, n, top, weight, items.len() as int) == weight * sum_below(
            layer(items, n, top),
            bound,
        ),
    decreases n, items.len() + 1,
{
    let len = items.len() as int;
    if n == 0 {
        assert forall|t: int| 0 <= t < bound implies #[trigger] layer(items, 0, top)(t) == step(
            1,
            top,
        )(t) by {}
        lemma_sum_agrees(layer(items, 0, top), step(1, top), bound);
        lemma_sum_step(1, top, bound);
        assert(top * weight == weight * (top * 1)) by (nonlinear_arith);
    } else {
        lemma_enumerated_partial(items, n, top, weight, bound, len);
        assert forall|t: int| 0 <= t < bound implies #[trigger] partial_layer(items, n, top, len)(
            t,
        ) == layer(items, n, top)(t) by {
            lemma_power_unfold(cumulative_weight(items, len), n);
            lemma_power_unfold(weight_up_to(items, t, len), n);
        }
        lemma_sum_agrees(partial_layer(items, n, top, len), layer(items, n, top), bound);
    }
}

/// The closed form over the first `m` outcomes of an ascending list is the
/// sum of their layers.
pub proof fn lemma_closed_form_layers(items: Seq<Item>, n: nat, bound: int, m: int)
    requires
        ascending(items),
        n >= 1,
        0 <= m <= items.len(),
        forall|i: int| 0 <= i < items.len() ==> (#[trigger] items[i]).value <= bound,
    ensures
        best_of_numerator(items, n, m) == sum_below(prefix_layer(items, n, m), bound),
    decreases m,
{
    if m == 0 {
        assert(power(0, n) == 0) by {
            lemma_power_unfold(0, n);
        }
        assert forall|t: int| 0 <= t < bound implies #[trigger] prefix_layer(items, n, 0)(t)
            == step(0, 0)(t) by {}
        lemma_sum_agrees(prefix_layer(items, n, 0), step(0, 0), bound);
        lemma_sum_step(0, 0, if bound >= 0 {
            bound
        } else {
            0
        });
        if bound < 0 {
            assert(sum_below(step(0, 0), bound) == 0);
        }
    } else {
        lemma_closed_form_layers(items, n, bound, m - 1);
        let v = items[m - 1].value as int;
        let gain = power(cumulative_weight(items, m), n) - power(
            cumulative_weight(items, m - 1),
            n,
        );
        let before = prefix_layer(items, n, m - 1);
        let here = prefix_layer(items, n, m);
        assert forall|t: int| 0 <= t < bound implies #[trigger] here(t) == before(t) + 1 * step(
            gain,
            v,
        )(t) by {
            if v <= t {
                lemma_all_below(items, t, m, m);
                lemma_all_below(items, t, m, m - 1);
            }
        }
        lemma_sum_linear(here, before, step(gain, v), 1, bound);
        lemma_sum_step(gain, v, bound);
        assert(power(0, n) == 0) by {
            lemma_power_unfold(0, n);
        }
        assert(reached(items, n, m - 1) == power(cumulative_weight(items, m - 1), n));
        assert(reached(items, n, m) == power(cumulative_weight(items, m), n));
    }
}

/// Every outcome of the sorted list is an outcome of the list.
pub proof fn lemma_sorted_values_bounded(items: Seq<Item>, bound: int)
    requires
        forall|i: int| 0 <= i < items.len() ==> (#[trigger] items[i]).value <= bound,
    ensures
        forall|i: int|
            0 <= i < sorted_by_value(items).len() ==> (#[trigger] sorted_by_value(
                items,
            )[i]).value <= bound,
{
    broadcast use vstd::seq_lib::group_to_multiset_ensures;

    lemma_sorted_by_value(items);
    let sorted = sorted_by_value(items);
    assert forall|i: int| 0 <= i < sorted.len() implies (#[trigger] sorted[i]).value <= bound by {
        assert(sorted.to_multiset().count(sorted[i]) > 0);
        assert(items.to_multiset().count(sorted[i]) > 0);
        assert(items.contains(sorted[i]));
        let j = choose|j: int| 0 <= j < items.len() && items[j] == sorted[i];
        assert(items[j].value <= bound);
    }
}

/// For at least one draw, going through every way the draws can fall gives
/// the numerator of the closed form, in whatever order the outcomes are
/// given.
pub proof fn lemma_enumeration_is_closed_form(items: Seq<Item>, n: nat)
    requires
        n >= 1,
    ensures
        enumerated(items, n, 0, 1, items.len() as int) == best_of_numerator(
            sorted_by_value(items),
            n,
            items.len() as int,
        ),
{
    let len = items.len() as int;
    let bound = value_cap(items, len);
    let sorted = sorted_by_value(items);
    assert forall|i: int| 0 <= i < items.len() implies (#[trigger] items[i]).value <= bound by {
        lemma_value_cap(items, len, i);
    }
    crate::statistics::lemma_cap_positive(items, len);
    lemma_sorted_by_value(items);
    lemma_sorted_values_bounded(items, bound);
    lemma_enumerated_full(items, n, 0, 1, bound);
    lemma_closed_form_layers(sorted, n, bound, len);
    lemma_sorting_keeps_weight(items);
    assert forall|t: int| 0 <= t < bound implies #[trigger] prefix_layer(sorted, n, len)(t)
        == layer(items, n, 0)(t) by {
        lemma_sorting_keeps_up_to(items, t);
    }
    lemma_sum_agrees(prefix_layer(sorted, n, len), layer(items, n, 0), bound);
    let total = sum_below(layer(items, n, 0), bound);
    assert(1 * total == total);
}

/// Where one function is at least `c` times another below `v`, so is its
/// sum.
pub proof fn lemma_sum_dominates(f: spec_fn(int) -> int, g: spec_fn(int) -> int, c: int, v: int)
    requires
        forall|t: int| 0 <= t < v ==> #[trigger] f(t) >= c * g(t),
    ensures
        sum_below(f, v) >= c * sum_below(g, v),
    decreases v,
{
    if v > 0 {
        lemma_sum_dominates(f, g, c, v - 1);
        let s = sum_below(g, v - 1);
        let last = g(v - 1);
        assert(c * (s + last) == c * s + c * last) by (nonlinear_arith);
    } else {
        assert(c * 0 == 0) by (nonlinear_arith);
    }
}

/// The weight up to a threshold is a part of the whole weight.
pub proof fn lemma_weight_up_to_bounded(items: Seq<Item>, t: int, m: int)
    requires
        0 <= m <= items.len(),
    ensures
        0 <= weight_up_to(items, t, m) <= cumulative_weight(items, m),
    decreases m,
{
    if m > 0 {
        lemma_weight_up_to_bounded(items, t, m - 1);
    }
}

/// One more draw is never worth less, where the weights make up at least
/// the scale: the expected best of `n + 1` draws is at least that of `n`.
/// The two fractions are compared over the common denominator, the scale
/// to the power `n + 1`.
///
/// Where the weights fall short of the scale, each draw may come up empty
/// and more draws can be worth less.
pub proof fn lemma_more_draws_not_worth_less(items: Seq<Item>, scale: int, n: nat)
    requires
        ascending(items),
        n >= 1,
        0 <= scale <= cumulative_weight(items, items.len() as int),
    ensures
        best_of_numerator(items, (n + 1) as nat, items.len() as int) >= scale * best_of_numerator(
            items,
            n,
            items.len() as int,
        ),
{
    let len = items.len() as int;
    let bound = value_cap(items, len);
    assert forall|i: int| 0 <= i < items.len() implies (#[trigger] items[i]).value <= bound by {
        lemma_value_cap(items, len, i);
    }
    lemma_closed_form_layers(items, n, bound, len);
    lemma_closed_form_layers(items, (n + 1) as nat, bound, len);
    let whole = cumulative_weight(items, len);
    let more = prefix_layer(items, (n + 1) as nat, len);
    let fewer = prefix_layer(items, n, len);
    assert forall|t: int| 0 <= t < bound implies #[trigger] more(t) >= scale * fewer(t) by {
        let part = weight_up_to(items, t, len);
        lemma_weight_up_to_bounded(items, t, len);
        crate::statistics::lemma_power_monotone(part, whole, n);
        let pw = power(whole, n);
        let pp = power(part, n);
        lemma_power_unfold(whole, (n + 1) as nat);
        lemma_power_unfold(part, (n + 1) as nat);
        assert(whole * pw - part * pp >= scale * (pw - pp)) by (nonlinear_arith)
            requires
                0 <= part <= whole,
                0 <= scale <= whole,
                0 <= pp <= pw,
        {
            assert((whole - scale) * pw >= (whole - scale) * pp);
            assert((whole - part) * pp >= 0);
        }
    }
    lemma_sum_dominates(more, fewer, scale, bound);
}


} // verus!
