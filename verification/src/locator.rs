//! Finding the reward banner in a screenshot.
//!
//! The banner's place follows from the screen's size, up to the scale at
//! which the game draws its interface, which is between 50% and 99% and not
//! known beforehand. It is found by trying every percentage and comparing
//! the density of skin-coloured pixels per row with what label text at that
//! scale would show.
//!
//! Lengths authored against a 1920 by 1080 screen are multiplied by
//! `scale_units / REFERENCE_UNITS`, and every rounding is a floor.

use crate::arith::{lemma_product_bounded, monus};
use crate::bitmap::{Grid, Image, MAX_DIMENSION};
use crate::color::{abs_diff, Rgb};
use crate::segmenter::{
    are_slots, capped_counts, carries_weight, filter_and_separate_parts_from_part_box, slots_of,
};
use crate::theme::{Theme, ThemeError};
use crate::weighing::Weigher;
use vstd::prelude::*;

verus! {

/// The denominator of the screen scale: 9 * 1920, which is 16 * 1080.
pub const REFERENCE_UNITS: u64 = 17280;

/// How many interface scales are tried: 50% up to 99%.
pub const CANDIDATE_COUNT: usize = 50;

/// A rectangle of pixels.
#[derive(Clone, Copy, Debug, PartialEq, Eq, Structural)]
pub struct Rect {
    pub x: u32,
    pub y: u32,
    pub width: u32,
    pub height: u32,
}

/// The screen scale times `REFERENCE_UNITS`: the height over 1080 where the
/// screen is wider than 16:9, else the width over 1920.
pub open spec fn scale_units(width: int, height: int) -> int {
    if 9 * width > 16 * height {
        16 * height
    } else {
        9 * width
    }
}

/// The rectangle that holds the banner at any interface scale: 968 scaled
/// pixels wide and centred, from 129 to 40.5 scaled pixels above the middle
/// row.
pub open spec fn coarse_rect(width: int, height: int) -> Rect {
    let u = scale_units(width, height);
    Rect {
        x: ((17280 * width - 968 * u) / 34560) as u32,
        y: ((8640 * height - 129 * u) / 17280) as u32,
        width: ((968 * u) / 17280) as u32,
        height: ((177 * u) / 34560) as u32,
    }
}

/// How many pixels of a row the skin accepts.
pub open spec fn count_accepted(row: Seq<Rgb>, theme: Theme) -> nat
    decreases row.len(),
{
    if row.len() == 0 {
        0
    } else {
        count_accepted(row.drop_last(), theme) + if theme.accepts(row.last()) {
            1nat
        } else {
            0nat
        }
    }
}

/// The density profile: for each row, how many of its pixels the skin
/// accepts.
pub open spec fn row_densities(grid: Grid, theme: Theme) -> Seq<u32> {
    Seq::new(grid.height, |y: int| count_accepted(grid.pixels[y], theme) as u32)
}

/// The density of row `y`; rows outside the profile are empty.
pub open spec fn density(rows: Seq<u32>, y: int) -> int {
    if 0 <= y < rows.len() {
        rows[y] as int
    } else {
        0
    }
}

/// The three bands of a label: the gap above the text, the text itself, and
/// the gap below it.
#[derive(Clone, Copy, Debug, PartialEq, Eq, Structural)]
pub enum Band {
    Head,
    Middle,
    Tail,
}

/// How far a row of density `r` is from what the band expects of a slot
/// `scale_width` wide, in hundredths of a pixel.
///
/// The head expects 6% of the width, the tail 0.7% and weighs tenfold. The
/// middle expects 24%; a row under a fifteenth of the width counts as
/// background and is charged five times its distance from 26%.
pub open spec fn band_term(band: Band, scale_width: int, r: int) -> int {
    match band {
        Band::Head => abs_diff(6 * scale_width, 100 * r),
        Band::Middle => if r < scale_width / 15 {
            5 * (26 * scale_width - 100 * r)
        } else {
            abs_diff(24 * scale_width, 100 * r)
        },
        Band::Tail => abs_diff(7 * scale_width, 1000 * r),
    }
}

/// The band's terms summed over the rows `base + from` up to, not
/// including, `base + to`.
pub open spec fn band_sum(
    band: Band,
    rows: Seq<u32>,
    scale_width: int,
    base: int,
    from: int,
    to: int,
) -> int
    decreases to - from,
{
    if to <= from {
        0
    } else {
        band_sum(band, rows, scale_width, base, from, to - 1) + band_term(
            band,
            scale_width,
            density(rows, base + to - 1),
        )
    }
}

/// Row `k` of the label at candidate `i`, counted from the label's top: `k`
/// scaled pixels at `50 + i` percent.
pub open spec fn label_row(k: int, units: int, i: int) -> int {
    (k * units * (50 + i)) / 1_728_000
}

/// The row of the coarse crop at which the label of candidate `i` starts.
///
/// Half a line height above the bottom at 50%, a full line height below the
/// top at 100%, and in proportion between.
pub open spec fn label_top(crop_height: int, units: int, i: int) -> int {
    let line = units / 720;
    let nearest = line / 2;
    let farthest = monus(crop_height, line);
    monus(crop_height, nearest + (i * monus(farthest, nearest)) / 50)
}

/// The width of one slot at candidate `i`.
pub open spec fn slot_width(crop_width: int, i: int) -> int {
    (crop_width * (50 + i)) / 100
}

/// How badly a candidate scale fits: a rational, in hundredths of a pixel.
/// A zero denominator stands for a candidate that cannot be scored, which
/// fits worse than any that can.
#[derive(Clone, Copy, Debug, PartialEq, Eq, Structural)]
pub struct Deviation {
    pub numerator: u64,
    pub denominator: u64,
}

impl Deviation {
    /// `self` is strictly the worse fit.
    pub open spec fn exceeds(self, other: Deviation) -> bool {
        if self.denominator == 0 {
            other.denominator != 0
        } else if other.denominator == 0 {
            false
        } else {
            self.numerator * other.denominator > other.numerator * self.denominator
        }
    }

    /// Decides `exceeds`.
    pub fn is_worse_than(&self, other: &Deviation) -> (b: bool)
        ensures
            b == self.exceeds(*other),
    {
        if self.denominator == 0 {
            other.denominator != 0
        } else if other.denominator == 0 {
            false
        } else {
            proof {
                lemma_product_bounded(
                    self.numerator as int,
                    other.denominator as int,
                    u64::MAX as int,
                    u64::MAX as int,
                );
                lemma_product_bounded(
                    other.numerator as int,
                    self.denominator as int,
                    u64::MAX as int,
                    u64::MAX as int,
                );
            }
            let left: u128 = (self.numerator as u128) * (other.denominator as u128);
            let right: u128 = (other.numerator as u128) * (self.denominator as u128);
            left > right
        }
    }
}

/// The deviation of candidate `i`: the mean term of each band, summed.
///
/// The head spans label rows 2 to 4 inclusive, the middle the rows after
/// that up to row 16, the tail rows 16 up to 21. The middle is averaged over
/// one row fewer than it spans and the tail likewise; a candidate for which
/// either divisor is not positive cannot be scored.
pub open spec fn candidate_deviation(
    rows: Seq<u32>,
    crop_width: int,
    crop_height: int,
    units: int,
    i: int,
) -> Deviation {
    let base = label_top(crop_height, units, i);
    let sw = slot_width(crop_width, i);
    let e2 = label_row(2, units, i);
    let e4 = label_row(4, units, i);
    let e16 = label_row(16, units, i);
    let e21 = label_row(21, units, i);
    let n_head = e4 - e2 + 1;
    let n_middle = e16 - e4 - 2;
    let n_tail = e21 - e16 - 1;
    if n_middle <= 0 || n_tail <= 0 {
        Deviation { numerator: 0, denominator: 0 }
    } else {
        let head = band_sum(Band::Head, rows, sw, base, e2, e4 + 1);
        let middle = band_sum(Band::Middle, rows, sw, base, e4 + 1, e16);
        let tail = band_sum(Band::Tail, rows, sw, base, e16, e21);
        Deviation {
            numerator: (head * n_middle * n_tail + middle * n_head * n_tail + tail * n_head
                * n_middle) as u64,
            denominator: (n_head * n_middle * n_tail) as u64,
        }
    }
}

/// The screen scale of a bitmap, times `REFERENCE_UNITS`.
pub fn screen_scale_units(image: &Image) -> (u: u64)
    ensures
        u == scale_units(image@.width as int, image@.height as int),
        u <= 9 * MAX_DIMENSION,
{
    let w: u64 = image.width() as u64;
    let h: u64 = image.height() as u64;
    if 9 * w > 16 * h {
        16 * h
    } else {
        9 * w
    }
}

/// The rectangle of a screenshot that holds the banner at any interface
/// scale.
pub fn coarse_region(image: &Image) -> (r: Rect)
    ensures
        r == coarse_rect(image@.width as int, image@.height as int),
{
    let w: u64 = image.width() as u64;
    let h: u64 = image.height() as u64;
    let u: u64 = screen_scale_units(image);
    Rect {
        x: ((17280 * w - 968 * u) / 34560) as u32,
        y: ((8640 * h - 129 * u) / 17280) as u32,
        width: ((968 * u) / 17280) as u32,
        height: ((177 * u) / 34560) as u32,
    }
}

/// For each row of the bitmap, how many of its pixels the skin accepts.
pub fn row_histogram(image: &Image, theme: &Theme) -> (rows: Vec<u32>)
    ensures
        rows@ == row_densities(image@, *theme),
        forall|y: int| 0 <= y < rows@.len() ==> #[trigger] rows@[y] <= image@.width,
{
    proof {
        use_type_invariant(image);
    }
    let width = image.width();
    let height = image.height();
    let mut rows: Vec<u32> = Vec::new();
    let mut y: u32 = 0;
    while y < height
        invariant
            y <= height,
            height == image@.height,
            width == image@.width,
            image@.well_formed(),
            rows@.len() == y,
            forall|k: int|
                0 <= k < y ==> #[trigger] rows@[k] == count_accepted(image@.pixels[k], *theme),
            forall|k: int| 0 <= k < y ==> #[trigger] rows@[k] <= width,
        decreases height - y,
    {
        let mut count: u32 = 0;
        let mut x: u32 = 0;
        while x < width
            invariant
                x <= width,
                y < height,
                height == image@.height,
                width == image@.width,
                image@.well_formed(),
                count <= x,
                count == count_accepted(image@.pixels[y as int].subrange(0, x as int), *theme),
            decreases width - x,
        {
            let pixel = image.get_pixel(x, y);
            proof {
                let row = image@.pixels[y as int];
                assert(row.subrange(0, x + 1).drop_last() =~= row.subrange(0, x as int));
                assert(row.subrange(0, x + 1).last() == pixel);
            }
            if theme.matches(pixel) {
                count = count + 1;
            }
            x = x + 1;
        }
        proof {
            let row = image@.pixels[y as int];
            assert(row.subrange(0, width as int) =~= row);
        }
        rows.push(count);
        y = y + 1;
    }
    assert(rows@ =~= row_densities(image@, *theme));
    rows
}

/// The largest value a band term can take for a bitmap of legal size.
pub const TERM_MAX: u64 = 65_535_000;

fn density_at(rows: &Vec<u32>, y: u64) -> (r: u64)
    ensures
        r == density(rows@, y as int),
{
    if y < rows.len() as u64 {
        rows[y as usize] as u64
    } else {
        0
    }
}

fn term_of(band: Band, scale_width: u64, r: u64) -> (t: u64)
    requires
        scale_width <= MAX_DIMENSION,
        r <= MAX_DIMENSION,
    ensures
        t == band_term(band, scale_width as int, r as int),
        t <= TERM_MAX,
{
    match band {
        Band::Head => {
            if 6 * scale_width >= 100 * r {
                6 * scale_width - 100 * r
            } else {
                100 * r - 6 * scale_width
            }
        },
        Band::Middle => {
            if r < scale_width / 15 {
                5 * (26 * scale_width - 100 * r)
            } else if 24 * scale_width >= 100 * r {
                24 * scale_width - 100 * r
            } else {
                100 * r - 24 * scale_width
            }
        },
        Band::Tail => {
            if 7 * scale_width >= 1000 * r {
                7 * scale_width - 1000 * r
            } else {
                1000 * r - 7 * scale_width
            }
        },
    }
}

fn band_total(band: Band, rows: &Vec<u32>, scale_width: u64, base: u64, from: u64, to: u64) -> (total:
    u64)
    requires
        scale_width <= MAX_DIMENSION,
        base <= MAX_DIMENSION,
        to <= 1000,
        forall|y: int| 0 <= y < rows@.len() ==> #[trigger] rows@[y] <= MAX_DIMENSION,
    ensures
        total == band_sum(band, rows@, scale_width as int, base as int, from as int, to as int),
        total <= 1000 * TERM_MAX,
{
    let mut total: u64 = 0;
    if to <= from {
        return total;
    }
    let mut loc: u64 = from;
    while loc < to
        invariant
            from <= loc <= to <= 1000,
            scale_width <= MAX_DIMENSION,
            base <= MAX_DIMENSION,
            forall|y: int| 0 <= y < rows@.len() ==> #[trigger] rows@[y] <= MAX_DIMENSION,
            total == band_sum(
                band,
                rows@,
                scale_width as int,
                base as int,
                from as int,
                loc as int,
            ),
            total <= (loc - from) * TERM_MAX,
        decreases to - loc,
    {
        let r = density_at(rows, base + loc);
        let t = term_of(band, scale_width, r);
        total = total + t;
        loc = loc + 1;
    }
    total
}

fn label_row_of(k: u64, units: u64, i: u64) -> (row: u64)
    requires
        k <= 21,
        units <= 9 * MAX_DIMENSION,
        i < CANDIDATE_COUNT,
    ensures
        row == label_row(k as int, units as int, i as int),
        row <= 709,
{
    proof {
        lemma_product_bounded(k as int, units as int, 21, 589_815);
        lemma_product_bounded((k * units) as int, (50 + i) as int, 12_386_115, 99);
    }
    (k * units * (50 + i)) / 1_728_000
}

fn label_top_of(crop_height: u64, units: u64, i: u64) -> (top: u64)
    requires
        crop_height <= MAX_DIMENSION,
        units <= 9 * MAX_DIMENSION,
        i < CANDIDATE_COUNT,
    ensures
        top == label_top(crop_height as int, units as int, i as int),
        top <= crop_height,
{
    let line: u64 = units / 720;
    let nearest: u64 = line / 2;
    let farthest: u64 = if crop_height >= line {
        crop_height - line
    } else {
        0
    };
    let span: u64 = if farthest >= nearest {
        farthest - nearest
    } else {
        0
    };
    proof {
        lemma_product_bounded(i as int, span as int, 49, 65535);
    }
    let place: u64 = nearest + (i * span) / 50;
    if crop_height >= place {
        crop_height - place
    } else {
        0
    }
}

fn deviation_of(rows: &Vec<u32>, crop_width: u32, crop_height: u32, units: u64, i: u64) -> (d:
    Deviation)
    requires
        crop_width <= MAX_DIMENSION,
        crop_height <= MAX_DIMENSION,
        units <= 9 * MAX_DIMENSION,
        i < CANDIDATE_COUNT,
        forall|y: int| 0 <= y < rows@.len() ==> #[trigger] rows@[y] <= MAX_DIMENSION,
    ensures
        d == candidate_deviation(
            rows@,
            crop_width as int,
            crop_height as int,
            units as int,
            i as int,
        ),
{
    let base = label_top_of(crop_height as u64, units, i);
    proof {
        lemma_product_bounded(crop_width as int, (50 + i) as int, 65535, 99);
    }
    let sw: u64 = ((crop_width as u64) * (50 + i)) / 100;
    let e2 = label_row_of(2, units, i);
    let e4 = label_row_of(4, units, i);
    let e16 = label_row_of(16, units, i);
    let e21 = label_row_of(21, units, i);
    proof {
        let s = (50 + i) as int;
        assert(2 * units * s <= 4 * units * s) by (nonlinear_arith)
            requires
                units >= 0,
                s >= 0,
        ;
    }
    if e16 < e4 + 3 || e21 < e16 + 2 {
        return Deviation { numerator: 0, denominator: 0 };
    }
    let n_head: u64 = e4 - e2 + 1;
    let n_middle: u64 = e16 - e4 - 2;
    let n_tail: u64 = e21 - e16 - 1;
    let head = band_total(Band::Head, rows, sw, base, e2, e4 + 1);
    let middle = band_total(Band::Middle, rows, sw, base, e4 + 1, e16);
    let tail = band_total(Band::Tail, rows, sw, base, e16, e21);
    proof {
        let cap = 1000 * TERM_MAX as int;
        lemma_product_bounded(head as int, n_middle as int, cap, 710);
        lemma_product_bounded((head * n_middle) as int, n_tail as int, cap * 710, 710);
        lemma_product_bounded(middle as int, n_head as int, cap, 710);
        lemma_product_bounded((middle * n_head) as int, n_tail as int, cap * 710, 710);
        lemma_product_bounded(tail as int, n_head as int, cap, 710);
        lemma_product_bounded((tail * n_head) as int, n_middle as int, cap * 710, 710);
        lemma_product_bounded(n_head as int, n_middle as int, 710, 710);
        lemma_product_bounded((n_head * n_middle) as int, n_tail as int, 504_100int, 710);
    }
    Deviation {
        numerator: head * n_middle * n_tail + middle * n_head * n_tail + tail * n_head * n_middle,
        denominator: n_head * n_middle * n_tail,
    }
}

/// The deviation of each of the fifty candidate scales of a coarse crop.
pub open spec fn candidate_deviations(rows: Seq<u32>, crop_width: int, crop_height: int, units: int) -> Seq<
    Deviation,
> {
    Seq::new(
        CANDIDATE_COUNT as nat,
        |i: int| candidate_deviation(rows, crop_width, crop_height, units, i),
    )
}

fn deviations_of(rows: &Vec<u32>, crop_width: u32, crop_height: u32, units: u64) -> (all: Vec<
    Deviation,
>)
    requires
        crop_width <= MAX_DIMENSION,
        crop_height <= MAX_DIMENSION,
        units <= 9 * MAX_DIMENSION,
        forall|y: int| 0 <= y < rows@.len() ==> #[trigger] rows@[y] <= MAX_DIMENSION,
    ensures
        all@ == candidate_deviations(
            rows@,
            crop_width as int,
            crop_height as int,
            units as int,
        ),
{
    let mut all: Vec<Deviation> = Vec::new();
    let mut i: usize = 0;
    while i < CANDIDATE_COUNT
        invariant
            i <= CANDIDATE_COUNT,
            crop_width <= MAX_DIMENSION,
            crop_height <= MAX_DIMENSION,
            units <= 9 * MAX_DIMENSION,
            forall|y: int| 0 <= y < rows@.len() ==> #[trigger] rows@[y] <= MAX_DIMENSION,
            all@.len() == i,
            forall|k: int|
                0 <= k < i ==> #[trigger] all@[k] == candidate_deviation(
                    rows@,
                    crop_width as int,
                    crop_height as int,
                    units as int,
                    k,
                ),
        decreases CANDIDATE_COUNT - i,
    {
        all.push(deviation_of(rows, crop_width, crop_height, units, i as u64));
        i = i + 1;
    }
    assert(all@ =~= candidate_deviations(
        rows@,
        crop_width as int,
        crop_height as int,
        units as int,
    ));
    all
}


/// Which of the candidate scales becomes the working scale.
#[derive(Clone, Copy, Debug, PartialEq, Eq, Structural)]
pub enum ScalePolicy {
    /// The head of the ranking of the five best: the lowest deviation, and
    /// of several equally low the one scanned last.
    HighestRanked,
    /// The lowest deviation, and of several equally low the one scanned
    /// first.
    FirstLowest,
}

/// The candidate that the policy picks among the first `n`.
pub open spec fn chosen_among(deviations: Seq<Deviation>, policy: ScalePolicy, n: nat) -> int
    decreases n,
{
    if n <= 1 {
        0
    } else {
        let best = chosen_among(deviations, policy, (n - 1) as nat);
        match policy {
            ScalePolicy::HighestRanked => if deviations[n - 1].exceeds(deviations[best]) {
                best
            } else {
                n - 1
            },
            ScalePolicy::FirstLowest => if deviations[best].exceeds(deviations[n - 1]) {
                n - 1
            } else {
                best
            },
        }
    }
}

/// `k` has the lowest deviation of the first `n`, and where several do, it
/// is the one the policy names.
pub open spec fn is_chosen(deviations: Seq<Deviation>, policy: ScalePolicy, n: int, k: int) -> bool {
    &&& 0 <= k < n
    &&& forall|j: int| 0 <= j < n ==> !deviations[k].exceeds(#[trigger] deviations[j])
    &&& match policy {
        ScalePolicy::HighestRanked => forall|j: int|
            k < j < n ==> (#[trigger] deviations[j]).exceeds(deviations[k]),
        ScalePolicy::FirstLowest => forall|j: int|
            0 <= j < k ==> (#[trigger] deviations[j]).exceeds(deviations[k]),
    }
}

/// Not exceeding is transitive: deviations are ordered like the rationals
/// they stand for, with the unscorable above all.
pub proof fn lemma_not_exceeding_transitive(a: Deviation, b: Deviation, c: Deviation)
    requires
        !a.exceeds(b),
        !b.exceeds(c),
    ensures
        !a.exceeds(c),
{
    if a.denominator != 0 && b.denominator != 0 && c.denominator != 0 {
        let (n1, d1) = (a.numerator as int, a.denominator as int);
        let (n2, d2) = (b.numerator as int, b.denominator as int);
        let (n3, d3) = (c.numerator as int, c.denominator as int);
        assert(n1 * d3 <= n3 * d1) by (nonlinear_arith)
            requires
                n1 * d2 <= n2 * d1,
                n2 * d3 <= n3 * d2,
                d1 > 0,
                d2 > 0,
                d3 > 0,
                n1 >= 0,
                n2 >= 0,
                n3 >= 0,
        {
            assert((n1 * d2) * d3 <= (n2 * d1) * d3);
            assert((n2 * d3) * d1 <= (n3 * d2) * d1);
            assert((n1 * d3) * d2 <= (n3 * d1) * d2);
        }
    }
}

/// The policy's pick has the lowest deviation, and breaks ties as the policy
/// says.
pub proof fn lemma_chosen_is_lowest(deviations: Seq<Deviation>, policy: ScalePolicy, n: nat)
    requires
        1 <= n <= deviations.len(),
    ensures
        is_chosen(deviations, policy, n as int, chosen_among(deviations, policy, n)),
    decreases n,
{
    if n > 1 {
        lemma_chosen_is_lowest(deviations, policy, (n - 1) as nat);
        let best = chosen_among(deviations, policy, (n - 1) as nat);
        let last = deviations[n - 1];
        let k = chosen_among(deviations, policy, n);
        assert forall|j: int| 0 <= j < n implies !deviations[k].exceeds(
            #[trigger] deviations[j],
        ) by {
            if k == n - 1 && j < n - 1 {
                lemma_not_exceeding_transitive(last, deviations[best], deviations[j]);
            }
        }
        match policy {
            ScalePolicy::HighestRanked => {},
            ScalePolicy::FirstLowest => {
                assert forall|j: int| 0 <= j < k implies (#[trigger] deviations[j]).exceeds(
                    deviations[k],
                ) by {
                    if k == n - 1 && !deviations[j].exceeds(last) {
                        lemma_not_exceeding_transitive(deviations[best], deviations[j], last);
                    }
                }
            },
        }
    }
}

/// The candidate that the policy picks from a list of deviations, or
/// `None` where the list is empty.
pub fn select_scale(deviations: &Vec<Deviation>, policy: ScalePolicy) -> (r: Option<usize>)
    ensures
        r is None <==> deviations@.len() == 0,
        r is Some ==> r->0 == chosen_among(deviations@, policy, deviations@.len()),
        r is Some ==> is_chosen(deviations@, policy, deviations@.len() as int, r->0 as int),
{
    if deviations.len() == 0 {
        return None;
    }
    let mut best: usize = 0;
    let mut i: usize = 1;
    while i < deviations.len()
        invariant
            1 <= i <= deviations.len(),
            best < i,
            best == chosen_among(deviations@, policy, i as nat),
        decreases deviations.len() - i,
    {
        match policy {
            ScalePolicy::HighestRanked => {
                if !deviations[i].is_worse_than(&deviations[best]) {
                    best = i;
                }
            },
            ScalePolicy::FirstLowest => {
                if deviations[best].is_worse_than(&deviations[i]) {
                    best = i;
                }
            },
        }
        i = i + 1;
    }
    proof {
        lemma_chosen_is_lowest(deviations@, policy, deviations@.len());
    }
    Some(best)
}

/// Candidate `a` ranks before candidate `b`: it deviates less, or equally
/// and was scanned later.
pub open spec fn ranks_before(deviations: Seq<Deviation>, a: int, b: int) -> bool {
    deviations[b].exceeds(deviations[a]) || (!deviations[a].exceeds(deviations[b]) && a > b)
}

/// `ranking` holds the five candidates that rank first among the first `n`,
/// or all of them where there are fewer, in the order of their rank.
pub open spec fn is_ranking(deviations: Seq<Deviation>, n: int, ranking: Seq<usize>) -> bool {
    &&& ranking.len() == if n < 5 {
        n
    } else {
        5
    }
    &&& forall|p: int| 0 <= p < ranking.len() ==> #[trigger] ranking[p] < n
    &&& forall|p: int, q: int|
        0 <= p < q < ranking.len() ==> ranks_before(
            deviations,
            #[trigger] ranking[p] as int,
            #[trigger] ranking[q] as int,
        )
    &&& forall|j: int|
        0 <= j < n ==> #[trigger] ranking.contains(j as usize) || (ranking.len() == 5
            && ranks_before(deviations, ranking[4] as int, j))
}

/// Ranking before is transitive.
pub proof fn lemma_ranks_before_transitive(deviations: Seq<Deviation>, a: int, b: int, c: int)
    requires
        ranks_before(deviations, a, b),
        ranks_before(deviations, b, c),
    ensures
        ranks_before(deviations, a, c),
{
    let (x, y, z) = (deviations[a], deviations[b], deviations[c]);
    lemma_not_exceeding_transitive(x, y, z);
    if !z.exceeds(x) {
        if y.exceeds(x) {
            lemma_not_exceeding_transitive(y, z, x);
        }
        if z.exceeds(y) {
            lemma_not_exceeding_transitive(z, x, y);
        }
    }
}

/// The five best candidates, best first: fewer where there are fewer
/// candidates.
///
/// Each candidate in turn takes its place before every retained candidate
/// that it does not exceed, and the sixth is dropped. The head is what
/// `ScalePolicy::HighestRanked` picks.
pub fn rank_top_five(deviations: &Vec<Deviation>) -> (ranking: Vec<usize>)
    ensures
        is_ranking(deviations@, deviations@.len() as int, ranking@),
        deviations@.len() >= 1 ==> ranking@[0] == chosen_among(
            deviations@,
            ScalePolicy::HighestRanked,
            deviations@.len(),
        ),
{
    let mut ranking: Vec<usize> = Vec::new();
    let mut i: usize = 0;
    while i < deviations.len()
        invariant
            i <= deviations.len(),
            is_ranking(deviations@, i as int, ranking@),
            i >= 1 ==> ranking@[0] == chosen_among(
                deviations@,
                ScalePolicy::HighestRanked,
                i as nat,
            ),
        decreases deviations.len() - i,
    {
        let mut place: usize = 0;
        while place < ranking.len() && deviations[i].is_worse_than(&deviations[ranking[place]])
            invariant
                place <= ranking@.len(),
                i < deviations.len(),
                forall|p: int| 0 <= p < ranking@.len() ==> #[trigger] ranking@[p] < i,
                forall|p: int|
                    0 <= p < place ==> deviations@[i as int].exceeds(
                        deviations@[#[trigger] ranking@[p] as int],
                    ),
            decreases ranking@.len() - place,
        {
            place = place + 1;
        }
        let ghost before = ranking@;
        proof {
            // the newcomer ranks behind what it exceeds and before all the rest
            assert forall|p: int| 0 <= p < before.len() implies if p < place {
                ranks_before(deviations@, #[trigger] before[p] as int, i as int)
            } else {
                ranks_before(deviations@, i as int, before[p] as int)
            } by {
                if p > place {
                    assert(ranks_before(
                        deviations@,
                        before[place as int] as int,
                        before[p] as int,
                    ));
                    lemma_not_exceeding_transitive(
                        deviations@[i as int],
                        deviations@[before[place as int] as int],
                        deviations@[before[p] as int],
                    );
                }
            }
        }
        if place < 5 {
            ranking.insert(place, i);
            let ghost grown = ranking@;
            if ranking.len() > 5 {
                ranking.truncate(5);
            }
            proof {
                let after = ranking@;
                assert forall|p: int| 0 <= p < after.len() implies #[trigger] after[p] == (if p
                    < place {
                    before[p]
                } else if p == place {
                    i
                } else {
                    before[p - 1]
                }) by {
                    assert(after[p] == grown[p]);
                }
                assert forall|p: int, q: int| 0 <= p < q < after.len() implies ranks_before(
                    deviations@,
                    #[trigger] after[p] as int,
                    #[trigger] after[q] as int,
                ) by {
                    if p < place && q > place {
                        assert(ranks_before(deviations@, before[p] as int, before[q - 1] as int));
                    } else if p > place {
                        assert(ranks_before(
                            deviations@,
                            before[p - 1] as int,
                            before[q - 1] as int,
                        ));
                    } else if q < place {
                        assert(ranks_before(deviations@, before[p] as int, before[q] as int));
                    }
                }
                assert forall|j: int| 0 <= j < i + 1 implies #[trigger] after.contains(j as usize)
                    || (after.len() == 5 && ranks_before(deviations@, after[4] as int, j)) by {
                    if j == i {
                        assert(after[place as int] == i);
                    } else if before.contains(j as usize) {
                        let p = choose|p: int| 0 <= p < before.len() && before[p] == j as usize;
                        if p < place {
                            assert(after[p] == j as usize);
                        } else if p + 1 < after.len() {
                            assert(after[p + 1] == j as usize);
                        } else {
                            // the sixth is dropped: it ranks behind the new fifth
                            assert(p == 4 && after.len() == 5);
                            if place < 4 {
                                assert(after[4] == before[3]);
                                assert(ranks_before(
                                    deviations@,
                                    before[3] as int,
                                    before[4] as int,
                                ));
                            }
                        }
                    } else {
                        assert(ranks_before(deviations@, before[4] as int, j));
                        if place < 4 {
                            assert(after[4] == before[3]);
                            assert(ranks_before(deviations@, before[3] as int, before[4] as int));
                        }
                        lemma_ranks_before_transitive(
                            deviations@,
                            after[4] as int,
                            before[4] as int,
                            j,
                        );
                    }
                }
            }
        } else {
            proof {
                assert forall|j: int| 0 <= j < i + 1 implies #[trigger] before.contains(
                    j as usize,
                ) || (before.len() == 5 && ranks_before(deviations@, before[4] as int, j)) by {
                    if j == i {
                        assert(ranks_before(deviations@, before[4] as int, i as int));
                    }
                }
            }
        }
        i = i + 1;
    }
    ranking
}

/// The banner's rectangle inside the coarse crop, once candidate `best` is
/// the working scale.
///
/// The width and the top use the scale one percent above the candidate's.
/// The bottom does too, but for the very first candidate, where it uses 50%.
pub open spec fn fine_rect(crop_width: int, units: int, best: int) -> Rect {
    let high = best + 51;
    let low = if best > 0 {
        best + 51
    } else {
        50
    };
    Rect {
        x: (monus(1_728_000 * crop_width, 968 * units * high) / 3_456_000) as u32,
        y: ((129 * units * (100 - high)) / 1_728_000) as u32,
        width: ((968 * units * high) / 1_728_000) as u32,
        height: ((units * (129 * high - 81 * low)) / 1_728_000) as u32,
    }
}

fn fine_region(crop_width: u32, units: u64, best: usize) -> (r: Rect)
    requires
        crop_width <= MAX_DIMENSION,
        units <= 9 * MAX_DIMENSION,
        best < CANDIDATE_COUNT,
    ensures
        r == fine_rect(crop_width as int, units as int, best as int),
{
    let high: u64 = best as u64 + 51;
    let low: u64 = if best > 0 {
        best as u64 + 51
    } else {
        50
    };
    proof {
        lemma_product_bounded((968 * units) as int, high as int, 570_940_920int, 100);
        lemma_product_bounded((129 * units) as int, (100 - high) as int, 76_086_135int, 49);
        lemma_product_bounded(units as int, (129 * high - 81 * low) as int, 589_815, 12_900);
    }
    let reach: u64 = 968 * units * high;
    let room: u64 = 1_728_000 * (crop_width as u64);
    let slack: u64 = if room >= reach {
        room - reach
    } else {
        0
    };
    Rect {
        x: (slack / 3_456_000) as u32,
        y: ((129 * units * (100 - high)) / 1_728_000) as u32,
        width: (reach / 1_728_000) as u32,
        height: ((units * (129 * high - 81 * low)) / 1_728_000) as u32,
    }
}

/// The candidate that becomes the working scale of a screenshot.
pub open spec fn working_candidate(grid: Grid, theme: Theme, policy: ScalePolicy) -> int {
    let units = scale_units(grid.width as int, grid.height as int);
    let coarse = coarse_rect(grid.width as int, grid.height as int);
    let crop = grid.crop(
        coarse.x as int,
        coarse.y as int,
        coarse.width as int,
        coarse.height as int,
    );
    chosen_among(
        candidate_deviations(
            row_densities(crop, theme),
            crop.width as int,
            crop.height as int,
            units,
        ),
        policy,
        CANDIDATE_COUNT as nat,
    )
}

/// The reward banner of a screenshot: the coarse crop, cut down to the
/// rectangle of the working scale.
pub open spec fn banner_of(grid: Grid, theme: Theme, policy: ScalePolicy) -> Grid {
    let units = scale_units(grid.width as int, grid.height as int);
    let coarse = coarse_rect(grid.width as int, grid.height as int);
    let crop = grid.crop(
        coarse.x as int,
        coarse.y as int,
        coarse.width as int,
        coarse.height as int,
    );
    let fine = fine_rect(crop.width as int, units, working_candidate(grid, theme, policy));
    crop.crop(fine.x as int, fine.y as int, fine.width as int, fine.height as int)
}

/// The deviation of each of the fifty candidate scales of a screenshot,
/// from 50% up.
///
/// Fails exactly where the skin has no rule.
pub fn scale_deviations(image: &Image, theme: &Theme) -> (r: Result<Vec<Deviation>, ThemeError>)
    ensures
        r is Ok <==> theme.has_rule(),
        r is Err ==> r->Err_0 == ThemeError::UnsupportedTheme,
        r is Ok ==> r->Ok_0@ == ({
            let coarse = coarse_rect(image@.width as int, image@.height as int);
            let crop = image@.crop(
                coarse.x as int,
                coarse.y as int,
                coarse.width as int,
                coarse.height as int,
            );
            candidate_deviations(
                row_densities(crop, *theme),
                crop.width as int,
                crop.height as int,
                scale_units(image@.width as int, image@.height as int),
            )
        }),
{
    match theme {
        Theme::Unknown => Err(ThemeError::UnsupportedTheme),
        _ => {
            let units = screen_scale_units(image);
            let coarse = coarse_region(image);
            let crop = image.crop(coarse.x, coarse.y, coarse.width, coarse.height);
            let rows = row_histogram(&crop, theme);
            Ok(deviations_of(&rows, crop.width(), crop.height(), units))
        },
    }
}

/// The interface scale of a screenshot in percent, 50 to 99.
///
/// Fails exactly where the skin has no rule.
pub fn detect_scale(image: &Image, theme: &Theme, policy: ScalePolicy) -> (r: Result<
    u32,
    ThemeError,
>)
    ensures
        r == if theme.has_rule() {
            Ok::<u32, ThemeError>((50 + working_candidate(image@, *theme, policy)) as u32)
        } else {
            Err::<u32, ThemeError>(ThemeError::UnsupportedTheme)
        },
        r is Ok ==> 50 <= r->Ok_0 <= 99,
{
    match theme {
        Theme::Unknown => Err(ThemeError::UnsupportedTheme),
        _ => {
            let coarse = coarse_region(image);
            let crop = image.crop(coarse.x, coarse.y, coarse.width, coarse.height);
            let best = working_scale(image, &crop, theme, policy);
            Ok(50 + best as u32)
        },
    }
}

fn working_scale(image: &Image, crop: &Image, theme: &Theme, policy: ScalePolicy) -> (best: usize)
    requires
        crop@ == ({
            let coarse = coarse_rect(image@.width as int, image@.height as int);
            image@.crop(
                coarse.x as int,
                coarse.y as int,
                coarse.width as int,
                coarse.height as int,
            )
        }),
    ensures
        best == working_candidate(image@, *theme, policy),
        best < CANDIDATE_COUNT,
{
    let units = screen_scale_units(image);
    let rows = row_histogram(crop, theme);
    let deviations = deviations_of(&rows, crop.width(), crop.height(), units);
    match policy {
        ScalePolicy::HighestRanked => {
            let ranking = rank_top_five(&deviations);
            ranking[0]
        },
        ScalePolicy::FirstLowest => match select_scale(&deviations, policy) {
            Some(best) => best,
            None => 0,
        },
    }
}

/// The reward banner of a screenshot.
///
/// A screenshot without any pixel of the skin's colour still yields a
/// banner. Fails exactly where the skin has no rule.
pub fn reward_banner(image: &Image, theme: &Theme, policy: ScalePolicy) -> (r: Result<
    Image,
    ThemeError,
>)
    ensures
        r is Ok <==> theme.has_rule(),
        r is Ok ==> r->Ok_0@ == banner_of(image@, *theme, policy),
        r is Err ==> r->Err_0 == ThemeError::UnsupportedTheme,
{
    match theme {
        Theme::Unknown => Err(ThemeError::UnsupportedTheme),
        _ => {
            let units = screen_scale_units(image);
            let coarse = coarse_region(image);
            let crop = image.crop(coarse.x, coarse.y, coarse.width, coarse.height);
            let best = working_scale(image, &crop, theme, policy);
            let fine = fine_region(crop.width(), units, best);
            Ok(crop.crop(fine.x, fine.y, fine.width, fine.height))
        },
    }
}


/// The slots of a screenshot: those of its banner, given whether the
/// positive side of the wave outweighs the negative there.
pub open spec fn parts_of(grid: Grid, theme: Theme, policy: ScalePolicy, odd_outweighs: bool) -> Seq<
    Grid,
> {
    slots_of(banner_of(grid, theme, policy), theme, odd_outweighs)
}

/// The reward slots of a screenshot, left to right, with the working scale
/// picked by `policy`.
///
/// Each slot is binarized. The weigher is asked which side of the wave
/// outweighs the other on the banner; the slots are what `parts_of` makes
/// of its answer. The result is empty where the screenshot shows no reward
/// screen. Fails exactly where the skin has no rule.
pub fn extract_parts_with<W: Weigher>(
    image: &Image,
    theme: Theme,
    policy: ScalePolicy,
    weigher: &mut W,
) -> (r: Result<Vec<Image>, ThemeError>)
    ensures
        r is Ok <==> theme.has_rule(),
        r is Err ==> r->Err_0 == ThemeError::UnsupportedTheme,
        r is Ok ==> are_slots(r->Ok_0@, parts_of(image@, theme, policy, true)) || are_slots(
            r->Ok_0@,
            parts_of(image@, theme, policy, false),
        ),
        r is Ok ==> (r->Ok_0@.len() == 0 <==> !carries_weight(
            capped_counts(banner_of(image@, theme, policy), theme),
        )),
{
    match reward_banner(image, &theme, policy) {
        Ok(banner) => filter_and_separate_parts_from_part_box(banner, theme, weigher),
        Err(e) => Err(e),
    }
}

/// The reward slots of a screenshot, left to right, at the scale that heads
/// the ranking.
pub fn extract_parts<W: Weigher>(image: &Image, theme: Theme, weigher: &mut W) -> (r: Result<
    Vec<Image>,
    ThemeError,
>)
    ensures
        r is Ok <==> theme.has_rule(),
        r is Err ==> r->Err_0 == ThemeError::UnsupportedTheme,
        r is Ok ==> are_slots(
            r->Ok_0@,
            parts_of(image@, theme, ScalePolicy::HighestRanked, true),
        ) || are_slots(r->Ok_0@, parts_of(image@, theme, ScalePolicy::HighestRanked, false)),
        r is Ok ==> (r->Ok_0@.len() == 0 <==> !carries_weight(
            capped_counts(banner_of(image@, theme, ScalePolicy::HighestRanked), theme),
        )),
{
    extract_parts_with(image, theme, ScalePolicy::HighestRanked, weigher)
}

/// A screenshot without a single pixel of the skin's colour has no slots,
/// whatever its size, the policy and a weigher's answer.
pub proof fn lemma_blank_screenshot_has_no_slots(
    grid: Grid,
    theme: Theme,
    policy: ScalePolicy,
    odd_outweighs: bool,
)
    requires
        grid.well_formed(),
        forall|x: int, y: int|
            0 <= x < grid.width && 0 <= y < grid.height ==> !theme.accepts(
                #[trigger] grid.pixels[y][x],
            ),
    ensures
        parts_of(grid, theme, policy, odd_outweighs).len() == 0,
{
    let units = scale_units(grid.width as int, grid.height as int);
    let coarse = coarse_rect(grid.width as int, grid.height as int);
    let crop = grid.crop(
        coarse.x as int,
        coarse.y as int,
        coarse.width as int,
        coarse.height as int,
    );
    crate::bitmap::lemma_crop(
        grid,
        coarse.x as int,
        coarse.y as int,
        coarse.width as int,
        coarse.height as int,
    );
    let fine = fine_rect(crop.width as int, units, working_candidate(grid, theme, policy));
    let banner = crop.crop(fine.x as int, fine.y as int, fine.width as int, fine.height as int);
    crate::bitmap::lemma_crop(
        crop,
        fine.x as int,
        fine.y as int,
        fine.width as int,
        fine.height as int,
    );
    assert(banner == banner_of(grid, theme, policy));
    assert forall|x: int, y: int|
        0 <= x < banner.width && 0 <= y < banner.height implies !theme.accepts(
        #[trigger] banner.pixels[y][x],
    ) by {
        let (left, top, w, h) = crop.clamp(
            fine.x as int,
            fine.y as int,
            fine.width as int,
            fine.height as int,
        );
        let (left0, top0, w0, h0) = grid.clamp(
            coarse.x as int,
            coarse.y as int,
            coarse.width as int,
            coarse.height as int,
        );
        assert(banner.pixels[y][x] == crop.pixels[top + y][left + x]);
        assert(crop.pixels[top + y][left + x] == grid.pixels[top0 + top + y][left0 + left + x]);
    }
    crate::segmenter::lemma_blank_banner_has_no_slots(banner, theme, odd_outweighs);
}


} // verus!
