//! Telling which skin a screenshot is drawn in.
//!
//! Every pixel of a sample region votes for the named skin whose primary
//! colour is nearest to it, from the distance at which it stands. The votes
//! are tallied here by skin and distance. Which skin the tally favours is
//! for a `Weigher` to say, since a vote weighs the inverse fourth power of
//! one more than its distance; the skin returned is always one that was
//! voted for.

use crate::arith::{lemma_product_bounded, monus};
use crate::bitmap::{Grid, Image, MAX_DIMENSION};
use crate::color::Rgb;
use crate::locator::{scale_units, screen_scale_units};
use crate::theme::{Theme, SKIN_COUNT};
use crate::weighing::{Weigher, DISTANCES};
use vstd::prelude::*;

verus! {

/// How many entries a tally has: one for each skin and distance.
pub const TALLY_LEN: usize = 11490;

/// The first row of the sample: half a label line below the top.
pub open spec fn first_sample_row(grid: Grid) -> int {
    scale_units(grid.width as int, grid.height as int) / 720
}

/// How many columns of row `y` lie in the sample region, which widens from
/// a quarter of the banner's width at its first row to half of it at the
/// bottom of the screen.
pub open spec fn sample_span(grid: Grid, y: int) -> int {
    let u = scale_units(grid.width as int, grid.height as int);
    (242 * u * (720 * (grid.height + y) - 2 * u)) / (17280 * (720 * grid.height - u))
}

/// The column at which the sample of row `y` starts: half of what the row's
/// span leaves of the banner's width.
pub open spec fn sample_start(grid: Grid, y: int) -> int {
    let u = scale_units(grid.width as int, grid.height as int);
    ((242 * u * (2160 * grid.height - 720 * y - 2 * u)) / (17280 * (720 * grid.height - u))) / 2
}

/// How many columns of row `y` are sampled: its span, cut to what lies on
/// the bitmap.
pub open spec fn sample_width(grid: Grid, y: int) -> int {
    let span = sample_span(grid, y);
    let room = monus(grid.width as int, sample_start(grid, y));
    if span < room {
        span
    } else {
        room
    }
}

/// Whether a pixel of this colour votes for named skin `k` from distance
/// `d`: one if it does, zero if not.
pub open spec fn pixel_vote(color: Rgb, k: int, d: int) -> int {
    if Theme::nearest_skin(color) == k && Theme::skin_distance(k, color) == d {
        1
    } else {
        0
    }
}

/// How many of the first `n` sampled pixels of row `y` vote for skin `k`
/// from distance `d`.
pub open spec fn row_votes(grid: Grid, y: int, k: int, d: int, n: int) -> int
    decreases n,
{
    if n <= 0 {
        0
    } else {
        row_votes(grid, y, k, d, n - 1) + pixel_vote(
            grid.pixels[y][sample_start(grid, y) + n - 1],
            k,
            d,
        )
    }
}

/// How many sampled pixels of the rows above row `rows` vote for skin `k`
/// from distance `d`.
pub open spec fn votes(grid: Grid, k: int, d: int, rows: int) -> int
    decreases rows,
{
    if rows <= first_sample_row(grid) || rows <= 0 {
        0
    } else {
        votes(grid, k, d, rows - 1) + row_votes(
            grid,
            rows - 1,
            k,
            d,
            sample_width(grid, rows - 1),
        )
    }
}

/// The tally of a screenshot: entry `k * DISTANCES + d` is the number of
/// sampled pixels that vote for skin `k` from distance `d`.
pub open spec fn tally_of(grid: Grid) -> Seq<u64> {
    Seq::new(
        TALLY_LEN as nat,
        |j: int| votes(grid, j / (DISTANCES as int), j % (DISTANCES as int), grid.height as int) as u64,
    )
}

/// Whether the tally holds a vote for skin `k` among the first `n`
/// distances.
pub open spec fn voted_within(tally: Seq<u64>, k: int, n: int) -> bool {
    exists|d: int| 0 <= d < n && #[trigger] tally[k * DISTANCES + d] > 0
}

/// Whether the tally holds a vote for skin `k`.
pub open spec fn voted(tally: Seq<u64>, k: int) -> bool {
    voted_within(tally, k, DISTANCES as int)
}

/// The first of the first `n` skins that the tally holds a vote for.
pub open spec fn first_voted(tally: Seq<u64>, n: int) -> Option<int>
    decreases n,
{
    if n <= 0 {
        None
    } else {
        match first_voted(tally, n - 1) {
            Some(k) => Some(k),
            None => if voted(tally, n - 1) {
                Some(n - 1)
            } else {
                None
            },
        }
    }
}

/// The skin that a tally and a weigher's pick make: the picked skin where
/// that is a named skin with a vote, else the first skin with a vote, and
/// none where there is no vote at all.
pub open spec fn picked(tally: Seq<u64>, pick: int) -> Option<Theme> {
    if 0 <= pick < SKIN_COUNT && voted(tally, pick) {
        Some(Theme::skins()[pick])
    } else {
        match first_voted(tally, SKIN_COUNT as int) {
            Some(k) => Some(Theme::skins()[k]),
            None => None,
        }
    }
}

/// What `first_voted` finds has a vote and is the first to have one; it
/// finds nothing only where no skin has a vote.
pub proof fn lemma_first_voted(tally: Seq<u64>, n: int)
    requires
        0 <= n,
    ensures
        match first_voted(tally, n) {
            Some(k) => 0 <= k < n && voted(tally, k) && forall|j: int|
                0 <= j < k ==> !#[trigger] voted(tally, j),
            None => forall|j: int| 0 <= j < n ==> !#[trigger] voted(tally, j),
        },
    decreases n,
{
    if n > 0 {
        lemma_first_voted(tally, n - 1);
    }
}

fn tally_row(image: &Image, y: u32, start: u64, n: u64, tally: &mut Vec<u64>)
    requires
        first_sample_row(image@) <= y < image@.height,
        n > 0 ==> start + n <= image@.width,
        start == sample_start(image@, y as int),
        n == sample_width(image@, y as int),
        old(tally)@.len() == TALLY_LEN,
        forall|j: int|
            0 <= j < TALLY_LEN ==> #[trigger] old(tally)@[j] == votes(
                image@,
                j / (DISTANCES as int),
                j % (DISTANCES as int),
                y as int,
            ),
        forall|j: int| 0 <= j < TALLY_LEN ==> #[trigger] old(tally)@[j] <= y * 65535,
    ensures
        final(tally)@.len() == TALLY_LEN,
        forall|j: int|
            0 <= j < TALLY_LEN ==> #[trigger] final(tally)@[j] == votes(
                image@,
                j / (DISTANCES as int),
                j % (DISTANCES as int),
                y + 1,
            ),
        forall|j: int| 0 <= j < TALLY_LEN ==> #[trigger] final(tally)@[j] <= (y + 1) * 65535,
{
    proof {
        use_type_invariant(image);
    }
    let mut x: u64 = 0;
    while x < n
        invariant
            x <= n,
            first_sample_row(image@) <= y < image@.height,
            image@.well_formed(),
            n > 0 ==> start + n <= image@.width,
            start == sample_start(image@, y as int),
            tally@.len() == TALLY_LEN,
            forall|j: int|
                0 <= j < TALLY_LEN ==> #[trigger] tally@[j] == votes(
                    image@,
                    j / (DISTANCES as int),
                    j % (DISTANCES as int),
                    y as int,
                ) + row_votes(
                    image@,
                    y as int,
                    j / (DISTANCES as int),
                    j % (DISTANCES as int),
                    x as int,
                ),
            forall|j: int| 0 <= j < TALLY_LEN ==> #[trigger] tally@[j] <= y * 65535 + x,
        decreases n - x,
    {
        let pixel = image.get_pixel((start + x) as u32, y);
        let (k, d) = Theme::closest_index(pixel);
        let at: usize = k * DISTANCES + d as usize;
        let ghost before = tally@;
        assert(at / DISTANCES == k && at % DISTANCES == d);
        let count: u64 = tally[at] + 1;
        tally.set(at, count);
        proof {
            assert forall|j: int| 0 <= j < TALLY_LEN implies #[trigger] tally@[j] == votes(
                image@,
                j / (DISTANCES as int),
                j % (DISTANCES as int),
                y as int,
            ) + row_votes(
                image@,
                y as int,
                j / (DISTANCES as int),
                j % (DISTANCES as int),
                x + 1,
            ) by {
                assert(before[j] == votes(
                    image@,
                    j / (DISTANCES as int),
                    j % (DISTANCES as int),
                    y as int,
                ) + row_votes(
                    image@,
                    y as int,
                    j / (DISTANCES as int),
                    j % (DISTANCES as int),
                    x as int,
                ));
                if j != at {
                    assert(j / (DISTANCES as int) != k || j % (DISTANCES as int) != d);
                }
            }
            assert forall|j: int| 0 <= j < TALLY_LEN implies #[trigger] tally@[j] <= y * 65535
                + (x + 1) by {
                assert(before[j] <= y * 65535 + x);
            }
        }
        x = x + 1;
    }
}

/// The tally of a screenshot: for each named skin and each distance, how
/// many pixels of the sample region vote for the skin from that distance.
pub fn skin_tally(image: &Image) -> (tally: Vec<u64>)
    ensures
        tally@ == tally_of(image@),
{
    proof {
        use_type_invariant(image);
    }
    let w: u64 = image.width() as u64;
    let h: u64 = image.height() as u64;
    let u: u64 = screen_scale_units(image);
    let mut tally: Vec<u64> = Vec::new();
    let mut j: usize = 0;
    while j < TALLY_LEN
        invariant
            j <= TALLY_LEN,
            tally@.len() == j,
            forall|i: int| 0 <= i < j ==> #[trigger] tally@[i] == 0,
        decreases TALLY_LEN - j,
    {
        tally.push(0);
        j = j + 1;
    }
    let first: u64 = u / 720;
    if first >= h {
        assert(tally@ =~= tally_of(image@));
        return tally;
    }
    let den: u64 = 17280 * (720 * h - u);
    let mut y: u64 = first;
    while y < h
        invariant
            first <= y <= h,
            first == first_sample_row(image@),
            h == image@.height,
            w == image@.width,
            h <= MAX_DIMENSION,
            w <= MAX_DIMENSION,
            u == scale_units(image@.width as int, image@.height as int),
            u <= 9 * w,
            u <= 16 * h,
            den == 17280 * (720 * h - u),
            tally@.len() == TALLY_LEN,
            forall|j: int|
                0 <= j < TALLY_LEN ==> #[trigger] tally@[j] == votes(
                    image@,
                    j / (DISTANCES as int),
                    j % (DISTANCES as int),
                    y as int,
                ),
            forall|j: int| 0 <= j < TALLY_LEN ==> #[trigger] tally@[j] <= y * 65535,
        decreases h - y,
    {
        proof {
            lemma_product_bounded(
                (242 * u) as int,
                (720 * (h + y) - 2 * u) as int,
                142_735_230,
                94_370_400,
            );
            lemma_product_bounded(
                (242 * u) as int,
                (2160 * h - 720 * y - 2 * u) as int,
                142_735_230,
                141_555_600,
            );
        }
        let span: u64 = (242 * u * (720 * (h + y) - 2 * u)) / den;
        let start: u64 = ((242 * u * (2160 * h - 720 * y - 2 * u)) / den) / 2;
        let room: u64 = if w >= start {
            w - start
        } else {
            0
        };
        let n: u64 = if span < room {
            span
        } else {
            room
        };
        tally_row(image, y as u32, start, n, &mut tally);
        y = y + 1;
    }
    assert(tally@ =~= tally_of(image@));
    tally
}

/// Whether a tally holds a vote for named skin `k`.
pub fn has_votes(tally: &Vec<u64>, k: usize) -> (b: bool)
    requires
        tally@.len() == TALLY_LEN,
        k < SKIN_COUNT,
    ensures
        b == voted(tally@, k as int),
{
    let mut d: usize = 0;
    while d < DISTANCES
        invariant
            d <= DISTANCES,
            k < SKIN_COUNT,
            tally@.len() == TALLY_LEN,
            !voted_within(tally@, k as int, d as int),
        decreases DISTANCES - d,
    {
        if tally[k * DISTANCES + d] > 0 {
            return true;
        }
        d = d + 1;
    }
    false
}

/// The first named skin that a tally holds a vote for.
pub fn first_with_votes(tally: &Vec<u64>) -> (r: Option<usize>)
    requires
        tally@.len() == TALLY_LEN,
    ensures
        match r {
            Some(k) => first_voted(tally@, SKIN_COUNT as int) == Some(k as int) && k < SKIN_COUNT,
            None => first_voted(tally@, SKIN_COUNT as int) is None,
        },
{
    let mut k: usize = 0;
    while k < SKIN_COUNT
        invariant
            k <= SKIN_COUNT,
            tally@.len() == TALLY_LEN,
            first_voted(tally@, k as int) is None,
        decreases SKIN_COUNT - k,
    {
        if has_votes(tally, k) {
            proof {
                lemma_first_voted_stays(tally@, k + 1, SKIN_COUNT as int);
            }
            return Some(k);
        }
        k = k + 1;
    }
    None
}

/// Once a skin with a vote has been found among the first `a`, it is the
/// one found among more.
pub proof fn lemma_first_voted_stays(tally: Seq<u64>, a: int, b: int)
    requires
        0 <= a <= b,
        first_voted(tally, a) is Some,
    ensures
        first_voted(tally, b) == first_voted(tally, a),
    decreases b,
{
    if a < b {
        lemma_first_voted_stays(tally, a, b - 1);
    }
}

/// The skin that a tally and a weigher's pick make.
///
/// The result is a skin with a vote whatever the pick, and `None` exactly
/// where the tally holds no vote.
pub fn theme_of_pick(tally: &Vec<u64>, pick: usize) -> (r: Option<Theme>)
    requires
        tally@.len() == TALLY_LEN,
    ensures
        r == picked(tally@, pick as int),
{
    if pick < SKIN_COUNT && has_votes(tally, pick) {
        Some(Theme::skin(pick))
    } else {
        match first_with_votes(tally) {
            Some(k) => Some(Theme::skin(k)),
            None => None,
        }
    }
}

/// The skin of a screenshot, or `None` where no pixel could be sampled.
///
/// The weigher is asked which skin the tally favours, and only where the
/// tally holds a vote. The result is what `picked` makes of its answer:
/// always a named skin that was voted for.
pub fn detect_theme<W: Weigher>(image: &Image, weigher: &mut W) -> (r: Option<Theme>)
    ensures
        r is None <==> first_voted(tally_of(image@), SKIN_COUNT as int) is None,
        r is Some ==> exists|pick: int| r == #[trigger] picked(tally_of(image@), pick),
        r is Some ==> exists|k: int|
            0 <= k < SKIN_COUNT && voted(tally_of(image@), k) && r == Some(
                #[trigger] Theme::skins()[k],
            ),
{
    let tally = skin_tally(image);
    proof {
        lemma_first_voted(tally@, SKIN_COUNT as int);
    }
    if first_with_votes(&tally).is_none() {
        return None;
    }
    let pick = weigher.heaviest_skin(&tally);
    let r = theme_of_pick(&tally, pick);
    proof {
        assert(r == picked(tally@, pick as int));
        if pick < SKIN_COUNT && voted(tally@, pick as int) {
            assert(r == Some(Theme::skins()[pick as int]));
        } else {
            let k = first_voted(tally@, SKIN_COUNT as int)->0;
            assert(r == Some(Theme::skins()[k]));
        }
    }
    r
}

} // verus!
