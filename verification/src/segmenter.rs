//! Cutting the reward banner into its slots.
//!
//! A banner holds three or four icons of equal width. Four start at the left
//! edge; three are centred, so they start half a slot further right. The two
//! layouts differ in where their label text falls along the banner, and a
//! wave with four periods across the banner, `cos(8 * pi * x / width)`,
//! tells them apart: text of four slots gathers where the wave is negative,
//! text of three where it is positive.
//!
//! On which side of the wave a column stands, what it counts, and whether
//! any text stands off the wave's zero crossings is decided here, exactly.
//! Which side outweighs the other takes the cosine itself and is asked of a
//! `Weigher`.

use crate::bitmap::{Grid, Image, MAX_DIMENSION};
use crate::color::Rgb;
use crate::theme::{Theme, ThemeError};
use crate::weighing::Weigher;
use vstd::prelude::*;

verus! {

/// The colour given to pixels that the skin accepts: black.
pub open spec fn ink() -> Rgb {
    Rgb { red: 0, green: 0, blue: 0 }
}

/// The colour given to every other pixel: white.
pub open spec fn paper() -> Rgb {
    Rgb { red: 255, green: 255, blue: 255 }
}

/// The bitmap with each pixel replaced by `ink()` where the skin accepts it
/// and by `paper()` where it does not.
pub open spec fn binarized(grid: Grid, theme: Theme) -> Grid {
    Grid {
        width: grid.width,
        height: grid.height,
        pixels: Seq::new(
            grid.height,
            |y: int|
                Seq::new(
                    grid.width,
                    |x: int|
                        if theme.accepts(grid.pixels[y][x]) {
                            ink()
                        } else {
                            paper()
                        },
                ),
        ),
    }
}

/// How many of the first `rows` pixels of column `x` the skin accepts.
pub open spec fn column_count(grid: Grid, theme: Theme, x: int, rows: int) -> int
    decreases rows,
{
    if rows <= 0 {
        0
    } else {
        column_count(grid, theme, x, rows - 1) + if theme.accepts(grid.pixels[rows - 1][x]) {
            1int
        } else {
            0int
        }
    }
}

/// The count of a whole column, but no more than a third of the height, so
/// that a solid vertical edge weighs no more than text does.
pub open spec fn capped_count(grid: Grid, theme: Theme, x: int) -> int {
    let full = column_count(grid, theme, x, grid.height as int);
    let cap = grid.height as int / 3;
    if full < cap {
        full
    } else {
        cap
    }
}

/// What the columns of a banner count, left to right, each capped.
pub open spec fn capped_counts(grid: Grid, theme: Theme) -> Seq<u32> {
    Seq::new(grid.width, |x: int| capped_count(grid, theme, x) as u32)
}

/// The sign of the wave `cos(8 * pi * x / width)` at column `x`: 1, 0 or
/// -1.
///
/// With `m` the remainder of `8 * x` by `2 * width`, the angle is
/// `pi * m / width`: the cosine is positive below a quarter turn and above
/// three quarters, zero at the two, and negative between.
pub open spec fn wave_side(x: int, width: int) -> int {
    let m = (8 * x) % (2 * width);
    if 2 * m < width || 2 * m > 3 * width {
        1
    } else if 2 * m == width || 2 * m == 3 * width {
        0
    } else {
        -1
    }
}

/// Whether some column among the first `n` counts something and stands off
/// the wave's zero crossings.
pub open spec fn weighs_within(counts: Seq<u32>, n: int) -> bool {
    exists|x: int| 0 <= x < n && #[trigger] counts[x] > 0 && wave_side(x, counts.len() as int) != 0
}

/// Whether the two sides of the wave do not both weigh nothing: some column
/// counts something and stands off the wave's zero crossings.
pub open spec fn carries_weight(counts: Seq<u32>) -> bool {
    weighs_within(counts, counts.len() as int)
}

/// How many slots the banner holds and where the first starts.
#[derive(Clone, Copy, Debug, PartialEq, Eq, Structural)]
pub struct Layout {
    pub slots: u32,
    pub left: u32,
    pub slot_width: u32,
}

/// The layout of a banner, given whether the positive side of the wave
/// outweighs the negative.
///
/// No slots where both sides weigh nothing: there is no reward screen. Else
/// three slots, half a slot in, where the positive side outweighs the
/// negative; else four from the left edge. A slot is a quarter of the
/// banner wide.
pub open spec fn layout_of(grid: Grid, theme: Theme, odd_outweighs: bool) -> Layout {
    let slot_width = (grid.width / 4) as u32;
    if !carries_weight(capped_counts(grid, theme)) {
        Layout { slots: 0, left: 0, slot_width }
    } else if odd_outweighs {
        Layout { slots: 3, left: (slot_width / 2) as u32, slot_width }
    } else {
        Layout { slots: 4, left: 0, slot_width }
    }
}

/// The slots of a banner, left to right: each the full height of the
/// binarized banner and one slot wide.
pub open spec fn slots_of(grid: Grid, theme: Theme, odd_outweighs: bool) -> Seq<Grid> {
    let layout = layout_of(grid, theme, odd_outweighs);
    Seq::new(
        layout.slots as nat,
        |i: int|
            binarized(grid, theme).crop(
                layout.left + i * layout.slot_width,
                0,
                layout.slot_width as int,
                grid.height as int,
            ),
    )
}

/// The bitmaps hold exactly the given slots.
pub open spec fn are_slots(parts: Seq<Image>, slots: Seq<Grid>) -> bool {
    parts.len() == slots.len() && forall|i: int|
        0 <= i < parts.len() ==> (#[trigger] parts[i])@ == slots[i]
}

/// The bitmap in two colours: `ink()` where the skin accepts the pixel.
pub fn binarize(image: &Image, theme: &Theme) -> (out: Image)
    ensures
        out@ == binarized(image@, *theme),
{
    proof {
        use_type_invariant(image);
    }
    let width = image.width();
    let height = image.height();
    let mut rows: Vec<Vec<Rgb>> = Vec::new();
    let mut y: u32 = 0;
    while y < height
        invariant
            y <= height,
            height == image@.height,
            width == image@.width,
            image@.well_formed(),
            rows@.len() == y,
            forall|k: int|
                0 <= k < y ==> (#[trigger] rows@[k])@ == binarized(image@, *theme).pixels[k],
        decreases height - y,
    {
        let mut line: Vec<Rgb> = Vec::new();
        let mut x: u32 = 0;
        while x < width
            invariant
                x <= width,
                y < height,
                height == image@.height,
                width == image@.width,
                image@.well_formed(),
                line@.len() == x,
                forall|k: int|
                    0 <= k < x ==> #[trigger] line@[k] == binarized(
                        image@,
                        *theme,
                    ).pixels[y as int][k],
            decreases width - x,
        {
            let pixel = image.get_pixel(x, y);
            if theme.matches(pixel) {
                line.push(Rgb { red: 0, green: 0, blue: 0 });
            } else {
                line.push(Rgb { red: 255, green: 255, blue: 255 });
            }
            x = x + 1;
        }
        assert(line@ =~= binarized(image@, *theme).pixels[y as int]);
        rows.push(line);
        y = y + 1;
    }
    let ghost want = binarized(image@, *theme);
    assert(want.well_formed());
    let made = Image::from_rows_of_width(width, rows);
    let out = made.unwrap();
    assert(out@.pixels =~= want.pixels);
    out
}

fn column_total(image: &Image, theme: &Theme, x: u32) -> (count: u32)
    requires
        x < image@.width,
    ensures
        count == column_count(image@, *theme, x as int, image@.height as int),
        count <= image@.height,
{
    let height = image.height();
    let mut count: u32 = 0;
    let mut y: u32 = 0;
    while y < height
        invariant
            y <= height,
            height == image@.height,
            x < image@.width,
            count <= y,
            count == column_count(image@, *theme, x as int, y as int),
        decreases height - y,
    {
        let pixel = image.get_pixel(x, y);
        if theme.matches(pixel) {
            count = count + 1;
        }
        y = y + 1;
    }
    count
}

/// What the columns of a banner count, left to right: for each column the
/// pixels that the skin accepts, but no more than a third of the height.
pub fn column_counts(image: &Image, theme: &Theme) -> (counts: Vec<u32>)
    ensures
        counts@ == capped_counts(image@, *theme),
{
    let width = image.width();
    let cap: u32 = image.height() / 3;
    let mut counts: Vec<u32> = Vec::new();
    let mut x: u32 = 0;
    while x < width
        invariant
            x <= width,
            width == image@.width,
            cap == image@.height / 3,
            counts@.len() == x,
            forall|k: int|
                0 <= k < x ==> #[trigger] counts@[k] == capped_count(image@, *theme, k),
        decreases width - x,
    {
        let full = column_total(image, theme, x);
        counts.push(
            if full < cap {
                full
            } else {
                cap
            },
        );
        x = x + 1;
    }
    assert(counts@ =~= capped_counts(image@, *theme));
    counts
}

/// The sign of the wave at column `x` of a banner `width` wide.
pub fn side_at(x: u32, width: u32) -> (side: i8)
    requires
        width > 0,
    ensures
        side == wave_side(x as int, width as int),
{
    let w: u64 = width as u64;
    let m: u64 = (8 * (x as u64)) % (2 * w);
    if 2 * m < w || 2 * m > 3 * w {
        1
    } else if 2 * m == w || 2 * m == 3 * w {
        0
    } else {
        -1
    }
}

/// Whether the two sides of the wave do not both weigh nothing.
pub fn has_weight(counts: &Vec<u32>) -> (b: bool)
    ensures
        b == carries_weight(counts@),
{
    if counts.len() > u32::MAX as usize {
        return has_weight_wide(counts);
    }
    let width: u32 = counts.len() as u32;
    let mut x: u32 = 0;
    while x < width
        invariant
            x <= width,
            width == counts@.len(),
            !weighs_within(counts@, x as int),
        decreases width - x,
    {
        if counts[x as usize] > 0 && side_at(x, width) != 0 {
            return true;
        }
        x = x + 1;
    }
    false
}

fn has_weight_wide(counts: &Vec<u32>) -> (b: bool)
    requires
        counts@.len() > u32::MAX,
    ensures
        b == carries_weight(counts@),
{
    let width: u128 = counts.len() as u128;
    let mut x: usize = 0;
    while x < counts.len()
        invariant
            x <= counts.len(),
            width == counts@.len(),
            width > 0,
            !weighs_within(counts@, x as int),
        decreases counts.len() - x,
    {
        let m: u128 = (8 * (x as u128)) % (2 * width);
        if counts[x] > 0 && !(2 * m == width || 2 * m == 3 * width) {
            return true;
        }
        x = x + 1;
    }
    false
}

/// The layout of a banner, given whether the positive side of the wave
/// outweighs the negative.
pub fn layout_given(image: &Image, theme: &Theme, odd_outweighs: bool) -> (l: Layout)
    ensures
        l == layout_of(image@, *theme, odd_outweighs),
{
    let counts = column_counts(image, theme);
    let slot_width: u32 = image.width() / 4;
    if !has_weight(&counts) {
        Layout { slots: 0, left: 0, slot_width }
    } else if odd_outweighs {
        Layout { slots: 3, left: slot_width / 2, slot_width }
    } else {
        Layout { slots: 4, left: 0, slot_width }
    }
}

/// The binarized slots of a banner, left to right, given whether the
/// positive side of the wave outweighs the negative.
///
/// The result is empty where no column off the wave's zero crossings counts
/// anything.
pub fn separate_parts(image: &Image, theme: &Theme, odd_outweighs: bool) -> (parts: Vec<Image>)
    ensures
        are_slots(parts@, slots_of(image@, *theme, odd_outweighs)),
{
    proof {
        use_type_invariant(image);
    }
    let l = layout_given(image, theme, odd_outweighs);
    let filtered = binarize(image, theme);
    let height = image.height();
    let mut parts: Vec<Image> = Vec::new();
    let mut i: u32 = 0;
    while i < l.slots
        invariant
            i <= l.slots <= 4,
            l == layout_of(image@, *theme, odd_outweighs),
            l.slot_width == image@.width / 4,
            l.left <= l.slot_width,
            image@.width <= MAX_DIMENSION,
            filtered@ == binarized(image@, *theme),
            height == image@.height,
            parts@.len() == i,
            forall|k: int|
                0 <= k < i ==> (#[trigger] parts@[k])@ == slots_of(
                    image@,
                    *theme,
                    odd_outweighs,
                )[k],
        decreases l.slots - i,
    {
        proof {
            crate::arith::lemma_product_bounded(i as int, l.slot_width as int, 4, 16383);
        }
        let part = filtered.crop(l.left + i * l.slot_width, 0, l.slot_width, height);
        parts.push(part);
        i = i + 1;
    }
    parts
}

/// How many slots a banner holds, where the first starts, and how wide
/// each is.
///
/// The weigher is asked which side of the wave outweighs the other, and
/// only where the sides do not both weigh nothing. The result is what
/// `layout_of` makes of its answer.
pub fn layout<W: Weigher>(image: &Image, theme: &Theme, weigher: &mut W) -> (l: Layout)
    ensures
        l == layout_of(image@, *theme, true) || l == layout_of(image@, *theme, false),
        !carries_weight(capped_counts(image@, *theme)) ==> l.slots == 0,
{
    let counts = column_counts(image, theme);
    let odd_outweighs = has_weight(&counts) && weigher.odd_outweighs(&counts);
    layout_given(image, theme, odd_outweighs)
}

/// Binarizes a banner and cuts it into its slots, left to right.
///
/// The weigher is asked which side of the wave outweighs the other, and
/// only where the sides do not both weigh nothing; the slots are what
/// `slots_of` makes of its answer. The result is empty exactly where no
/// column off the wave's zero crossings counts anything: there is no
/// reward screen. Fails exactly where the skin has no rule.
pub fn filter_and_separate_parts_from_part_box<W: Weigher>(
    image: Image,
    theme: Theme,
    weigher: &mut W,
) -> (r: Result<Vec<Image>, ThemeError>)
    ensures
        r is Ok <==> theme.has_rule(),
        r is Err ==> r->Err_0 == ThemeError::UnsupportedTheme,
        r is Ok ==> are_slots(r->Ok_0@, slots_of(image@, theme, true)) || are_slots(
            r->Ok_0@,
            slots_of(image@, theme, false),
        ),
        r is Ok ==> (r->Ok_0@.len() == 0 <==> !carries_weight(capped_counts(image@, theme))),
{
    match theme {
        Theme::Unknown => Err(ThemeError::UnsupportedTheme),
        _ => {
            let counts = column_counts(&image, &theme);
            let odd_outweighs = has_weight(&counts) && weigher.odd_outweighs(&counts);
            Ok(separate_parts(&image, &theme, odd_outweighs))
        },
    }
}

/// A column that the skin accepts nowhere counts nothing.
pub proof fn lemma_blank_column(grid: Grid, theme: Theme, x: int, rows: int)
    requires
        0 <= rows <= grid.height,
        forall|y: int| 0 <= y < grid.height ==> !theme.accepts(#[trigger] grid.pixels[y][x]),
    ensures
        column_count(grid, theme, x, rows) == 0,
    decreases rows,
{
    if rows > 0 {
        lemma_blank_column(grid, theme, x, rows - 1);
    }
}

/// A banner without a single pixel of the skin's colour has no slots,
/// whatever a weigher says.
pub proof fn lemma_blank_banner_has_no_slots(grid: Grid, theme: Theme, odd_outweighs: bool)
    requires
        grid.well_formed(),
        forall|x: int, y: int|
            0 <= x < grid.width && 0 <= y < grid.height ==> !theme.accepts(
                #[trigger] grid.pixels[y][x],
            ),
    ensures
        slots_of(grid, theme, odd_outweighs).len() == 0,
{
    let counts = capped_counts(grid, theme);
    assert forall|x: int| 0 <= x < counts.len() implies #[trigger] counts[x] == 0 by {
        lemma_blank_column(grid, theme, x, grid.height as int);
    }
}

/// A banner has no slots, three or four. They are a quarter of the banner
/// wide and as high as the banner, lie side by side, and start at the left
/// edge where there are four and half a slot in where there are three.
pub proof fn lemma_slots_shape(grid: Grid, theme: Theme, odd_outweighs: bool, i: int)
    requires
        grid.well_formed(),
        0 <= i < slots_of(grid, theme, odd_outweighs).len(),
    ensures
        slots_of(grid, theme, odd_outweighs).len() == if odd_outweighs {
            3nat
        } else {
            4nat
        },
        slots_of(grid, theme, odd_outweighs)[i].width == grid.width / 4,
        slots_of(grid, theme, odd_outweighs)[i].height == grid.height,
        slots_of(grid, theme, odd_outweighs)[i].well_formed(),
        forall|x: int, y: int|
            0 <= x < grid.width / 4 && 0 <= y < grid.height ==> #[trigger] slots_of(
                grid,
                theme,
                odd_outweighs,
            )[i].pixels[y][x] == binarized(grid, theme).pixels[y][(if odd_outweighs {
                grid.width as int / 4 / 2
            } else {
                0
            }) + i * (grid.width as int / 4) + x],
{
    let layout = layout_of(grid, theme, odd_outweighs);
    let w = grid.width as int / 4;
    assert(layout.left + i * w + w <= grid.width) by (nonlinear_arith)
        requires
            0 <= i,
            w == grid.width as int / 4,
            (layout.left == 0 && i < 4) || (layout.left == w / 2 && i < 3),
    ;
    assert(0 <= i * w) by (nonlinear_arith)
        requires
            0 <= i,
            0 <= w,
    ;
}


} // verus!
