//! Decoded RGB bitmaps.

use crate::color::Rgb;
use vstd::prelude::*;

verus! {

/// The largest width or height a bitmap may have.
///
/// With both at most this, every quantity the pipeline derives from a bitmap
/// fits a 64-bit integer.
pub const MAX_DIMENSION: u32 = 65535;

/// What a bitmap holds: `pixels[y][x]` is the pixel in column `x` of row `y`.
pub struct Grid {
    pub width: nat,
    pub height: nat,
    pub pixels: Seq<Seq<Rgb>>,
}

impl Grid {
    /// Every row is `width` long, there are `height` rows, and neither
    /// exceeds `MAX_DIMENSION`.
    pub open spec fn well_formed(self) -> bool {
        &&& self.width <= MAX_DIMENSION
        &&& self.height <= MAX_DIMENSION
        &&& self.pixels.len() == self.height
        &&& forall|y: int| 0 <= y < self.height ==> (#[trigger] self.pixels[y]).len() == self.width
    }

    /// The rectangle that a crop at `(x, y)` of size `width` by `height`
    /// keeps: the origin is moved back onto the bitmap and the size is cut
    /// to what lies on it.
    pub open spec fn clamp(self, x: int, y: int, width: int, height: int) -> (int, int, int, int) {
        let left = if x < self.width {
            x
        } else {
            self.width as int
        };
        let top = if y < self.height {
            y
        } else {
            self.height as int
        };
        let w = if width < self.width - left {
            width
        } else {
            self.width - left
        };
        let h = if height < self.height - top {
            height
        } else {
            self.height - top
        };
        (left, top, w, h)
    }

    /// The part of the bitmap inside the clamped rectangle.
    pub open spec fn crop(self, x: int, y: int, width: int, height: int) -> Grid {
        let (left, top, w, h) = self.clamp(x, y, width, height);
        Grid {
            width: w as nat,
            height: h as nat,
            pixels: Seq::new(
                h as nat,
                |row: int| Seq::new(w as nat, |col: int| self.pixels[top + row][left + col]),
            ),
        }
    }
}

/// A decoded bitmap of at most `MAX_DIMENSION` by `MAX_DIMENSION` pixels.
#[derive(Debug)]
pub struct Image {
    width: u32,
    rows: Vec<Vec<Rgb>>,
}

impl View for Image {
    type V = Grid;

    closed spec fn view(&self) -> Grid {
        Grid {
            width: self.width as nat,
            height: self.rows@.len(),
            pixels: Seq::new(self.rows@.len(), |y: int| self.rows@[y]@),
        }
    }
}

impl Image {
    #[verifier::type_invariant]
    pub open spec fn valid(&self) -> bool {
        self@.well_formed()
    }

    /// A bitmap from its rows, top to bottom.
    ///
    /// `None` if the rows differ in length or a dimension exceeds
    /// `MAX_DIMENSION`. A bitmap without rows has width 0.
    pub fn from_rows(rows: Vec<Vec<Rgb>>) -> (image: Option<Image>)
        ensures
            image is Some <==> rows@.len() <= MAX_DIMENSION && (rows@.len() > 0 ==> rows@[0]@.len()
                <= MAX_DIMENSION) && forall|y: int|
                0 <= y < rows@.len() ==> (#[trigger] rows@[y])@.len() == rows@[0]@.len(),
            image is Some ==> image->0@.well_formed() && image->0@.height == rows@.len()
                && image->0@.pixels == Seq::new(rows@.len(), |y: int| rows@[y]@) && (rows@.len() > 0
                ==> image->0@.width == rows@[0]@.len()) && (rows@.len() == 0 ==> image->0@.width
                == 0),
    {
        if rows.len() > MAX_DIMENSION as usize {
            return None;
        }
        if rows.len() == 0 {
            return Some(Image { width: 0, rows });
        }
        let first: usize = rows[0].len();
        if first > MAX_DIMENSION as usize {
            return None;
        }
        let mut y: usize = 1;
        while y < rows.len()
            invariant
                1 <= y <= rows.len(),
                first == rows@[0]@.len(),
                forall|k: int| 0 <= k < y ==> (#[trigger] rows@[k])@.len() == first,
            decreases rows.len() - y,
        {
            if rows[y].len() != first {
                return None;
            }
            y = y + 1;
        }
        Some(Image { width: first as u32, rows })
    }

    /// A bitmap of the given width from its rows, top to bottom.
    ///
    /// `None` if a row is not `width` long or a dimension exceeds
    /// `MAX_DIMENSION`.
    pub fn from_rows_of_width(width: u32, rows: Vec<Vec<Rgb>>) -> (image: Option<Image>)
        ensures
            image is Some <==> width <= MAX_DIMENSION && rows@.len() <= MAX_DIMENSION && forall|
                y: int,
            |
                0 <= y < rows@.len() ==> (#[trigger] rows@[y])@.len() == width,
            image is Some ==> image->0@.well_formed() && image->0@.width == width
                && image->0@.height == rows@.len() && image->0@.pixels == Seq::new(
                rows@.len(),
                |y: int| rows@[y]@,
            ),
    {
        if width > MAX_DIMENSION || rows.len() > MAX_DIMENSION as usize {
            return None;
        }
        let mut y: usize = 0;
        while y < rows.len()
            invariant
                y <= rows.len(),
                forall|k: int| 0 <= k < y ==> (#[trigger] rows@[k])@.len() == width,
            decreases rows.len() - y,
        {
            if rows[y].len() != width as usize {
                return None;
            }
            y = y + 1;
        }
        Some(Image { width, rows })
    }

    /// The number of columns.
    pub fn width(&self) -> (w: u32)
        ensures
            w == self@.width,
            w <= MAX_DIMENSION,
    {
        proof {
            use_type_invariant(self);
        }
        self.width
    }

    /// The number of rows.
    pub fn height(&self) -> (h: u32)
        ensures
            h == self@.height,
            h <= MAX_DIMENSION,
    {
        proof {
            use_type_invariant(self);
        }
        self.rows.len() as u32
    }

    /// The pixel in column `x` of row `y`.
    pub fn get_pixel(&self, x: u32, y: u32) -> (p: Rgb)
        requires
            x < self@.width,
            y < self@.height,
        ensures
            p == self@.pixels[y as int][x as int],
    {
        proof {
            use_type_invariant(self);
            assert(self@.pixels[y as int] == self.rows@[y as int]@);
        }
        self.rows[y as usize][x as usize]
    }

    /// The pixel in column `x` of row `y`, or `None` outside the bitmap.
    pub fn pixel_at(&self, x: u32, y: u32) -> (p: Option<Rgb>)
        ensures
            p == if x < self@.width && y < self@.height {
                Some(self@.pixels[y as int][x as int])
            } else {
                None::<Rgb>
            },
    {
        if x < self.width() && y < self.height() {
            Some(self.get_pixel(x, y))
        } else {
            None
        }
    }

    /// The part of the bitmap inside a rectangle, as a bitmap of its own.
    ///
    /// A rectangle that reaches over the edge is cut to what lies on the
    /// bitmap, so any rectangle is accepted.
    pub fn crop(&self, x: u32, y: u32, width: u32, height: u32) -> (part: Image)
        ensures
            part@ == self@.crop(x as int, y as int, width as int, height as int),
            part@.well_formed(),
    {
        proof {
            use_type_invariant(self);
        }
        let own_width = self.width();
        let own_height = self.height();
        let left: u32 = if x < own_width {
            x
        } else {
            own_width
        };
        let top: u32 = if y < own_height {
            y
        } else {
            own_height
        };
        let w: u32 = if width < own_width - left {
            width
        } else {
            own_width - left
        };
        let h: u32 = if height < own_height - top {
            height
        } else {
            own_height - top
        };
        let ghost want = self@.crop(x as int, y as int, width as int, height as int);
        let mut rows: Vec<Vec<Rgb>> = Vec::new();
        let mut r: u32 = 0;
        while r < h
            invariant
                self@.well_formed(),
                r <= h,
                top + h <= self@.height,
                left + w <= self@.width,
                want == self@.crop(x as int, y as int, width as int, height as int),
                self@.clamp(x as int, y as int, width as int, height as int) == (
                    left as int,
                    top as int,
                    w as int,
                    h as int,
                ),
                want.height == h,
                want.width == w,
                rows@.len() == r,
                forall|k: int| 0 <= k < r ==> (#[trigger] rows@[k])@ == want.pixels[k],
            decreases h - r,
        {
            let mut line: Vec<Rgb> = Vec::new();
            let mut c: u32 = 0;
            while c < w
                invariant
                    self@.well_formed(),
                    r < h,
                    c <= w,
                    top + h <= self@.height,
                    left + w <= self@.width,
                    line@.len() == c,
                    forall|k: int|
                        0 <= k < c ==> #[trigger] line@[k] == self@.pixels[top + r][left + k],
                decreases w - c,
            {
                line.push(self.get_pixel(left + c, top + r));
                c = c + 1;
            }
            proof {
                assert(want.pixels[r as int].len() == w);
                assert forall|k: int| 0 <= k < w implies line@[k] == want.pixels[r as int][k] by {}
                assert(line@ =~= want.pixels[r as int]);
            }
            rows.push(line);
            r = r + 1;
        }
        let part = Image { width: w, rows };
        assert(part@.pixels =~= want.pixels);
        part
    }
}

/// A crop of a bitmap is a bitmap, and each of its pixels is a pixel of the
/// bitmap it was cut from.
pub proof fn lemma_crop(grid: Grid, x: int, y: int, width: int, height: int)
    requires
        grid.well_formed(),
        0 <= x,
        0 <= y,
        0 <= width,
        0 <= height,
    ensures
        grid.crop(x, y, width, height).well_formed(),
        grid.crop(x, y, width, height).width <= grid.width,
        grid.crop(x, y, width, height).height <= grid.height,
        forall|col: int, row: int|
            0 <= col < grid.crop(x, y, width, height).width && 0 <= row < grid.crop(
                x,
                y,
                width,
                height,
            ).height ==> {
                let (left, top, w, h) = grid.clamp(x, y, width, height);
                &&& 0 <= left + col < grid.width
                &&& 0 <= top + row < grid.height
                &&& #[trigger] grid.crop(x, y, width, height).pixels[row][col]
                    == grid.pixels[top + row][left + col]
            },
{
}


} // verus!
