//! 8-bit RGB colours and their exact hue, saturation and lightness.
//!
//! The HSL coordinates of an 8-bit colour are rationals with small
//! denominators. They are never rounded here: every test against a bound is
//! decided by cross-multiplication, with bounds given in thousandths
//! (millidegrees for the hue).

use vstd::prelude::*;

verus! {

/// One pixel: red, green and blue, each 0 to 255.
#[derive(Clone, Copy, Debug, PartialEq, Eq, Hash, Structural)]
pub struct Rgb {
    pub red: u8,
    pub green: u8,
    pub blue: u8,
}

impl Rgb {
    /// The largest of the three channels.
    pub open spec fn max_channel(self) -> int {
        if self.red >= self.green && self.red >= self.blue {
            self.red as int
        } else if self.green >= self.blue {
            self.green as int
        } else {
            self.blue as int
        }
    }

    /// The smallest of the three channels.
    pub open spec fn min_channel(self) -> int {
        if self.red <= self.green && self.red <= self.blue {
            self.red as int
        } else if self.green <= self.blue {
            self.green as int
        } else {
            self.blue as int
        }
    }

    /// Largest minus smallest channel. Zero exactly for greys.
    pub open spec fn chroma(self) -> int {
        self.max_channel() - self.min_channel()
    }

    /// Largest plus smallest channel: the lightness is this over 510.
    pub open spec fn lightness_sum(self) -> int {
        self.max_channel() + self.min_channel()
    }

    /// The saturation of a colour that is not grey is its chroma over this.
    pub open spec fn saturation_base(self) -> int {
        if self.lightness_sum() > 255 {
            510 - self.lightness_sum()
        } else {
            self.lightness_sum()
        }
    }

    /// The hue in degrees, in (-180, 180], multiplied by the chroma.
    ///
    /// Blue strictly above both others gives the blue sector, else red strictly
    /// above green the red sector, else the green sector.
    pub open spec fn hue_times_chroma(self) -> int {
        if self.blue > self.red && self.blue > self.green {
            60 * (self.red - self.green) - 120 * self.chroma()
        } else if self.red > self.green {
            60 * (self.green - self.blue)
        } else {
            60 * (self.blue - self.red) + 120 * self.chroma()
        }
    }

    /// Hue >= `millidegrees` / 1000. A grey has hue 0.
    pub open spec fn hue_at_least(self, millidegrees: int) -> bool {
        if self.chroma() == 0 {
            0 >= millidegrees
        } else {
            1000 * self.hue_times_chroma() >= millidegrees * self.chroma()
        }
    }

    /// Saturation >= `thousandths` / 1000. A grey has saturation 0.
    pub open spec fn saturation_at_least(self, thousandths: int) -> bool {
        if self.chroma() == 0 {
            0 >= thousandths
        } else {
            1000 * self.chroma() >= thousandths * self.saturation_base()
        }
    }

    /// Saturation <= `thousandths` / 1000.
    pub open spec fn saturation_at_most(self, thousandths: int) -> bool {
        if self.chroma() == 0 {
            0 <= thousandths
        } else {
            1000 * self.chroma() <= thousandths * self.saturation_base()
        }
    }

    /// Lightness >= `thousandths` / 1000.
    pub open spec fn lightness_at_least(self, thousandths: int) -> bool {
        1000 * self.lightness_sum() >= 510 * thousandths
    }

    /// `low <= hue < high`, both in millidegrees.
    pub open spec fn hue_within(self, low: int, high: int) -> bool {
        self.hue_at_least(low) && !self.hue_at_least(high)
    }

    /// `low <= saturation < high`, both in thousandths.
    pub open spec fn saturation_within(self, low: int, high: int) -> bool {
        self.saturation_at_least(low) && !self.saturation_at_least(high)
    }

    /// `low <= lightness < high`, both in thousandths.
    pub open spec fn lightness_within(self, low: int, high: int) -> bool {
        self.lightness_at_least(low) && !self.lightness_at_least(high)
    }

    /// A colour from its three channels.
    pub fn new(red: u8, green: u8, blue: u8) -> (c: Rgb)
        ensures
            c == (Rgb { red, green, blue }),
    {
        Rgb { red, green, blue }
    }

    fn extremes(&self) -> (r: (i64, i64))
        ensures
            r.0 == self.max_channel(),
            r.1 == self.min_channel(),
            0 <= r.1 <= r.0 <= 255,
    {
        let r: i64 = self.red as i64;
        let g: i64 = self.green as i64;
        let b: i64 = self.blue as i64;
        let hi: i64 = if r >= g && r >= b {
            r
        } else if g >= b {
            g
        } else {
            b
        };
        let lo: i64 = if r <= g && r <= b {
            r
        } else if g <= b {
            g
        } else {
            b
        };
        (hi, lo)
    }

    fn hue_numerator(&self) -> (h: i64)
        ensures
            h == self.hue_times_chroma(),
            -200_000 <= h <= 200_000,
    {
        let (hi, lo) = self.extremes();
        let d: i64 = hi - lo;
        let r: i64 = self.red as i64;
        let g: i64 = self.green as i64;
        let b: i64 = self.blue as i64;
        if b > r && b > g {
            60 * (r - g) - 120 * d
        } else if r > g {
            60 * (g - b)
        } else {
            60 * (b - r) + 120 * d
        }
    }

    /// Decides `hue_at_least`.
    pub fn is_hue_at_least(&self, millidegrees: i32) -> (b: bool)
        ensures
            b == self.hue_at_least(millidegrees as int),
    {
        let (hi, lo) = self.extremes();
        let d: i64 = hi - lo;
        if d == 0 {
            0 >= millidegrees
        } else {
            let h: i64 = self.hue_numerator();
            let bound: i64 = millidegrees as i64;
            assert(-0x8000_0000 * 255 <= bound * d <= 0x8000_0000 * 255) by (nonlinear_arith)
                requires
                    -0x8000_0000 <= bound < 0x8000_0000,
                    0 < d <= 255,
            ;
            1000 * h >= bound * d
        }
    }

    fn saturation_denominator(&self) -> (s: i64)
        ensures
            s == self.saturation_base(),
            0 <= s <= 255,
    {
        let (hi, lo) = self.extremes();
        let sum: i64 = hi + lo;
        if sum > 255 {
            510 - sum
        } else {
            sum
        }
    }

    /// Decides `saturation_at_least`.
    pub fn is_saturation_at_least(&self, thousandths: i32) -> (b: bool)
        ensures
            b == self.saturation_at_least(thousandths as int),
    {
        let (hi, lo) = self.extremes();
        let d: i64 = hi - lo;
        if d == 0 {
            0 >= thousandths
        } else {
            let base: i64 = self.saturation_denominator();
            let bound: i64 = thousandths as i64;
            assert(-0x8000_0000 * 255 <= bound * base <= 0x8000_0000 * 255) by (nonlinear_arith)
                requires
                    -0x8000_0000 <= bound < 0x8000_0000,
                    0 <= base <= 255,
            ;
            1000 * d >= bound * base
        }
    }

    /// Decides `saturation_at_most`.
    pub fn is_saturation_at_most(&self, thousandths: i32) -> (b: bool)
        ensures
            b == self.saturation_at_most(thousandths as int),
    {
        let (hi, lo) = self.extremes();
        let d: i64 = hi - lo;
        if d == 0 {
            0 <= thousandths
        } else {
            let base: i64 = self.saturation_denominator();
            let bound: i64 = thousandths as i64;
            assert(-0x8000_0000 * 255 <= bound * base <= 0x8000_0000 * 255) by (nonlinear_arith)
                requires
                    -0x8000_0000 <= bound < 0x8000_0000,
                    0 <= base <= 255,
            ;
            1000 * d <= bound * base
        }
    }

    /// Decides `lightness_at_least`.
    pub fn is_lightness_at_least(&self, thousandths: i32) -> (b: bool)
        ensures
            b == self.lightness_at_least(thousandths as int),
    {
        let (hi, lo) = self.extremes();
        let bound: i64 = thousandths as i64;
        1000 * (hi + lo) >= 510 * bound
    }
}

/// The sum over the three channels of the absolute difference.
pub open spec fn channel_distance(a: Rgb, b: Rgb) -> int {
    abs_diff(a.red as int, b.red as int) + abs_diff(a.green as int, b.green as int) + abs_diff(
        a.blue as int,
        b.blue as int,
    )
}

/// The distance between two integers.
pub open spec fn abs_diff(x: int, y: int) -> int {
    if x >= y {
        x - y
    } else {
        y - x
    }
}

/// How far apart two colours are: the absolute channel differences, summed.
///
/// Zero for equal colours, 765 between black and white.
pub fn color_difference(colors: (Rgb, Rgb)) -> (d: u32)
    ensures
        d == channel_distance(colors.0, colors.1),
        d <= 765,
{
    let a = colors.0;
    let b = colors.1;
    let dr: u32 = if a.red >= b.red {
        (a.red - b.red) as u32
    } else {
        (b.red - a.red) as u32
    };
    let dg: u32 = if a.green >= b.green {
        (a.green - b.green) as u32
    } else {
        (b.green - a.green) as u32
    };
    let db: u32 = if a.blue >= b.blue {
        (a.blue - b.blue) as u32
    } else {
        (b.blue - a.blue) as u32
    };
    dr + dg + db
}

} // verus!
