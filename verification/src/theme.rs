//! The interface skins and the rule by which each recognises its own text
//! colour.

use crate::color::{channel_distance, color_difference, Rgb};
use std::ops::Range;
use vstd::prelude::*;

verus! {

/// `Range::clone` clones both ends; nothing is claimed of the copy.
pub assume_specification<Idx>[ <std::ops::Range<Idx> as std::clone::Clone>::clone ](
    _0: &std::ops::Range<Idx>,
) -> std::ops::Range<Idx> where Idx: std::clone::Clone
;

/// A box in hue, saturation and lightness. Each range is half open.
///
/// Where a skin carries one, the hue is in millidegrees and saturation and
/// lightness are in thousandths.
#[derive(Clone, Debug, PartialEq, Hash, Eq)]
pub struct HslRange<T> {
    pub hue: Range<T>,
    pub saturation: Range<T>,
    pub lightness: Range<T>,
}

/// A skin of the game's interface.
///
/// The fifteen named skins each have a primary and a secondary reference
/// colour. `Custom` is a tunable box without reference colours. `Unknown`
/// stands for a skin that has not been identified and has no rule.
#[derive(Debug, Clone, PartialEq, Eq, Hash)]
pub enum Theme {
    Vitruvian,
    Stalker,
    Baruuk,
    Corpus,
    Fortuna,
    Grineer,
    Lotus,
    Nidus,
    Orokin,
    Tenno,
    HighContrast,
    Legacy,
    Equinox,
    DarkLotus,
    Zephyr,
    Custom(HslRange<i32>),
    Unknown,
}

/// Why a skin could not classify a pixel.
#[derive(Debug, Clone, Copy, PartialEq, Eq, Structural)]
pub enum ThemeError {
    /// The skin has no classification rule.
    UnsupportedTheme,
}

/// How many named skins there are.
pub const SKIN_COUNT: usize = 15;

impl Theme {
    /// The named skins, in the order in which ties between them are broken.
    pub open spec fn skins() -> Seq<Theme> {
        seq![
            Theme::Vitruvian,
            Theme::Stalker,
            Theme::Baruuk,
            Theme::Corpus,
            Theme::Fortuna,
            Theme::Grineer,
            Theme::Lotus,
            Theme::Nidus,
            Theme::Orokin,
            Theme::Tenno,
            Theme::HighContrast,
            Theme::Legacy,
            Theme::Equinox,
            Theme::DarkLotus,
            Theme::Zephyr,
        ]
    }

    /// The primary reference colour of a named skin.
    pub open spec fn spec_primary(self) -> Option<Rgb> {
        match self {
            Theme::Vitruvian => Some(Rgb { red: 190, green: 169, blue: 102 }),
            Theme::Stalker => Some(Rgb { red: 153, green: 31, blue: 35 }),
            Theme::Baruuk => Some(Rgb { red: 238, green: 193, blue: 105 }),
            Theme::Corpus => Some(Rgb { red: 35, green: 201, blue: 245 }),
            Theme::Fortuna => Some(Rgb { red: 57, green: 105, blue: 192 }),
            Theme::Grineer => Some(Rgb { red: 255, green: 189, blue: 102 }),
            Theme::Lotus => Some(Rgb { red: 36, green: 184, blue: 242 }),
            Theme::Nidus => Some(Rgb { red: 140, green: 38, blue: 92 }),
            Theme::Orokin => Some(Rgb { red: 20, green: 41, blue: 29 }),
            Theme::Tenno => Some(Rgb { red: 9, green: 78, blue: 106 }),
            Theme::HighContrast => Some(Rgb { red: 2, green: 127, blue: 217 }),
            Theme::Legacy => Some(Rgb { red: 255, green: 255, blue: 255 }),
            Theme::Equinox => Some(Rgb { red: 158, green: 159, blue: 167 }),
            Theme::DarkLotus => Some(Rgb { red: 140, green: 119, blue: 147 }),
            Theme::Zephyr => Some(Rgb { red: 253, green: 132, blue: 2 }),
            Theme::Custom(_) => None,
            Theme::Unknown => None,
        }
    }

    /// The secondary reference colour of a named skin.
    pub open spec fn spec_secondary(self) -> Option<Rgb> {
        match self {
            Theme::Vitruvian => Some(Rgb { red: 245, green: 227, blue: 173 }),
            Theme::Stalker => Some(Rgb { red: 255, green: 61, blue: 51 }),
            Theme::Baruuk => Some(Rgb { red: 236, green: 211, blue: 162 }),
            Theme::Corpus => Some(Rgb { red: 111, green: 229, blue: 253 }),
            Theme::Fortuna => Some(Rgb { red: 255, green: 115, blue: 230 }),
            Theme::Grineer => Some(Rgb { red: 255, green: 224, blue: 153 }),
            Theme::Lotus => Some(Rgb { red: 255, green: 241, blue: 191 }),
            Theme::Nidus => Some(Rgb { red: 245, green: 73, blue: 93 }),
            Theme::Orokin => Some(Rgb { red: 178, green: 125, blue: 5 }),
            Theme::Tenno => Some(Rgb { red: 6, green: 106, blue: 74 }),
            Theme::HighContrast => Some(Rgb { red: 255, green: 255, blue: 0 }),
            Theme::Legacy => Some(Rgb { red: 232, green: 213, blue: 93 }),
            Theme::Equinox => Some(Rgb { red: 232, green: 227, blue: 227 }),
            Theme::DarkLotus => Some(Rgb { red: 189, green: 169, blue: 237 }),
            Theme::Zephyr => Some(Rgb { red: 255, green: 53, blue: 0 }),
            Theme::Custom(_) => None,
            Theme::Unknown => None,
        }
    }

    /// Whether the skin can classify pixels at all.
    pub open spec fn has_rule(self) -> bool {
        !(self is Unknown)
    }

    /// Whether `color` is closer to `reference` than a fifth of one 8-bit
    /// step. Between 8-bit colours that is equality.
    pub open spec fn near(reference: Option<Rgb>, color: Rgb) -> bool {
        reference is Some && 5 * channel_distance(reference->0, color) < 1
    }

    /// The rule of each skin: whether a pixel of this colour is part of the
    /// skin's label text.
    ///
    /// Three skins test a band of saturation and lightness, two of them with
    /// a hue window as well. `Custom` tests its own box. Every other named
    /// skin asks for one of its two reference colours. `Unknown` accepts
    /// nothing.
    pub open spec fn accepts(self, color: Rgb) -> bool {
        match self {
            Theme::Equinox => color.saturation_at_most(200) && color.lightness_at_least(550),
            Theme::Stalker => color.saturation_within(610, 1000) && color.lightness_within(
                250,
                650,
            ) && color.hue_within(-10_000, 5_000),
            Theme::HighContrast => color.saturation_at_least(600) && color.lightness_within(
                230,
                450,
            ) && color.hue_within(-160_000, -145_000),
            Theme::Custom(range) => color.hue_within(
                range.hue.start as int,
                range.hue.end as int,
            ) && color.saturation_within(
                range.saturation.start as int,
                range.saturation.end as int,
            ) && color.lightness_within(
                range.lightness.start as int,
                range.lightness.end as int,
            ),
            Theme::Unknown => false,
            _ => Theme::near(self.spec_primary(), color) || Theme::near(
                self.spec_secondary(),
                color,
            ),
        }
    }

    /// What `threshold_filter` answers.
    pub open spec fn classify(self, color: Rgb) -> Result<bool, ThemeError> {
        if self.has_rule() {
            Ok(self.accepts(color))
        } else {
            Err(ThemeError::UnsupportedTheme)
        }
    }

    /// The distance from `color` to the primary colour of the named skin
    /// number `k`.
    pub open spec fn skin_distance(k: int, color: Rgb) -> int
        recommends
            0 <= k < SKIN_COUNT,
    {
        channel_distance(Theme::skins()[k].spec_primary()->0, color)
    }

    /// `k` is the first named skin whose primary colour is nearest to `color`.
    pub open spec fn is_first_nearest(k: int, color: Rgb) -> bool {
        &&& 0 <= k < SKIN_COUNT
        &&& forall|j: int|
            0 <= j < SKIN_COUNT ==> Theme::skin_distance(k, color) <= #[trigger] Theme::skin_distance(
                j,
                color,
            )
        &&& forall|j: int|
            0 <= j < k ==> Theme::skin_distance(k, color) < #[trigger] Theme::skin_distance(
                j,
                color,
            )
    }

    /// The number of the first nearest skin among the first `n`.
    pub open spec fn nearest_among(color: Rgb, n: nat) -> int
        decreases n,
    {
        if n <= 1 {
            0
        } else {
            let best = Theme::nearest_among(color, (n - 1) as nat);
            if Theme::skin_distance(n - 1, color) < Theme::skin_distance(best, color) {
                n - 1
            } else {
                best
            }
        }
    }

    /// The number of the named skin that `closest_from_color` returns.
    pub open spec fn nearest_skin(color: Rgb) -> int {
        Theme::nearest_among(color, SKIN_COUNT as nat)
    }

    /// The named skin number `k`.
    pub fn skin(k: usize) -> (t: Theme)
        requires
            k < SKIN_COUNT,
        ensures
            t == Theme::skins()[k as int],
            t.spec_primary() is Some,
            t.spec_secondary() is Some,
            t.has_rule(),
    {
        if k == 0 {
            Theme::Vitruvian
        } else if k == 1 {
            Theme::Stalker
        } else if k == 2 {
            Theme::Baruuk
        } else if k == 3 {
            Theme::Corpus
        } else if k == 4 {
            Theme::Fortuna
        } else if k == 5 {
            Theme::Grineer
        } else if k == 6 {
            Theme::Lotus
        } else if k == 7 {
            Theme::Nidus
        } else if k == 8 {
            Theme::Orokin
        } else if k == 9 {
            Theme::Tenno
        } else if k == 10 {
            Theme::HighContrast
        } else if k == 11 {
            Theme::Legacy
        } else if k == 12 {
            Theme::Equinox
        } else if k == 13 {
            Theme::DarkLotus
        } else {
            Theme::Zephyr
        }
    }

    /// The fifteen named skins, in order.
    pub fn iter() -> (all: Vec<Theme>)
        ensures
            all@ == Theme::skins(),
    {
        let mut all: Vec<Theme> = Vec::new();
        let mut k: usize = 0;
        while k < SKIN_COUNT
            invariant
                k <= SKIN_COUNT,
                all@ == Theme::skins().subrange(0, k as int),
            decreases SKIN_COUNT - k,
        {
            all.push(Theme::skin(k));
            k = k + 1;
            assert(all@ =~= Theme::skins().subrange(0, k as int));
        }
        assert(Theme::skins().subrange(0, SKIN_COUNT as int) =~= Theme::skins());
        all
    }

    /// The primary reference colour, where the skin has one.
    pub fn primary(&self) -> (c: Option<Rgb>)
        ensures
            c == self.spec_primary(),
    {
        match self {
            Theme::Vitruvian => Some(Rgb { red: 190, green: 169, blue: 102 }),
            Theme::Stalker => Some(Rgb { red: 153, green: 31, blue: 35 }),
            Theme::Baruuk => Some(Rgb { red: 238, green: 193, blue: 105 }),
            Theme::Corpus => Some(Rgb { red: 35, green: 201, blue: 245 }),
            Theme::Fortuna => Some(Rgb { red: 57, green: 105, blue: 192 }),
            Theme::Grineer => Some(Rgb { red: 255, green: 189, blue: 102 }),
            Theme::Lotus => Some(Rgb { red: 36, green: 184, blue: 242 }),
            Theme::Nidus => Some(Rgb { red: 140, green: 38, blue: 92 }),
            Theme::Orokin => Some(Rgb { red: 20, green: 41, blue: 29 }),
            Theme::Tenno => Some(Rgb { red: 9, green: 78, blue: 106 }),
            Theme::HighContrast => Some(Rgb { red: 2, green: 127, blue: 217 }),
            Theme::Legacy => Some(Rgb { red: 255, green: 255, blue: 255 }),
            Theme::Equinox => Some(Rgb { red: 158, green: 159, blue: 167 }),
            Theme::DarkLotus => Some(Rgb { red: 140, green: 119, blue: 147 }),
            Theme::Zephyr => Some(Rgb { red: 253, green: 132, blue: 2 }),
            Theme::Custom(_) => None,
            Theme::Unknown => None,
        }
    }

    /// The secondary reference colour, where the skin has one.
    pub fn secondary(&self) -> (c: Option<Rgb>)
        ensures
            c == self.spec_secondary(),
    {
        match self {
            Theme::Vitruvian => Some(Rgb { red: 245, green: 227, blue: 173 }),
            Theme::Stalker => Some(Rgb { red: 255, green: 61, blue: 51 }),
            Theme::Baruuk => Some(Rgb { red: 236, green: 211, blue: 162 }),
            Theme::Corpus => Some(Rgb { red: 111, green: 229, blue: 253 }),
            Theme::Fortuna => Some(Rgb { red: 255, green: 115, blue: 230 }),
            Theme::Grineer => Some(Rgb { red: 255, green: 224, blue: 153 }),
            Theme::Lotus => Some(Rgb { red: 255, green: 241, blue: 191 }),
            Theme::Nidus => Some(Rgb { red: 245, green: 73, blue: 93 }),
            Theme::Orokin => Some(Rgb { red: 178, green: 125, blue: 5 }),
            Theme::Tenno => Some(Rgb { red: 6, green: 106, blue: 74 }),
            Theme::HighContrast => Some(Rgb { red: 255, green: 255, blue: 0 }),
            Theme::Legacy => Some(Rgb { red: 232, green: 213, blue: 93 }),
            Theme::Equinox => Some(Rgb { red: 232, green: 227, blue: 227 }),
            Theme::DarkLotus => Some(Rgb { red: 189, green: 169, blue: 237 }),
            Theme::Zephyr => Some(Rgb { red: 255, green: 53, blue: 0 }),
            Theme::Custom(_) => None,
            Theme::Unknown => None,
        }
    }

    /// The named skin whose primary colour is nearest to `color`, and that
    /// distance. Of several equally near, the first in `iter` order.
    pub fn closest_from_color(color: Rgb) -> (r: (Theme, u32))
        ensures
            r.0 == Theme::skins()[Theme::nearest_skin(color)],
            r.1 == Theme::skin_distance(Theme::nearest_skin(color), color),
            Theme::is_first_nearest(Theme::nearest_skin(color), color),
    {
        let (k, d) = Theme::closest_index(color);
        (Theme::skin(k), d)
    }

    /// The number of the nearest named skin, and the distance to it.
    pub fn closest_index(color: Rgb) -> (r: (usize, u32))
        ensures
            r.0 == Theme::nearest_skin(color),
            r.1 == Theme::skin_distance(r.0 as int, color),
            Theme::is_first_nearest(r.0 as int, color),
            r.0 < SKIN_COUNT,
            r.1 <= 765,
    {
        let mut best: usize = 0;
        let mut best_distance: u32 = color_difference((Theme::skin(0).primary().unwrap(), color));
        let mut k: usize = 1;
        while k < SKIN_COUNT
            invariant
                1 <= k <= SKIN_COUNT,
                best < k,
                best == Theme::nearest_among(color, k as nat),
                best_distance == Theme::skin_distance(best as int, color),
                best_distance <= 765,
                forall|j: int|
                    0 <= j < k ==> best_distance <= #[trigger] Theme::skin_distance(j, color),
                forall|j: int|
                    0 <= j < best ==> best_distance < #[trigger] Theme::skin_distance(j, color),
            decreases SKIN_COUNT - k,
        {
            let d = color_difference((Theme::skin(k).primary().unwrap(), color));
            assert(Theme::nearest_among(color, (k + 1) as nat) == if d < best_distance {
                k as int
            } else {
                best as int
            });
            if d < best_distance {
                best = k;
                best_distance = d;
            }
            k = k + 1;
        }
        (best, best_distance)
    }

    /// Whether a pixel of this colour belongs to the skin's label text.
    ///
    /// Fails with `UnsupportedTheme` for a skin without a rule, whatever the
    /// colour.
    pub fn threshold_filter(&self, color: Rgb) -> (r: Result<bool, ThemeError>)
        ensures
            r == self.classify(color),
    {
        match self {
            Theme::Unknown => Err(ThemeError::UnsupportedTheme),
            _ => Ok(self.matches(color)),
        }
    }

    /// Decides `accepts`.
    pub fn matches(&self, color: Rgb) -> (b: bool)
        ensures
            b == self.accepts(color),
    {
        match self {
            Theme::Equinox => color.is_saturation_at_most(200) && color.is_lightness_at_least(550),
            Theme::Stalker => {
                color.is_saturation_at_least(610) && !color.is_saturation_at_least(1000)
                    && color.is_lightness_at_least(250) && !color.is_lightness_at_least(650)
                    && color.is_hue_at_least(-10_000) && !color.is_hue_at_least(5_000)
            },
            Theme::HighContrast => {
                color.is_saturation_at_least(600) && color.is_lightness_at_least(230)
                    && !color.is_lightness_at_least(450) && color.is_hue_at_least(-160_000)
                    && !color.is_hue_at_least(-145_000)
            },
            Theme::Custom(range) => {
                color.is_hue_at_least(range.hue.start) && !color.is_hue_at_least(range.hue.end)
                    && color.is_saturation_at_least(range.saturation.start)
                    && !color.is_saturation_at_least(range.saturation.end)
                    && color.is_lightness_at_least(range.lightness.start)
                    && !color.is_lightness_at_least(range.lightness.end)
            },
            Theme::Unknown => false,
            _ => {
                let first = self.primary();
                let second = self.secondary();
                let near_first = match first {
                    Some(c) => 5 * color_difference((c, color)) < 1,
                    None => false,
                };
                let near_second = match second {
                    Some(c) => 5 * color_difference((c, color)) < 1,
                    None => false,
                };
                near_first || near_second
            },
        }
    }
}

/// A named skin without a special rule accepts exactly its two reference
/// colours.
pub proof fn lemma_reference_rule(theme: Theme, color: Rgb)
    requires
        theme.spec_primary() is Some,
        !(theme is Equinox),
        !(theme is Stalker),
        !(theme is HighContrast),
    ensures
        theme.accepts(color) <==> (color == theme.spec_primary()->0 || color
            == theme.spec_secondary()->0),
{
}

/// Every skin but `Unknown` classifies every colour.
pub proof fn lemma_rule_total(theme: Theme, color: Rgb)
    ensures
        theme.classify(color) is Ok <==> !(theme is Unknown),
        theme.classify(color) is Err ==> theme.classify(color) == Err::<bool, ThemeError>(
            ThemeError::UnsupportedTheme,
        ),
{
}

} // verus!
