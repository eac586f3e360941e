//! From a screenshot to the text of each reward.
//!
//! Reading text off a bitmap is not done here: whoever calls brings a
//! recognition session of their own.

use crate::bitmap::{Grid, Image};
use crate::detector::{detect_theme, tally_of, voted};
use crate::locator::{extract_parts, parts_of, ScalePolicy};
use crate::theme::{Theme, ThemeError, SKIN_COUNT};
use crate::weighing::Weigher;
use vstd::prelude::*;

verus! {

/// A text recognition session: bitmap in, text out.
pub trait Recognizer {
    /// The text that the bitmap shows.
    fn recognize(&mut self, image: &Image) -> String;
}

/// `n` is the number of rewards that the screenshot offers under the skin,
/// for one of the two answers a weigher can give.
pub open spec fn is_reward_count(grid: Grid, theme: Theme, n: nat) -> bool {
    n == parts_of(grid, theme, ScalePolicy::HighestRanked, true).len() || n == parts_of(
        grid,
        theme,
        ScalePolicy::HighestRanked,
        false,
    ).len()
}

/// The text of each reward that a screenshot offers, left to right, as the
/// session reads it off the reward's slot.
///
/// Where no skin is given, the screenshot's skin is detected: it is then a
/// named skin that was voted for, and where there is no vote there is no
/// reward. The result is empty where the screenshot shows no reward
/// screen. Fails exactly where the given skin has no rule.
pub fn reward_image_to_reward_names<R: Recognizer, W: Weigher>(
    image: &Image,
    theme: Option<Theme>,
    session: &mut R,
    weigher: &mut W,
) -> (r: Result<Vec<String>, ThemeError>)
    ensures
        r is Err <==> theme is Some && !theme->0.has_rule(),
        r is Err ==> r->Err_0 == ThemeError::UnsupportedTheme,
        r is Ok && theme is Some ==> is_reward_count(image@, theme->0, r->Ok_0@.len()),
        r is Ok && theme is None ==> r->Ok_0@.len() == 0 || exists|k: int|
            0 <= k < SKIN_COUNT && voted(tally_of(image@), k) && is_reward_count(
                image@,
                #[trigger] Theme::skins()[k],
                r->Ok_0@.len(),
            ),
{
    let skin = match theme {
        Some(t) => Some(t),
        None => detect_theme(image, weigher),
    };
    let skin = match skin {
        Some(t) => t,
        None => {
            return Ok(Vec::new());
        },
    };
    let parts = match extract_parts(image, skin, weigher) {
        Ok(parts) => parts,
        Err(e) => {
            return Err(e);
        },
    };
    let mut texts: Vec<String> = Vec::new();
    let mut i: usize = 0;
    while i < parts.len()
        invariant
            i <= parts.len(),
            texts@.len() == i,
        decreases parts.len() - i,
    {
        let text = session.recognize(&parts[i]);
        texts.push(text);
        i = i + 1;
    }
    Ok(texts)
}

} // verus!
