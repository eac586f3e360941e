use wfinfo::bitmap::Image;
use wfinfo::color::Rgb;
use wfinfo::detector::{detect_theme, first_with_votes, has_votes, skin_tally, theme_of_pick};
use wfinfo::locator::{
    coarse_region, detect_scale, extract_parts, extract_parts_with, rank_top_five, reward_banner,
    row_histogram, scale_deviations, screen_scale_units, select_scale, Deviation, Rect,
    ScalePolicy,
};
use wfinfo::recognition::{reward_image_to_reward_names, Recognizer};
use wfinfo::theme::{Theme, ThemeError};
use wfinfo::weighing::{Weigher, DISTANCES};

const TEXT: Rgb = Rgb { red: 190, green: 169, blue: 102 };
const BACK: Rgb = Rgb { red: 0, green: 0, blue: 0 };

/// Weighs in floating point.
struct Floats;

impl Weigher for Floats {
    fn odd_outweighs(&mut self, counts: &Vec<u32>) -> bool {
        let width = counts.len() as f64;
        let (mut even, mut odd) = (0.0, 0.0);
        for (x, count) in counts.iter().enumerate() {
            let cosine = (8.0 * x as f64 * std::f64::consts::PI / width).cos();
            let weight = cosine.powi(3) * *count as f64;
            if cosine < 0.0 {
                even -= weight;
            } else if cosine > 0.0 {
                odd += weight;
            }
        }
        odd > even
    }

    fn heaviest_skin(&mut self, tally: &Vec<u64>) -> usize {
        let mut best = (0, -1.0);
        for (skin, votes) in tally.chunks(DISTANCES).enumerate() {
            let weight: f64 = votes
                .iter()
                .enumerate()
                .map(|(distance, count)| *count as f64 / (1.0 + distance as f64).powi(4))
                .sum();
            if weight > best.1 {
                best = (skin, weight);
            }
        }
        best.0
    }
}

/// Whether the point, given on a 1920 by 1080 screen in thousandths of a
/// pixel, lies in the label text of a reward screen with four rewards at
/// the full interface scale.
fn in_label(x: u64, y: u64) -> bool {
    let (left, top) = (476_000, 411_000);
    if x < left || x >= left + 968_000 || y < top {
        return false;
    }
    let (column, row) = ((x - left) % 242_000, y - top);
    let half_width = if (27_000..30_000).contains(&row) {
        7_000
    } else if (30_000..41_000).contains(&row) {
        29_000
    } else {
        return false;
    };
    column >= 121_000 - half_width && column < 121_000 + half_width
}

fn screenshot(width: u32, height: u32) -> Image {
    Image::from_rows(
        (0..height)
            .map(|y| {
                (0..width)
                    .map(|x| {
                        let rx = (2 * x as u64 + 1) * 1920 * 500 / width as u64;
                        let ry = (2 * y as u64 + 1) * 1080 * 500 / height as u64;
                        if in_label(rx, ry) {
                            TEXT
                        } else {
                            BACK
                        }
                    })
                    .collect()
            })
            .collect(),
    )
    .unwrap()
}

fn blank(width: u32, height: u32) -> Image {
    Image::from_rows(vec![vec![BACK; width as usize]; height as usize]).unwrap()
}

#[test]
fn the_screen_scale_follows_the_narrower_side() {
    assert_eq!(screen_scale_units(&blank(1920, 1080)), 17280);
    assert_eq!(screen_scale_units(&blank(1280, 720)), 11520);
    // wider than 16:9: the height counts
    assert_eq!(screen_scale_units(&blank(2560, 1080)), 17280);
    // narrower: the width counts
    assert_eq!(screen_scale_units(&blank(1280, 1024)), 11520);
    assert_eq!(screen_scale_units(&blank(0, 0)), 0);
}

#[test]
fn the_coarse_region_is_centred_above_the_middle() {
    assert_eq!(
        coarse_region(&blank(1920, 1080)),
        Rect { x: 476, y: 411, width: 968, height: 88 }
    );
    assert_eq!(
        coarse_region(&blank(2560, 1080)),
        Rect { x: 796, y: 411, width: 968, height: 88 }
    );
    assert_eq!(
        coarse_region(&blank(1280, 720)),
        Rect { x: 317, y: 274, width: 645, height: 59 }
    );
    assert_eq!(coarse_region(&blank(0, 0)), Rect { x: 0, y: 0, width: 0, height: 0 });
}

#[test]
fn the_histogram_counts_text_pixels_by_row() {
    let image = Image::from_rows(vec![
        vec![TEXT, BACK, TEXT],
        vec![BACK, BACK, BACK],
        vec![TEXT, TEXT, TEXT],
    ])
    .unwrap();
    assert_eq!(row_histogram(&image, &Theme::Vitruvian), vec![2, 0, 3]);
    assert_eq!(row_histogram(&image, &Theme::Corpus), vec![0, 0, 0]);
    assert_eq!(row_histogram(&blank(0, 0), &Theme::Corpus), Vec::<u32>::new());
}

fn dev(numerator: u64, denominator: u64) -> Deviation {
    Deviation { numerator, denominator }
}

#[test]
fn deviations_are_ordered_as_fractions() {
    assert!(dev(1, 2).is_worse_than(&dev(1, 3)));
    assert!(!dev(1, 3).is_worse_than(&dev(1, 2)));
    assert!(!dev(2, 4).is_worse_than(&dev(1, 2)));
    assert!(!dev(1, 2).is_worse_than(&dev(2, 4)));
    // what cannot be scored is worse than anything that can, and no worse than itself
    assert!(dev(0, 0).is_worse_than(&dev(u64::MAX, 1)));
    assert!(!dev(u64::MAX, 1).is_worse_than(&dev(0, 0)));
    assert!(!dev(0, 0).is_worse_than(&dev(5, 0)));
    assert!(dev(u64::MAX, 1).is_worse_than(&dev(u64::MAX, u64::MAX)));
}

#[test]
fn the_policies_differ_in_how_they_break_ties() {
    let list = vec![dev(3, 1), dev(1, 1), dev(2, 1), dev(2, 2), dev(5, 1), dev(3, 3), dev(0, 0)];
    assert_eq!(select_scale(&list, ScalePolicy::HighestRanked), Some(5));
    assert_eq!(select_scale(&list, ScalePolicy::FirstLowest), Some(1));
    assert_eq!(select_scale(&vec![dev(0, 0)], ScalePolicy::HighestRanked), Some(0));
    assert_eq!(select_scale(&vec![dev(0, 0), dev(0, 0)], ScalePolicy::HighestRanked), Some(1));
    assert_eq!(select_scale(&vec![dev(0, 0), dev(0, 0)], ScalePolicy::FirstLowest), Some(0));
    assert_eq!(select_scale(&vec![], ScalePolicy::FirstLowest), None);
}

#[test]
fn the_five_best_are_kept_best_first() {
    let list = vec![dev(3, 1), dev(1, 1), dev(2, 1), dev(2, 2), dev(5, 1), dev(3, 3), dev(0, 0)];
    // the three that deviate by one, the latest first; then 2, then 3
    assert_eq!(rank_top_five(&list), vec![5, 3, 1, 2, 0]);
    assert_eq!(rank_top_five(&vec![dev(4, 1), dev(4, 1)]), vec![1, 0]);
    assert_eq!(rank_top_five(&vec![]), Vec::<usize>::new());
}

#[test]
fn a_label_at_full_scale_is_found_at_the_top_of_the_range() {
    let image = screenshot(1920, 1080);
    let scale = detect_scale(&image, &Theme::Vitruvian, ScalePolicy::HighestRanked).unwrap();
    assert!(scale >= 95, "scale {}", scale);
    let banner = reward_banner(&image, &Theme::Vitruvian, ScalePolicy::HighestRanked).unwrap();
    assert!(banner.width() >= 920 && banner.width() <= 968, "width {}", banner.width());
    let parts = extract_parts(&image, Theme::Vitruvian, &mut Floats).unwrap();
    assert_eq!(parts.len(), 4);
    for part in parts.iter() {
        assert_eq!(part.width(), banner.width() / 4);
        assert_eq!(part.height(), banner.height());
    }
}

#[test]
fn the_slot_count_does_not_depend_on_the_resolution() {
    let small = extract_parts(&screenshot(1280, 720), Theme::Vitruvian, &mut Floats).unwrap();
    let large = extract_parts(&screenshot(3840, 2160), Theme::Vitruvian, &mut Floats).unwrap();
    assert_eq!(small.len(), 4);
    assert_eq!(large.len(), small.len());
}

#[test]
fn a_screen_without_the_skin_colour_has_no_slots() {
    let image = blank(1920, 1080);
    let banner = reward_banner(&image, &Theme::Vitruvian, ScalePolicy::HighestRanked).unwrap();
    assert!(banner.width() > 0 && banner.height() > 0);
    assert!(extract_parts(&image, Theme::Vitruvian, &mut Floats).unwrap().is_empty());
    // the wrong skin sees nothing either
    assert!(extract_parts(&screenshot(1920, 1080), Theme::Corpus, &mut Floats).unwrap().is_empty());
    // and tiny or empty bitmaps are no fault
    assert!(extract_parts(&blank(0, 0), Theme::Vitruvian, &mut Floats).unwrap().is_empty());
    assert!(extract_parts(&blank(7, 3), Theme::Vitruvian, &mut Floats).unwrap().is_empty());
    assert!(extract_parts(&blank(1, 900), Theme::Vitruvian, &mut Floats).unwrap().is_empty());
}

#[test]
fn a_skin_without_a_rule_locates_nothing() {
    let image = blank(64, 36);
    assert_eq!(
        extract_parts(&image, Theme::Unknown, &mut Floats).err(),
        Some(ThemeError::UnsupportedTheme)
    );
    assert_eq!(
        extract_parts_with(&image, Theme::Unknown, ScalePolicy::FirstLowest, &mut Floats).err(),
        Some(ThemeError::UnsupportedTheme)
    );
    assert_eq!(
        detect_scale(&image, &Theme::Unknown, ScalePolicy::FirstLowest),
        Err(ThemeError::UnsupportedTheme)
    );
    assert!(reward_banner(&image, &Theme::Unknown, ScalePolicy::FirstLowest).is_err());
}

#[test]
fn a_blank_screen_scores_every_scale_alike_where_it_scores() {
    // without text, a larger scale expects more and so deviates more: the
    // smallest scale wins under either policy
    let image = blank(1920, 1080);
    assert_eq!(detect_scale(&image, &Theme::Vitruvian, ScalePolicy::HighestRanked), Ok(50));
    assert_eq!(detect_scale(&image, &Theme::Vitruvian, ScalePolicy::FirstLowest), Ok(50));
}

#[test]
fn votes_are_tallied_by_skin_and_distance() {
    // a screen of Corpus's own colour: every sampled pixel votes for it from distance 0
    let corpus = Image::from_rows(vec![vec![Rgb::new(35, 201, 245); 160]; 90]).unwrap();
    let tally = skin_tally(&corpus);
    assert_eq!(tally.len(), 15 * DISTANCES);
    let sampled: u64 = tally.iter().sum();
    assert_eq!(sampled, 2609);
    assert_eq!(tally[3 * DISTANCES], sampled);
    assert!(has_votes(&tally, 3));
    assert!(!has_votes(&tally, 2));
    assert_eq!(first_with_votes(&tally), Some(3));
    // one step off the colour the votes come from distance 2
    let near = Image::from_rows(vec![vec![Rgb::new(36, 200, 245); 160]; 90]).unwrap();
    assert_eq!(skin_tally(&near)[3 * DISTANCES + 2], sampled);
    // black is nearest to Orokin's (20, 41, 29), 90 away
    assert_eq!(skin_tally(&blank(160, 90))[8 * DISTANCES + 90], sampled);
    // no pixels, no votes
    let empty = skin_tally(&blank(0, 0));
    assert_eq!(empty, vec![0u64; 15 * DISTANCES]);
    assert_eq!(first_with_votes(&empty), None);
}

#[test]
fn the_pick_is_a_skin_that_was_voted_for() {
    let mut tally = vec![0u64; 15 * DISTANCES];
    assert_eq!(theme_of_pick(&tally, 4), None);
    tally[7 * DISTANCES + 71] = 1491;
    tally[66] = 1118;
    assert_eq!(theme_of_pick(&tally, 7), Some(Theme::Nidus));
    assert_eq!(theme_of_pick(&tally, 0), Some(Theme::Vitruvian));
    // a pick without a vote, or of no skin at all, falls to the first skin with a vote
    assert_eq!(theme_of_pick(&tally, 3), Some(Theme::Vitruvian));
    assert_eq!(theme_of_pick(&tally, 15), Some(Theme::Vitruvian));
    assert_eq!(theme_of_pick(&tally, usize::MAX), Some(Theme::Vitruvian));
    // 1491 / 72^4 is a little more than 1118 / 67^4
    assert_eq!(Floats.heaviest_skin(&tally), 7);
    tally[66] = 1119;
    assert_eq!(Floats.heaviest_skin(&tally), 0);
}

#[test]
fn the_skin_with_the_most_weight_is_detected() {
    // a few hundred pixels of the skin's own colour outweigh a dark screen
    assert_eq!(detect_theme(&screenshot(1920, 1080), &mut Floats), Some(Theme::Vitruvian));
    // black is nearest to Orokin's (20, 41, 29)
    assert_eq!(detect_theme(&blank(192, 108), &mut Floats), Some(Theme::Orokin));
    let corpus = Image::from_rows(vec![vec![Rgb::new(35, 201, 245); 640]; 360]).unwrap();
    assert_eq!(detect_theme(&corpus, &mut Floats), Some(Theme::Corpus));
    assert_eq!(detect_theme(&blank(0, 0), &mut Floats), None);
    // take 1491 of the 2609 votes of a screen in a colour 66 from Vitruvian and
    // give them to Nidus at distance 71: Nidus then weighs a little more
    let close = Image::from_rows(vec![vec![Rgb::new(124, 169, 102); 160]; 90]).unwrap();
    let mut votes = skin_tally(&close);
    assert_eq!(votes[66], 2609);
    votes[66] -= 1491;
    votes[7 * DISTANCES + 71] += 1491;
    assert_eq!(theme_of_pick(&votes, Floats.heaviest_skin(&votes)), Some(Theme::Nidus));
}

#[test]
fn the_deviation_of_a_blank_screen() {
    let all = scale_deviations(&blank(1920, 1080), &Theme::Vitruvian).unwrap();
    assert_eq!(all.len(), 50);
    // at 50% a slot is 484 wide; the head spans label rows 1 and 2, the
    // middle rows 3 to 7, the tail rows 8 and 9
    assert_eq!(
        all[0],
        Deviation {
            numerator: (2 * 6 * 484) * 4 + (5 * 5 * 26 * 484) * 2 + (2 * 7 * 484) * 2 * 4,
            denominator: 2 * 4
        }
    );
    // at 99% a slot is 958 wide; head rows 1 to 3, middle 4 to 14, tail 15 to 19
    assert_eq!(
        all[49],
        Deviation {
            numerator: (3 * 6 * 958) * 10 * 4 + (11 * 5 * 26 * 958) * 3 * 4
                + (5 * 7 * 958) * 3 * 10,
            denominator: 3 * 10 * 4
        }
    );
    // a screen too small for a tail cannot be scored at the low scales
    let small = scale_deviations(&blank(1024, 768), &Theme::Vitruvian).unwrap();
    assert_eq!(small[0], Deviation { numerator: 0, denominator: 0 });
    assert!(small[49].denominator > 0);
    assert_eq!(
        scale_deviations(&blank(4, 4), &Theme::Unknown),
        Err(ThemeError::UnsupportedTheme)
    );
}

#[test]
fn the_banner_of_a_blank_screen_is_that_of_the_smallest_scale() {
    let banner = reward_banner(&blank(1920, 1080), &Theme::Vitruvian, ScalePolicy::HighestRanked)
        .unwrap();
    // 968 * 0.51 wide, (129 * 0.51 - 81 * 0.5) high
    assert_eq!((banner.width(), banner.height()), (493, 25));
    let full = reward_banner(&screenshot(1920, 1080), &Theme::Vitruvian, ScalePolicy::FirstLowest)
        .unwrap();
    assert!(full.width() > 900);
}

/// Tells of each bitmap its size and how many of its pixels are black.
struct Counter {
    calls: usize,
}

impl Recognizer for Counter {
    fn recognize(&mut self, image: &Image) -> String {
        self.calls += 1;
        let mut black = 0;
        for y in 0..image.height() {
            for x in 0..image.width() {
                if image.get_pixel(x, y) == BACK {
                    black += 1;
                }
            }
        }
        format!("{}x{}:{}", image.width(), image.height(), black)
    }
}

#[test]
fn each_reward_is_read_once_and_in_order() {
    let mut session = Counter { calls: 0 };
    let image = screenshot(1920, 1080);
    let given = reward_image_to_reward_names(&image, Some(Theme::Vitruvian), &mut session, &mut Floats)
        .unwrap();
    assert_eq!(given.len(), 4);
    assert_eq!(session.calls, 4);
    let parts = extract_parts(&image, Theme::Vitruvian, &mut Floats).unwrap();
    for (text, part) in given.iter().zip(parts.iter()) {
        assert!(text.starts_with(&format!("{}x{}:", part.width(), part.height())));
        assert!(!text.ends_with(":0"));
    }
    // the skin is detected where none is given
    let detected = reward_image_to_reward_names(&image, None, &mut session, &mut Floats).unwrap();
    assert_eq!(detected, given);
    // nothing is read off a screen without rewards, or without any pixels
    let mut idle = Counter { calls: 0 };
    assert!(reward_image_to_reward_names(&blank(640, 360), None, &mut idle, &mut Floats)
        .unwrap()
        .is_empty());
    assert!(reward_image_to_reward_names(&blank(0, 0), None, &mut idle, &mut Floats)
        .unwrap()
        .is_empty());
    assert_eq!(
        reward_image_to_reward_names(&image, Some(Theme::Unknown), &mut idle, &mut Floats),
        Err(ThemeError::UnsupportedTheme)
    );
    assert_eq!(idle.calls, 0);
}

#[test]
fn a_screen_too_small_for_a_banner_has_no_slots_even_when_full_of_text() {
    // at 16 by 9 the banner region is less than a row high
    let tiny = Image::from_rows(vec![vec![TEXT; 16]; 9]).unwrap();
    assert!(extract_parts(&tiny, Theme::Vitruvian, &mut Floats).unwrap().is_empty());
    // the same screen 120 times as large has slots
    let large = Image::from_rows(vec![vec![TEXT; 1920]; 1080]).unwrap();
    assert!(!extract_parts(&large, Theme::Vitruvian, &mut Floats).unwrap().is_empty());
}
