use wfinfo::bitmap::Image;
use wfinfo::color::Rgb;
use wfinfo::segmenter::{
    binarize, column_counts, filter_and_separate_parts_from_part_box, has_weight, layout,
    layout_given, separate_parts, side_at, Layout,
};
use wfinfo::theme::{Theme, ThemeError};
use wfinfo::weighing::Weigher;

const TEXT: Rgb = Rgb { red: 255, green: 255, blue: 255 };
const BACK: Rgb = Rgb { red: 10, green: 20, blue: 30 };
const INK: Rgb = Rgb { red: 0, green: 0, blue: 0 };
const PAPER: Rgb = Rgb { red: 255, green: 255, blue: 255 };

/// Weighs with the cosine, and counts how often it is asked.
struct Cosine {
    asked: usize,
}

impl Weigher for Cosine {
    fn odd_outweighs(&mut self, counts: &Vec<u32>) -> bool {
        self.asked += 1;
        let width = counts.len() as f64;
        let (mut even, mut odd) = (0.0, 0.0);
        for (x, count) in counts.iter().enumerate() {
            let cosine = (8.0 * x as f64 * std::f64::consts::PI / width).cos();
            let weight = cosine.powi(3) * *count as f64;
            if cosine < 0.0 {
                even -= weight;
            } else if cosine > 0.0 {
                odd += weight;
            }
        }
        odd > even
    }

    fn heaviest_skin(&mut self, _tally: &Vec<u64>) -> usize {
        0
    }
}

/// A banner 400 wide and 60 high with text in rows 10 to 39 of the columns
/// for which `lit` holds.
fn banner(lit: impl Fn(u32) -> bool) -> Image {
    Image::from_rows(
        (0..60u32)
            .map(|y| {
                (0..400u32)
                    .map(|x| if (10..40).contains(&y) && lit(x) { TEXT } else { BACK })
                    .collect()
            })
            .collect(),
    )
    .unwrap()
}

#[test]
fn a_blank_banner_has_no_slots() {
    let mut cosine = Cosine { asked: 0 };
    let blank = banner(|_| false);
    assert_eq!(
        layout(&blank, &Theme::Legacy, &mut cosine),
        Layout { slots: 0, left: 0, slot_width: 100 }
    );
    for answer in [true, false] {
        assert_eq!(layout_given(&blank, &Theme::Legacy, answer).slots, 0);
        assert!(separate_parts(&blank, &Theme::Legacy, answer).is_empty());
    }
    let parts = filter_and_separate_parts_from_part_box(blank, Theme::Legacy, &mut cosine).unwrap();
    assert!(parts.is_empty());
    let nothing = Image::from_rows(vec![]).unwrap();
    assert!(
        filter_and_separate_parts_from_part_box(nothing, Theme::Legacy, &mut cosine)
            .unwrap()
            .is_empty()
    );
    // nothing was there to weigh
    assert_eq!(cosine.asked, 0);
}

#[test]
fn text_in_the_middle_of_each_quarter_makes_four_slots() {
    let mut cosine = Cosine { asked: 0 };
    let four = banner(|x| (20..80).contains(&(x % 100)));
    assert_eq!(
        layout(&four, &Theme::Legacy, &mut cosine),
        Layout { slots: 4, left: 0, slot_width: 100 }
    );
    let parts = filter_and_separate_parts_from_part_box(four, Theme::Legacy, &mut cosine).unwrap();
    assert_eq!(cosine.asked, 2);
    assert_eq!(parts.len(), 4);
    for part in parts.iter() {
        assert_eq!((part.width(), part.height()), (100, 60));
        // binarized: text is black on white
        assert_eq!(part.get_pixel(50, 20), INK);
        assert_eq!(part.get_pixel(10, 20), PAPER);
        assert_eq!(part.get_pixel(50, 5), PAPER);
        assert_eq!(part.get_pixel(20, 10), INK);
        assert_eq!(part.get_pixel(19, 10), PAPER);
    }
}

#[test]
fn text_around_the_quarter_lines_makes_three_slots_half_a_slot_in() {
    let mut cosine = Cosine { asked: 0 };
    let three = banner(|x| (70..330).contains(&x) && !(30..70).contains(&(x % 100)));
    assert_eq!(
        layout(&three, &Theme::Legacy, &mut cosine),
        Layout { slots: 3, left: 50, slot_width: 100 }
    );
    let parts =
        filter_and_separate_parts_from_part_box(three, Theme::Legacy, &mut cosine).unwrap();
    assert_eq!(parts.len(), 3);
    for part in parts.iter() {
        assert_eq!((part.width(), part.height()), (100, 60));
        // the slot starts at column 50, 150 or 250 of the banner
        assert_eq!(part.get_pixel(50, 20), INK);
        assert_eq!(part.get_pixel(21, 20), INK);
        assert_eq!(part.get_pixel(19, 20), PAPER);
        assert_eq!(part.get_pixel(79, 20), INK);
        assert_eq!(part.get_pixel(80, 20), PAPER);
    }
}

#[test]
fn the_answer_of_the_weigher_decides_between_three_and_four() {
    let four = banner(|x| (20..80).contains(&(x % 100)));
    assert_eq!(
        layout_given(&four, &Theme::Legacy, true),
        Layout { slots: 3, left: 50, slot_width: 100 }
    );
    assert_eq!(
        layout_given(&four, &Theme::Legacy, false),
        Layout { slots: 4, left: 0, slot_width: 100 }
    );
    let three = separate_parts(&four, &Theme::Legacy, true);
    assert_eq!(three.len(), 3);
    assert_eq!(three[0].get_pixel(29, 20), INK);
    assert_eq!(three[0].get_pixel(30, 20), PAPER);
    let parts = separate_parts(&four, &Theme::Legacy, false);
    assert_eq!(parts.len(), 4);
    assert_eq!(parts[3].get_pixel(20, 20), INK);
}

#[test]
fn a_single_column_close_to_a_zero_crossing_still_counts() {
    // in a banner 1601 wide the wave at column 100 is about 0.001, and positive
    let image = Image::from_rows(
        (0..3u32)
            .map(|_| (0..1601u32).map(|x| if x == 100 { TEXT } else { BACK }).collect())
            .collect(),
    )
    .unwrap();
    let mut cosine = Cosine { asked: 0 };
    assert_eq!(side_at(100, 1601), 1);
    assert_eq!(
        layout(&image, &Theme::Legacy, &mut cosine),
        Layout { slots: 3, left: 200, slot_width: 400 }
    );
    assert_eq!(cosine.asked, 1);
    // on the other side of the crossing it makes four
    let other = Image::from_rows(
        (0..3u32)
            .map(|_| (0..1601u32).map(|x| if x == 101 { TEXT } else { BACK }).collect())
            .collect(),
    )
    .unwrap();
    assert_eq!(side_at(101, 1601), -1);
    assert_eq!(layout(&other, &Theme::Legacy, &mut cosine).slots, 4);
}

#[test]
fn a_column_on_a_zero_crossing_weighs_nothing() {
    // in a banner 400 wide the wave is zero at columns 25, 75, 125, ...
    let image = banner(|x| x % 50 == 25);
    let counts = column_counts(&image, &Theme::Legacy);
    assert_eq!(counts[25], 20);
    assert!(!has_weight(&counts));
    let mut cosine = Cosine { asked: 0 };
    assert_eq!(layout(&image, &Theme::Legacy, &mut cosine).slots, 0);
    assert_eq!(cosine.asked, 0);
    assert!(has_weight(&column_counts(&banner(|x| x == 26), &Theme::Legacy)));
    assert!(!has_weight(&vec![]));
    assert!(!has_weight(&vec![0, 0, 0]));
    assert!(has_weight(&vec![1]));
}

#[test]
fn equal_weight_on_both_sides_makes_four_slots() {
    let full = banner(|x| x % 50 == 0);
    let mut cosine = Cosine { asked: 0 };
    assert_eq!(layout(&full, &Theme::Legacy, &mut cosine).slots, 4);
}

#[test]
fn a_column_counts_for_a_third_of_the_height_at_most() {
    let image = banner(|x| x == 100 || x == 101);
    let tall = Image::from_rows(
        (0..60u32)
            .map(|_| (0..400u32).map(|x| if x == 7 { TEXT } else { BACK }).collect())
            .collect(),
    )
    .unwrap();
    let counts = column_counts(&image, &Theme::Legacy);
    assert_eq!(counts.len(), 400);
    assert_eq!((counts[99], counts[100], counts[101], counts[102]), (0, 20, 20, 0));
    assert_eq!(column_counts(&tall, &Theme::Legacy)[7], 20);
    let short = Image::from_rows(vec![vec![TEXT; 5]; 2]).unwrap();
    assert_eq!(column_counts(&short, &Theme::Legacy), vec![0; 5]);
    let three = Image::from_rows(vec![vec![TEXT; 5]; 3]).unwrap();
    assert_eq!(column_counts(&three, &Theme::Legacy), vec![1; 5]);
}

#[test]
fn a_skin_without_a_rule_cuts_nothing() {
    let mut cosine = Cosine { asked: 0 };
    let four = banner(|x| (20..80).contains(&(x % 100)));
    assert_eq!(
        filter_and_separate_parts_from_part_box(four, Theme::Unknown, &mut cosine).err(),
        Some(ThemeError::UnsupportedTheme)
    );
    assert_eq!(cosine.asked, 0);
}

#[test]
fn binarizing_keeps_the_size() {
    let image = banner(|x| x < 3);
    let two = binarize(&image, &Theme::Legacy);
    assert_eq!((two.width(), two.height()), (400, 60));
    assert_eq!(two.get_pixel(2, 10), INK);
    assert_eq!(two.get_pixel(3, 10), PAPER);
    assert_eq!(two.get_pixel(2, 9), PAPER);
    let flat = Image::from_rows_of_width(7, vec![]).unwrap();
    let flat_two = binarize(&flat, &Theme::Legacy);
    assert_eq!((flat_two.width(), flat_two.height()), (7, 0));
}

#[test]
fn the_wave_has_four_periods() {
    // positive around the slot edges, negative around the middle of the slots
    for period in 0..4 {
        assert_eq!(side_at(150 * period, 600), 1);
        assert_eq!(side_at(150 * period + 37, 600), 1);
        assert_eq!(side_at(150 * period + 38, 600), -1);
        assert_eq!(side_at(150 * period + 75, 600), -1);
        assert_eq!(side_at(150 * period + 112, 600), -1);
        assert_eq!(side_at(150 * period + 113, 600), 1);
    }
    // zero where a quarter or three quarters of a period fall on a column
    assert_eq!(side_at(25, 400), 0);
    assert_eq!(side_at(75, 400), 0);
    assert_eq!(side_at(24, 400), 1);
    assert_eq!(side_at(26, 400), -1);
    assert_eq!(side_at(74, 400), -1);
    assert_eq!(side_at(76, 400), 1);
    assert_eq!(side_at(0, 1), 1);
    assert_eq!(side_at(u32::MAX, 7), side_at(u32::MAX % 7, 7));
}
