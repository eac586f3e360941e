use wfinfo::color::{color_difference, Rgb};
use wfinfo::theme::{HslRange, Theme, ThemeError};

#[test]
fn there_are_fifteen_named_skins() {
    let all = Theme::iter();
    assert_eq!(all.len(), 15);
    assert_eq!(all[0], Theme::Vitruvian);
    assert_eq!(all[14], Theme::Zephyr);
    for theme in all {
        assert!(theme.primary().is_some());
        assert!(theme.secondary().is_some());
    }
    assert_eq!(Theme::Unknown.primary(), None);
    assert_eq!(Theme::Stalker.primary(), Some(Rgb::new(153, 31, 35)));
    assert_eq!(Theme::Stalker.secondary(), Some(Rgb::new(255, 61, 51)));
}

#[test]
fn colour_distance_sums_the_channels() {
    assert_eq!(color_difference((Rgb::new(0, 0, 0), Rgb::new(255, 255, 255))), 765);
    assert_eq!(color_difference((Rgb::new(10, 20, 30), Rgb::new(13, 18, 30))), 5);
    assert_eq!(color_difference((Rgb::new(1, 2, 3), Rgb::new(1, 2, 3))), 0);
}

#[test]
fn the_nearest_skin_is_found_and_ties_go_to_the_first() {
    assert_eq!(Theme::closest_from_color(Rgb::new(35, 201, 245)), (Theme::Corpus, 0));
    assert_eq!(Theme::closest_from_color(Rgb::new(36, 200, 245)), (Theme::Corpus, 2));
    assert_eq!(Theme::closest_from_color(Rgb::new(255, 255, 255)), (Theme::Legacy, 0));
    // Corpus (35, 201, 245) and Lotus (36, 184, 242) are 21 apart; this colour is 10
    // from Corpus and 11 from Lotus
    assert_eq!(Theme::closest_from_color(Rgb::new(35, 194, 242)), (Theme::Corpus, 10));
    // Baruuk (238, 193, 105) and Grineer (255, 189, 102): this colour is 12 from both
    assert_eq!(Theme::closest_from_color(Rgb::new(246, 191, 103)), (Theme::Baruuk, 12));
}

#[test]
fn a_skin_without_a_rule_fails() {
    assert_eq!(
        Theme::Unknown.threshold_filter(Rgb::new(1, 2, 3)),
        Err(ThemeError::UnsupportedTheme)
    );
    for theme in Theme::iter() {
        assert!(theme.threshold_filter(Rgb::new(1, 2, 3)).is_ok());
    }
}

#[test]
fn reference_colours_are_accepted_and_their_neighbours_are_not() {
    assert_eq!(Theme::Vitruvian.threshold_filter(Rgb::new(190, 169, 102)), Ok(true));
    assert_eq!(Theme::Vitruvian.threshold_filter(Rgb::new(245, 227, 173)), Ok(true));
    assert_eq!(Theme::Vitruvian.threshold_filter(Rgb::new(190, 169, 103)), Ok(false));
    assert_eq!(Theme::Corpus.threshold_filter(Rgb::new(190, 169, 102)), Ok(false));
}

#[test]
fn equinox_takes_pale_light_colours() {
    // saturation 0, lightness 200/255
    assert_eq!(Theme::Equinox.threshold_filter(Rgb::new(200, 200, 200)), Ok(true));
    // lightness 140/255 = 0.549 < 0.55
    assert_eq!(Theme::Equinox.threshold_filter(Rgb::new(140, 140, 140)), Ok(false));
    // lightness 141/255 = 0.553
    assert_eq!(Theme::Equinox.threshold_filter(Rgb::new(141, 141, 141)), Ok(true));
    // max 220, min 180: lightness 400/510, saturation 40/110 = 0.36
    assert_eq!(Theme::Equinox.threshold_filter(Rgb::new(220, 200, 180)), Ok(false));
    // max 210, min 190: saturation 20/110 = 0.18
    assert_eq!(Theme::Equinox.threshold_filter(Rgb::new(210, 200, 190)), Ok(true));
    // saturation exactly 0.2: chroma 22 over 110
    assert_eq!(Theme::Equinox.threshold_filter(Rgb::new(211, 200, 189)), Ok(true));
}

#[test]
fn stalker_takes_saturated_reds() {
    // hue 0, saturation 0.8, lightness 0.49
    assert_eq!(Theme::Stalker.threshold_filter(Rgb::new(225, 25, 25)), Ok(true));
    // hue 60 * 40 / 200 = 12 degrees
    assert_eq!(Theme::Stalker.threshold_filter(Rgb::new(225, 65, 25)), Ok(false));
    // hue -6 degrees: blue above green
    assert_eq!(Theme::Stalker.threshold_filter(Rgb::new(225, 25, 45)), Ok(true));
    // hue -12 degrees
    assert_eq!(Theme::Stalker.threshold_filter(Rgb::new(225, 25, 65)), Ok(false));
    // fully saturated is outside the half-open band
    assert_eq!(Theme::Stalker.threshold_filter(Rgb::new(255, 0, 0)), Ok(false));
    // grey
    assert_eq!(Theme::Stalker.threshold_filter(Rgb::new(128, 128, 128)), Ok(false));
}

#[test]
fn high_contrast_takes_its_blue() {
    // max blue 200, min 20: hue = 60 * (20 - 110) / 180 - 120 = -150 degrees,
    // lightness 220 / 510 = 0.43, saturation 180 / 220
    assert_eq!(Theme::HighContrast.threshold_filter(Rgb::new(20, 110, 200)), Ok(true));
    // the same hue, lighter: lightness 300 / 510 = 0.59
    assert_eq!(Theme::HighContrast.threshold_filter(Rgb::new(60, 150, 240)), Ok(false));
    // the same hue, darker: lightness 170 / 510 = 0.33, saturation 130 / 170
    assert_eq!(Theme::HighContrast.threshold_filter(Rgb::new(20, 85, 150)), Ok(true));
    // hue -120
    assert_eq!(Theme::HighContrast.threshold_filter(Rgb::new(20, 20, 150)), Ok(false));
}

#[test]
fn a_custom_skin_tests_its_box() {
    let reds = Theme::Custom(HslRange {
        hue: -10_000..10_000,
        saturation: 500..1000,
        lightness: 150..1000,
    });
    assert_eq!(reds.threshold_filter(Rgb::new(225, 25, 25)), Ok(true));
    assert_eq!(reds.threshold_filter(Rgb::new(25, 225, 25)), Ok(false));
    assert_eq!(reds.threshold_filter(Rgb::new(130, 120, 120)), Ok(false));
    assert_eq!(reds.primary(), None);
    let greens = Theme::Custom(HslRange {
        hue: 120_000..120_001,
        saturation: 0..1001,
        lightness: 0..1001,
    });
    assert_eq!(greens.threshold_filter(Rgb::new(0, 255, 0)), Ok(true));
    assert_eq!(greens.threshold_filter(Rgb::new(1, 255, 0)), Ok(false));
    let cyan_edge = Theme::Custom(HslRange {
        hue: 180_000..180_001,
        saturation: 0..1001,
        lightness: 0..1001,
    });
    assert_eq!(cyan_edge.threshold_filter(Rgb::new(0, 255, 255)), Ok(true));
}
