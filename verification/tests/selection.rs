use wfinfo::bitmap::Image;
use wfinfo::color::Rgb;
use wfinfo::selection::{extract_part, slop_to_selection, Selection};

#[test]
fn reads_a_selection() {
    assert_eq!(
        slop_to_selection("100x200+300+400"),
        Some(Selection { x: 300, y: 400, width: 100, height: 200 })
    );
    assert_eq!(
        slop_to_selection("  1x2+3+4\n"),
        Some(Selection { x: 3, y: 4, width: 1, height: 2 })
    );
    assert_eq!(
        slop_to_selection("10x20+-5+-7"),
        Some(Selection { x: -5, y: -7, width: 10, height: 20 })
    );
    assert_eq!(
        slop_to_selection("+10x+20++3++4"),
        None
    );
    assert_eq!(
        slop_to_selection("10x20+3++4"),
        Some(Selection { x: 3, y: 4, width: 10, height: 20 })
    );
    assert_eq!(
        slop_to_selection("10x+20+3+4"),
        None
    );
    assert_eq!(
        slop_to_selection("-10x-20+-3+-4"),
        Some(Selection { x: -3, y: -4, width: -10, height: -20 })
    );
    assert_eq!(
        slop_to_selection("0x0+2147483647+-2147483648"),
        Some(Selection { x: 2147483647, y: -2147483648, width: 0, height: 0 })
    );
}

#[test]
fn refuses_what_is_no_selection() {
    for text in [
        "",
        "   ",
        "100x200",
        "100x200+300",
        "100+200+300",
        "100x200+300+",
        "x200+300+400",
        "100x200+3 00+400",
        "100x200+300+400px",
        "100X200+300+400",
        "100x200+2147483648+0",
        "100x200+0+-2147483649",
        "100x200+99999999999999999999999+0",
        "1_0x200+300+400",
        "100x200+-+400",
    ] {
        assert_eq!(slop_to_selection(text), None, "{:?}", text);
    }
}

#[test]
fn a_part_is_cut_to_the_bitmap() {
    let rows: Vec<Vec<Rgb>> = (0..4u8)
        .map(|y| (0..5u8).map(|x| Rgb::new(x, y, 0)).collect())
        .collect();
    let image = Image::from_rows(rows).unwrap();
    let part = extract_part(&image, (3, 10), (-2, 1));
    assert_eq!((part.width(), part.height()), (3, 3));
    assert_eq!(part.get_pixel(0, 0), Rgb::new(0, 1, 0));
    assert_eq!(part.get_pixel(2, 2), Rgb::new(2, 3, 0));
    let none = extract_part(&image, (-3, 2), (1, 1));
    assert_eq!((none.width(), none.height()), (0, 2));
    let outside = extract_part(&image, (2, 2), (9, 9));
    assert_eq!((outside.width(), outside.height()), (0, 0));
}
