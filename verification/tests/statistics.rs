use wfinfo::statistics::{checked_power, Bucket, Expectation, Item};

fn uniform(values: Vec<u32>) -> (Vec<Item>, u32) {
    let scale = values.len() as u32;
    (
        values
            .into_iter()
            .map(|value| Item {
                value,
                probability: 1,
            })
            .collect(),
        scale,
    )
}

fn as_float(e: Expectation) -> f64 {
    e.numerator as f64 / e.denominator as f64
}

fn close(a: f64, b: f64) -> bool {
    (a - b).abs() <= 1e-9 * a.abs().max(b.abs()).max(1.0)
}

#[test]
fn single_die() {
    let (items, scale) = uniform(vec![1, 2, 3, 4, 5, 6]);
    let bucket = Bucket::new(items, scale);
    let value = bucket.expectation_of_best_of_n(1).unwrap();
    assert!(close(as_float(value), 3.5));
    assert_eq!(value, Expectation { numerator: 21, denominator: 6 });
}

#[test]
fn two_dies() {
    let (items, scale) = uniform(vec![1, 2, 3, 4, 5, 6]);
    let bucket = Bucket::new(items, scale);
    let value = bucket.expectation_of_best_of_n(2).unwrap();
    assert!(close(as_float(value), 161.0 / 36.0));
    assert_eq!(value, Expectation { numerator: 161, denominator: 36 });
}

#[test]
fn odd_coin() {
    let bucket = Bucket::new(
        vec![
            Item {
                value: 0,
                probability: 9,
            },
            Item {
                value: 1,
                probability: 1,
            },
        ],
        10,
    );
    let value = bucket.expectation_of_best_of_n(1).unwrap();
    assert!(close(as_float(value), 0.1));
}

#[test]
fn odd_coins() {
    let bucket = Bucket::new(
        vec![
            Item {
                value: 0,
                probability: 9,
            },
            Item {
                value: 1,
                probability: 1,
            },
        ],
        10,
    );
    let value = bucket.expectation_of_best_of_n(2).unwrap();
    assert!(close(as_float(value), 0.1 + 0.9 * 0.1));
    assert_eq!(value, Expectation { numerator: 19, denominator: 100 });
}

#[test]
fn bucket_sorts_by_value_and_keeps_ties_in_order() {
    let bucket = Bucket::new(
        vec![
            Item { value: 5, probability: 1 },
            Item { value: 2, probability: 2 },
            Item { value: 5, probability: 3 },
            Item { value: 1, probability: 4 },
        ],
        10,
    );
    let values: Vec<(u32, u32)> = bucket.items().iter().map(|i| (i.value, i.probability)).collect();
    assert_eq!(values, vec![(1, 4), (2, 2), (5, 1), (5, 3)]);
    assert_eq!(bucket.scale(), 10);
    assert_eq!(bucket.cumulative(), vec![4, 6, 7, 10]);
}

#[test]
fn the_order_of_the_outcomes_does_not_matter() {
    let a = Bucket::new(
        vec![
            Item { value: 7, probability: 2 },
            Item { value: 3, probability: 5 },
            Item { value: 9, probability: 3 },
        ],
        10,
    );
    let b = Bucket::new(
        vec![
            Item { value: 9, probability: 3 },
            Item { value: 7, probability: 2 },
            Item { value: 3, probability: 5 },
        ],
        10,
    );
    for n in 0..6 {
        assert_eq!(a.expectation_of_best_of_n(n), b.expectation_of_best_of_n(n));
    }
    // best of three: 3 * 125 + 7 * (343 - 125) + 9 * (1000 - 343)
    assert_eq!(
        a.expectation_of_best_of_n(3),
        Some(Expectation { numerator: 7814, denominator: 1000 })
    );
}

#[test]
fn no_draw_yields_the_lowest_value() {
    let (items, scale) = uniform(vec![4, 2, 6]);
    let bucket = Bucket::new(items, scale);
    assert_eq!(
        bucket.expectation_of_best_of_n(0),
        Some(Expectation { numerator: 2, denominator: 1 })
    );
}

#[test]
fn an_empty_bucket_expects_nothing() {
    let bucket = Bucket::new(vec![], 7);
    assert_eq!(
        bucket.expectation_of_best_of_n(2),
        Some(Expectation { numerator: 0, denominator: 49 })
    );
}

#[test]
fn what_does_not_fit_is_refused() {
    let bucket = Bucket::new(vec![Item { value: 1, probability: 10000 }], 10000);
    assert!(bucket.expectation_of_best_of_n(9).is_some());
    assert_eq!(bucket.expectation_of_best_of_n(10), None);
    let heavy = Bucket::new(vec![Item { value: u32::MAX, probability: u32::MAX }], 1);
    assert!(heavy.expectation_of_best_of_n(3).is_some());
    assert_eq!(heavy.expectation_of_best_of_n(4), None);
}

#[test]
fn powers() {
    assert_eq!(checked_power(0, 0), Some(1));
    assert_eq!(checked_power(0, 5), Some(0));
    assert_eq!(checked_power(1, u32::MAX), Some(1));
    assert_eq!(checked_power(10, 3), Some(1000));
    assert_eq!(checked_power(2, 127), Some(1u128 << 127));
    assert_eq!(checked_power(2, 128), None);
}
