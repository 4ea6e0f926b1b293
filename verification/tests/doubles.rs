//! Numbers with fractions, held against the machine's own.

use cx::doubles::percent_of;
use cx::doubles::weighted_count;
use cx::doubles::Double;
use cx::format::format_cost;
use cx::format::format_ratio;
use cx::report::format_percent;
use cx::report::progress_bar;
use cx::wrap::balanced_row_sizes;
use cx::wrap::copy_item_rows;

fn double(value: f64) -> Double {
    Double { bits: value.to_bits() }
}

fn value(number: Double) -> f64 {
    f64::from_bits(number.bits)
}

/// Numbers of many sizes and signs.
fn numbers() -> Vec<f64> {
    let mut all = vec![
        0.0,
        -0.0,
        0.1,
        0.25,
        0.35,
        0.5,
        0.05,
        1.0,
        1.15,
        1.25,
        2.5,
        2.675,
        12.345,
        33.333333333333336,
        99.95,
        99.99999999999999,
        100.0,
        100.00000000000001,
        120.0,
        4503599627370496.5,
        9007199254740993.0,
        1.0e15,
        1.0e22,
        1.7e308,
        f64::MAX,
        f64::MIN_POSITIVE,
        5.0e-324,
        1.0e-7,
        f64::INFINITY,
    ];
    let mut seed: u64 = 0x9e37_79b9_7f4a_7c15;
    for _ in 0..60 {
        seed = seed.wrapping_mul(6364136223846793005).wrapping_add(1442695040888963407);
        all.push((seed >> 20) as f64 / 1.0e9);
        all.push((seed % 100_000) as f64 / 1000.0);
    }
    let negative: Vec<f64> = all.iter().map(|x| -x).collect();
    all.extend(negative);
    all
}

#[test]
fn sums_are_those_of_the_machine() {
    for x in numbers() {
        for y in numbers() {
            let sum = double(x).plus(double(y));
            if (x + y).is_nan() {
                assert!(value(sum).is_nan(), "{x} {y}");
            } else {
                assert_eq!(sum.bits, (x + y).to_bits(), "{x} {y}");
            }
        }
    }
}

#[test]
fn numbers_are_written_as_the_machine_writes_them() {
    for x in numbers() {
        assert_eq!(double(x).text(0), format!("{x:.0}"), "{x}");
        assert_eq!(double(x).text(1), format!("{x:.1}"), "{x}");
        assert_eq!(double(x).text(2), format!("{x:.2}"), "{x}");
    }
    assert_eq!(double(f64::NAN).text(1), "NaN");
}

#[test]
fn numbers_are_ordered_by_value() {
    for x in numbers() {
        assert_eq!(double(x).not_positive(), x <= 0.0);
        for y in numbers() {
            assert_eq!(double(x).less(double(y)), x < y, "{x} {y}");
            assert_eq!(double(x).order() < double(y).order(), x < y, "{x} {y}");
            assert_eq!(double(x).order() == double(y).order(), x == y, "{x} {y}");
        }
    }
    assert!(!double(f64::NAN).less(double(1.0)));
    assert!(!double(1.0).less(double(f64::NAN)));
    assert!(!double(f64::NAN).not_positive());
}

#[test]
fn what_is_left_is_within_a_hundred_percent() {
    for x in numbers() {
        assert_eq!(double(x).clamp_percent().bits, x.clamp(0.0, 100.0).to_bits(), "{x}");
        let left = 100.0 - x.clamp(0.0, 100.0);
        assert_eq!(double(x).left_of_percent().bits, left.to_bits(), "{x}");
        assert_eq!(value(double(x).in_hundredths()), x * 100.0, "{x}");
    }
}

#[test]
fn shares_are_rounded_as_the_machine_rounds_them() {
    assert_eq!(format_ratio(23, 2000), "1.1%");
    assert_eq!(format_ratio(0, 0), "0.0%");
    for total in [1u64, 3, 7, 8, 40, 1000, 2000, 4096, 999_983, 1 << 40, u64::MAX] {
        for tokens in [0u64, 1, 2, 5, 23, 115, 999, 2000, 12_345, 1 << 53, (1 << 53) + 1, u64::MAX] {
            let share = tokens as f64 * 100.0 / total as f64;
            assert_eq!(percent_of(tokens, total).bits, share.to_bits(), "{tokens} {total}");
            assert_eq!(format_ratio(tokens, total), format!("{share:.1}%"), "{tokens} {total}");
        }
    }
    for tokens in 0..2000u64 {
        let share = tokens as f64 * 100.0 / 2000.0;
        assert_eq!(format_ratio(tokens, 2000), format!("{share:.1}%"), "{tokens}");
    }
}

#[test]
fn counts_are_weighted_as_the_machine_weighs_them() {
    let mut total = Double { bits: 0 };
    let mut expected = 0.0;
    for n in [0u64, 1, 2, 3, 10, 17, 1_000_003, 1 << 53, (1 << 60) + 12_345, u64::MAX] {
        assert_eq!(Double::of_count(n).bits, (n as f64).to_bits(), "{n}");
        assert_eq!(weighted_count(n).bits, (n as f64 * 0.35).to_bits(), "{n}");
        total = total.plus(weighted_count(n));
        expected += n as f64 * 0.35;
        assert_eq!(value(total), expected, "{n}");
    }
}

#[test]
fn costs_are_written_with_cents() {
    assert_eq!(format_cost(Some(double(1.25)), 0), "$1.25");
    assert_eq!(format_cost(Some(double(2.675)), 0), format!("${:.2}", 2.675));
    assert_eq!(format_cost(None, 0), "-");
    assert_eq!(format_percent(double(0.85)), format!("{:.2}%", 0.85 * 100.0));
    assert_eq!(format_percent(double(0.07)), format!("{:.2}%", 0.07 * 100.0));
}

#[test]
fn bars_stay_within_their_width() {
    for x in numbers() {
        let part = x.clamp(0.0, 100.0) / 100.0 * 20.0;
        let filled = (part.round() as usize).min(20);
        let expected = format!("{}{}", "█".repeat(filled), "░".repeat(20 - filled));
        assert_eq!(progress_bar(double(x)), expected, "{x}");
    }
    assert_eq!(progress_bar(double(250.0)), "█".repeat(20));
    assert_eq!(progress_bar(double(-1.0)), "░".repeat(20));
}

#[test]
fn empty_rows_are_left_out() {
    assert_eq!(balanced_row_sizes(2, 5), vec![1, 1]);
    assert_eq!(balanced_row_sizes(0, 3), Vec::<usize>::new());
    assert_eq!(balanced_row_sizes(7, 3), vec![3, 2, 2]);

    let items = vec!["a".to_string(), "b".to_string(), "c".to_string()];
    assert_eq!(copy_item_rows(&items, &vec![2, 1]), vec![vec!["a", "b"], vec!["c"]]);
    assert_eq!(copy_item_rows(&items, &vec![1]), vec![vec!["a"]]);
}
