//! Numbers and measured quantities, in words.

use wtfi2::model::{Loss, Millis};
use wtfi2::number::{
    decimal_of, pad_zeros, read_digits, read_i32, read_millionths, read_u32, round_ratio, signed_of,
    whole_of,
};
use wtfi2::wide::{Balance, Wide};

fn chars(s: &str) -> Vec<char> {
    s.chars().collect()
}

#[test]
fn numbers_are_written_as_everyone_writes_them() {
    assert_eq!(decimal_of(0), "0");
    assert_eq!(decimal_of(12_345_678_901_234_567_890), "12345678901234567890");
    assert_eq!(signed_of(-67), "-67");
    assert_eq!(signed_of(i64::MIN), "-9223372036854775808");
    assert_eq!(pad_zeros("42", 5), "00042");
    assert_eq!(pad_zeros("123456", 5), "123456");
}

#[test]
fn ties_go_to_the_even_neighbour() {
    assert_eq!(round_ratio(1, 2), 0);
    assert_eq!(round_ratio(3, 2), 2);
    assert_eq!(round_ratio(5, 2), 2);
    assert_eq!(round_ratio(7, 3), 2);
    assert_eq!(round_ratio(8, 3), 3);
}

#[test]
fn numbers_are_read_back() {
    assert_eq!(read_u32(&chars("4294967295")), Some(u32::MAX));
    assert_eq!(read_u32(&chars("4294967296")), None);
    assert_eq!(read_u32(&chars("+7")), Some(7));
    assert_eq!(read_u32(&chars("")), None);
    assert_eq!(read_u32(&chars("1 ")), None);
    assert_eq!(read_i32(&chars("-2147483648")), Some(i32::MIN));
    assert_eq!(read_i32(&chars("2147483648")), None);
    assert_eq!(read_i32(&chars("-")), None);
    assert_eq!(read_digits(&chars("fF"), 16, 255), Some(255));
    assert_eq!(read_digits(&chars("100"), 16, 255), None);
}

#[test]
fn a_time_is_read_to_the_nanosecond() {
    assert_eq!(read_millionths(&chars("3.456")), Some(3_456_000));
    assert_eq!(read_millionths(&chars("12")), Some(12_000_000));
    assert_eq!(read_millionths(&chars("0.000001")), Some(1));
    assert_eq!(read_millionths(&chars(".5")), Some(500_000));
    assert_eq!(read_millionths(&chars("ms")), None);
    assert_eq!(read_millionths(&chars("")), None);
    assert_eq!(read_millionths(&chars(".")), None);
    assert_eq!(read_millionths(&chars("5.")), Some(5_000_000));
    assert_eq!(read_millionths(&chars("1.2.3")), None);
    assert_eq!(read_millionths(&chars("0.0000019")), Some(1));
    assert_eq!(read_millionths(&chars("9223372036854.775807")), Some(i64::MAX));
    assert_eq!(read_millionths(&chars("9223372036854.775808")), None);
}

#[test]
fn a_number_may_be_negative() {
    assert_eq!(read_millionths(&chars("-1")), Some(-1_000_000));
    assert_eq!(read_millionths(&chars("-0.0000019")), Some(-1));
    assert_eq!(read_millionths(&chars("-125e-2")), Some(-1_250_000));
    assert_eq!(read_millionths(&chars("-9223372036854.775808")), Some(i64::MIN));
    assert_eq!(read_millionths(&chars("-9223372036854.775809")), None);
    assert_eq!(read_millionths(&chars("-")), None);
    assert_eq!(read_millionths(&chars("--1")), None);
    assert_eq!(read_millionths(&chars("-+1")), None);
    assert_eq!(whole_of(-1_500_000, 1_000_000), "-2");
    assert_eq!(whole_of(2_500_000, 1_000_000), "2");
}

#[test]
fn a_negative_time_keeps_its_sign() {
    let m = Millis::from_nanos(-1_250_000);
    assert_eq!(m.whole_text(), "-1");
    assert_eq!(m.tenths_text(), "-1.2");
    assert_eq!(m.numeral_text(), "-12500000000000000e-16");
    assert!(m.is_negative());
    assert_eq!((m.nanos(), m.over()), (1_250_000, 1));
    assert!(!m.at_least(0));
    assert!(!m.more_than(0));
    let zero = Millis::from_nanos(0);
    assert!(zero.at_least(0));
    assert!(m.less_than(&zero));
    assert!(!zero.less_than(&m));
    assert!(!Millis::signed_mean(-10, 3).less_than(&m));
    assert!(m.less_than(&Millis::signed_mean(-10, 3)));
    assert_eq!(Millis::from_nanos(i64::MIN).nanos(), 1 << 63);
}

#[test]
fn a_time_may_be_in_scientific_notation() {
    assert_eq!(read_millionths(&chars("1e3")), Some(1_000_000_000));
    assert_eq!(read_millionths(&chars("1.25E+1")), Some(12_500_000));
    assert_eq!(read_millionths(&chars("125e-2")), Some(1_250_000));
    assert_eq!(read_millionths(&chars("1e-9")), Some(0));
    assert_eq!(read_millionths(&chars("1e99999999999999999999999999999999999999999")), None);
    assert_eq!(read_millionths(&chars("0e99999999999999999999999999999999999999999")), Some(0));
    assert_eq!(read_millionths(&chars("1e-99999999999999999999999999999999999999999")), Some(0));
    assert_eq!(read_millionths(&chars("1e")), None);
    assert_eq!(read_millionths(&chars("e3")), None);
    assert_eq!(read_millionths(&chars("1e3.5")), None);
}

#[test]
fn a_mean_is_not_rounded_before_it_is_shown() {
    let m = Millis::mean(10_000_000, 3);
    assert_eq!(m.whole_text(), "3");
    assert_eq!(m.tenths_text(), "3.3");
    assert_eq!(m.numeral_text(), "33333333333333333e-16");
    assert_eq!((m.nanos(), m.over()), (10_000_000, 3));
    assert!(m.at_least(3));
    assert!(m.more_than(3));
    assert!(!m.at_least(4));
    let exact = Millis::from_nanos(3_000_000);
    assert!(exact.at_least(3));
    assert!(!exact.more_than(3));
    assert_eq!(Millis::from_nanos(9_960_000).tenths_text(), "10.0");
}

#[test]
fn a_share_is_shown_in_percent() {
    assert_eq!(Loss::new(1, 3).percent_text(), "33");
    assert_eq!(Loss::new(2, 3).percent_text(), "67");
    assert_eq!(Loss::new(5, 5).percent_text(), "100");
    assert!(Loss::new(1, 4).at_least(25));
    assert!(!Loss::new(1, 5).at_least(25));
}

#[test]
fn a_numeral_has_seventeen_significant_digits() {
    let numeral = |total, count| Millis::mean(total, count).numeral_text();
    assert_eq!(numeral(0, 7), "0e0");
    assert_eq!(numeral(12_500_000, 1), "12500000000000000e-15");
    assert_eq!(numeral(1, 1), "10000000000000000e-22");
    assert_eq!(numeral(1, u64::MAX), "54210108624275221e-42");
    assert_eq!(numeral(u128::MAX, 1), "34028236692093846e16");
    for (total, count) in [(12_500_000, 1), (3_456_000, 1), (10_000_000, 3), (1, 1)] {
        let read: f64 = numeral(total, count).parse().unwrap();
        assert_eq!(read, total as f64 / count as f64 / 1e6);
    }
}

#[test]
fn fractions_are_compared_exactly() {
    let third = Millis::mean(1, 3);
    let half = Millis::mean(1, 2);
    assert!(third.less_than(&half));
    assert!(!half.less_than(&third));
    assert!(!half.less_than(&Millis::mean(2, 4)));
    let near = Millis::mean(u128::MAX - 1, u64::MAX);
    let far = Millis::mean(u128::MAX, u64::MAX);
    assert!(near.less_than(&far));
    assert!(!far.less_than(&near));
}

#[test]
fn wide_numbers_carry() {
    let big = Wide::of(u128::MAX);
    let twice = big.plus(&big);
    assert!(twice.at_least(&big.times(2)));
    assert!(big.times(2).at_least(&twice));
    assert!(!twice.at_least(&twice.plus(&Wide::of(1))));
    assert!(!big.at_least(&big.times(u64::MAX).times(u64::MAX)));
    assert!(big.times(0).at_least(&Wide::of(0)));
    assert!(Wide::of(0).at_least(&big.times(0)));
}

#[test]
fn a_balance_goes_below_zero() {
    let down = Balance::of(true, 7);
    let up = Balance::of(false, 7);
    let zero = Balance::of(false, 0);
    assert!(up.at_least(&zero) && !zero.at_least(&up));
    assert!(zero.at_least(&down) && !down.at_least(&zero));
    assert!(up.plus(&down).at_least(&zero) && zero.at_least(&up.plus(&down)));
    assert!(down.at_least(&down.times(2)) && !down.times(2).at_least(&down));
}

#[test]
fn signed_numbers_read_back() {
    for n in [0, 7, -67, i32::MAX, i32::MIN] {
        let millionths = read_millionths(&chars(&signed_of(i64::from(n))));
        assert_eq!(millionths, Some(i64::from(n) * 1_000_000));
        assert_eq!(read_i32(&chars(&signed_of(i64::from(n)))), Some(n));
    }
}
