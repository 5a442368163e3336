use mod_manager::version::{cmp_versions, version_higher, version_lower, version_sign_of};
use std::cmp::Ordering;

#[test]
fn missing_trailing_fields_count_as_zero() {
    assert_eq!(cmp_versions("1.2", "1.2.0"), Ordering::Equal);
    assert_eq!(cmp_versions("1.2.0", "1.2"), Ordering::Equal);
    assert_eq!(cmp_versions("1", "1.0.0.0"), Ordering::Equal);
}

#[test]
fn fields_compare_as_numbers() {
    assert_eq!(cmp_versions("1.10.0", "1.2.0"), Ordering::Greater);
    assert_eq!(cmp_versions("1.2.0", "1.10.0"), Ordering::Less);
    assert_eq!(cmp_versions("0.9", "0.10"), Ordering::Less);
    assert_eq!(cmp_versions("2.0.0", "1.99.99"), Ordering::Greater);
}

#[test]
fn swapping_reverses_the_result() {
    let samples = ["", "1", "1.0", "1.2.3", "1.10", "0.0.1", "2", "1.x", "-1.5", "+3", "1..2"];
    for a in samples {
        for b in samples {
            assert_eq!(cmp_versions(a, b), cmp_versions(b, a).reverse(), "{a:?} against {b:?}");
            assert_eq!(version_sign_of(a, b), -version_sign_of(b, a));
        }
        assert_eq!(cmp_versions(a, a), Ordering::Equal);
    }
}

#[test]
fn fields_that_are_no_numbers_count_as_zero() {
    assert_eq!(cmp_versions("1.x.3", "1.0.3"), Ordering::Equal);
    assert_eq!(cmp_versions("", "0"), Ordering::Equal);
    assert_eq!(cmp_versions("", "0.0.0"), Ordering::Equal);
    assert_eq!(cmp_versions("abc", "0.0.1"), Ordering::Less);
    assert_eq!(cmp_versions("1. 2", "1.0"), Ordering::Equal);
    assert_eq!(cmp_versions("1.-", "1.+"), Ordering::Equal);
    assert_eq!(cmp_versions("1.٣", "1.0"), Ordering::Equal);
}

#[test]
fn signs_are_read() {
    assert_eq!(cmp_versions("+3", "3"), Ordering::Equal);
    assert_eq!(cmp_versions("-1", "0"), Ordering::Less);
    assert_eq!(cmp_versions("1.-2", "1.-3"), Ordering::Greater);
    assert_eq!(cmp_versions("-0", "0"), Ordering::Equal);
}

#[test]
fn fields_beyond_sixty_four_bits_count_as_zero() {
    assert_eq!(cmp_versions("9223372036854775807", "9223372036854775806"), Ordering::Greater);
    assert_eq!(cmp_versions("9223372036854775808", "0"), Ordering::Equal);
    assert_eq!(cmp_versions("-9223372036854775808", "-9223372036854775807"), Ordering::Less);
    assert_eq!(cmp_versions("-9223372036854775809", "0"), Ordering::Equal);
    assert_eq!(cmp_versions("99999999999999999999999999", "1"), Ordering::Less);
    assert_eq!(cmp_versions("000000000000000000000000007", "7"), Ordering::Equal);
}

#[test]
fn empty_fields_count_as_zero() {
    assert_eq!(cmp_versions("1..2", "1.0.2"), Ordering::Equal);
    assert_eq!(cmp_versions(".", "0.0"), Ordering::Equal);
    assert_eq!(cmp_versions("1.", "1"), Ordering::Equal);
    assert_eq!(cmp_versions(".1", "0.1"), Ordering::Equal);
}

#[test]
fn lower_and_higher_agree_with_the_sign() {
    assert!(version_lower("1.0.0", "2.0.0"));
    assert!(!version_lower("2.0.0", "2.0.0"));
    assert!(!version_lower("2.0.1", "2.0.0"));
    assert!(version_higher("2.0.1", "2.0.0"));
    assert!(!version_higher("2.0", "2.0.0"));
    assert_eq!(version_sign_of("3", "2"), 1);
    assert_eq!(version_sign_of("2", "3"), -1);
    assert_eq!(version_sign_of("2", "2.0"), 0);
}

#[test]
fn agrees_with_parsing_each_field() {
    fn reference(a: &str, b: &str) -> Ordering {
        let pa: Vec<i64> = a.split('.').map(|s| s.parse::<i64>().unwrap_or(0)).collect();
        let pb: Vec<i64> = b.split('.').map(|s| s.parse::<i64>().unwrap_or(0)).collect();
        let n = pa.len().max(pb.len());
        for i in 0..n {
            let x = *pa.get(i).unwrap_or(&0);
            let y = *pb.get(i).unwrap_or(&0);
            if x != y {
                return x.cmp(&y);
            }
        }
        Ordering::Equal
    }
    let samples = [
        "", ".", "..", "1", "1.0", "1.2.3", "1.10", "0.0.1", "2", "1.x", "-1.5", "+3", "1..2", "+",
        "-", "1.+", "+-1", "1.2.3.4.5", "01.002", "9223372036854775807", "9223372036854775808",
        "-9223372036854775808", "-9223372036854775809", " 1", "1 ", "1.٣", "--1", "1e3",
    ];
    for a in samples {
        for b in samples {
            assert_eq!(cmp_versions(a, b), reference(a, b), "{a:?} against {b:?}");
        }
    }
}
