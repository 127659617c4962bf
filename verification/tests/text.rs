use risex_latency::stats::{compute_stats, cpu_ticks, resident_mebibytes, sorted};
use risex_latency::text::{contains_text, decimal_string, nth_field, parse_u32, parse_u64};
use risex_latency::wad::{can_format_wad, format_wad};

#[test]
fn unsigned_numbers() {
    assert_eq!(parse_u64("0"), Some(0));
    assert_eq!(parse_u64("+7"), Some(7));
    assert_eq!(parse_u64("007"), Some(7));
    assert_eq!(parse_u64("18446744073709551615"), Some(u64::MAX));
    assert_eq!(parse_u64("18446744073709551616"), None);
    for text in ["", "+", "-1", " 1", "1 ", "1.0", "0x1", "++1"] {
        assert_eq!(parse_u64(text), None, "{}", text);
    }
    assert_eq!(parse_u32("4294967295"), Some(u32::MAX));
    assert_eq!(parse_u32("4294967296"), None);
}

#[test]
fn decimal_texts_are_read_back() {
    for n in [0u64, 9, 10, 4096, u64::MAX] {
        assert_eq!(decimal_string(n as u128), n.to_string());
        assert_eq!(parse_u64(&decimal_string(n as u128)), Some(n));
    }
    assert_eq!(decimal_string(u128::MAX), u128::MAX.to_string());
}

#[test]
fn texts_within_texts() {
    assert!(contains_text("error: InvalidNonceIndex()", "InvalidNonceIndex"));
    assert!(contains_text("aab", "ab"));
    assert!(contains_text("x", ""));
    assert!(!contains_text("InvalidNonce", "InvalidNonceIndex"));
    assert!(!contains_text("", "x"));
}

#[test]
fn fields_between_spaces() {
    let text = "  a\tbc \n d\u{3000}e ";
    let field = |n: usize| nth_field(text, n).map(|f| f.into_iter().collect::<String>());
    assert_eq!(field(0), Some("a".to_string()));
    assert_eq!(field(1), Some("bc".to_string()));
    assert_eq!(field(2), Some("d".to_string()));
    assert_eq!(field(3), Some("e".to_string()));
    assert_eq!(field(4), None);
}

#[test]
fn wads_are_formatted() {
    assert_eq!(format_wad("1500000000000000000"), "1.5");
    assert_eq!(format_wad("123000000000000000000"), "123.0");
    assert_eq!(format_wad("0"), "0.0");
    assert_eq!(format_wad(""), "0.0");
    assert_eq!(format_wad("1"), "0.000000000000000001");
    assert_eq!(format_wad("-1"), "-0.000000000000000001");
    assert_eq!(format_wad("-2500000000000000000"), "-2.5");
    assert_eq!(format_wad("-"), "-0.0");
}

#[test]
fn wads_with_a_point_stay() {
    assert_eq!(format_wad("12.50"), "12.50");
    assert_eq!(format_wad("-."), "-.");
}

#[test]
fn wads_that_cannot_be_divided() {
    assert!(can_format_wad("1500000000000000000"));
    assert!(can_format_wad("é"));
    assert!(can_format_wad(".é"));
    assert!(can_format_wad(&format!("é{}", "0".repeat(18))));
    assert!(!can_format_wad(&format!("é{}", "0".repeat(17))));
    assert!(!can_format_wad(&format!("aé{}", "0".repeat(17))));
    assert_eq!(format_wad(&format!("é{}", "0".repeat(18))), "é.0");
}

#[test]
fn statistics_of_ten() {
    let values: Vec<u64> = vec![70, 10, 90, 30, 50, 20, 100, 40, 80, 60];
    let s = compute_stats(&values);
    assert_eq!(s.sorted, vec![10, 20, 30, 40, 50, 60, 70, 80, 90, 100]);
    assert_eq!((s.p50, s.p95, s.min, s.max), (60, 100, 10, 100));
}

#[test]
fn statistics_of_one_and_of_many() {
    let s = compute_stats(&vec![5]);
    assert_eq!((s.p50, s.p95, s.min, s.max), (5, 5, 5, 5));
    for n in [2usize, 19, 20, 21, 40, 99, 100, 101] {
        let values: Vec<u64> = (0..n as u64).rev().collect();
        let s = compute_stats(&values);
        let rank = ((n as f64 * 0.95) as usize).min(n - 1);
        assert_eq!(s.p95, rank as u64);
        assert_eq!(s.p50, (n / 2) as u64);
    }
}

#[test]
fn order_of_arrival_does_not_matter() {
    assert_eq!(sorted(&vec![3, 1, 2, 1]), vec![1, 1, 2, 3]);
    assert_eq!(sorted(&vec![1, 1, 2, 3]), sorted(&vec![3, 2, 1, 1]));
}

#[test]
fn ticks_of_the_process() {
    let line = "42 (app) S 1 42 42 0 -1 4194304 100 0 0 0 37 5 0 0 20 0 1 0";
    assert_eq!(cpu_ticks(Some(line)), Some(42));
    assert_eq!(cpu_ticks(Some("42 (app) S")), Some(0));
    assert_eq!(cpu_ticks(None), Some(0));
    let many = "0 1 2 3 4 5 6 7 8 9 10 11 12 18446744073709551615 1";
    assert_eq!(cpu_ticks(Some(many)), None);
    let odd = "0 1 2 3 4 5 6 7 8 9 10 11 12 x 1";
    assert_eq!(cpu_ticks(Some(odd)), Some(0));
}

#[test]
fn memory_of_the_process() {
    assert_eq!(resident_mebibytes(Some("9000 2560 300 1 0 100 0")), Some(10));
    assert_eq!(resident_mebibytes(Some("9000 2559")), Some(9));
    assert_eq!(resident_mebibytes(Some("9000")), Some(0));
    assert_eq!(resident_mebibytes(None), Some(0));
    assert_eq!(resident_mebibytes(Some("1 18446744073709551615")), None);
}
