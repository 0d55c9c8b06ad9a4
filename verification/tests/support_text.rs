use p25_httpd::calendar::{time_of_day, ts_to_ymd_hms, wall_clock};
use p25_httpd::clock::{elapsed_ms, elapsed_ns, elapsed_secs, ms_ago, uptime_secs};
use p25_httpd::slices::{append_copies, push_bounded, sum_slice};
use p25_httpd::sorting::sorted_order;
use p25_httpd::text::{
    append_decimal, append_lower_hex, append_padded, append_signed, append_signed_padded, append_upper_hex, chars_of,
    is_text, parse_signed, parse_unsigned, prefixed_hex, same_text,
};

fn decimal_text(n: u64) -> String {
    let mut s = String::new();
    append_decimal(&mut s, n);
    s
}

#[test]
fn numbers_in_decimal() {
    assert_eq!(decimal_text(0), "0");
    assert_eq!(decimal_text(u64::MAX), u64::MAX.to_string());
    let mut s = String::from("x");
    append_signed(&mut s, i64::MIN);
    assert_eq!(s, format!("x{}", i64::MIN));
    let mut p = String::new();
    append_padded(&mut p, 7, 4);
    append_padded(&mut p, 12345, 4);
    assert_eq!(p, "000712345");
    let mut n = String::new();
    append_signed_padded(&mut n, -7, 4);
    assert_eq!(n, format!("{:04}", -7));
}

#[test]
fn numbers_in_hexadecimal() {
    let mut s = String::new();
    append_upper_hex(&mut s, 0xBEE, 5);
    append_lower_hex(&mut s, 0xAB, 2);
    append_upper_hex(&mut s, 0, 1);
    assert_eq!(s, "00BEEab0");
    assert_eq!(prefixed_hex(0x8A1, 3), "0x8A1");
    assert_eq!(prefixed_hex(0x12345, 3), "0x12345");
}

#[test]
fn numbers_read_as_std_reads_them() {
    for text in ["0", "7", "007", "+7", "-7", "-0", "", "+", "-", " 7", "7 ", "1_0", "65535", "65536", "x"] {
        assert_eq!(parse_unsigned(text, 65535), text.parse::<u16>().ok().map(u64::from), "{text:?}");
        assert_eq!(parse_signed(text), text.parse::<i64>().ok(), "{text:?}");
    }
    let max = u64::MAX.to_string();
    assert_eq!(parse_unsigned(&max, u64::MAX), Some(u64::MAX));
    assert_eq!(parse_unsigned("18446744073709551616", u64::MAX), None);
    for text in ["9223372036854775807", "9223372036854775808", "-9223372036854775808", "-9223372036854775809"] {
        assert_eq!(parse_signed(text), text.parse::<i64>().ok());
    }
}

#[test]
fn rendered_numbers_read_back() {
    for n in [0u64, 9, 10, 99, 4096, u64::MAX] {
        assert_eq!(parse_unsigned(&decimal_text(n), u64::MAX), Some(n));
    }
    for n in [i64::MIN, -1, 0, 1, i64::MAX] {
        let mut s = String::new();
        append_signed(&mut s, n);
        assert_eq!(parse_signed(&s), Some(n));
    }
}

#[test]
fn texts_are_compared() {
    assert!(same_text("reset", "reset"));
    assert!(!same_text("reset", "Reset"));
    assert!(is_text(Some("1"), "1"));
    assert!(!is_text(Some("1 "), "1"));
    assert!(!is_text(None, "1"));
    assert_eq!(chars_of("aé"), vec!['a', 'é']);
}

#[test]
fn dates_of_seconds() {
    assert_eq!(ts_to_ymd_hms(0), (1970, 1, 1, 0, 0, 0));
    assert_eq!(ts_to_ymd_hms(86_399), (1970, 1, 1, 23, 59, 59));
    assert_eq!(ts_to_ymd_hms(951_782_400), (2000, 2, 29, 0, 0, 0));
    assert_eq!(ts_to_ymd_hms(951_868_800), (2000, 3, 1, 0, 0, 0));
    assert_eq!(ts_to_ymd_hms(4_107_542_400), (2100, 3, 1, 0, 0, 0));
    assert_eq!(ts_to_ymd_hms(1_776_249_015), (2026, 4, 15, 10, 30, 15));
    assert_eq!(wall_clock(1_776_249_015), "2026-04-15 10:30:15");
    assert_eq!(wall_clock(0), "1970-01-01 00:00:00");
}

#[test]
fn time_within_the_day() {
    assert_eq!(time_of_day(1_776_249_015, 7), "10:30:15.007");
    assert_eq!(time_of_day(86_399, 999), "23:59:59.999");
    let (_, _, _, h, m, s) = ts_to_ymd_hms(1_776_249_015);
    assert_eq!(format!("{h:02}:{m:02}:{s:02}.007"), time_of_day(1_776_249_015, 7));
}

#[test]
fn times_on_one_clock() {
    assert_eq!(elapsed_ns(5, 9), 4);
    assert_eq!(elapsed_ns(9, 5), 0);
    assert_eq!(elapsed_ms(0, 2_999_999), 2);
    assert_eq!(elapsed_secs(1, 3_000_000_000), 2);
    assert_eq!(uptime_secs(None, 7), 0);
    assert_eq!(uptime_secs(Some(0), 7_000_000_000), 7);
    assert_eq!(ms_ago(None, 7), None);
    assert_eq!(ms_ago(Some(1_000_000), 8_000_000), Some(7));
}

#[test]
fn sorting_is_stable() {
    assert_eq!(sorted_order(&vec![3, 1, 2, 1, 3]), vec![1, 3, 2, 0, 4]);
    assert!(sorted_order(&Vec::new()).is_empty());
}

#[test]
fn bounded_lists_keep_the_last() {
    let mut v: Vec<u32> = Vec::new();
    for i in 0..5 {
        push_bounded(&mut v, i, 3);
    }
    assert_eq!(v, vec![2, 3, 4]);
    append_copies(&mut v, &[9, 8]);
    assert_eq!(v, vec![2, 3, 4, 9, 8]);
    assert_eq!(sum_slice(&[1, 2, 3]), 6);
    assert_eq!(sum_slice(&[]), 0);
}
