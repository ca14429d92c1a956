use sysmotd::utils::byte2str;
use sysmotd::utils::parse_bytes;
use sysmotd::utils::s2time;
use sysmotd::utils::str2byte;

#[test]
fn zero_bytes_binary() {
    assert_eq!(byte2str(0, true), "0.00 B");
}

#[test]
fn zero_bytes_decimal() {
    assert_eq!(byte2str(0, false), "0.00 B");
}

#[test]
fn one_gibibyte() {
    assert_eq!(byte2str(1073741824, true), "1.00 GiB");
}

#[test]
fn one_gigabyte() {
    assert_eq!(byte2str(1000000000, false), "1.00 GB");
}

#[test]
fn fractional_kibibyte() {
    assert_eq!(byte2str(1536, true), "1.50 KiB");
}

#[test]
fn below_one_unit() {
    assert_eq!(byte2str(999, false), "999.00 B");
    assert_eq!(byte2str(1023, true), "1023.00 B");
}

#[test]
fn largest_count() {
    assert_eq!(byte2str(u64::MAX, true), "16.00 EiB");
}

#[test]
fn rounding_to_two_decimals() {
    // 1537 / 1024 = 1.5009...; displayed with two decimals.
    assert_eq!(byte2str(1537, true), "1.50 KiB");
    // 1546 / 1024 = 1.5097...; rounds up.
    assert_eq!(byte2str(1546, true), "1.51 KiB");
}

#[test]
fn parse_plain_number() {
    assert_eq!(str2byte("100"), 100);
}

#[test]
fn parse_binary_units() {
    assert_eq!(str2byte("1 KiB"), 1024);
    assert_eq!(str2byte("1.50 KiB"), 1536);
    assert_eq!(str2byte("2 MiB"), 2097152);
    assert_eq!(str2byte("1048576 KiB"), 1048576 * 1024);
}

#[test]
fn parse_decimal_units() {
    assert_eq!(str2byte("512 KB"), 512000);
    assert_eq!(str2byte("1.5 GB"), 1500000000);
    assert_eq!(str2byte("3 M"), 3000000);
}

#[test]
fn parse_is_case_insensitive() {
    assert_eq!(str2byte("1 kib"), 1024);
    assert_eq!(str2byte("1 KIB"), 1024);
    assert_eq!(str2byte("2 gb"), 2000000000);
}

#[test]
fn parse_without_space() {
    assert_eq!(str2byte("4KiB"), 4096);
}

#[test]
fn parse_weighs_all_fraction_digits() {
    assert_eq!(str2byte("1.239 KB"), 1239);
    assert_eq!(str2byte("1.2345 MB"), 1234500);
    // exactly half a byte rounds up
    assert_eq!(str2byte("0.0005 KB"), 1);
    assert_eq!(str2byte("0.0004 KB"), 0);
}

#[test]
fn parse_rejects_overlong_fractions() {
    // twenty fraction digits exceed the converter's exact precision
    assert!(parse_bytes("1.00000000000000000001 KB").is_none());
    assert_eq!(str2byte("1.00000000000000000001 KB"), 0);
    // nineteen are still carried exactly
    assert_eq!(str2byte("1.0000000000000000001 EB"), 1000000000000000000);
}

#[test]
fn parse_malformed_falls_back_to_zero() {
    assert_eq!(str2byte("abc"), 0);
    assert_eq!(str2byte(""), 0);
    assert_eq!(str2byte("1.2.3"), 0);
    assert_eq!(str2byte("12 XB"), 0);
    assert!(parse_bytes("abc").is_none());
    assert!(parse_bytes("1.").is_none());
    assert!(parse_bytes("7 QiB").is_none());
}

#[test]
fn parse_saturates_at_max() {
    assert_eq!(str2byte("99999999 EiB"), u64::MAX);
}

#[test]
fn round_trip_examples() {
    // The rendered form parses back to the original count, up to the
    // two-decimal rounding granularity at the chosen unit.
    for &n in &[0u64, 1, 999, 1023, 1024, 1536, 1000000000, 1073741824, u64::MAX] {
        for &binary in &[true, false] {
            let shown = byte2str(n, binary);
            let back = str2byte(&shown);
            let diff = if back > n { back - n } else { n - back };
            // allowed slack: (unit factor + 100) / 200, and the unit factor
            // is at most n (the unit chosen never exceeds the value).
            let unit = if n < 1000 { 1 } else { n };
            assert!((diff as u128) * 200 <= unit as u128 + 200, "n={} shown={}", n, shown);
        }
    }
}

#[test]
fn duration_zero() {
    assert_eq!(s2time(0), "0s");
}

#[test]
fn duration_decomposes() {
    // 90061 = 86400 + 3600 + 60 + 1.
    assert_eq!(s2time(90061), "1day 1h 1m 1s");
}

#[test]
fn duration_plural_days() {
    assert_eq!(s2time(2 * 86400 + 3 * 3600 + 4 * 60 + 5), "2days 3h 4m 5s");
}

#[test]
fn duration_omits_zero_components() {
    assert_eq!(s2time(61), "1m 1s");
    assert_eq!(s2time(86401), "1day 1s");
    assert_eq!(s2time(3600), "1h");
}
