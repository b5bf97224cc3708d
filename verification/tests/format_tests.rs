use swapview::size_format::filesize;

fn fmt(n: i128) -> String {
    String::from_utf8(filesize(n)).unwrap()
}

#[test]
fn raw_byte_range_is_exact() {
    assert_eq!(fmt(0), "0B");
    assert_eq!(fmt(7), "7B");
    assert_eq!(fmt(42), "42B");
    assert_eq!(fmt(999), "999B");
    assert_eq!(fmt(1023), "1023B");
    assert_eq!(fmt(1100), "1100B");
}

#[test]
fn threshold_is_eleven_hundred_not_kibi() {
    assert_eq!(fmt(1024), "1024B");
    assert_eq!(fmt(1100), "1100B");
    assert_eq!(fmt(1101), "1.1KiB");
}

#[test]
fn kibi_range_has_one_decimal_place() {
    let s = fmt(1200);
    assert_eq!(s, "1.2KiB");
    assert!(s.ends_with("KiB"));
    let num = &s[..s.len() - 3];
    assert_eq!(num.split('.').count(), 2);
    assert_eq!(num.split('.').nth(1).unwrap().len(), 1);
}

#[test]
fn negative_counts_mirror_positive_ones() {
    assert_eq!(fmt(-5), "-5B");
    assert_eq!(fmt(-1100), "-1100B");
    assert_eq!(fmt(-1200), format!("-{}", fmt(1200)));
    assert_eq!(fmt(-253952), format!("-{}", fmt(253952)));
    assert_eq!(fmt(-1099511627776), format!("-{}", fmt(1099511627776)));
}

#[test]
fn rounding_is_half_away_from_zero() {
    // 1280 bytes is exactly 1.25 KiB, so the tenths digit rounds up.
    assert_eq!(fmt(1280), "1.3KiB");
    assert_eq!(fmt(-1280), "-1.3KiB");
}

#[test]
fn unit_letters_cover_the_binary_prefixes() {
    assert_eq!(fmt(253952), "248.0KiB");
    assert_eq!(fmt(1994752), "1.9MiB");
    // 1 GiB is 1024 MiB, and 1024 is still within the 1100 comfort range.
    assert_eq!(fmt(1073741824), "1024.0MiB");
    assert_eq!(fmt(2147483648), "2.0GiB");
    assert_eq!(fmt(1099511627776), "1024.0GiB");
    assert_eq!(fmt(1209462790554), "1.1TiB");
}

#[test]
fn values_beyond_the_table_still_use_tebibytes() {
    // 2^50 bytes is 1024 TiB: the table ends at T, the prefix just grows.
    assert_eq!(fmt(1125899906842624), "1024.0TiB");
}
