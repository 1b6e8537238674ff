use atmdw::limit::{lim_str, parse_limit, upper_string, RateLimit};

#[test]
fn limit_kilobytes() {
    assert_eq!(parse_limit("500K"), RateLimit::BytesPerSecond(512000));
}

#[test]
fn limit_megabytes() {
    assert_eq!(parse_limit("2M"), RateLimit::BytesPerSecond(2097152));
}

#[test]
fn limit_gigabytes() {
    assert_eq!(parse_limit("3G"), RateLimit::BytesPerSecond(3 * 1073741824));
}

#[test]
fn limit_unlimited_forms() {
    assert_eq!(parse_limit(""), RateLimit::Unlimited);
    assert_eq!(parse_limit("infinity"), RateLimit::Unlimited);
    assert_eq!(parse_limit("-1"), RateLimit::Unlimited);
    assert_eq!(parse_limit("  InFiNiTy "), RateLimit::Unlimited);
    assert_eq!(parse_limit("   "), RateLimit::Unlimited);
}

#[test]
fn limit_ignores_case() {
    assert_eq!(parse_limit("2m"), parse_limit("2M"));
    assert_eq!(parse_limit("500k"), RateLimit::BytesPerSecond(512000));
    assert_eq!(parse_limit("1g"), parse_limit("1G"));
}

#[test]
fn limit_plain_bytes() {
    assert_eq!(parse_limit("4096"), RateLimit::BytesPerSecond(4096));
    assert_eq!(parse_limit(" +77 "), RateLimit::BytesPerSecond(77));
}

#[test]
fn limit_unparsable_prefix_is_one_unit() {
    assert_eq!(parse_limit("xK"), RateLimit::BytesPerSecond(1024));
    assert_eq!(parse_limit("M"), RateLimit::BytesPerSecond(1048576));
}

#[test]
fn limit_unparsable_bytes_is_zero() {
    assert_eq!(parse_limit("abc"), RateLimit::BytesPerSecond(0));
    assert_eq!(parse_limit("500B"), RateLimit::BytesPerSecond(0));
    assert_eq!(parse_limit("-5"), RateLimit::BytesPerSecond(0));
}

#[test]
fn limit_product_saturates() {
    assert_eq!(parse_limit("99999999999999G"), RateLimit::BytesPerSecond(u64::MAX));
    assert_eq!(parse_limit("99999999999999999999"), RateLimit::BytesPerSecond(0));
}

#[test]
fn limit_labels() {
    assert_eq!(lim_str("500K"), "500 KB/s");
    assert_eq!(lim_str("2m"), "2 MB/s");
    assert_eq!(lim_str("1G"), "1 GB/s");
    assert_eq!(lim_str("10b"), "10 B/s");
    assert_eq!(lim_str("4096"), "4096 B/s");
    assert_eq!(lim_str("infinity"), "Infinity");
    assert_eq!(lim_str(""), "Infinity");
    assert_eq!(lim_str("-1"), "Infinity");
    assert_eq!(lim_str("xyz"), "XYZ B/s");
}

#[test]
fn limit_labels_in_upper_case() {
    assert_eq!(lim_str("abK"), "AB KB/s");
    assert_eq!(lim_str("ab"), "A B/s");
    assert_eq!(lim_str("ab"), lim_str("AB"));
    assert_eq!(lim_str("2m"), lim_str("2M"));
    assert_eq!(upper_string("aZ9-ß"), "AZ9-ß");
}

#[test]
fn limit_unicode_whitespace_trimmed() {
    assert_eq!(parse_limit("\u{a0}5K"), RateLimit::BytesPerSecond(5120));
    assert_eq!(parse_limit("\u{3000}infinity\u{2003}"), RateLimit::Unlimited);
    assert_eq!(lim_str("\u{85}5k\u{a0}"), "5 KB/s");
}
