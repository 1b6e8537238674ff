use atmdw::header::{filename_from_disposition, parse_content_length};
use atmdw::url::{fname, github_to_jsdelivr, normalize_url};

#[test]
fn rewrite_blob_url() {
    let r = github_to_jsdelivr("https://github.com/acme/widgets/blob/main/src/lib.js");
    assert_eq!(r, Some("https://cdn.jsdelivr.net/gh/acme/widgets@main/src/lib.js".to_string()));
}

#[test]
fn rewrite_blob_url_without_scheme() {
    let r = github_to_jsdelivr("github.com/acme/widgets/blob/dev/a/b/c.txt");
    assert_eq!(r, Some("https://cdn.jsdelivr.net/gh/acme/widgets@dev/a/b/c.txt".to_string()));
}

#[test]
fn rewrite_blob_url_without_path() {
    let r = github_to_jsdelivr("https://github.com/acme/widgets/blob/main");
    assert_eq!(r, Some("https://cdn.jsdelivr.net/gh/acme/widgets@main/".to_string()));
}

#[test]
fn rewrite_refuses_cdn_and_raw_hosts() {
    assert_eq!(github_to_jsdelivr("https://cdn.jsdelivr.net/gh/acme/widgets@main/src/lib.js"), None);
    assert_eq!(github_to_jsdelivr("https://raw.githubusercontent.com/acme/widgets/main/x/y/z"), None);
}

#[test]
fn rewrite_refuses_short_or_other_urls() {
    assert_eq!(github_to_jsdelivr("https://github.com/acme/widgets"), None);
    assert_eq!(github_to_jsdelivr("https://github.com/acme/widgets/tree/main/src"), None);
    assert_eq!(github_to_jsdelivr("https://gitlab.com/acme/widgets/blob/main/src"), None);
}

#[test]
fn scheme_normalisation() {
    assert_eq!(normalize_url("example.com/x"), "https://example.com/x");
    assert_eq!(normalize_url("http://example.com/x"), "http://example.com/x");
    assert_eq!(normalize_url("https://example.com/x"), "https://example.com/x");
}

#[test]
fn file_name_from_url() {
    assert_eq!(fname("https://host/a/b/report.zip"), "report.zip");
    assert_eq!(fname("https://host/"), "file");
    assert_eq!(fname("plain"), "plain");
    assert_eq!(fname(""), "file");
}

#[test]
fn disposition_names() {
    assert_eq!(filename_from_disposition("attachment; filename=\"report.zip\""), Some("report.zip".to_string()));
    assert_eq!(filename_from_disposition("attachment; filename= data.bin "), Some("data.bin".to_string()));
    assert_eq!(filename_from_disposition("attachment; filename=\"\""), None);
    assert_eq!(filename_from_disposition("inline"), None);
}

#[test]
fn disposition_quotes_and_spaces_stripped_together() {
    assert_eq!(filename_from_disposition("attachment; filename= \"a\" "), Some("a".to_string()));
    assert_eq!(filename_from_disposition("attachment; filename=\" a.txt \""), Some("a.txt".to_string()));
    assert_eq!(filename_from_disposition("attachment; filename=\" \""), None);
}

#[test]
fn disposition_value_ends_at_its_parameter() {
    assert_eq!(filename_from_disposition("attachment; filename=\"a.zip\"; size=10"), Some("a.zip".to_string()));
    assert_eq!(filename_from_disposition("attachment; filename=b.bin; size=10"), Some("b.bin".to_string()));
    assert_eq!(filename_from_disposition("attachment; filename=\"c;d.txt\""), Some("c;d.txt".to_string()));
}

#[test]
fn content_lengths() {
    assert_eq!(parse_content_length("12345"), Some(12345));
    assert_eq!(parse_content_length(" 42 "), Some(42));
    assert_eq!(parse_content_length("abc"), None);
    assert_eq!(parse_content_length(""), None);
}
