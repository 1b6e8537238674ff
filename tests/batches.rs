use atmdw::batch::{check_modes, direct_entry, resolve_file_name, tally, BatchOutcome, ModeError};

#[test]
fn tally_counts_each_outcome() {
    let r = tally(&vec![true, false, true, true, false]);
    assert_eq!(r.success_count, 3);
    assert_eq!(r.failure_count, 2);
    assert_eq!(r.total(), 5);
}

#[test]
fn tally_ignores_order() {
    let a = tally(&vec![false, false, true, true, true]);
    let b = tally(&vec![true, true, true, false, false]);
    assert_eq!(a, b);
}

#[test]
fn tally_empty() {
    let r = tally(&vec![]);
    assert_eq!(r, BatchOutcome::new());
    assert_eq!(r.total(), 0);
}

#[test]
fn summary_line() {
    let mut o = BatchOutcome::new();
    o.record(true);
    o.record(false);
    o.record(true);
    assert_eq!(o.summary(), "Download finished! Successful: 2 | Failed: 1");
}

#[test]
fn mode_rules() {
    assert_eq!(check_modes(true, true, false, false), Err(ModeError::ManifestWithUrl));
    assert_eq!(check_modes(false, true, true, false), Err(ModeError::ManifestWithRaw));
    assert_eq!(check_modes(false, true, false, true), Err(ModeError::ManifestWithOutput));
    assert_eq!(check_modes(false, false, false, false), Err(ModeError::NoSource));
    assert_eq!(check_modes(true, false, true, true), Ok(()));
    assert_eq!(check_modes(false, true, false, false), Ok(()));
}

#[test]
fn direct_entry_with_rewrite() {
    let e = direct_entry("github.com/acme/widgets/blob/main/src/lib.js", ".".to_string(), true);
    assert_eq!(e.url, "https://cdn.jsdelivr.net/gh/acme/widgets@main/src/lib.js");
    assert_eq!(e.out_dir, ".");
    assert_eq!(e.file_name, "lib.js");
}

#[test]
fn direct_entry_without_rewrite() {
    let e = direct_entry("github.com/acme/widgets/blob/main/src/lib.js", "out".to_string(), false);
    assert_eq!(e.url, "https://github.com/acme/widgets/blob/main/src/lib.js");
    assert_eq!(e.file_name, "lib.js");
}

#[test]
fn saved_name_prefers_server() {
    assert_eq!(resolve_file_name("https://h/x/a.zip", Some("attachment; filename=\"b.zip\"")), "b.zip");
    assert_eq!(resolve_file_name("https://h/x/a.zip", Some("inline")), "a.zip");
    assert_eq!(resolve_file_name("https://h/x/a.zip", None), "a.zip");
    assert_eq!(resolve_file_name("https://h/", None), "file");
}
