use atmdw::manifest::{parse_line, parse_manifest, TransferEntry};

#[test]
fn manifest_entries_in_order() {
    let text = "sharp {\n  \"https://github.com/acme/widgets/blob/main/src/lib.js\" \"out/libs\" -raw\n  \"example.com/file.bin\" \"downloads\"\n}\n";
    let entries = parse_manifest(text);
    assert_eq!(entries.len(), 2);
    assert_eq!(entries[0].url, "https://cdn.jsdelivr.net/gh/acme/widgets@main/src/lib.js");
    assert_eq!(entries[0].out_dir, "out/libs");
    assert_eq!(entries[0].file_name, "lib.js");
    assert_eq!(entries[1].url, "https://example.com/file.bin");
    assert_eq!(entries[1].out_dir, "downloads");
    assert_eq!(entries[1].file_name, "file.bin");
}

#[test]
fn manifest_raw_flag_without_blob_url_keeps_normalised_url() {
    let e = parse_line("\"example.com/a/b.txt\" \"d\" -raw").unwrap();
    assert_eq!(e.url, "https://example.com/a/b.txt");
    assert_eq!(e.file_name, "b.txt");
}

#[test]
fn manifest_noise_only_yields_nothing() {
    let text = "sharp install\n{\n\n   \n}\n  sharp\r\n";
    assert_eq!(parse_manifest(text).len(), 0);
    assert_eq!(parse_manifest("").len(), 0);
}

#[test]
fn manifest_malformed_lines_are_skipped() {
    let text = "\"only-a-url.com/x\"\n\"a.com/f.zip\" \"dir\"\n";
    let entries = parse_manifest(text);
    assert_eq!(entries.len(), 1);
    assert_eq!(entries[0].url, "https://a.com/f.zip");
}

#[test]
fn manifest_windows_line_ends() {
    let entries = parse_manifest("\"a.com/f.zip\" \"dir\"\r\n\"b.com/g.zip\" \"other\"\r\n");
    assert_eq!(entries.len(), 2);
    assert_eq!(entries[1].out_dir, "other");
}

#[test]
fn entry_file_name_replaced() {
    let mut e = TransferEntry::new("https://a/b".to_string(), "dir".to_string(), "b".to_string());
    e.set_file_name("server.bin".to_string());
    assert_eq!(e.file_name, "server.bin");
    assert_eq!(e.url, "https://a/b");
    assert_eq!(e.out_dir, "dir");
}
