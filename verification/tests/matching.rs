//! The matcher and the per-file scan step on plain-text content.

use sift::file_handler::scan_file;
use sift::matcher::{findings_to_string, load_regex, search_content};

#[test]
fn ssn_in_text_file_yields_one_record() {
    let patterns = load_regex(&vec!["\\d{3}-\\d{2}-\\d{4}".to_string()], false).unwrap();
    let content = b"hello 123-45-6789 world".to_vec();
    let row = scan_file("/tmp/a/hit.txt", &content, &patterns).unwrap();
    assert_eq!(row.findings, "123-45-6789");
    assert_eq!(row.filename, "hit.txt");
    assert_eq!(row.path, "/tmp/a/hit.txt");
}

#[test]
fn no_match_yields_no_record() {
    let patterns = load_regex(&vec!["\\d{3}-\\d{2}-\\d{4}".to_string()], false).unwrap();
    let content = b"nothing to see".to_vec();
    assert!(scan_file("/tmp/a/miss.txt", &content, &patterns).is_none());
}

#[test]
fn unknown_extension_is_dropped_silently() {
    let patterns = load_regex(&vec!["SECRET".to_string()], true).unwrap();
    assert!(scan_file("/data/a.bin", &b"SECRET".to_vec(), &patterns).is_none());
    assert!(scan_file("/data/noext", &b"SECRET".to_vec(), &patterns).is_none());
}

#[test]
fn extension_match_is_case_insensitive() {
    let patterns = load_regex(&vec!["SECRET".to_string()], true).unwrap();
    let row = scan_file("/data/HIT.TXT", &b"SECRET stuff".to_vec(), &patterns).unwrap();
    assert_eq!(row.findings, "SECRET");
    assert_eq!(row.filename, "HIT.TXT");
}

#[test]
fn case_insensitive_by_default_sensitive_on_request() {
    let kws = vec!["secret".to_string()];
    let insensitive = load_regex(&kws, false).unwrap();
    let sensitive = load_regex(&kws, true).unwrap();
    let content = "SECRET data".to_string();
    assert_eq!(search_content(&content, &insensitive), vec!["SECRET".to_string()]);
    assert!(search_content(&content, &sensitive).is_empty());
}

#[test]
fn findings_are_deduplicated_in_first_appearance_order() {
    let kws = vec!["(b+)".to_string(), "b+".to_string(), "a(x)?".to_string()];
    let patterns = load_regex(&kws, true).unwrap();
    // First pattern yields group 0 and group 1, both "bbb"; the second
    // yields "bbb" again; the third matches "a" with a non-participating
    // group, which is skipped.
    let findings = search_content("bbb a", &patterns);
    assert_eq!(findings, vec!["bbb".to_string(), "a".to_string()]);
}

#[test]
fn invalid_pattern_fails_compilation() {
    assert!(load_regex(&vec!["(".to_string()], false).is_none());
    assert!(load_regex(&vec![], false).is_some());
}

#[test]
fn findings_join_with_comma_and_space() {
    assert_eq!(
        findings_to_string(vec!["a".to_string(), "b".to_string(), "c".to_string()]),
        "a, b, c"
    );
    assert_eq!(findings_to_string(vec!["only".to_string()]), "only");
    assert_eq!(findings_to_string(vec![]), "");
}
