//! The persisted configuration's transitions, the pre-scan checks, scan
//! planning, and the eligibility rule.

use sift::run::{
    add_keyword, add_root, complete_scan, import_keywords, load_keywords, prescan_checks,
    remove_keyword, remove_root, set_output_directory, split_patterns,
};
use sift::scan_manager::{parse_timestamp, plan_scan};
use sift::scanner::{is_eligible, select_eligible, FileEntry};
use sift::settings::ConfigFile;

#[test]
fn defaults_force_an_initial_scan() {
    let cfg = ConfigFile::default();
    assert!(cfg.initial_scan);
    assert!(cfg.output_directory.is_none());
    assert!(cfg.keywords.is_empty());
    assert!(cfg.roots.is_empty());
    assert!(cfg.secret.is_none());
    assert_eq!(cfg.time_last_scan, "");
    assert_eq!(cfg.max_scan_threads, 2);
    assert_eq!(cfg.max_file_threads, 5);
    assert_eq!(cfg.max_write_lines, 10000);
}

#[test]
fn reset_config_fails_prescan_with_missing_secret() {
    // After a reset, a scan request must fail its pre-scan checks cleanly,
    // naming the missing application secret.
    let cfg = ConfigFile::default();
    let (ok, msgs) = prescan_checks(&cfg);
    assert!(!ok);
    assert!(msgs.contains(&"No application secret stored".to_string()));
    assert!(msgs.contains(&"No output directory designated.".to_string()));
    assert!(msgs.contains(&"No keywords designated.".to_string()));
    assert!(msgs.contains(&"No root directories designated.".to_string()));
}

#[test]
fn complete_configuration_passes_prescan() {
    let mut cfg = ConfigFile::default();
    cfg.output_directory = Some("/out".to_string());
    cfg.keywords.push("blob".to_string());
    cfg.roots.push("/data".to_string());
    cfg.secret = Some("hash".to_string());
    let (ok, msgs) = prescan_checks(&cfg);
    assert!(ok);
    assert!(msgs.is_empty());
}

#[test]
fn roots_are_added_once_and_only_if_they_exist() {
    let mut cfg = ConfigFile::default();
    cfg.initial_scan = false;
    assert!(add_root(&mut cfg, "/data".to_string(), true));
    assert!(cfg.initial_scan);
    assert!(!add_root(&mut cfg, "/data".to_string(), true));
    assert!(!add_root(&mut cfg, "/missing".to_string(), false));
    assert_eq!(cfg.roots, vec!["/data".to_string()]);
}

#[test]
fn removing_a_root_forces_a_full_pass() {
    let mut cfg = ConfigFile::default();
    cfg.roots = vec!["/a".to_string(), "/b".to_string()];
    cfg.initial_scan = false;
    assert!(remove_root(&mut cfg, &"/a".to_string()));
    assert!(cfg.initial_scan);
    assert_eq!(cfg.roots, vec!["/b".to_string()]);
    cfg.initial_scan = false;
    assert!(!remove_root(&mut cfg, &"/zzz".to_string()));
    assert!(!cfg.initial_scan);
}

#[test]
fn keywords_round_trip_through_the_vault() {
    let mut cfg = ConfigFile::default();
    cfg.initial_scan = false;
    let existing: Vec<String> = Vec::new();
    assert!(add_keyword(&mut cfg, &"ssn".to_string(), &existing, "pw"));
    assert!(cfg.initial_scan);
    assert_eq!(cfg.keywords.len(), 1);
    let loaded = load_keywords(&cfg.keywords, "pw").unwrap();
    assert_eq!(loaded, vec!["ssn".to_string()]);
    assert!(load_keywords(&cfg.keywords, "wrong").is_none());
    assert!(!add_keyword(&mut cfg, &"ssn".to_string(), &loaded, "pw"));
}

#[test]
fn removing_a_keyword_keeps_both_lists_aligned() {
    let mut cfg = ConfigFile::default();
    let existing: Vec<String> = Vec::new();
    add_keyword(&mut cfg, &"one".to_string(), &existing, "pw");
    add_keyword(&mut cfg, &"two".to_string(), &existing, "pw");
    let mut plain = load_keywords(&cfg.keywords, "pw").unwrap();
    assert!(remove_keyword(&mut cfg, &mut plain, &"one".to_string()));
    assert_eq!(plain, vec!["two".to_string()]);
    assert_eq!(load_keywords(&cfg.keywords, "pw").unwrap(), vec!["two".to_string()]);
    assert!(!remove_keyword(&mut cfg, &mut plain, &"one".to_string()));
}

#[test]
fn pattern_files_split_on_comma_and_line_breaks() {
    let tokens = split_patterns("x,y\r\nz,,\n");
    assert_eq!(
        tokens,
        vec!["x".to_string(), "y".to_string(), "z".to_string()]
    );
    assert!(split_patterns("").is_empty());
    assert!(split_patterns(",,\r\n").is_empty());
}

#[test]
fn imported_patterns_skip_existing_ones() {
    let mut cfg = ConfigFile::default();
    cfg.initial_scan = false;
    let existing = vec!["a".to_string()];
    let n = import_keywords(&mut cfg, "a,b\nc,a", &existing, "pw");
    assert_eq!(n, 2);
    assert!(cfg.initial_scan);
    assert_eq!(
        load_keywords(&cfg.keywords, "pw").unwrap(),
        vec!["b".to_string(), "c".to_string()]
    );
}

#[test]
fn output_directory_change_forces_a_full_pass() {
    let mut cfg = ConfigFile::default();
    cfg.initial_scan = false;
    set_output_directory(&mut cfg, "/out".to_string());
    assert_eq!(cfg.output_directory, Some("/out".to_string()));
    assert!(cfg.initial_scan);
}

#[test]
fn a_successful_scan_clears_the_initial_flag_and_stamps_the_time() {
    let mut cfg = ConfigFile::default();
    let earlier = "2024-03-25 09:05:07.000000000 UTC".to_string();
    cfg.time_last_scan = earlier.clone();
    complete_scan(&mut cfg, "2024-03-25 10:00:00.000000000 UTC".to_string());
    assert!(!cfg.initial_scan);
    assert_eq!(cfg.time_last_scan, "2024-03-25 10:00:00.000000000 UTC");
    // The stored stamp strictly increases whenever the clock does.
    let t0 = parse_timestamp(&earlier).unwrap();
    let t1 = parse_timestamp(&cfg.time_last_scan).unwrap();
    assert!(t1 > t0);
}

#[test]
fn scan_planning_honours_state_and_flags() {
    // A forced or initial scan starts from the epoch.
    assert_eq!(plan_scan(true, false, Some(500)), (true, 0));
    assert_eq!(plan_scan(false, true, Some(500)), (true, 0));
    // A partial scan uses the parsed watermark.
    assert_eq!(plan_scan(false, false, Some(500)), (false, 500));
    // An unparsable stamp degrades to the epoch and scans everything.
    assert!(parse_timestamp("three days ago").is_none());
    assert_eq!(plan_scan(false, false, None), (false, 0));
}

#[test]
fn watermark_comparison_is_at_or_after() {
    assert!(!is_eligible(Some(99), 100));
    assert!(is_eligible(Some(100), 100));
    assert!(is_eligible(Some(101), 100));
    assert!(is_eligible(None, 100));
}

#[test]
fn partial_scan_selects_only_touched_files() {
    let entries = vec![
        FileEntry { path: "/a/unchanged.txt".to_string(), mtime: Some(50) },
        FileEntry { path: "/a/touched.txt".to_string(), mtime: Some(150) },
        FileEntry { path: "/a/boundary.txt".to_string(), mtime: Some(100) },
        FileEntry { path: "/a/unreadable.txt".to_string(), mtime: None },
    ];
    let selected = select_eligible(&entries, 100);
    let paths: Vec<String> = selected.iter().map(|e| e.path.clone()).collect();
    assert_eq!(
        paths,
        vec![
            "/a/touched.txt".to_string(),
            "/a/boundary.txt".to_string(),
            "/a/unreadable.txt".to_string()
        ]
    );
}

#[test]
fn unchanged_tree_rescans_nothing() {
    let entries = vec![
        FileEntry { path: "/a/x.txt".to_string(), mtime: Some(10) },
        FileEntry { path: "/a/y.pdf".to_string(), mtime: Some(20) },
    ];
    assert!(select_eligible(&entries, 21).is_empty());
}
