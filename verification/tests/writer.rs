//! The CSV artifact: row encoding, file names, and rotation at the row
//! threshold.

use sift::csv_writer::{
    csv_header, csv_row, make_timestamp, sanitize_root, update_filename, CsvWriterState,
};
use sift::Row;

#[test]
fn header_and_plain_row() {
    assert_eq!(csv_header(), "findings,filename,path\n");
    let row = Row {
        findings: "123-45-6789".to_string(),
        filename: "hit.txt".to_string(),
        path: "/tmp/a/hit.txt".to_string(),
    };
    assert_eq!(csv_row(&row), "123-45-6789,hit.txt,/tmp/a/hit.txt\n");
}

#[test]
fn fields_with_separators_are_quoted() {
    let row = Row {
        findings: "a, b".to_string(),
        filename: "we\"ird.txt".to_string(),
        path: "/tmp/line\nbreak".to_string(),
    };
    assert_eq!(
        csv_row(&row),
        "\"a, b\",\"we\"\"ird.txt\",\"/tmp/line\nbreak\"\n"
    );
}

#[test]
fn root_is_sanitized_for_filenames() {
    let chars = sanitize_root("C:\\data/scans");
    let s: String = chars.iter().collect();
    assert_eq!(s, "Cdatascans");
}

#[test]
fn timestamp_and_filename_template() {
    let ts = make_timestamp(9, 5, 7, 3, 25, 2024);
    assert_eq!(ts, "09-05-07utc_3252024");
    let name = update_filename(
        &"tmpa".to_string(),
        &ts,
        &"/out".to_string(),
        2,
    );
    assert_eq!(name, "/out/tmpa_09-05-07utc_3252024_2.csv");
}

#[test]
fn exactly_threshold_records_stay_in_one_file() {
    let mut state = CsvWriterState::start(10);
    let mut rotations: u32 = 0;
    for _ in 0..10 {
        if state.on_record() {
            rotations += 1;
        }
    }
    assert_eq!(rotations, 0);
    assert_eq!(state.file_suffix, 1);
    assert_eq!(state.lines_written, 10);
}

#[test]
fn one_past_threshold_rotates_once() {
    let mut state = CsvWriterState::start(10);
    for _ in 0..10 {
        state.on_record();
    }
    assert!(state.on_record());
    assert_eq!(state.file_suffix, 2);
    assert_eq!(state.lines_written, 1);
}

#[test]
fn ten_thousand_and_one_records_make_two_files() {
    let mut state = CsvWriterState::start(10000);
    let mut rows_per_file: Vec<u32> = vec![0];
    for _ in 0..10001u32 {
        if state.on_record() {
            rows_per_file.push(0);
        }
        let last = rows_per_file.len() - 1;
        rows_per_file[last] += 1;
    }
    assert_eq!(state.file_suffix, 2);
    assert_eq!(rows_per_file, vec![10000, 1]);
}

#[test]
fn zero_records_leave_the_first_header_only_file() {
    let state = CsvWriterState::start(10000);
    assert_eq!(state.file_suffix, 1);
    assert_eq!(state.lines_written, 0);
}
