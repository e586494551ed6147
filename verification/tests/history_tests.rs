use lineup::analyzer::{AnalyzedStruct, Arch};
use lineup::db::{
    group_by_file, language_column, patterns_from_column, patterns_to_column, scan_summary_from_columns,
    struct_detail_from_columns, struct_summary_from_columns, StructSummary,
};
use lineup::scan::{next_scan_action, scan_language, scan_summary, scan_totals, ScanAction, ScanOptions};

fn summary(id: i64, line: i64) -> StructSummary {
    struct_summary_from_columns(id, format!("S{}", id), line, 24, 16, 8, 1, 0, Some("struct".to_string()))
}

#[test]
fn results_are_grouped_by_file_in_path_order() {
    let rows = vec![
        ("b.go".to_string(), summary(1, 3)),
        ("a.go".to_string(), summary(2, 7)),
        ("b.go".to_string(), summary(3, 9)),
        ("a/z.go".to_string(), summary(4, 1)),
    ];
    let files = group_by_file(rows);
    let paths: Vec<&str> = files.iter().map(|f| f.file_path.as_str()).collect();
    assert_eq!(paths, vec!["a.go", "a/z.go", "b.go"]);
    let ids: Vec<Vec<i64>> = files.iter().map(|f| f.structs.iter().map(|s| s.id).collect()).collect();
    assert_eq!(ids, vec![vec![2], vec![4], vec![1, 3]]);
}

#[test]
fn grouping_nothing_gives_nothing() {
    assert!(group_by_file(vec![]).is_empty());
}

#[test]
fn stored_columns_are_decoded() {
    let s = struct_summary_from_columns(5, "T".to_string(), 12, 24, 16, 8, 1, 0, None);
    assert!(s.has_generics);
    assert!(!s.has_embedded);
    assert_eq!(s.declaration_kind, "struct");
    let s = struct_summary_from_columns(6, "C".to_string(), 1, 8, 8, 0, 0, -1, Some("class".to_string()));
    assert!(!s.has_generics);
    assert!(s.has_embedded);
    assert_eq!(s.declaration_kind, "class");

    let d = struct_detail_from_columns(
        9,
        2,
        "x.go".to_string(),
        "X".to_string(),
        4,
        (24, 16, 8),
        "cur".to_string(),
        "opt".to_string(),
        0,
        1,
        None,
    );
    assert_eq!((d.id, d.scan_id, d.line_number), (9, 2, 4));
    assert_eq!((d.current_size, d.optimal_size, d.bytes_saved), (24, 16, 8));
    assert_eq!((d.current_def.as_str(), d.optimized_def.as_str()), ("cur", "opt"));
    assert!(!d.has_generics && d.has_embedded);
    assert_eq!(d.declaration_kind, "struct");
}

#[test]
fn ignore_patterns_round_trip_through_their_column() {
    let patterns = vec![".*\\.pb\\.go$".to_string(), "gen/\"quoted\"".to_string(), "tab\there".to_string()];
    let column = patterns_to_column(&patterns);
    assert_eq!(patterns_from_column(&column), patterns);
    assert_eq!(patterns_to_column(&vec![]), "[]");
    assert_eq!(patterns_to_column(&vec!["a".to_string()]), "[\"a\"]");
}

#[test]
fn pattern_columns_escape_as_json() {
    let patterns = vec!["a\"b\\c\n\u{1}\u{1f}\t\r\u{8}\u{c}é/".to_string(), "x".to_string()];
    assert_eq!(
        patterns_to_column(&patterns),
        "[\"a\\\"b\\\\c\\n\\u0001\\u001f\\t\\r\\b\\fé/\",\"x\"]"
    );
}

#[test]
fn unreadable_pattern_columns_read_as_no_patterns() {
    assert!(patterns_from_column("not json").is_empty());
    assert!(patterns_from_column("[1, 2]").is_empty());
    assert_eq!(patterns_from_column("[\"x\"]"), vec!["x".to_string()]);
}

#[test]
fn history_rows_default_to_go() {
    let s = scan_summary_from_columns(1, "/r".to_string(), 100, 3, 1, 8, "[\"v\"]", "amd64".to_string(), None);
    assert_eq!(s.language, "GO");
    assert_eq!(s.ignore_patterns, vec!["v".to_string()]);
    assert_eq!((s.total_structs, s.padded_structs, s.bytes_saved), (3, 1, 8));
    let s = scan_summary_from_columns(2, "/r".to_string(), 100, 0, 0, 0, "bad", "arm64".to_string(), Some("TS".to_string()));
    assert_eq!(s.language, "TS");
    assert!(s.ignore_patterns.is_empty());
}

#[test]
fn languages_are_stored_upper_case() {
    assert_eq!(language_column("ts"), "TS");
    assert_eq!(language_column("Go"), "GO");
    let opts = |l: &str| ScanOptions { ignore_patterns: vec![], target_arch: "amd64".to_string(), language: l.to_string() };
    assert_eq!(scan_language(&opts("ts")), ("TS".to_string(), true));
    assert_eq!(scan_language(&opts("TS")), ("TS".to_string(), true));
    assert_eq!(scan_language(&opts("go")), ("GO".to_string(), false));
    assert_eq!(scan_language(&opts("typescript")), ("TYPESCRIPT".to_string(), false));
}

fn analyzed(saved: u64) -> AnalyzedStruct {
    AnalyzedStruct {
        name: "S".to_string(),
        type_params: None,
        line_number: 1,
        current_size: 16 + saved,
        optimal_size: 16,
        bytes_saved: saved,
        current_def: String::new(),
        optimized_def: String::new(),
        has_generics: false,
        has_embedded: false,
        approximate: false,
        declaration_kind: "struct".to_string(),
    }
}

#[test]
fn scan_totals_count_padded_results() {
    let results = vec![
        ("a.go".to_string(), analyzed(8)),
        ("a.go".to_string(), analyzed(0)),
        ("b.go".to_string(), analyzed(4)),
    ];
    assert_eq!(scan_totals(&results), Some((3, 2, 12)));
    assert_eq!(scan_totals(&vec![]), Some((0, 0, 0)));
}

#[test]
fn scan_totals_refuse_an_overflowing_sum() {
    let results = vec![
        ("a.go".to_string(), analyzed(i64::MAX as u64)),
        ("b.go".to_string(), analyzed(1)),
    ];
    assert_eq!(scan_totals(&results), None);
}

#[test]
fn summary_of_a_scan() {
    let s = scan_summary(7, "/repo".to_string(), 1700, (3, 2, 12), vec!["x".to_string()], Arch::Arm64, "GO".to_string());
    assert_eq!(s.id, 7);
    assert_eq!(s.target_arch, "arm64");
    assert_eq!((s.total_structs, s.padded_structs, s.bytes_saved), (3, 2, 12));
    assert_eq!(s.ignore_patterns, vec!["x".to_string()]);
}

#[test]
fn scan_steps() {
    assert_eq!(next_scan_action(0, 3, false), ScanAction::Save(0));
    assert_eq!(next_scan_action(2, 3, false), ScanAction::Save(2));
    assert_eq!(next_scan_action(1, 3, true), ScanAction::Cancel);
    assert_eq!(next_scan_action(3, 3, false), ScanAction::Finish);
    assert_eq!(next_scan_action(0, 0, false), ScanAction::Finish);
}

#[test]
fn a_cancelled_scan_is_dropped_whatever_it_saved() {
    assert_eq!(next_scan_action(3, 3, true), ScanAction::Cancel);
    assert_eq!(next_scan_action(0, 0, true), ScanAction::Cancel);
    assert_eq!(next_scan_action(0, 5, true), ScanAction::Cancel);
}
