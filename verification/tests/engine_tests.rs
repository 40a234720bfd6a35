use file_spliter::config::SplitConfig;
use file_spliter::engine::coverage_failures;
use file_spliter::engine::split_lines;
use file_spliter::engine::success_message;
use file_spliter::engine::verify_coverage;
use file_spliter::errors::ErrorKind;
use file_spliter::errors::SplitError;

fn lines(n: usize) -> Vec<String> {
    let mut v = Vec::new();
    let mut i = 1;
    while i <= n {
        v.push(format!("line {}", i));
        i += 1;
    }
    v
}

fn cfg(start: usize, end: usize, path: &str) -> SplitConfig {
    SplitConfig::new(start, end, String::from(path)).unwrap()
}

#[test]
fn scenario_two_disjoint_ranges() {
    let input = lines(10);
    let parts = vec![cfg(1, 5, "a"), cfg(6, 10, "b")];
    let outs = split_lines(&input, &parts);
    assert_eq!(outs.len(), 2);
    assert_eq!(outs[0], input[0..5].to_vec());
    assert_eq!(outs[1], input[5..10].to_vec());
    let summary = verify_coverage(&parts, input.len()).unwrap();
    assert_eq!(summary.total_lines, 10);
    assert_eq!(summary.file_count, 2);
}

#[test]
fn scenario_range_past_eof_is_reported_and_listed_for_deletion() {
    let input = lines(3);
    let parts = vec![cfg(1, 2, "a"), cfg(5, 8, "b")];
    let outs = split_lines(&input, &parts);
    assert_eq!(outs[0], input[0..2].to_vec());
    assert!(outs[1].is_empty());
    let failed = coverage_failures(&parts, input.len());
    assert_eq!(failed, vec![1usize]);
    let err = verify_coverage(&parts, input.len()).unwrap_err();
    assert_eq!(err.kind(), ErrorKind::Coverage);
    assert_eq!(
        err.message(),
        "Range 5-8 failed: Input file only has 3 lines."
    );
    match err {
        SplitError::CoverageFailed {
            failures,
            total_lines,
        } => {
            assert_eq!(total_lines, 3);
            assert_eq!(failures.len(), 1);
            assert_eq!(failures[0].start, 5);
            assert_eq!(failures[0].end, 8);
        }
        _ => panic!("expected a coverage failure"),
    }
}

#[test]
fn scenario_overlapping_ranges_duplicate_lines() {
    let input = lines(10);
    let parts = vec![cfg(1, 5, "a"), cfg(3, 7, "b")];
    let outs = split_lines(&input, &parts);
    assert_eq!(outs[0], input[0..5].to_vec());
    assert_eq!(outs[1], input[2..7].to_vec());
    for shared in &input[2..5] {
        assert!(outs[0].contains(shared));
        assert!(outs[1].contains(shared));
    }
}

#[test]
fn rerunning_the_same_plan_gives_identical_outputs() {
    let input = lines(7);
    let parts = vec![cfg(2, 4, "a"), cfg(1, 7, "b"), cfg(6, 9, "c")];
    let first = split_lines(&input, &parts);
    let second = split_lines(&input, &parts);
    assert_eq!(first, second);
}

#[test]
fn concatenating_covering_disjoint_outputs_restores_the_input() {
    let input = lines(9);
    let parts = vec![cfg(1, 3, "a"), cfg(4, 4, "b"), cfg(5, 9, "c")];
    let outs = split_lines(&input, &parts);
    let mut joined = Vec::new();
    for out in outs {
        joined.extend(out);
    }
    assert_eq!(joined, input);
}

#[test]
fn partial_range_is_truncated_but_accepted() {
    let input = lines(4);
    let parts = vec![cfg(3, 10, "a")];
    let outs = split_lines(&input, &parts);
    assert_eq!(outs[0], input[2..4].to_vec());
    let summary = verify_coverage(&parts, input.len()).unwrap();
    assert_eq!(summary.total_lines, 4);
    assert_eq!(summary.file_count, 1);
}

#[test]
fn empty_plan_reads_everything_and_writes_nothing() {
    let input = lines(5);
    let parts: Vec<SplitConfig> = Vec::new();
    let outs = split_lines(&input, &parts);
    assert!(outs.is_empty());
    let summary = verify_coverage(&parts, input.len()).unwrap();
    assert_eq!(summary.total_lines, 5);
    assert_eq!(summary.file_count, 0);
}

#[test]
fn multiple_coverage_failures_are_aggregated() {
    let input = lines(2);
    let parts = vec![cfg(5, 6, "a"), cfg(1, 2, "b"), cfg(9, 9, "c")];
    let failed = coverage_failures(&parts, input.len());
    assert_eq!(failed, vec![0usize, 2usize]);
    let err = verify_coverage(&parts, input.len()).unwrap_err();
    assert_eq!(
        err.message(),
        "Range 5-6 failed: Input file only has 2 lines.\nRange 9-9 failed: Input file only has 2 lines."
    );
}

#[test]
fn success_message_quotes_the_line_count() {
    assert_eq!(success_message(42), "Success! Processed 42 lines.");
    assert_eq!(success_message(0), "Success! Processed 0 lines.");
}

#[test]
fn auto_windows_fill_evenly_with_a_short_tail() {
    let input = lines(10);
    let parts = vec![
        cfg(1, 3, "a"),
        cfg(4, 6, "b"),
        cfg(7, 9, "c"),
        cfg(10, 10, "d"),
    ];
    let outs = split_lines(&input, &parts);
    let sizes: Vec<usize> = outs.iter().map(|o| o.len()).collect();
    assert_eq!(sizes, vec![3, 3, 3, 1]);
    let mut joined = Vec::new();
    for out in outs {
        joined.extend(out);
    }
    assert_eq!(joined, input);
}
