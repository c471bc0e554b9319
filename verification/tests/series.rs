use log_series::align::align_events;
use log_series::extract::{
    get_start_time_stamp, parse_bench_log, parse_elapsed_log, parse_mem_log, LogError,
};
use log_series::paths::{chart_path_for, is_log_file};
use log_series::tokenize::tokenize_mem_line;

fn lines_of(texts: &[&str]) -> Vec<Vec<u8>> {
    let mut v = Vec::new();
    for t in texts {
        v.push(t.as_bytes().to_vec());
    }
    v
}

#[test]
fn test_parse_bench_log() {
    let lines = lines_of(&[
        "2021-12-01T20:03:49.145 INFO bellperson > | 1th | e-l_s | process id :3882167 | Cpu Usage 0% | Physical MemUsage 66190MB",
        "2021-12-01T20:03:50.000 INFO bellperson > | 2th | seal |",
    ]);
    let (stamps, events) = parse_bench_log(&lines).unwrap();
    assert_eq!(stamps, vec![1638389029, 1638389030]);
    assert_eq!(events.len(), 2);
    assert_eq!(events[0].0, 1);
    assert_eq!(events[0].1, b"e-l_s".to_vec());
    assert_eq!(events[1].0, 2);
    assert_eq!(events[1].1, b"seal".to_vec());
}

#[test]
fn test_bench_log_skips_earlier_pipes() {
    // The thread segment is found at the first pipe pair that fits it.
    let lines = lines_of(&["2021-12-01T20:03:49.145 a | foo | 1th | stage | rest"]);
    let (stamps, events) = parse_bench_log(&lines).unwrap();
    assert_eq!(stamps, vec![1638389029]);
    assert_eq!(events[0].0, 1);
    assert_eq!(events[0].1, b"stage".to_vec());
}

#[test]
fn test_bench_log_mismatch() {
    // No thread segment between pipes: the pattern does not match.
    let lines = lines_of(&[
        "2021-12-01T20:03:49.145 INFO bellperson > | 1th | e-l_s |",
        "2021-12-01T20:03:50.000 INFO bellperson > no pipes here",
    ]);
    assert_eq!(parse_bench_log(&lines), Err(LogError::PatternMismatch { line: 1 }));
}

#[test]
fn test_bench_log_bad_datetime_width() {
    // Matches the loose token shape but not the fixed-width encoding.
    let lines = lines_of(&["2021-12-1T20:03:49.145 x | 1th | s |"]);
    assert_eq!(parse_bench_log(&lines), Err(LogError::ValueParse { line: 0 }));
}

#[test]
fn test_full_series_end_to_end() {
    // Header line, then four data lines with increasing "used" values.
    let lines = lines_of(&[
        "             total        used        free      shared  buff/cache   available",
        "2021-11-26 11:19:28         1032015        2901      920876          16      108237     1024719",
        "2021-11-26 11:19:29         1032015        3000      920777          16      108237     1024620",
        "2021-11-26 11:19:30         1032015        4000      919777          16      108237     1023620",
        "2021-11-26 11:19:31         1032015        5000      918777          16      108237     1022620",
    ]);
    assert_eq!(parse_mem_log(&lines), Ok(vec![2901, 3000, 4000, 5000]));
}

#[test]
fn test_full_series_counts() {
    // n lines yield n - 1 samples; the empty and header-only files yield none.
    let empty: Vec<Vec<u8>> = Vec::new();
    assert_eq!(parse_mem_log(&empty), Ok(vec![]));
    let header_only = lines_of(&["             total        used"]);
    assert_eq!(parse_mem_log(&header_only), Ok(vec![]));
}

#[test]
fn test_malformed_line_aborts() {
    // The third line is missing its numeric fields: extraction aborts with
    // a pattern-mismatch error naming that line, and no partial sequence.
    let lines = lines_of(&[
        "header",
        "2021-11-26 11:19:28 1032015 2901",
        "2021-11-26 11:19:29 1032015",
        "2021-11-26 11:19:30 1032015 4000",
    ]);
    assert_eq!(parse_mem_log(&lines), Err(LogError::PatternMismatch { line: 2 }));
}

#[test]
fn test_used_value_too_large() {
    let lines = lines_of(&["header", "2021-11-26 11:19:28 1 99999999999"]);
    assert_eq!(parse_mem_log(&lines), Err(LogError::ValueParse { line: 1 }));
}

#[test]
fn test_used_is_fourth_token() {
    let line = b"2021-11-26 11:19:28 1032015 2901 920876 16";
    let fields = tokenize_mem_line(line).unwrap();
    assert_eq!(fields.date, b"2021-11-26".to_vec());
    assert_eq!(fields.time, b"11:19:28".to_vec());
    assert_eq!(fields.used, b"2901".to_vec());
    // A line whose fourth token is not numeric does not match.
    assert!(tokenize_mem_line(b"2021-11-26 11:19:28 1032015 2901MB").is_none());
}

#[test]
fn test_get_start_time_stamp() {
    let lines = lines_of(&[
        "             total        used",
        "2021-11-26 11:19:28         1032015        2901      920876          16      108237     1024719",
    ]);
    assert_eq!(get_start_time_stamp(&lines), Ok(1637925568));
}

#[test]
fn test_get_start_time_stamp_missing_line() {
    let lines = lines_of(&["             total        used"]);
    assert_eq!(get_start_time_stamp(&lines), Err(LogError::PatternMismatch { line: 1 }));
}

#[test]
fn test_elapsed_filter() {
    // Only lines 2 and 4 carry both the marker and the keyword.
    let lines = lines_of(&[
        "ffi C2 begin",
        "ffi C2 end, elapsed: 985.14}",
        "some unrelated line",
        "ffi C2 end, elapsed: 1203.77}",
        "ffi C1 end, elapsed: 5.0}",
    ]);
    assert_eq!(parse_elapsed_log(&lines, b"ffi C2 end"), Ok(vec![985, 1203]));
}

#[test]
fn test_elapsed_bad_value() {
    let lines = lines_of(&["ffi C2 end, elapsed: quick}"]);
    assert_eq!(parse_elapsed_log(&lines, b"ffi C2 end"), Err(LogError::ValueParse { line: 0 }));
}

#[test]
fn test_elapsed_whole_seconds() {
    let lines = lines_of(&["ffi C2 end elapsed:42", "ffi C2 end elapsed: 7.}"]);
    assert_eq!(parse_elapsed_log(&lines, b"ffi C2 end"), Ok(vec![42, 7]));
}

#[test]
fn test_align_events() {
    let events: Vec<u64> = vec![99, 100, 102, 104, 105, 200];
    let offsets = align_events(100, 5, &events);
    assert_eq!(offsets, vec![None, Some(0), Some(2), Some(4), None, None]);
}

#[test]
fn test_log_file_names() {
    assert!(is_log_file(b"a.log"));
    assert!(is_log_file(b"mem0.log"));
    assert!(!is_log_file(b"notes.txt"));
    assert!(!is_log_file(b"log"));
    assert_eq!(chart_path_for(b"a.log"), b"a.png".to_vec());
    assert_eq!(chart_path_for(b"mem0.log"), b"mem0.png".to_vec());
}
