use rustic_fetch::errors::DownloadError;
use rustic_fetch::headers::{parse_header_line, parse_headers, trim_of};
use rustic_fetch::helpers::{
    collect_jobs, effective_threads, file_name_of_url, parse_curl_command, str_eq, tokenize,
};
use rustic_fetch::numbers::{parse_content_length, range_header_value};
use rustic_fetch::probe::{accepts_byte_ranges, interpret_probe};

#[test]
fn header_without_colon_is_dropped() {
    assert!(parse_header_line("X-Test").is_none());
}

#[test]
fn header_with_colon_splits_and_trims() {
    let (name, value) = parse_header_line("Authorization: Bearer abc").unwrap();
    assert_eq!(name, "Authorization");
    assert_eq!(value, "Bearer abc");
}

#[test]
fn header_value_keeps_later_colons() {
    let (name, value) = parse_header_line("X-Time: 12:30:00").unwrap();
    assert_eq!(name, "X-Time");
    assert_eq!(value, "12:30:00");
}

#[test]
fn header_list_drops_only_malformed_lines() {
    let lines = vec![
        "X-Test".to_string(),
        "Authorization: Bearer abc".to_string(),
        "Accept: */*".to_string(),
    ];
    let parsed = parse_headers(&lines);
    assert_eq!(parsed.len(), 2);
    assert_eq!(parsed[0].0, "Authorization");
    assert_eq!(parsed[0].1, "Bearer abc");
    assert_eq!(parsed[1].0, "Accept");
    assert_eq!(parsed[1].1, "*/*");
}

#[test]
fn trim_removes_surrounding_whitespace_only() {
    assert_eq!(trim_of("  a b\t"), "a b");
    assert_eq!(trim_of(""), "");
    assert_eq!(trim_of(" \t "), "");
    assert_eq!(trim_of("x"), "x");
}

#[test]
fn curl_command_yields_url_and_headers() {
    let (url, headers) =
        parse_curl_command("curl -H Authorization:token https://example.com/test.mp4").unwrap();
    assert_eq!(url, "https://example.com/test.mp4");
    assert_eq!(headers, vec!["Authorization:token".to_string()]);
}

#[test]
fn curl_command_long_flag_and_last_url_wins() {
    let (url, headers) = parse_curl_command(
        "curl http://old.example.com/a.mp4 --header X-One:1 -H X-Two:2 https://example.com/b.mp4",
    )
    .unwrap();
    assert_eq!(url, "https://example.com/b.mp4");
    assert_eq!(headers, vec!["X-One:1".to_string(), "X-Two:2".to_string()]);
}

#[test]
fn curl_command_flag_consumes_url_token() {
    let result = parse_curl_command("curl -H https://example.com/test.mp4");
    assert!(matches!(result, Err(DownloadError::Input(_))));
}

#[test]
fn curl_command_without_url_is_rejected() {
    let result = parse_curl_command("curl -X POST -H X-Test:1");
    assert!(matches!(result, Err(DownloadError::Input(_))));
}

#[test]
fn tokenize_splits_on_runs_of_whitespace() {
    let toks = tokenize("  a\t bb \n ccc ");
    assert_eq!(toks, vec!["a".to_string(), "bb".to_string(), "ccc".to_string()]);
}

#[test]
fn str_eq_compares_contents() {
    assert!(str_eq("bytes", "bytes"));
    assert!(!str_eq("bytes", "byte"));
    assert!(!str_eq("bytes", "none"));
}

#[test]
fn file_name_is_last_url_segment() {
    assert_eq!(file_name_of_url("https://example.com/dir/test.mp4").unwrap(), "test.mp4");
    assert_eq!(file_name_of_url("name").unwrap(), "name");
    assert!(file_name_of_url("https://example.com/dir/").is_none());
    assert!(file_name_of_url("").is_none());
}

#[test]
fn content_length_parses_digits_only() {
    assert_eq!(parse_content_length(Some("100")), 100);
    assert_eq!(parse_content_length(Some("0")), 0);
    assert_eq!(parse_content_length(Some("18446744073709551615")), u64::MAX);
    assert_eq!(parse_content_length(Some("18446744073709551616")), 0);
    assert_eq!(parse_content_length(Some("12a")), 0);
    assert_eq!(parse_content_length(Some("-5")), 0);
    assert_eq!(parse_content_length(Some("")), 0);
    assert_eq!(parse_content_length(None), 0);
}

#[test]
fn byte_range_support_needs_exact_bytes() {
    assert!(accepts_byte_ranges(Some("bytes")));
    assert!(!accepts_byte_ranges(Some("none")));
    assert!(!accepts_byte_ranges(Some("Bytes")));
    assert!(!accepts_byte_ranges(None));
}

#[test]
fn probe_interpretation_combines_both_headers() {
    let meta = interpret_probe(Some("bytes"), Some("4096"));
    assert!(meta.supports_ranges);
    assert_eq!(meta.total_size, 4096);
    let meta = interpret_probe(None, Some("junk"));
    assert!(!meta.supports_ranges);
    assert_eq!(meta.total_size, 0);
}

#[test]
fn range_header_writes_inclusive_bounds() {
    assert_eq!(range_header_value(0, 499), "bytes=0-499");
    assert_eq!(range_header_value(33, 65), "bytes=33-65");
    assert_eq!(range_header_value(0, 0), "bytes=0-0");
    assert_eq!(range_header_value(18446744073709551615, 18446744073709551615),
        "bytes=18446744073709551615-18446744073709551615");
}

#[test]
fn jobs_from_command_line_urls() {
    let (urls, headers) =
        collect_jobs(vec!["http://example.com".to_string()], None, false).unwrap();
    assert_eq!(urls, vec!["http://example.com".to_string()]);
    assert!(headers.is_empty());
}

#[test]
fn jobs_without_urls_are_rejected() {
    let result = collect_jobs(vec![], None, false);
    assert!(matches!(result, Err(DownloadError::Input(_))));
    let result = collect_jobs(vec![], Some(vec![]), false);
    assert!(matches!(result, Err(DownloadError::Input(_))));
}

#[test]
fn jobs_from_plain_url_file() {
    let lines = vec!["http://example.com/a.mp4".to_string(), "http://example.com/b.mp4".to_string()];
    let (urls, headers) = collect_jobs(vec![], Some(lines.clone()), false).unwrap();
    assert_eq!(urls, lines);
    assert!(headers.is_empty());
}

#[test]
fn jobs_from_curl_file_take_last_line_headers() {
    let lines = vec![
        "curl -H X-One:1 https://example.com/a.mp4".to_string(),
        "curl -H X-Two:2 https://example.com/b.mp4".to_string(),
    ];
    let (urls, headers) = collect_jobs(vec![], Some(lines), true).unwrap();
    assert_eq!(
        urls,
        vec!["https://example.com/a.mp4".to_string(), "https://example.com/b.mp4".to_string()]
    );
    assert_eq!(headers, vec!["X-Two:2".to_string()]);
}

#[test]
fn curl_file_line_without_url_rejects_submission() {
    let lines = vec![
        "curl https://example.com/a.mp4".to_string(),
        "curl -H X-Test:1".to_string(),
    ];
    let result = collect_jobs(vec![], Some(lines), true);
    assert!(matches!(result, Err(DownloadError::Input(_))));
}

#[test]
fn thread_count_is_clamped_to_available() {
    assert_eq!(effective_threads(1125, 8), 8);
    assert_eq!(effective_threads(4, 8), 4);
    assert_eq!(effective_threads(8, 8), 8);
}
