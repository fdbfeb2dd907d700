use yummy_backend::fetch::ChunkedFetcher;
use yummy_backend::fetch::eq_ignore_ascii_case_chars;
use yummy_backend::fetch::find_content_range_total;
use yummy_backend::fetch::parse_content_range;
use yummy_backend::fetch::CHUNK_MAX;
use yummy_backend::fetch::MAX_FETCH_ROUNDS;
use yummy_backend::Error;

fn range_headers(start: u64, end: u64, total: u64) -> Vec<(String, String)> {
    vec![
        ("Content-Type".to_string(), "text/plain".to_string()),
        (
            "Content-Range".to_string(),
            format!("bytes {}-{}/{}", start, end, total),
        ),
    ]
}

#[test]
fn parse_content_range_reads_the_total() {
    assert_eq!(parse_content_range("bytes 0-2097151/5000000"), Some(5000000));
    assert_eq!(parse_content_range("bytes 0-99/100"), Some(100));
    assert_eq!(parse_content_range("/123"), Some(123));
}

#[test]
fn parse_content_range_rejects_malformed_values() {
    assert_eq!(parse_content_range("no slash here"), None);
    assert_eq!(parse_content_range("a/b/c"), None);
    assert_eq!(parse_content_range("bytes 0-1/"), None);
    assert_eq!(parse_content_range("bytes 0-1/12a"), None);
    assert_eq!(parse_content_range("bytes 0-1/99999999999999999999999999"), None);
    assert_eq!(parse_content_range(""), None);
}

#[test]
fn header_names_match_case_insensitively() {
    assert!(eq_ignore_ascii_case_chars("Content-Range", "content-range"));
    assert!(eq_ignore_ascii_case_chars("CONTENT-RANGE", "content-range"));
    assert!(!eq_ignore_ascii_case_chars("Content-Length", "content-range"));
    assert!(!eq_ignore_ascii_case_chars("content-range-x", "content-range"));
}

#[test]
fn last_parseable_content_range_header_wins() {
    let headers = vec![
        ("content-range".to_string(), "bytes 0-1/17".to_string()),
        ("CONTENT-RANGE".to_string(), "garbage".to_string()),
        ("Content-Range".to_string(), "bytes 0-1/42".to_string()),
    ];
    assert_eq!(find_content_range_total(&headers), Some(42));
    let none: Vec<(String, String)> = vec![("Host".to_string(), "example".to_string())];
    assert_eq!(find_content_range_total(&none), None);
}

#[test]
fn chunk_reassembly_returns_the_resource_byte_for_byte() {
    let n: usize = 5_000_000;
    let resource: Vec<u8> = (0..n).map(|i| (i % 251) as u8).collect();
    let mut fetcher = ChunkedFetcher::new();
    let mut rounds = 0u64;
    while !fetcher.done() {
        assert!(!fetcher.exhausted());
        let (start, _end) = fetcher.next_range();
        let from = start as usize;
        let to = (start + CHUNK_MAX).min(n as u64) as usize;
        assert!(from < n, "requests stay within the resource");
        let body = resource[from..to].to_vec();
        let headers = range_headers(start, to as u64 - 1, n as u64);
        fetcher.on_chunk(206, &headers, body).expect("chunk accepted");
        rounds += 1;
    }
    assert_eq!(rounds, 3, "five megabytes arrive in three chunks");
    assert_eq!(fetcher.data.len(), n);
    assert_eq!(fetcher.data, resource);
}

#[test]
fn single_chunk_resource_completes_in_one_round() {
    let resource: Vec<u8> = vec![9u8; 1000];
    let mut fetcher = ChunkedFetcher::new();
    let (start, _) = fetcher.next_range();
    assert_eq!(start, 0);
    let headers = range_headers(0, 999, 1000);
    fetcher
        .on_chunk(200, &headers, resource.clone())
        .expect("chunk accepted");
    assert!(fetcher.done());
    assert_eq!(fetcher.data, resource);
}

#[test]
fn transport_status_other_than_ok_aborts_and_discards_nothing_partial() {
    let mut fetcher = ChunkedFetcher::new();
    let headers = range_headers(0, 999, 1000);
    let r = fetcher.on_chunk(404, &headers, vec![1, 2, 3]);
    assert!(matches!(r, Err(Error::ImageNotDownloaded { .. })));
    assert_eq!(fetcher.data.len(), 0, "a refused chunk leaves no partial progress");
    assert_eq!(fetcher.offset, 0);
}

#[test]
fn missing_size_header_hits_the_round_ceiling() {
    let mut fetcher = ChunkedFetcher::new();
    let no_size: Vec<(String, String)> = vec![("Host".to_string(), "example".to_string())];
    let mut rounds = 0u64;
    while !fetcher.done() && !fetcher.exhausted() {
        fetcher
            .on_chunk(200, &no_size, vec![0u8; 10])
            .expect("chunk accepted");
        rounds += 1;
    }
    assert!(!fetcher.done(), "the total size never became known");
    assert!(fetcher.exhausted());
    assert_eq!(rounds, MAX_FETCH_ROUNDS);
}
