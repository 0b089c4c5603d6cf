use lara::{
    build_record, check_body_size, segment_name, warc_record, ArchiveState, FetchError, FetchResult, Header,
    HttpVersion, Politeness, Timestamp, WebUrl, MAX_BODY_SIZE,
};

fn fetch_result(body: Vec<u8>, start_ms: u64) -> FetchResult {
    FetchResult {
        body,
        duration_ms: 200,
        start: Timestamp { millis: start_ms },
        status: 200,
        http_version: HttpVersion::Http11,
        headers: vec![
            Header { name: "content-type".to_string(), value: b"text/html".to_vec() },
            Header { name: "x-a".to_string(), value: b"1".to_vec() },
        ],
    }
}

fn find(hay: &[u8], needle: &[u8]) -> Option<usize> {
    hay.windows(needle.len()).position(|w| w == needle)
}

#[test]
fn body_size_boundary() {
    assert_eq!(MAX_BODY_SIZE, 52_428_800);
    assert_eq!(check_body_size(50 * 1024 * 1024), Ok(()));
    assert_eq!(check_body_size(50 * 1024 * 1024 + 1), Err(FetchError::BodyTooLarge));
    assert_eq!(check_body_size(0), Ok(()));
}

#[test]
fn politeness_waits_three_averages() {
    let mut p = Politeness::new();
    assert_eq!(p.not_before(), Timestamp { millis: 0 });
    let t1 = Timestamp { millis: 1_000_000 };
    p.update(200, 200, t1);
    assert_eq!(p.average(), 200);
    assert_eq!(p.not_before(), Timestamp { millis: 1_000_600 });
    // a second fetch to the same host begins at least 600 ms after the first
    assert_eq!(p.wait(t1), 600);
    assert_eq!(p.wait(Timestamp { millis: 1_000_700 }), 0);
}

#[test]
fn politeness_floor_and_window() {
    let mut p = Politeness::default();
    let t1 = Timestamp { millis: 5_000 };
    p.update(200, 10, t1);
    // very fast responses count as 150 ms
    assert_eq!(p.average(), 150);
    assert_eq!(p.not_before().millis, 5_450);
    for k in 0..10u64 {
        p.update(200, 1000, Timestamp { millis: 10_000 + k });
    }
    // the 150 ms sample has left the window of ten
    assert_eq!(p.average(), 1000);
    assert_eq!(p.not_before().millis, 10_009 + 3000);
}

#[test]
fn politeness_ignores_other_statuses() {
    let mut p = Politeness::new();
    p.update(404, 500, Timestamp { millis: 1 });
    p.update(429, 500, Timestamp { millis: 1 });
    p.update(500, 500, Timestamp { millis: 1 });
    assert_eq!(p.not_before(), Timestamp { millis: 0 });
    assert_eq!(p.average(), 0);
}

#[test]
fn status_line_and_head() {
    let fr = fetch_result(b"hi".to_vec(), 0);
    assert_eq!(fr.status_line(), "HTTP/1.1 200 OK\r\n");
    assert_eq!(fr.http_head(), b"HTTP/1.1 200 OK\r\ncontent-type: text/html\r\nx-a: 1\r\n\r\n".to_vec());
    let mut other = fetch_result(Vec::new(), 0);
    other.status = 599;
    other.http_version = HttpVersion::H2;
    assert_eq!(other.status_line(), "HTTP/2.0 599 <unknown status code>\r\n");
    other.status = 404;
    assert_eq!(other.status_line(), "HTTP/2.0 404 Not Found\r\n");
}

#[test]
fn body_str_replaces_invalid_utf8() {
    let fr = fetch_result(vec![b'a', 0xff, b'b'], 0);
    assert_eq!(fr.body_str(), "a\u{FFFD}b");
}

#[test]
fn warc_record_layout() {
    let r = warc_record("urn:uuid:x", "https://ex.test/", "2024-06-01T12:34:56Z", b"HEAD\r\n\r\n", b"body");
    let expected = b"WARC/1.1\r\nWARC-Type: response\r\nContent-Type: application/http; msgtype=response\r\nWARC-Record-ID: urn:uuid:x\r\nWARC-Target-URI: https://ex.test/\r\nContent-Length: 12\r\nWARC-Date: 2024-06-01T12:34:56Z\r\n\r\nHEAD\r\n\r\nbody\r\n\r\n";
    assert_eq!(r, expected.to_vec());
}

#[test]
fn warc_content_length_frames_block() {
    let url = WebUrl::parse("https://ex.test/page").unwrap();
    let body: Vec<u8> = (0..5000u32).map(|i| (i % 251) as u8).collect();
    let fr = fetch_result(body.clone(), 1_717_245_296_000);
    let rec = build_record(&url, &fr).unwrap();
    let text_end = find(&rec, b"\r\n\r\n").unwrap() + 4;
    let header = std::str::from_utf8(&rec[..text_end]).unwrap();
    let len: usize = header
        .lines()
        .find_map(|l| l.strip_prefix("Content-Length: "))
        .unwrap()
        .parse()
        .unwrap();
    assert!(rec.ends_with(b"\r\n\r\n"));
    let block = &rec[text_end..rec.len() - 4];
    assert_eq!(block.len(), len);
    let mut expected = fr.http_head();
    expected.extend_from_slice(&body);
    assert_eq!(block, &expected[..]);
    assert!(header.contains("WARC-Target-URI: https://ex.test/page\r\n"));
    assert!(header.contains("WARC-Date: 2024-06-01T12:34:56Z\r\n"));
    let id_line = header.lines().find_map(|l| l.strip_prefix("WARC-Record-ID: ")).unwrap();
    assert!(id_line.starts_with("urn:uuid:"));
    assert_eq!(id_line.len(), 45);
}

#[test]
fn record_ids_differ() {
    let url = WebUrl::parse("https://ex.test/").unwrap();
    let fr = fetch_result(Vec::new(), 0);
    let a = build_record(&url, &fr).unwrap();
    let b = build_record(&url, &fr).unwrap();
    assert_ne!(a, b);
    assert!(std::str::from_utf8(&a).unwrap().contains("WARC-Date: 1970-01-01T00:00:00Z\r\n"));
}

#[test]
fn segment_names() {
    assert_eq!(segment_name(0), "archive_000.warc.gz");
    assert_eq!(segment_name(7), "archive_007.warc.gz");
    assert_eq!(segment_name(42), "archive_042.warc.gz");
    assert_eq!(segment_name(1234), "archive_1234.warc.gz");
}

#[test]
fn archive_rotates_after_one_mebibyte() {
    let mut a = ArchiveState::new();
    assert_eq!(a.open_segment(), Some("archive_000.warc.gz".to_string()));
    assert_eq!(a.open_segment(), None);
    assert!(!a.record_written(1024 * 1024));
    assert!(a.is_open());
    assert!(a.record_written(1));
    assert!(!a.is_open());
    assert_eq!(a.open_segment(), Some("archive_001.warc.gz".to_string()));
    assert!(a.close());
    assert!(!a.close());
}

#[test]
fn archive_rotation_over_ten_fetches() {
    let url = WebUrl::parse("https://ex.test/big").unwrap();
    let mut a = ArchiveState::new();
    let mut files: Vec<String> = Vec::new();
    let mut sizes_per_file: Vec<usize> = Vec::new();
    for k in 0..10u64 {
        if let Some(name) = a.open_segment() {
            files.push(name);
            sizes_per_file.push(0);
        }
        let fr = fetch_result(vec![b'x'; 200 * 1024], k * 1000);
        let rec = build_record(&url, &fr).unwrap();
        *sizes_per_file.last_mut().unwrap() += rec.len();
        let closed = a.record_written(rec.len());
        assert_eq!(closed, *sizes_per_file.last().unwrap() > 1024 * 1024);
    }
    assert!(files.len() >= 2);
    assert_eq!(files[0], "archive_000.warc.gz");
    assert_eq!(files[1], "archive_001.warc.gz");
}
