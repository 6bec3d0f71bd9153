use glote::{
    content_length_of, parse_path_params, parse_query, parse_raw_request, Request,
};

fn lines(v: &[&str]) -> Vec<String> {
    v.iter().map(|s| s.to_string()).collect()
}

#[test]
fn path_params_two_bindings() {
    let m = parse_path_params("/users/:id/posts/:postId", "/users/42/posts/7").unwrap();
    assert_eq!(m.get("id").unwrap(), "42");
    assert_eq!(m.get("postId").unwrap(), "7");
    assert_eq!(m.len(), 2);
}

#[test]
fn path_params_segment_count_mismatch() {
    assert!(parse_path_params("/a/:x", "/a").is_none());
    assert!(parse_path_params("/a", "/a/b").is_none());
}

#[test]
fn path_params_literal_mismatch() {
    assert!(parse_path_params("/a/b", "/a/c").is_none());
    assert!(parse_path_params("/a/b", "/A/b").is_none());
}

#[test]
fn path_params_exact_literal_match_is_empty() {
    let m = parse_path_params("/health", "/health").unwrap();
    assert_eq!(m.len(), 0);
}

#[test]
fn path_params_ignores_surrounding_slashes() {
    let m = parse_path_params("/a/:x/", "a/7").unwrap();
    assert_eq!(m.get("x").unwrap(), "7");
    assert!(parse_path_params("/", "").is_some());
}

#[test]
fn path_params_last_binding_wins() {
    let m = parse_path_params("/:x/:x", "/1/2").unwrap();
    assert_eq!(m.get("x").unwrap(), "2");
    assert_eq!(m.len(), 1);
}

#[test]
fn query_pairs_parse_and_overwrite() {
    let q = parse_query("a=1&b=2&a=3");
    assert_eq!(q.get("a").unwrap(), "3");
    assert_eq!(q.get("b").unwrap(), "2");
    assert_eq!(q.len(), 2);
}

#[test]
fn query_pair_without_value_is_dropped() {
    let q = parse_query("flag&x=9");
    assert!(q.get("flag").is_none());
    assert_eq!(q.get("x").unwrap(), "9");
    assert_eq!(q.len(), 1);
}

#[test]
fn query_value_may_hold_equals_sign() {
    let q = parse_query("expr=a=b");
    assert_eq!(q.get("expr").unwrap(), "a=b");
}

#[test]
fn request_new_splits_target_and_folds_headers() {
    let req = Request::new(&lines(&[
        "GET /hello/world?q=1 HTTP/1.1",
        "HoSt: x",
        "X-Thing: Value Kept",
    ]));
    assert_eq!(req.method, "GET");
    assert_eq!(req.path, "/hello/world");
    assert_eq!(req.query("q").unwrap(), "1");
    assert_eq!(req.headers.get("host").unwrap(), "x");
    assert_eq!(req.headers.get("x-thing").unwrap(), "Value Kept");
    assert!(req.body.is_none());
    assert_eq!(req.params("q"), None);
}

#[test]
fn request_new_joins_body_lines() {
    let req = Request::new(&lines(&["POST /echo HTTP/1.1", "host: x", "", "first", "second"]));
    assert_eq!(req.body.as_deref(), Some("first\nsecond"));
    assert_eq!(req.headers.get("host").unwrap(), "x");
}

#[test]
fn request_new_duplicate_header_keeps_last() {
    let req = Request::new(&lines(&["GET / HTTP/1.1", "k: a", "K: b"]));
    assert_eq!(req.headers.get("k").unwrap(), "b");
}

#[test]
fn raw_request_parses_line_query_and_header() {
    let raw = b"GET /hello/world?q=1\r\nhost: x\r\n\r\n";
    let req = parse_raw_request(raw).unwrap();
    assert_eq!(req.method, "GET");
    assert_eq!(req.path, "/hello/world");
    assert_eq!(req.query("q").unwrap(), "1");
    assert_eq!(req.headers.get("host").unwrap(), "x");
    assert!(req.body.is_none());
}

#[test]
fn raw_request_reads_body_of_declared_length() {
    let raw = b"POST /up HTTP/1.1\r\ncontent-length: 5\r\n\r\nhello";
    let req = parse_raw_request(raw).unwrap();
    assert_eq!(req.body.as_deref(), Some("hello"));
}

#[test]
fn raw_request_zero_or_absent_length_means_no_body() {
    let with_zero = parse_raw_request(b"POST /up HTTP/1.1\r\ncontent-length: 0\r\n\r\n").unwrap();
    assert!(with_zero.body.is_none());
    let absent = parse_raw_request(b"POST /up HTTP/1.1\r\nhost: x\r\n\r\nignored").unwrap();
    assert!(absent.body.is_none());
}

#[test]
fn raw_request_reads_exactly_declared_bytes() {
    let raw = b"POST /up HTTP/1.1\r\ncontent-length: 5\r\n\r\nhelloEXTRA";
    let req = parse_raw_request(raw).unwrap();
    assert_eq!(req.body.as_deref(), Some("hello"));
}

#[test]
fn raw_request_short_body_is_dropped() {
    assert!(parse_raw_request(b"POST /up HTTP/1.1\r\ncontent-length: 5\r\n\r\nhel").is_none());
}

#[test]
fn raw_request_without_any_header_line_is_no_request() {
    assert!(parse_raw_request(b"").is_none());
    assert!(parse_raw_request(b"\r\n").is_none());
}

#[test]
fn raw_request_malformed_request_line_is_dropped() {
    assert!(parse_raw_request(b"GET\r\nhost: x\r\n\r\n").is_none());
}

#[test]
fn raw_request_lf_only_lines_are_accepted() {
    let req = parse_raw_request(b"GET /a HTTP/1.1\nhost: y\n\n").unwrap();
    assert_eq!(req.path, "/a");
    assert_eq!(req.headers.get("host").unwrap(), "y");
}

#[test]
fn raw_request_invalid_utf8_body_is_replaced() {
    let raw = b"POST /b HTTP/1.1\r\ncontent-length: 1\r\n\r\n\xff";
    let req = parse_raw_request(raw).unwrap();
    assert_eq!(req.body.as_deref(), Some("\u{FFFD}"));
}

#[test]
fn content_length_header_is_found_case_insensitively() {
    let hdrs = vec!["POST /x HTTP/1.1".to_string(), "Content-Length: 12".to_string()];
    assert_eq!(content_length_of(&hdrs), Some(12));
    let none = vec!["POST /x HTTP/1.1".to_string(), "host: y".to_string()];
    assert_eq!(content_length_of(&none), None);
    let bad = vec!["content-length: many".to_string()];
    assert_eq!(content_length_of(&bad), None);
    let plus = vec!["content-length: +7".to_string()];
    assert_eq!(content_length_of(&plus), Some(7));
}

#[test]
fn header_line_without_colon_space_is_ignored() {
    let req = Request::new(&lines(&["GET / HTTP/1.1", "host:x", "good: yes"]));
    assert!(req.headers.get("host").is_none());
    assert_eq!(req.headers.get("good").unwrap(), "yes");
}

#[test]
fn query_empty_key_is_kept() {
    let q = parse_query("=5");
    assert_eq!(q.get("").unwrap(), "5");
}

#[test]
fn request_line_tolerates_extra_spaces() {
    let req = Request::new(&lines(&["GET  /a  HTTP/1.1"]));
    assert_eq!(req.method, "GET");
    assert_eq!(req.path, "/a");
}
