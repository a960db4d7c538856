use dnsd::doh::{
    alpn_action, content_length, content_type_is_dns_message, find_subsequence, is_query_path,
    min_ttl_from_response, parse_get_dns_param, parse_request_head, plan_body, plan_request,
    render_dns_response, render_simple, scan_head, validate_framing, AlpnAction, DohStep, FramingError,
    HeadError, HeadScan, HttpStatus, RequestHead,
};
use dnsd::name::Name;
use dnsd::net::IpAddr;
use dnsd::recursor::iterative::make_addr_record;
use dnsd::recursor::reply::{new_header, new_message, one_query};
use dnsd::wire::{CLASS_IN, OPCODE_QUERY, TYPE_A};

#[test]
fn parse_basic_get() {
    let raw = b"GET /dns-query?dns=abc HTTP/1.1\r\n\
                Host: dns.example.com\r\n\
                Accept: application/dns-message";
    let head = parse_request_head(raw).unwrap();
    assert_eq!(head.method, "GET");
    assert_eq!(head.path, "/dns-query?dns=abc");
    assert_eq!(head.headers.len(), 2);
    assert_eq!(head.headers[0].0, "host");
    assert_eq!(head.headers[0].1, "dns.example.com");
}

#[test]
fn parse_dns_param_finds_value() {
    // example.com A, base64url
    let path = "/dns-query?dns=q80BAAABAAAAAAAAB2V4YW1wbGUDY29tAAABAAE";
    let wire = parse_get_dns_param(path).expect("decoded");
    assert!(wire.len() >= 12, "DNS wire too short: {wire:?}");
    assert_eq!(wire[0], 0xab);
    assert_eq!(wire[1], 0xcd);
}

#[test]
fn parse_dns_param_missing_returns_none() {
    assert!(parse_get_dns_param("/dns-query").is_none());
    assert!(parse_get_dns_param("/dns-query?other=1").is_none());
}

#[test]
fn content_length_lookup() {
    let h = vec![("host".into(), "x".into()), ("content-length".into(), "42".into())];
    assert_eq!(content_length(&h), Some(42));
}

#[test]
fn rejects_http_1_0() {
    let raw = b"GET / HTTP/1.0\r\nHost: x";
    assert!(parse_request_head(raw).is_err());
}

#[test]
fn rejects_request_line_extra_tokens() {
    let raw = b"GET / HTTP/1.1 extra\r\nHost: x";
    assert!(parse_request_head(raw).is_err());
}

#[test]
fn rejects_double_space_in_request_line() {
    let raw = b"GET  / HTTP/1.1\r\nHost: x";
    assert!(parse_request_head(raw).is_err());
}

#[test]
fn rejects_obsolete_line_fold() {
    let raw = b"GET / HTTP/1.1\r\nX-Test: a\r\n  b";
    assert!(parse_request_head(raw).is_err());
}

#[test]
fn rejects_whitespace_before_colon() {
    let raw = b"GET / HTTP/1.1\r\nContent-Length : 5";
    assert!(parse_request_head(raw).is_err());
}

#[test]
fn rejects_nul_in_header_value() {
    let raw = b"GET / HTTP/1.1\r\nX-Test: a\x00b";
    assert!(parse_request_head(raw).is_err());
}

#[test]
fn rejects_invalid_method_token() {
    let raw = b"GE T / HTTP/1.1\r\nHost: x";
    assert!(parse_request_head(raw).is_err());
}

#[test]
fn validate_framing_rejects_transfer_encoding() {
    let h = vec![("host".into(), "x".into()), ("transfer-encoding".into(), "chunked".into())];
    assert!(validate_framing(&h).is_err());
    assert_eq!(validate_framing(&h), Err(FramingError::TransferEncoding));
}

#[test]
fn validate_framing_rejects_trailer() {
    let h = vec![("host".into(), "x".into()), ("trailer".into(), "x-checksum".into())];
    assert!(validate_framing(&h).is_err());
    assert_eq!(validate_framing(&h), Err(FramingError::Trailer));
}

#[test]
fn validate_framing_rejects_duplicate_content_length() {
    let h = vec![
        ("host".into(), "x".into()),
        ("content-length".into(), "5".into()),
        ("content-length".into(), "5".into()),
    ];
    assert!(validate_framing(&h).is_err());
    assert_eq!(validate_framing(&h), Err(FramingError::DuplicateContentLength));
}

#[test]
fn validate_framing_accepts_normal_headers() {
    let h = vec![
        ("host".into(), "dns.example.com".into()),
        ("content-length".into(), "42".into()),
        ("content-type".into(), "application/dns-message".into()),
    ];
    assert!(validate_framing(&h).is_ok());
}

#[test]
fn content_length_rejects_garbage() {
    let cases = ["", "+5", "-1", "5x", " 5", "5 ", "0x10", "FF"];
    for c in cases {
        let h = vec![("content-length".into(), c.to_string())];
        assert!(content_length(&h).is_none(), "should reject Content-Length={c:?}");
    }
}

#[test]
fn each_head_error_has_its_input() {
    let cases: Vec<(&[u8], HeadError)> = vec![
        (b"\xff\xfe", HeadError::NotUtf8),
        (b"GET", HeadError::MissingPath),
        (b"GET /", HeadError::MissingVersion),
        (b"GET / HTTP/1.1 x", HeadError::ExtraTokens),
        (b"GET / HTTP/2.0", HeadError::UnsupportedVersion),
        (b"G@T / HTTP/1.1", HeadError::InvalidMethod),
        (b"GET /\x01 HTTP/1.1", HeadError::InvalidPath),
        (b"GET / HTTP/1.1\r\n\r\nHost: x", HeadError::EmptyLine),
        (b"GET / HTTP/1.1\r\n\tb", HeadError::LineFolding),
        (b"GET / HTTP/1.1\r\nHost", HeadError::MissingColon),
        (b"GET / HTTP/1.1\r\nHo st: x", HeadError::InvalidHeaderName),
        (b"GET / HTTP/1.1\r\nHost: a\x00", HeadError::ControlInValue),
    ];
    for (raw, want) in cases {
        assert_eq!(parse_request_head(raw).unwrap_err(), want, "for {raw:?}");
    }
}

#[test]
fn methods_are_handed_back_in_upper_case() {
    let head = parse_request_head(b"get / HTTP/1.1\r\nHost: x").unwrap();
    assert_eq!(head.method, "GET");
    assert_eq!(head.path, "/");
    assert_eq!(head.headers, vec![("host".to_string(), "x".to_string())]);
    let head = parse_request_head(b"pOsT-1 / HTTP/1.1").unwrap();
    assert_eq!(head.method, "POST-1");
    let asked = parse_request_head(b"get /dns-query?dns=AAE HTTP/1.1").unwrap();
    assert!(matches!(plan_request(&asked, true, None), DohStep::Ask(q) if q == vec![0, 1]));
}

#[test]
fn header_values_are_trimmed_and_names_lowered() {
    let head = parse_request_head(b"POST / HTTP/1.1\r\nContent-TYPE: \t application/dns-message ")
        .unwrap();
    assert_eq!(head.headers[0].0, "content-type");
    assert_eq!(head.headers[0].1, "application/dns-message");
    assert!(content_type_is_dns_message(&head.headers));
}

#[test]
fn content_type_is_compared_exactly() {
    let h = vec![("content-type".into(), "application/dns-message".into())];
    assert!(content_type_is_dns_message(&h));
    let h = vec![("content-type".into(), "application/dns-message; charset=x".into())];
    assert!(!content_type_is_dns_message(&h));
    let h = vec![("content-type".into(), "text/plain".into())];
    assert!(!content_type_is_dns_message(&h));
    assert!(!content_type_is_dns_message(&vec![]));
}

#[test]
fn head_end_is_found() {
    assert_eq!(find_subsequence(b"ab\r\n\r\ncd", b"\r\n\r\n"), Some(2));
    assert_eq!(find_subsequence(b"abcd", b"\r\n\r\n"), None);
    assert_eq!(scan_head(b"GET / HTTP/1.1\r\n\r\nrest"), HeadScan::Complete(18));
    assert_eq!(scan_head(b"GET / HTTP/1.1\r\n"), HeadScan::More);
    assert_eq!(scan_head(&vec![b'a'; 9000]), HeadScan::TooLong);
}

#[test]
fn token_is_required_in_the_path() {
    assert!(is_query_path("/dns-query", None));
    assert!(is_query_path("/dns-query?dns=AA", None));
    assert!(!is_query_path("/dns-query/secret", None));
    assert!(is_query_path("/dns-query/secret", Some("secret")));
    assert!(is_query_path("/dns-query/secret?dns=AA", Some("secret")));
    assert!(!is_query_path("/dns-query", Some("secret")));
    assert!(!is_query_path("/dns-query/other", Some("secret")));
}

fn head(method: &str, path: &str, headers: Vec<(&str, &str)>) -> RequestHead {
    RequestHead {
        method: method.to_string(),
        path: path.to_string(),
        headers: headers.iter().map(|(a, b)| (a.to_string(), b.to_string())).collect(),
    }
}

#[test]
fn requests_are_planned() {
    let get = head("GET", "/dns-query?dns=AAE", vec![]);
    assert!(matches!(plan_request(&get, true, None), DohStep::Ask(q) if q == vec![0, 1]));
    assert!(matches!(plan_request(&get, false, None), DohStep::Respond(HttpStatus::Forbidden)));
    let bad = head("GET", "/dns-query?dns=***", vec![]);
    assert!(matches!(plan_request(&bad, true, None), DohStep::Respond(HttpStatus::BadParameter)));
    let lost = head("GET", "/other?dns=AAE", vec![]);
    assert!(matches!(plan_request(&lost, true, None), DohStep::Respond(HttpStatus::NotFound)));
    let put = head("PUT", "/dns-query", vec![]);
    assert!(matches!(plan_request(&put, true, None), DohStep::Respond(HttpStatus::MethodNotAllowed)));
    let post = head("POST", "/dns-query", vec![
        ("content-type", "application/dns-message"),
        ("content-length", "3"),
    ]);
    assert!(matches!(plan_request(&post, true, None), DohStep::ReadBody(3)));
    assert!(matches!(plan_body(&post, None, vec![1, 2, 3]), DohStep::Ask(q) if q == vec![1, 2, 3]));
    let text = head("POST", "/dns-query", vec![("content-length", "3")]);
    assert!(matches!(
        plan_request(&text, true, None),
        DohStep::Respond(HttpStatus::UnsupportedMediaType)
    ));
    let huge = head("POST", "/dns-query", vec![
        ("content-type", "application/dns-message"),
        ("content-length", "65536"),
    ]);
    assert!(matches!(plan_request(&huge, true, None), DohStep::Respond(HttpStatus::PayloadTooLarge)));
}

#[test]
fn responses_carry_length_and_age() {
    let r = String::from_utf8(render_dns_response(b"abc", 60)).unwrap();
    assert!(r.starts_with("HTTP/1.1 200 OK\r\n"), "{r}");
    assert!(r.to_lowercase().contains("content-length: 3\r\n"), "{r}");
    assert!(r.to_lowercase().contains("cache-control: max-age=60\r\n"), "{r}");
    assert!(r.ends_with("\r\n\r\nabc"), "{r}");
    let f = String::from_utf8(render_simple(HttpStatus::Forbidden)).unwrap();
    assert!(f.starts_with("HTTP/1.1 403 "), "{f}");
    let n = String::from_utf8(render_simple(HttpStatus::NotFound)).unwrap();
    assert!(n.starts_with("HTTP/1.1 404 "), "{n}");
}

#[test]
fn age_is_the_least_answer_ttl() {
    let name = Name::from_ascii("example.com.").unwrap().0;
    let mut m = new_message(new_header(1, true, OPCODE_QUERY), one_query(&name, TYPE_A, CLASS_IN));
    assert_eq!(min_ttl_from_response(&m.to_bytes().unwrap()), None);
    m.answers.push(make_addr_record(&name, 300, IpAddr::V4(1)));
    m.answers.push(make_addr_record(&name, 120, IpAddr::V4(2)));
    assert_eq!(min_ttl_from_response(&m.to_bytes().unwrap()), Some(120));
    assert_eq!(min_ttl_from_response(b"junk"), None);
}

#[test]
fn only_http_1_1_is_served() {
    assert_eq!(alpn_action(Some("http/1.1")), AlpnAction::Serve);
    assert_eq!(alpn_action(None), AlpnAction::Serve);
    assert_eq!(alpn_action(Some("h2")), AlpnAction::Close);
}
