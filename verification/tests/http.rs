//! Requests, responses and chunked bodies.

use ocs_pi::http::{
    chunks_fit, clean_endpoint, connect_error, dechunk, encode_query, events_request, host_port,
    parse_response, request_text, response_fits, Request,
};
use ocs_pi::lang::Lang;

#[test]
fn dechunk_strips_chunk_framing_and_trailers() {
    let payload = r#"{"sessions":[{"id":"abc"}]}"#;
    let chunked = format!("{:x}\r\n{}\r\n0\r\nX-Trailer: 1\r\n\r\n", payload.len(), payload);
    assert!(chunks_fit(&chunked));
    assert_eq!(dechunk(&chunked), payload);
    // Multi-chunk body: split the payload into two chunks.
    let (a, b) = payload.split_at(10);
    let chunked = format!(
        "{:x}\r\n{}\r\n{:x}\r\n{}\r\n0\r\n\r\n",
        a.len(),
        a,
        b.len(),
        b
    );
    assert!(chunks_fit(&chunked));
    assert_eq!(dechunk(&chunked), payload);
}

#[test]
fn dechunk_handles_chunk_extensions_and_split_crlf() {
    let payload = "hello";
    let chunked = format!("{:x};ext=1\r\n{}\r\n0\r\n\r\n", payload.len(), payload);
    assert!(chunks_fit(&chunked));
    assert_eq!(dechunk(&chunked), payload);
}

#[test]
fn dechunk_of_cut_or_strange_bodies() {
    for (body, want) in [
        ("", ""),
        // No line end: nothing.
        ("5", ""),
        // Cut short: what is there.
        ("a\r\nabc", "abc"),
        // Not hexadecimal: the end.
        ("zz\r\nabc", ""),
        // Upper case, spaces around the size, no blank line behind the data.
        (" 3 \r\nabc2\r\nde\r\n0\r\n", "abcde"),
        ("3\nabc\n", "abc"),
        // Sizes count bytes: one of these characters takes three.
        ("6\r\n你好\r\n0\r\n\r\n", "你好"),
        ("+3\r\nabc\r\n0\r\n", "abc"),
    ] {
        assert!(chunks_fit(body), "{body:?}");
        assert_eq!(dechunk(body), want, "{body:?}");
    }
    // A size that ends inside a character cannot be taken out.
    assert!(!chunks_fit("4\r\n你好\r\n0\r\n\r\n"));
}

#[test]
fn requests_name_host_and_length() {
    let get = Request { method: "GET".into(), path: "/api/sessions".into(), body: None };
    assert_eq!(
        request_text(&get, "127.0.0.1:30141"),
        "GET /api/sessions HTTP/1.1\r\nHost: 127.0.0.1:30141\r\nAccept: application/json\r\nContent-Type: application/json\r\nContent-Length: 0\r\nConnection: close\r\n\r\n"
    );
    let post = Request { method: "POST".into(), path: "/p".into(), body: Some("你".into()) };
    assert_eq!(
        request_text(&post, "h"),
        "POST /p HTTP/1.1\r\nHost: h\r\nAccept: application/json\r\nContent-Type: application/json\r\nContent-Length: 3\r\nConnection: close\r\n\r\n你"
    );
    assert_eq!(
        events_request("s1", "h:1"),
        "GET /api/agent/s1/events HTTP/1.1\r\nHost: h:1\r\nAccept: text/event-stream\r\nConnection: keep-alive\r\n\r\n"
    );
}

#[test]
fn endpoints_lose_scheme_and_slashes() {
    assert_eq!(clean_endpoint(" http://h:1// "), "http://h:1");
    assert_eq!(host_port("http://h:1/"), "h:1");
    assert_eq!(host_port("h:1"), "h:1");
    assert_eq!(
        connect_error(Lang::En, "h:1", "refused"),
        "connection to h:1 failed: refused"
    );
    assert_eq!(connect_error(Lang::Zh, "h:1", "拒绝"), "连接 h:1 失败：拒绝");
}

#[test]
fn responses_split_into_status_and_body() {
    let plain = "HTTP/1.1 200 OK\r\nContent-Type: x\r\n\r\nbody\r\n\r\nmore";
    assert!(response_fits(plain));
    let r = parse_response(plain);
    assert_eq!((r.status, r.body.as_str()), (200, "body\r\n\r\nmore"));

    let chunked =
        "HTTP/1.1 404 Not Found\r\nTRANSFER-Encoding: Chunked\r\n\r\n2\r\nhi\r\n0\r\n\r\n";
    assert!(response_fits(chunked));
    let r = parse_response(chunked);
    assert_eq!((r.status, r.body.as_str()), (404, "hi"));

    for (text, status) in [("", 0), ("junk", 0), ("HTTP/1.1 99999 x", 0), ("x +7", 7)] {
        assert!(response_fits(text));
        let r = parse_response(text);
        assert_eq!((r.status, r.body.as_str()), (status, ""), "{text:?}");
    }
    assert!(!response_fits("HTTP/1.1 200\r\nTransfer-Encoding: chunked\r\n\r\n1\r\n你\r\n0\r\n"));
}

#[test]
fn queries_are_percent_encoded() {
    assert_eq!(encode_query("/home/u/a-b_c.~9"), "/home/u/a-b_c.~9");
    assert_eq!(encode_query("a b#?%"), "a%20b%23%3F%25");
    assert_eq!(encode_query("你"), "%E4%BD%A0");
}

#[test]
fn encoded_queries_hold_only_plain_characters() {
    let encoded = encode_query("空 格&=\"\n");
    assert!(encoded
        .chars()
        .all(|c| c.is_ascii_alphanumeric() || "-_.~/%".contains(c)));
}
