use cameo_core::http::{
    field_route, parse_incoming, percent_decode, reason_phrase, safe_header_name,
    safe_header_value, write_response, FieldRoute, ParseError, Parsed, Request, Response,
    MAX_HEAD, MAX_REQUEST_BODY_BYTES,
};
use cameo_core::conn::{ConnectionGate, MAX_CONNECTIONS, MAX_CONNECTIONS_PER_PEER};
use cameo_core::http::{field_request_head, parse_head};
use cameo_core::proxy::{dechunk, parse_backend_response, MAX_RESPONSE_HEADERS};

type Plain = fn(&mut Vec<u8>) -> Result<(), ()>;

fn parse(raw: &str) -> Result<Request, ParseError> {
    match parse_incoming(raw.as_bytes(), false)? {
        Parsed::Request(request) => Ok(request),
        _ => Err(ParseError::Malformed),
    }
}

fn query<'a>(req: &'a Request, key: &str) -> Option<&'a str> {
    req.query
        .iter()
        .rev()
        .find(|(k, _)| k == key)
        .map(|(_, v)| v.as_str())
}

#[test]
fn parses_get_with_query() {
    let req = parse("GET /api/models?spec=tinyllama&x=1 HTTP/1.1\r\nHost: x\r\n\r\n").unwrap();
    assert_eq!(req.method, "GET");
    assert_eq!(req.path, "/api/models");
    assert_eq!(query(&req, "spec"), Some("tinyllama"));
    assert_eq!(req.header("host"), Some("x"));
    assert!(req.body.is_empty());
}

#[test]
fn parses_post_body_by_content_length() {
    let body = r#"{"model":"a"}"#;
    let raw = format!(
        "POST /api/servers HTTP/1.1\r\nHost: x\r\nContent-Length: {}\r\n\r\n{}",
        body.len(),
        body
    );
    let req = parse(&raw).unwrap();
    assert_eq!(req.method, "POST");
    assert_eq!(req.body, body.as_bytes());
}

#[test]
fn segments_ignore_empty() {
    let req = parse("DELETE /api/servers/abc123/ HTTP/1.1\r\nHost: x\r\n\r\n").unwrap();
    assert_eq!(req.segments(), vec!["api", "servers", "abc123"]);
}

#[test]
fn oversized_head_is_rejected() {
    let raw = format!(
        "GET / HTTP/1.1\r\nX-Junk: {}\r\n\r\n",
        "a".repeat(MAX_HEAD as usize)
    );
    assert!(matches!(parse(&raw), Err(ParseError::TooLarge)));
}

#[test]
fn truncated_head_is_malformed_not_served() {
    assert!(matches!(
        parse("GET / HTTP/1.1\r\nHost: x\r\n"),
        Err(ParseError::Malformed)
    ));
}

#[test]
fn oversized_body_is_rejected() {
    let raw = format!(
        "POST / HTTP/1.1\r\nHost: x\r\nContent-Length: {}\r\n\r\n",
        MAX_REQUEST_BODY_BYTES + 1
    );
    assert!(matches!(parse(&raw), Err(ParseError::TooLarge)));
}

#[test]
fn empty_connection_is_distinguished_from_malformed() {
    assert!(matches!(parse(""), Err(ParseError::Empty)));
    assert!(matches!(parse("GARBAGE\r\n\r\n"), Err(ParseError::Malformed)));
}

#[test]
fn percent_and_plus_decode() {
    assert_eq!(percent_decode("a%2Fb+c", true).unwrap(), "a/b c");
    assert_eq!(percent_decode("a%2Fb+c", false).unwrap(), "a/b+c");
    assert_eq!(percent_decode("plain", true).unwrap(), "plain");
    assert!(matches!(
        percent_decode("100%done", true),
        Err(ParseError::Malformed)
    ));
}

#[test]
fn rejects_ambiguous_or_malformed_framing() {
    for raw in [
        "POST /api HTTP/1.1\r\nHost: x\r\nContent-Length: 0\r\nContent-Length: 1\r\n\r\nX",
        "POST /api HTTP/1.1\r\nHost: x\r\nTransfer-Encoding: chunked\r\n\r\n0\r\n\r\n",
        "GET / HTTP/1.1\r\nHost x\r\n\r\n",
        "GET / HTTP/2\r\nHost: x\r\n\r\n",
        "GET http://example.com/ HTTP/1.1\r\nHost: x\r\n\r\n",
        "GET /bad%zz HTTP/1.1\r\nHost: x\r\n\r\n",
        "GET /?key=bad%0dvalue HTTP/1.1\r\nHost: x\r\n\r\n",
        "GET / HTTP/1.1\r\n\r\n",
    ] {
        assert!(
            matches!(parse(raw), Err(ParseError::Malformed)),
            "accepted {raw:?}"
        );
    }
}

#[test]
fn response_headers_cannot_inject_lines() {
    assert_eq!(safe_header_value("application/json"), Some("application/json"));
    assert_eq!(safe_header_value("ok\r\nX-Evil: yes"), None);
    assert_eq!(safe_header_name("X-Test"), Some("X-Test"));
    assert_eq!(safe_header_name("X-Test\r\n"), None);
}

#[test]
fn response_framing_has_length_and_close() {
    let mut out = Vec::new();
    write_response::<(), Plain>(&mut out, Response::text(404, "nope")).unwrap();
    let s = String::from_utf8(out).unwrap();
    assert!(s.starts_with("HTTP/1.1 404 Not Found\r\n"));
    assert!(s.contains("Content-Length: 4\r\n"));
    assert!(s.contains("Connection: close\r\n"));
    assert!(s.ends_with("\r\n\r\nnope"));
}

#[test]
fn streaming_response_owns_the_socket() {
    let mut out = Vec::new();
    let resp = Response::streaming(|w: &mut Vec<u8>| -> Result<(), ()> {
        w.extend_from_slice(b"HTTP/1.1 200 OK\r\n\r\ndata: one\n\n");
        w.extend_from_slice(b"data: two\n\n");
        Ok(())
    });
    write_response(&mut out, resp).unwrap();
    let s = String::from_utf8(out).unwrap();
    assert_eq!(s, "HTTP/1.1 200 OK\r\n\r\ndata: one\n\ndata: two\n\n");
    assert!(!s.contains("Content-Length"));
}

#[test]
fn field_route_strips_exactly_the_prefix() {
    assert_eq!(field_route("/field/"), Some(FieldRoute::Forward("/".into())));
    assert_eq!(
        field_route("/field/api/state?x=1"),
        Some(FieldRoute::Forward("/api/state?x=1".into()))
    );
    assert_eq!(field_route("/field/ws"), Some(FieldRoute::Forward("/ws".into())));
    assert_eq!(field_route("/field"), Some(FieldRoute::Redirect("/field/".into())));
    assert_eq!(
        field_route("/field?tab=log"),
        Some(FieldRoute::Redirect("/field/?tab=log".into()))
    );
    assert_eq!(field_route("/fieldnotes"), None);
    assert_eq!(field_route("/api/field/"), None);
    assert_eq!(field_route("/"), None);
}

#[test]
fn field_routes_are_only_recognised_when_the_proxy_is_on() {
    let raw = "PUT /field/api/state HTTP/1.1\r\nHost: console:9090\r\n\r\n";
    match parse_incoming(raw.as_bytes(), true).unwrap() {
        Parsed::Field { head, target, consumed } => {
            assert_eq!(target, "/api/state");
            assert_eq!(head.method, "PUT");
            assert_eq!(consumed, raw.len());
        }
        _ => panic!("expected a field route"),
    }
    assert!(matches!(
        parse_incoming(raw.as_bytes(), false),
        Err(ParseError::Malformed)
    ));
    let raw = "GET /field HTTP/1.1\r\nHost: console:9090\r\n\r\n";
    assert!(matches!(
        parse_incoming(raw.as_bytes(), true).unwrap(),
        Parsed::FieldRedirect(location) if location == "/field/"
    ));
    assert!(matches!(
        parse_incoming(raw.as_bytes(), false).unwrap(),
        Parsed::Request(req) if req.path == "/field"
    ));
}

#[test]
fn response_builders_set_status_type_and_headers() {
    let r = Response::<Plain>::redirect("/field/").no_store();
    assert_eq!(r.status, 307);
    assert!(r.extra_headers.iter().any(|(k, v)| k == "Location" && v == "/field/"));
    assert!(r.extra_headers.iter().any(|(k, v)| k == "Cache-Control" && v == "no-store"));
    let h = Response::<Plain>::html(b"<p>".to_vec());
    assert_eq!(h.status, 200);
    assert!(h.content_type.starts_with("text/html"));
    assert_eq!(reason_phrase(429), "Too Many Requests");
    let bad = Response::<Plain>::text(200, "x")
        .with_header("X-Evil\r\nSet-Cookie", "y")
        .with_header("X-Ok", "fine");
    let mut out = Vec::new();
    write_response(&mut out, bad).unwrap();
    let s = String::from_utf8(out).unwrap();
    assert!(!s.contains("X-Evil"));
    assert!(s.contains("X-Ok: fine\r\n"));
}

#[test]
fn parses_a_content_length_response() {
    let raw = b"HTTP/1.1 200 OK\r\nContent-Type: application/json\r\nContent-Length: 13\r\n\r\n{\"ok\":true}\r\n";
    let r = parse_backend_response(raw).unwrap();
    assert_eq!(r.status, 200);
    assert_eq!(r.content_type, "application/json");
    assert!(String::from_utf8_lossy(&r.body).contains("\"ok\":true"));
}

#[test]
fn decodes_a_chunked_response() {
    let raw =
        b"HTTP/1.1 200 OK\r\nTransfer-Encoding: chunked\r\n\r\n5\r\nhello\r\n6\r\n world\r\n0\r\n\r\n";
    let r = parse_backend_response(raw).unwrap();
    assert_eq!(r.status, 200);
    assert_eq!(String::from_utf8_lossy(&r.body), "hello world");
}

#[test]
fn missing_status_line_is_a_bad_gateway() {
    assert!(parse_backend_response(b"garbage with no status").is_err());
}

#[test]
fn rejects_incomplete_or_ambiguous_framing() {
    for raw in [
        "HTTP/1.1 200 OK\r\nContent-Length: 5\r\n\r\nhi",
        "HTTP/1.1 200 OK\r\nContent-Length: 1\r\n\r\nhi",
        "HTTP/1.1 200 OK\r\nContent-Length: 2\r\nContent-Length: 2\r\n\r\nhi",
        "HTTP/1.1 200 OK\r\nTransfer-Encoding: chunked\r\nContent-Length: 0\r\n\r\n0\r\n\r\n",
        "HTTP/1.1 200 OK\r\nTransfer-Encoding: notchunked\r\n\r\nhi",
        "BOGUS 200 OK\r\n\r\nhi",
    ] {
        assert!(parse_backend_response(raw.as_bytes()).is_err(), "{raw:?}");
    }
    for body in [
        "2\r\nhi\r\n",
        "2\r\nh",
        "2\r\nhiXX0\r\n\r\n",
        "nope\r\n",
        "0\r\n",
        "0\r\n\r\nextra",
    ] {
        assert!(dechunk(body.as_bytes()).is_err(), "{body:?}");
    }
    assert_eq!(
        dechunk(b"2;ext=1\r\nhi\r\n0\r\nX-Test: yes\r\n\r\n").unwrap(),
        b"hi"
    );
}

#[test]
fn rejects_oversized_headers() {
    let raw = format!(
        "HTTP/1.1 200 OK\r\nX-Padding: {}\r\n\r\n",
        "x".repeat(MAX_RESPONSE_HEADERS)
    );
    assert!(parse_backend_response(raw.as_bytes()).is_err());
}

#[test]
fn close_delimited_bodies_keep_their_bytes_and_default_type() {
    let r = parse_backend_response(b"HTTP/1.0 503 Service Unavailable\r\n\r\nbusy").unwrap();
    assert_eq!(r.status, 503);
    assert_eq!(r.content_type, "application/json");
    assert_eq!(r.body, b"busy");
    assert!(parse_backend_response(b"HTTP/1.1 99 Odd\r\n\r\n").is_err());
}

#[test]
fn one_peer_cannot_take_the_whole_listener() {
    let mut gate = ConnectionGate::new();
    let mut held = Vec::new();
    for _ in 0..MAX_CONNECTIONS_PER_PEER {
        held.push(gate.accept(Some("10.0.0.8"), false).unwrap());
    }
    assert!(gate.accept(Some("10.0.0.8"), false).is_none(), "per-peer cap");
    assert!(
        gate.accept(Some("10.0.0.9"), false).is_some(),
        "others still admitted"
    );
    assert!(gate.accept(Some("127.0.0.1"), true).is_some(), "loopback exempt");
    for slot in held {
        gate.release(slot);
    }
    assert!(gate.accept(Some("10.0.0.8"), false).is_some(), "released on drop");
}

#[test]
fn the_listener_has_a_global_ceiling_and_release_reopens_it() {
    let mut gate = ConnectionGate::new();
    let mut held = Vec::new();
    for i in 0..MAX_CONNECTIONS {
        let peer = format!("10.0.1.{}", i);
        held.push(gate.accept(Some(&peer), false).unwrap());
    }
    assert!(gate.accept(Some("10.0.2.1"), false).is_none());
    assert!(gate.accept(Some("127.0.0.1"), true).is_none());
    assert!(gate.accept(None, false).is_none());
    gate.release(held.pop().unwrap());
    assert!(gate.accept(None, false).is_some());
}

fn head_of(raw: &str) -> cameo_core::http::Head {
    parse_head(raw.as_bytes()).unwrap().0
}

#[test]
fn field_head_rewrites_host_and_adds_forwarding_headers() {
    let parsed = head_of(
        "POST /field/api/missions?x=1 HTTP/1.1\r\nHost: console.lan:8443\r\nContent-Length: 2\r\nCookie: field=abc\r\nX-Forwarded-For: 1.2.3.4\r\nConnection: keep-alive\r\n\r\n{}",
    );
    let out = field_request_head(&parsed, "/api/missions?x=1", "127.0.0.1:7749", true, Some("10.0.0.8"));
    assert!(out.starts_with("POST /api/missions?x=1 HTTP/1.1\r\n"), "{out}");
    assert!(out.contains("\r\nhost: 127.0.0.1:7749\r\n"), "{out}");
    assert!(out.contains("\r\nx-forwarded-host: console.lan:8443\r\n"), "{out}");
    assert!(out.contains("\r\nx-forwarded-proto: https\r\n"), "{out}");
    assert!(out.contains("\r\nx-forwarded-for: 10.0.0.8\r\n"), "{out}");
    assert!(!out.contains("1.2.3.4"), "{out}");
    assert!(out.contains("\r\ncookie: field=abc\r\n"), "{out}");
    assert!(out.contains("\r\ncontent-length: 2\r\n"), "{out}");
    assert!(out.contains("\r\nconnection: close\r\n"), "{out}");
    assert!(!out.contains("keep-alive"), "{out}");
    assert!(out.ends_with("\r\n\r\n"), "{out}");
    assert_eq!(out.matches("\r\n\r\n").count(), 1, "{out}");
}

#[test]
fn field_head_keeps_upgrade_and_reports_plain_http() {
    let parsed = head_of(
        "GET /field/ws HTTP/1.1\r\nHost: console:9090\r\nConnection: keep-alive, Upgrade\r\nUpgrade: websocket\r\nSec-WebSocket-Key: abc\r\n\r\n",
    );
    let out = field_request_head(&parsed, "/ws", "127.0.0.1:7749", false, None);
    assert!(out.starts_with("GET /ws HTTP/1.1\r\n"), "{out}");
    assert!(out.contains("\r\nconnection: keep-alive, Upgrade\r\n"), "{out}");
    assert!(out.contains("\r\nupgrade: websocket\r\n"), "{out}");
    assert!(out.contains("\r\nsec-websocket-key: abc\r\n"), "{out}");
    assert!(out.contains("\r\nx-forwarded-proto: http\r\n"), "{out}");
    assert!(!out.contains("x-forwarded-for"), "{out}");
}
