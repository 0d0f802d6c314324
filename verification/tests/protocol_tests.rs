//! Tests of the request parser and the response codec.

use blink_store::{parse_request, parse_response, Command, Response};

#[test]
fn parse_get() {
    let (cmd, key, _) = parse_request(b"GET foo").unwrap();
    assert_eq!(cmd, Command::Get);
    assert_eq!(key, b"foo");
}

#[test]
fn parse_set() {
    let (cmd, key, value) = parse_request(b"SET k v with spaces").unwrap();
    assert_eq!(cmd, Command::Put);
    assert_eq!(key, b"k");
    assert_eq!(value, b"v with spaces");
}

#[test]
fn parse_set_key_only() {
    let (cmd, key, value) = parse_request(b"SET k").unwrap();
    assert_eq!(cmd, Command::Put);
    assert_eq!(key, b"k");
    assert!(value.is_empty());
}

#[test]
fn parse_usage_quit() {
    let (cmd, _, _) = parse_request(b"USAGE").unwrap();
    assert_eq!(cmd, Command::Usage);
    let (cmd, _, _) = parse_request(b"QUIT").unwrap();
    assert_eq!(cmd, Command::Quit);
}

#[test]
fn parse_case_insensitive() {
    let (cmd, key, _) = parse_request(b"get FOO").unwrap();
    assert_eq!(cmd, Command::Get);
    assert_eq!(key, b"FOO");
}

#[test]
fn parse_delete() {
    let (cmd, key, _) = parse_request(b"DELETE foo").unwrap();
    assert_eq!(cmd, Command::Delete);
    assert_eq!(key, b"foo");
}

#[test]
fn parse_unknown_and_empty() {
    assert!(parse_request(b"FOO bar").is_none());
    assert!(parse_request(b"").is_none());
    assert!(parse_request(b"   \t  ").is_none());
}

#[test]
fn parse_trims_whitespace() {
    let (cmd, key, _) = parse_request(b"  GET   foo  \n").unwrap();
    assert_eq!(cmd, Command::Get);
    assert_eq!(key, b"foo");
}

#[test]
fn write_ok_line() {
    let mut out = Vec::new();
    Response::Okay.write(&mut out);
    assert_eq!(out, b"OK\n");
}

#[test]
fn write_not_found_line() {
    let mut out = Vec::new();
    Response::NotFound.write(&mut out);
    assert_eq!(out, b"NOT_FOUND\n");
}

#[test]
fn write_value_line_base64() {
    let mut out = Vec::new();
    Response::Value(b"hello".to_vec()).write(&mut out);
    assert_eq!(out, b"VALUE aGVsbG8=\n");
}

#[test]
fn write_usage_line() {
    let mut out = Vec::new();
    Response::Usage(12345).write(&mut out);
    assert_eq!(out, b"USAGE 12345\n");
    let mut out = Vec::new();
    Response::Usage(0).write(&mut out);
    assert_eq!(out, b"USAGE 0\n");
    let mut out = Vec::new();
    Response::Usage(u64::MAX).write(&mut out);
    assert_eq!(out, b"USAGE 18446744073709551615\n");
}

#[test]
fn write_error_line_replaces_newlines() {
    let mut out = Vec::new();
    Response::Error(b"boom\nbang".to_vec()).write(&mut out);
    assert_eq!(out, b"ERROR boom bang\n");
}

#[test]
fn parse_response_lines() {
    assert!(matches!(parse_response(b"OK\n"), Some(Response::Okay)));
    assert!(matches!(parse_response(b"NOT_FOUND\n"), Some(Response::NotFound)));
    match parse_response(b"VALUE aGVsbG8=\n") {
        Some(Response::Value(v)) => assert_eq!(v, b"hello"),
        other => panic!("unexpected: {:?}", other),
    }
    match parse_response(b"USAGE 42\n") {
        Some(Response::Usage(n)) => assert_eq!(n, 42),
        other => panic!("unexpected: {:?}", other),
    }
    match parse_response(b"ERROR nope\n") {
        Some(Response::Error(m)) => assert_eq!(m, b"nope"),
        other => panic!("unexpected: {:?}", other),
    }
    assert!(parse_response(b"GIBBERISH\n").is_none());
    assert!(parse_response(b"VALUE !!!not-base64!!!\n").is_none());
    assert!(parse_response(b"USAGE 18446744073709551616\n").is_none());
    assert!(parse_response(b"USAGE x\n").is_none());
}

#[test]
fn response_round_trip() {
    let cases: Vec<Response> = vec![
        Response::Okay,
        Response::NotFound,
        Response::Value(b"v with spaces".to_vec()),
        Response::Value(Vec::new()),
        Response::Value(vec![0u8, 255u8, 10u8, 13u8]),
        Response::Usage(0),
        Response::Usage(9),
        Response::Usage(18446744073709551615),
        Response::Error(b"unknown command".to_vec()),
        Response::Error(Vec::new()),
    ];
    for r in cases {
        let mut out = Vec::new();
        r.write(&mut out);
        let back = parse_response(&out).expect("round trip parse");
        match (&r, &back) {
            (Response::Okay, Response::Okay) => {}
            (Response::NotFound, Response::NotFound) => {}
            (Response::Value(a), Response::Value(b)) => assert_eq!(a, b),
            (Response::Usage(a), Response::Usage(b)) => assert_eq!(a, b),
            (Response::Error(a), Response::Error(b)) => assert_eq!(a, b),
            (a, b) => panic!("kind changed: {:?} vs {:?}", a, b),
        }
    }
}

#[test]
fn error_round_trip_sanitizes() {
    let mut out = Vec::new();
    Response::Error(b"two\nlines".to_vec()).write(&mut out);
    match parse_response(&out) {
        Some(Response::Error(m)) => assert_eq!(m, b"two lines"),
        other => panic!("unexpected: {:?}", other),
    }
}
