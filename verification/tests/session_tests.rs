//! Tests of the per-request dispatch step, down to the wire bytes.

use blink_store::{handle_request, MemoryEngine, Response};

fn wire(resp: &Response) -> Vec<u8> {
    let mut out = Vec::new();
    resp.write(&mut out);
    out
}

#[test]
fn get_on_empty_store_is_not_found() {
    let mut e = MemoryEngine::new(1024).unwrap();
    let resp = handle_request(&mut e, b"GET foo\n").unwrap();
    assert_eq!(wire(&resp), b"NOT_FOUND\n");
}

#[test]
fn set_then_get_returns_base64_value() {
    let mut e = MemoryEngine::new(1024).unwrap();
    let resp = handle_request(&mut e, b"SET k v with spaces\n").unwrap();
    assert_eq!(wire(&resp), b"OK\n");
    let resp = handle_request(&mut e, b"GET k\n").unwrap();
    assert_eq!(wire(&resp), b"VALUE diB3aXRoIHNwYWNlcw==\n");
}

#[test]
fn usage_reports_current_usage() {
    let mut e = MemoryEngine::new(1024).unwrap();
    handle_request(&mut e, b"SET a xx\n").unwrap();
    handle_request(&mut e, b"SET bb y\n").unwrap();
    let n = e.current_usage_bytes().unwrap();
    let resp = handle_request(&mut e, b"USAGE\n").unwrap();
    let expected = format!("USAGE {}\n", n).into_bytes();
    assert_eq!(wire(&resp), expected);
}

#[test]
fn unknown_command_is_error_and_connection_stays_usable() {
    let mut e = MemoryEngine::new(1024).unwrap();
    let resp = handle_request(&mut e, b"FOO\n").unwrap();
    assert_eq!(wire(&resp), b"ERROR unknown command\n");
    // The next request on the same session still works.
    handle_request(&mut e, b"SET k v\n").unwrap();
    let resp = handle_request(&mut e, b"GET k\n").unwrap();
    assert_eq!(wire(&resp), b"VALUE dg==\n");
}

#[test]
fn quit_closes_without_response() {
    let mut e = MemoryEngine::new(1024).unwrap();
    assert!(handle_request(&mut e, b"QUIT\n").is_none());
    assert!(handle_request(&mut e, b"quit\n").is_none());
}

#[test]
fn missing_keys_are_rejected_with_errors() {
    let mut e = MemoryEngine::new(1024).unwrap();
    let resp = handle_request(&mut e, b"GET\n").unwrap();
    assert_eq!(wire(&resp), b"ERROR GET requires key\n");
    let resp = handle_request(&mut e, b"SET\n").unwrap();
    assert_eq!(wire(&resp), b"ERROR SET requires key\n");
    let resp = handle_request(&mut e, b"DELETE\n").unwrap();
    assert_eq!(wire(&resp), b"ERROR DELETE requires key\n");
}

#[test]
fn delete_reports_ok_or_not_found() {
    let mut e = MemoryEngine::new(1024).unwrap();
    handle_request(&mut e, b"SET k v\n").unwrap();
    let resp = handle_request(&mut e, b"DELETE k\n").unwrap();
    assert_eq!(wire(&resp), b"OK\n");
    let resp = handle_request(&mut e, b"DELETE k\n").unwrap();
    assert_eq!(wire(&resp), b"NOT_FOUND\n");
}

#[test]
fn set_beyond_limit_reports_capacity_error() {
    let mut e = MemoryEngine::new(4).unwrap();
    let resp = handle_request(&mut e, b"SET key value-too-big\n").unwrap();
    assert_eq!(wire(&resp), b"ERROR storage is at capacity and eviction failed\n");
    // The store is unchanged and still serves requests.
    let resp = handle_request(&mut e, b"USAGE\n").unwrap();
    assert_eq!(wire(&resp), b"USAGE 0\n");
}

#[test]
fn session_scenario_eviction_visible_on_wire() {
    let mut e = MemoryEngine::new(10).unwrap();
    assert_eq!(wire(&handle_request(&mut e, b"SET a 111\n").unwrap()), b"OK\n");
    assert_eq!(wire(&handle_request(&mut e, b"SET b 2222\n").unwrap()), b"OK\n");
    assert_eq!(wire(&handle_request(&mut e, b"SET c x\n").unwrap()), b"OK\n");
    assert_eq!(wire(&handle_request(&mut e, b"GET a\n").unwrap()), b"NOT_FOUND\n");
    assert_eq!(wire(&handle_request(&mut e, b"GET b\n").unwrap()), b"VALUE MjIyMg==\n");
    assert_eq!(wire(&handle_request(&mut e, b"GET c\n").unwrap()), b"VALUE eA==\n");
}
