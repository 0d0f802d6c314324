//! The per-connection dispatch step: one request line in, one engine
//! operation, one response out.
//!
//! The surrounding connection loop (reading lines, writing the formatted
//! response, closing on end of input) performs no decisions of its own: it
//! feeds each line to `handle_request` and sends the formatted response
//! back, closing the connection when `handle_request` says to quit.

use vstd::prelude::*;

use crate::engine::{has_key, remove_key, set_result, touch_result, usage_of, value_of, MemoryEngine};
use crate::error::msg_at_capacity;
use crate::protocol::{parse_request, spec_parse_request, Command, RespModel, Response};

verus! {

/// The bytes of `unknown command`.
pub open spec fn msg_unknown_command() -> Seq<u8> {
    seq![117u8, 110u8, 107u8, 110u8, 111u8, 119u8, 110u8, 32u8, 99u8, 111u8, 109u8, 109u8, 97u8,
        110u8, 100u8]
}

/// The bytes of `GET requires key`.
pub open spec fn msg_get_requires_key() -> Seq<u8> {
    seq![71u8, 69u8, 84u8, 32u8, 114u8, 101u8, 113u8, 117u8, 105u8, 114u8, 101u8, 115u8, 32u8,
        107u8, 101u8, 121u8]
}

/// The bytes of `SET requires key`.
pub open spec fn msg_set_requires_key() -> Seq<u8> {
    seq![83u8, 69u8, 84u8, 32u8, 114u8, 101u8, 113u8, 117u8, 105u8, 114u8, 101u8, 115u8, 32u8,
        107u8, 101u8, 121u8]
}

/// The bytes of `DELETE requires key`.
pub open spec fn msg_delete_requires_key() -> Seq<u8> {
    seq![68u8, 69u8, 76u8, 69u8, 84u8, 69u8, 32u8, 114u8, 101u8, 113u8, 117u8, 105u8, 114u8,
        101u8, 115u8, 32u8, 107u8, 101u8, 121u8]
}

fn msg_unknown_command_vec() -> (r: Vec<u8>)
    ensures
        r@ == msg_unknown_command(),
{
    let mut v: Vec<u8> = Vec::new();
    v.push(117);
    v.push(110);
    v.push(107);
    v.push(110);
    v.push(111);
    v.push(119);
    v.push(110);
    v.push(32);
    v.push(99);
    v.push(111);
    v.push(109);
    v.push(109);
    v.push(97);
    v.push(110);
    v.push(100);
    assert(v@ =~= msg_unknown_command());
    v
}

fn msg_get_requires_key_vec() -> (r: Vec<u8>)
    ensures
        r@ == msg_get_requires_key(),
{
    let mut v: Vec<u8> = Vec::new();
    v.push(71);
    v.push(69);
    v.push(84);
    v.push(32);
    v.push(114);
    v.push(101);
    v.push(113);
    v.push(117);
    v.push(105);
    v.push(114);
    v.push(101);
    v.push(115);
    v.push(32);
    v.push(107);
    v.push(101);
    v.push(121);
    assert(v@ =~= msg_get_requires_key());
    v
}

fn msg_set_requires_key_vec() -> (r: Vec<u8>)
    ensures
        r@ == msg_set_requires_key(),
{
    let mut v: Vec<u8> = Vec::new();
    v.push(83);
    v.push(69);
    v.push(84);
    v.push(32);
    v.push(114);
    v.push(101);
    v.push(113);
    v.push(117);
    v.push(105);
    v.push(114);
    v.push(101);
    v.push(115);
    v.push(32);
    v.push(107);
    v.push(101);
    v.push(121);
    assert(v@ =~= msg_set_requires_key());
    v
}

fn msg_delete_requires_key_vec() -> (r: Vec<u8>)
    ensures
        r@ == msg_delete_requires_key(),
{
    let mut v: Vec<u8> = Vec::new();
    v.push(68);
    v.push(69);
    v.push(76);
    v.push(69);
    v.push(84);
    v.push(69);
    v.push(32);
    v.push(114);
    v.push(101);
    v.push(113);
    v.push(117);
    v.push(105);
    v.push(114);
    v.push(101);
    v.push(115);
    v.push(32);
    v.push(107);
    v.push(101);
    v.push(121);
    assert(v@ =~= msg_delete_requires_key());
    v
}

/// Handles one request line against the engine and returns the response to
/// send, or `None` for `QUIT` (the connection closes without a response).
///
/// A line that does not parse yields an `ERROR unknown command` response
/// and leaves the engine untouched — a malformed line never closes the
/// connection. A parsed command is dispatched to the engine exactly as its
/// contract describes; an engine failure becomes an `ERROR` response with
/// the failure's message text.
pub fn handle_request(engine: &mut MemoryEngine, line: &[u8]) -> (r: Option<Response>)
    ensures
        final(engine).limit() == old(engine).limit(),
        match spec_parse_request(line@) {
            None => final(engine)@ == old(engine)@ && (r matches Some(resp) && resp@
                == RespModel::Error(msg_unknown_command())),
            Some(m) => match m.0 {
                Command::Get => if m.1.len() == 0 {
                    final(engine)@ == old(engine)@ && (r matches Some(resp) && resp@
                        == RespModel::Error(msg_get_requires_key()))
                } else if has_key(old(engine)@, m.1) {
                    final(engine)@ == touch_result(old(engine)@, m.1) && (r matches Some(resp)
                        && resp@ == RespModel::Value(value_of(old(engine)@, m.1)))
                } else {
                    final(engine)@ == old(engine)@ && (r matches Some(resp) && resp@
                        == RespModel::NotFound)
                },
                Command::Put => if m.1.len() == 0 {
                    final(engine)@ == old(engine)@ && (r matches Some(resp) && resp@
                        == RespModel::Error(msg_set_requires_key()))
                } else if m.1.len() + m.2.len() > old(engine).limit() {
                    final(engine)@ == old(engine)@ && (r matches Some(resp) && resp@
                        == RespModel::Error(msg_at_capacity()))
                } else {
                    final(engine)@ == set_result(old(engine)@, m.1, m.2, old(engine).limit() as int)
                        && (r matches Some(resp) && resp@ == RespModel::Okay)
                },
                Command::Delete => if m.1.len() == 0 {
                    final(engine)@ == old(engine)@ && (r matches Some(resp) && resp@
                        == RespModel::Error(msg_delete_requires_key()))
                } else if has_key(old(engine)@, m.1) {
                    final(engine)@ == remove_key(old(engine)@, m.1) && (r matches Some(resp)
                        && resp@ == RespModel::Okay)
                } else {
                    final(engine)@ == old(engine)@ && (r matches Some(resp) && resp@
                        == RespModel::NotFound)
                },
                Command::Usage => final(engine)@ == old(engine)@ && (r matches Some(resp)
                    && resp@ matches RespModel::Usage(x) && x == usage_of(old(engine)@)),
                Command::Quit => r is None && final(engine)@ == old(engine)@,
            },
        },
{
    let parsed = parse_request(line);
    let (cmd, key, value) = match parsed {
        None => {
            return Some(Response::Error(msg_unknown_command_vec()));
        },
        Some(t) => t,
    };
    match cmd {
        Command::Get => {
            if key.len() == 0 {
                return Some(Response::Error(msg_get_requires_key_vec()));
            }
            match engine.get(key.as_slice()) {
                Result::Ok(Some(v)) => Some(Response::Value(v)),
                Result::Ok(None) => Some(Response::NotFound),
                Result::Err(e) => Some(Response::Error(e.message())),
            }
        },
        Command::Put => {
            if key.len() == 0 {
                return Some(Response::Error(msg_set_requires_key_vec()));
            }
            match engine.set(key.as_slice(), value) {
                Result::Ok(_) => Some(Response::Okay),
                Result::Err(e) => Some(Response::Error(e.message())),
            }
        },
        Command::Delete => {
            if key.len() == 0 {
                return Some(Response::Error(msg_delete_requires_key_vec()));
            }
            let ghost before = engine@;
            match engine.delete(key.as_slice()) {
                Result::Ok(true) => Some(Response::Okay),
                Result::Ok(false) => {
                    proof {
                        crate::engine::lemma_remove_key_absent(before, key@);
                    }
                    Some(Response::NotFound)
                },
                Result::Err(e) => Some(Response::Error(e.message())),
            }
        },
        Command::Usage => {
            match engine.current_usage_bytes() {
                Result::Ok(n) => Some(Response::Usage(n)),
                Result::Err(e) => Some(Response::Error(e.message())),
            }
        },
        Command::Quit => None,
    }
}

} // verus!
