//! The line-oriented text protocol: request parsing and response formatting.
//!
//! A request is one line: a case-insensitive command word, then its
//! arguments, separated by runs of whitespace. A response is one line ending
//! in a line feed; values travel base64-encoded so that arbitrary bytes stay
//! representable as line text.

use vstd::prelude::*;

use base64::Engine;

use crate::util::{
    bytes_eq, bytes_eq_ignore_case, eq_ignore_case, is_ws, lemma_ltrim_at, lemma_rtrim_at,
    lemma_token_len_at, ltrim, sub_bytes, token_len, trim,
};

verus! {

/// One parsed request command.
#[derive(Clone, Copy, Debug, PartialEq, Eq, Structural)]
pub enum Command {
    /// The `GET` command: fetch a value.
    Get,
    /// The `SET` command: store a value. (Named `Put` here because `Set` is
    /// a reserved word of the verifier's prelude.)
    Put,
    /// The `DELETE` command: remove an entry.
    Delete,
    /// The `USAGE` command: report byte usage.
    Usage,
    /// The `QUIT` command: close the connection.
    Quit,
}

/// The bytes of the command word `GET`.
pub open spec fn kw_get() -> Seq<u8> {
    seq![71u8, 69u8, 84u8]
}

/// The bytes of the command word `SET`.
pub open spec fn kw_set() -> Seq<u8> {
    seq![83u8, 69u8, 84u8]
}

/// The bytes of the command word `DELETE`.
pub open spec fn kw_delete() -> Seq<u8> {
    seq![68u8, 69u8, 76u8, 69u8, 84u8, 69u8]
}

/// The bytes of the command word `USAGE`.
pub open spec fn kw_usage() -> Seq<u8> {
    seq![85u8, 83u8, 65u8, 71u8, 69u8]
}

/// The bytes of the command word `QUIT`.
pub open spec fn kw_quit() -> Seq<u8> {
    seq![81u8, 85u8, 73u8, 84u8]
}

/// What one request line parses to: the command, its key and its value
/// (empty where the command takes none). The line is trimmed, the first
/// whitespace-separated token is matched case-insensitively against the
/// command words; for `SET` the remainder splits once more into key and
/// value, the value keeping its interior whitespace. Anything else is a
/// parse failure.
pub open spec fn spec_parse_request(line: Seq<u8>) -> Option<(Command, Seq<u8>, Seq<u8>)> {
    let t = trim(line);
    let cmd = t.take(token_len(t) as int);
    let rest = ltrim(t.skip(token_len(t) as int));
    if t.len() == 0 {
        None
    } else if eq_ignore_case(cmd, kw_get()) {
        Some((Command::Get, rest, Seq::empty()))
    } else if eq_ignore_case(cmd, kw_delete()) {
        Some((Command::Delete, rest, Seq::empty()))
    } else if eq_ignore_case(cmd, kw_set()) {
        Some(
            (
                Command::Put,
                rest.take(token_len(rest) as int),
                ltrim(rest.skip(token_len(rest) as int)),
            ),
        )
    } else if eq_ignore_case(cmd, kw_usage()) {
        Some((Command::Usage, Seq::empty(), Seq::empty()))
    } else if eq_ignore_case(cmd, kw_quit()) {
        Some((Command::Quit, Seq::empty(), Seq::empty()))
    } else {
        None
    }
}

fn kw_get_vec() -> (r: Vec<u8>)
    ensures
        r@ == kw_get(),
{
    let mut v: Vec<u8> = Vec::new();
    v.push(71);
    v.push(69);
    v.push(84);
    assert(v@ =~= kw_get());
    v
}

fn kw_set_vec() -> (r: Vec<u8>)
    ensures
        r@ == kw_set(),
{
    let mut v: Vec<u8> = Vec::new();
    v.push(83);
    v.push(69);
    v.push(84);
    assert(v@ =~= kw_set());
    v
}

fn kw_delete_vec() -> (r: Vec<u8>)
    ensures
        r@ == kw_delete(),
{
    let mut v: Vec<u8> = Vec::new();
    v.push(68);
    v.push(69);
    v.push(76);
    v.push(69);
    v.push(84);
    v.push(69);
    assert(v@ =~= kw_delete());
    v
}

fn kw_usage_vec() -> (r: Vec<u8>)
    ensures
        r@ == kw_usage(),
{
    let mut v: Vec<u8> = Vec::new();
    v.push(85);
    v.push(83);
    v.push(65);
    v.push(71);
    v.push(69);
    assert(v@ =~= kw_usage());
    v
}

fn kw_quit_vec() -> (r: Vec<u8>)
    ensures
        r@ == kw_quit(),
{
    let mut v: Vec<u8> = Vec::new();
    v.push(81);
    v.push(85);
    v.push(73);
    v.push(84);
    assert(v@ =~= kw_quit());
    v
}

/// One response to be put on the wire.
#[derive(Debug)]
pub enum Response {
    /// Success with no payload: the `OK` line. (Named `Okay` here because
    /// `Ok` is a reserved word of the verifier's prelude.)
    Okay,
    /// A value: the `VALUE <base64>` line.
    Value(Vec<u8>),
    /// An absent key: the `NOT_FOUND` line.
    NotFound,
    /// A usage report: the `USAGE <bytes>` line.
    Usage(u64),
    /// A failure: the `ERROR <message>` line.
    Error(Vec<u8>),
}

/// The mathematical model of a response: the same shape over byte
/// sequences.
pub enum RespModel {
    Okay,
    Value(Seq<u8>),
    NotFound,
    Usage(u64),
    Error(Seq<u8>),
}

impl View for Response {
    type V = RespModel;

    open spec fn view(&self) -> RespModel {
        match self {
            Response::Okay => RespModel::Okay,
            Response::Value(v) => RespModel::Value(v@),
            Response::NotFound => RespModel::NotFound,
            Response::Usage(n) => RespModel::Usage(*n),
            Response::Error(m) => RespModel::Error(m@),
        }
    }
}

/// The bytes of the response word `OK`.
pub open spec fn kw_ok() -> Seq<u8> {
    seq![79u8, 75u8]
}

/// The bytes of the response word `NOT_FOUND`.
pub open spec fn kw_not_found() -> Seq<u8> {
    seq![78u8, 79u8, 84u8, 95u8, 70u8, 79u8, 85u8, 78u8, 68u8]
}

/// The bytes of the response prefix `VALUE ` (with its trailing space).
pub open spec fn kw_value_sp() -> Seq<u8> {
    seq![86u8, 65u8, 76u8, 85u8, 69u8, 32u8]
}

/// The bytes of the response prefix `USAGE ` (with its trailing space).
pub open spec fn kw_usage_sp() -> Seq<u8> {
    seq![85u8, 83u8, 65u8, 71u8, 69u8, 32u8]
}

/// The bytes of the response prefix `ERROR ` (with its trailing space).
pub open spec fn kw_error_sp() -> Seq<u8> {
    seq![69u8, 82u8, 82u8, 79u8, 82u8, 32u8]
}

/// Error text with every line feed replaced by a space, so that it stays on
/// one line.
pub open spec fn sanitize(m: Seq<u8>) -> Seq<u8> {
    Seq::new(m.len(), |i: int| if m[i] == 10 { 32u8 } else { m[i] })
}

/// A response with its error text sanitized; other kinds are unchanged.
pub open spec fn resp_sanitized(m: RespModel) -> RespModel {
    match m {
        RespModel::Error(t) => RespModel::Error(sanitize(t)),
        _ => m,
    }
}

/// What a base64 encoding of these bytes looks like on the wire. The exact
/// text is fixed by the base64 crate's standard-alphabet padded engine; this
/// library only relies on decoding inverting it.
pub uninterp spec fn base64_of(bytes: Seq<u8>) -> Seq<u8>;

/// What base64 decoding of this text yields: the decoded bytes, or nothing
/// when the text is not a valid encoding.
pub uninterp spec fn base64_decode_of(text: Seq<u8>) -> Option<Seq<u8>>;

/// Relies on base64's `Engine::encode` with the standard-alphabet padded
/// engine (`general_purpose::STANDARD`): the output is a function of the
/// input bytes alone, and `Engine::decode` of the output gives the input
/// back. The length bound keeps the encoder's internal size arithmetic from
/// overflowing.
#[verifier::external_body]
fn base64_encode(bytes: &[u8]) -> (r: Vec<u8>)
    requires
        bytes@.len() * 4 <= usize::MAX,
    ensures
        r@ == base64_of(bytes@),
        base64_decode_of(r@) == Some(bytes@),
{
    base64::engine::general_purpose::STANDARD.encode(bytes).into_bytes()
}

/// Relies on base64's `Engine::decode` with the standard-alphabet padded
/// engine (`general_purpose::STANDARD`): the result is a function of the
/// input text alone — the decoded bytes, or an error for text that is not a
/// valid encoding.
#[verifier::external_body]
fn base64_decode(text: &[u8]) -> (r: Option<Vec<u8>>)
    ensures
        match r {
            Some(d) => base64_decode_of(text@) == Some(d@),
            None => base64_decode_of(text@) is None,
        },
{
    match base64::engine::general_purpose::STANDARD.decode(text) {
        Result::Ok(v) => Some(v),
        Result::Err(_) => None,
    }
}

/// The wire form of a response: one line ending in a line feed.
pub open spec fn format_model(m: RespModel) -> Seq<u8> {
    match m {
        RespModel::Okay => kw_ok() + seq![10u8],
        RespModel::Value(v) => kw_value_sp() + base64_of(v) + seq![10u8],
        RespModel::NotFound => kw_not_found() + seq![10u8],
        RespModel::Usage(n) => kw_usage_sp() + crate::decimal::dec_of(n as int) + seq![10u8],
        RespModel::Error(t) => kw_error_sp() + sanitize(t) + seq![10u8],
    }
}

/// What one response line parses to. A trailing line feed is accepted and
/// dropped; then the line must be `OK`, `NOT_FOUND`, or carry a `VALUE `,
/// `USAGE ` or `ERROR ` prefix with a well-formed payload.
pub open spec fn parse_response_model(line: Seq<u8>) -> Option<RespModel> {
    let body = if line.len() > 0 && line.last() == 10 {
        line.drop_last()
    } else {
        line
    };
    if body == kw_ok() {
        Some(RespModel::Okay)
    } else if body == kw_not_found() {
        Some(RespModel::NotFound)
    } else if body.len() >= 6 && body.take(6) == kw_value_sp() {
        match base64_decode_of(body.skip(6)) {
            Some(d) => Some(RespModel::Value(d)),
            None => None,
        }
    } else if body.len() >= 6 && body.take(6) == kw_usage_sp() {
        match crate::decimal::spec_parse_u64(body.skip(6)) {
            Some(x) => Some(RespModel::Usage(x)),
            None => None,
        }
    } else if body.len() >= 6 && body.take(6) == kw_error_sp() {
        Some(RespModel::Error(body.skip(6)))
    } else {
        None
    }
}

/// Parses one request line into its command, key and value (owned copies of
/// the matching parts of the line); `None` for empty, unknown or otherwise
/// malformed input.
#[verifier::rlimit(100)]
pub fn parse_request(line: &[u8]) -> (r: Option<(Command, Vec<u8>, Vec<u8>)>)
    ensures
        match r {
            Some(p) => spec_parse_request(line@) matches Some(m) && m.0 == p.0 && m.1 == p.1@
                && m.2 == p.2@,
            None => spec_parse_request(line@) is None,
        },
{
    let n = line.len();
    let mut start: usize = 0;
    while start < n && (line[start] == 32 || line[start] == 9 || line[start] == 10
        || line[start] == 12 || line[start] == 13)
        invariant
            0 <= start <= n,
            n == line@.len(),
            forall|j: int| 0 <= j < start ==> is_ws(line@[j]),
        decreases n - start,
    {
        start = start + 1;
    }
    let mut end: usize = n;
    while end > start && (line[end - 1] == 32 || line[end - 1] == 9 || line[end - 1] == 10
        || line[end - 1] == 12 || line[end - 1] == 13)
        invariant
            start <= end <= n,
            n == line@.len(),
            forall|j: int| end <= j < n ==> is_ws(line@[j]),
        decreases end,
    {
        end = end - 1;
    }
    let ghost t = trim(line@);
    proof {
        lemma_ltrim_at(line@, start as int);
        assert(line@.skip(start as int) =~= line@.subrange(start as int, n as int));
        lemma_rtrim_at(line@.subrange(start as int, n as int), end - start as int);
        assert(line@.subrange(start as int, n as int).take(end - start as int) =~= line@.subrange(
            start as int,
            end as int,
        ));
        assert(t == line@.subrange(start as int, end as int));
    }
    if start == end {
        assert(t.len() == 0);
        return None;
    }
    let mut ce: usize = start;
    while ce < end && !(line[ce] == 32 || line[ce] == 9 || line[ce] == 10 || line[ce] == 12
        || line[ce] == 13)
        invariant
            start <= ce <= end <= n,
            n == line@.len(),
            forall|j: int| start <= j < ce ==> !is_ws(line@[j]),
        decreases end - ce,
    {
        ce = ce + 1;
    }
    proof {
        lemma_token_len_at(t, ce - start as int);
        assert(t.take(ce - start as int) =~= line@.subrange(start as int, ce as int));
    }
    let mut rs: usize = ce;
    while rs < end && (line[rs] == 32 || line[rs] == 9 || line[rs] == 10 || line[rs] == 12
        || line[rs] == 13)
        invariant
            ce <= rs <= end <= n,
            n == line@.len(),
            forall|j: int| ce <= j < rs ==> is_ws(line@[j]),
        decreases end - rs,
    {
        rs = rs + 1;
    }
    let ghost rest = ltrim(t.skip(token_len(t) as int));
    proof {
        assert(t.skip(ce - start as int) =~= line@.subrange(ce as int, end as int));
        lemma_ltrim_at(line@.subrange(ce as int, end as int), rs - ce as int);
        assert(line@.subrange(ce as int, end as int).skip(rs - ce as int) =~= line@.subrange(
            rs as int,
            end as int,
        ));
        assert(rest == line@.subrange(rs as int, end as int));
    }
    let cmd = sub_bytes(line, start, ce);
    if bytes_eq_ignore_case(cmd.as_slice(), kw_get_vec().as_slice()) {
        let key = sub_bytes(line, rs, end);
        let value: Vec<u8> = Vec::new();
        assert(value@ =~= Seq::<u8>::empty());
        return Some((Command::Get, key, value));
    }
    if bytes_eq_ignore_case(cmd.as_slice(), kw_delete_vec().as_slice()) {
        let key = sub_bytes(line, rs, end);
        let value: Vec<u8> = Vec::new();
        assert(value@ =~= Seq::<u8>::empty());
        return Some((Command::Delete, key, value));
    }
    if bytes_eq_ignore_case(cmd.as_slice(), kw_set_vec().as_slice()) {
        let mut ke: usize = rs;
        while ke < end && !(line[ke] == 32 || line[ke] == 9 || line[ke] == 10 || line[ke] == 12
            || line[ke] == 13)
            invariant
                rs <= ke <= end <= n,
                n == line@.len(),
                forall|j: int| rs <= j < ke ==> !is_ws(line@[j]),
            decreases end - ke,
        {
            ke = ke + 1;
        }
        let mut vs: usize = ke;
        while vs < end && (line[vs] == 32 || line[vs] == 9 || line[vs] == 10 || line[vs] == 12
            || line[vs] == 13)
            invariant
                ke <= vs <= end <= n,
                n == line@.len(),
                forall|j: int| ke <= j < vs ==> is_ws(line@[j]),
            decreases end - vs,
        {
            vs = vs + 1;
        }
        proof {
            lemma_token_len_at(rest, ke - rs as int);
            assert(rest.take(ke - rs as int) =~= line@.subrange(rs as int, ke as int));
            assert(rest.skip(ke - rs as int) =~= line@.subrange(ke as int, end as int));
            lemma_ltrim_at(line@.subrange(ke as int, end as int), vs - ke as int);
            assert(line@.subrange(ke as int, end as int).skip(vs - ke as int) =~= line@.subrange(
                vs as int,
                end as int,
            ));
        }
        let key = sub_bytes(line, rs, ke);
        let value = sub_bytes(line, vs, end);
        return Some((Command::Put, key, value));
    }
    if bytes_eq_ignore_case(cmd.as_slice(), kw_usage_vec().as_slice()) {
        let key: Vec<u8> = Vec::new();
        let value: Vec<u8> = Vec::new();
        assert(key@ =~= Seq::<u8>::empty());
        return Some((Command::Usage, key, value));
    }
    if bytes_eq_ignore_case(cmd.as_slice(), kw_quit_vec().as_slice()) {
        let key: Vec<u8> = Vec::new();
        let value: Vec<u8> = Vec::new();
        assert(key@ =~= Seq::<u8>::empty());
        return Some((Command::Quit, key, value));
    }
    None
}

fn kw_ok_vec() -> (r: Vec<u8>)
    ensures
        r@ == kw_ok(),
{
    let mut v: Vec<u8> = Vec::new();
    v.push(79);
    v.push(75);
    assert(v@ =~= kw_ok());
    v
}

fn kw_not_found_vec() -> (r: Vec<u8>)
    ensures
        r@ == kw_not_found(),
{
    let mut v: Vec<u8> = Vec::new();
    v.push(78);
    v.push(79);
    v.push(84);
    v.push(95);
    v.push(70);
    v.push(79);
    v.push(85);
    v.push(78);
    v.push(68);
    assert(v@ =~= kw_not_found());
    v
}

fn kw_value_sp_vec() -> (r: Vec<u8>)
    ensures
        r@ == kw_value_sp(),
{
    let mut v: Vec<u8> = Vec::new();
    v.push(86);
    v.push(65);
    v.push(76);
    v.push(85);
    v.push(69);
    v.push(32);
    assert(v@ =~= kw_value_sp());
    v
}

fn kw_usage_sp_vec() -> (r: Vec<u8>)
    ensures
        r@ == kw_usage_sp(),
{
    let mut v: Vec<u8> = Vec::new();
    v.push(85);
    v.push(83);
    v.push(65);
    v.push(71);
    v.push(69);
    v.push(32);
    assert(v@ =~= kw_usage_sp());
    v
}

fn kw_error_sp_vec() -> (r: Vec<u8>)
    ensures
        r@ == kw_error_sp(),
{
    let mut v: Vec<u8> = Vec::new();
    v.push(69);
    v.push(82);
    v.push(82);
    v.push(79);
    v.push(82);
    v.push(32);
    assert(v@ =~= kw_error_sp());
    v
}

impl Response {
    /// Appends the wire form of this response to `out`: one line ending in a
    /// line feed. Values are base64-encoded; error text has its line feeds
    /// replaced by spaces. Parsing the produced line gives the response back
    /// (with its error text so sanitized) — the wire form loses nothing
    /// else.
    pub fn write(&self, out: &mut Vec<u8>)
        requires
            self@ matches RespModel::Value(v) ==> v.len() * 4 <= usize::MAX,
        ensures
            final(out)@ == old(out)@ + format_model(self@),
            parse_response_model(format_model(self@)) == Some(resp_sanitized(self@)),
    {
        let ghost f = format_model(self@);
        match self {
            Response::Okay => {
                let kw = kw_ok_vec();
                crate::util::append_bytes(out, kw.as_slice());
                out.push(10);
                proof {
                    assert(out@ =~= old(out)@ + f);
                    assert(f.last() == 10);
                    assert(f.drop_last() =~= kw_ok());
                }
            },
            Response::NotFound => {
                let kw = kw_not_found_vec();
                crate::util::append_bytes(out, kw.as_slice());
                out.push(10);
                proof {
                    assert(out@ =~= old(out)@ + f);
                    assert(f.last() == 10);
                    assert(f.drop_last() =~= kw_not_found());
                    assert(kw_not_found() != kw_ok()) by {
                        assert(kw_not_found().len() != kw_ok().len());
                    }
                }
            },
            Response::Value(v) => {
                let kw = kw_value_sp_vec();
                crate::util::append_bytes(out, kw.as_slice());
                let enc = base64_encode(v.as_slice());
                crate::util::append_bytes(out, enc.as_slice());
                out.push(10);
                proof {
                    assert(out@ =~= old(out)@ + f);
                    let body = kw_value_sp() + base64_of(v@);
                    assert(f.last() == 10);
                    assert(f.drop_last() =~= body);
                    assert(body.len() >= 6);
                    assert(body != kw_ok()) by {
                        assert(body.len() != kw_ok().len());
                    }
                    assert(body != kw_not_found()) by {
                        if body == kw_not_found() {
                            assert(body[0] == kw_value_sp()[0]);
                            assert(body[0] == 86 && kw_not_found()[0] == 78);
                        }
                    }
                    assert(body.take(6) =~= kw_value_sp());
                    assert(body.skip(6) =~= base64_of(v@));
                    assert(base64_decode_of(body.skip(6)) == Some(v@));
                }
            },
            Response::Usage(n) => {
                let kw = kw_usage_sp_vec();
                crate::util::append_bytes(out, kw.as_slice());
                let d = crate::decimal::u64_to_dec(*n);
                crate::util::append_bytes(out, d.as_slice());
                out.push(10);
                proof {
                    crate::decimal::lemma_dec_of_digits(*n as int);
                    crate::decimal::lemma_dec_val_of(*n as int);
                    assert(out@ =~= old(out)@ + f);
                    let digits = crate::decimal::dec_of(*n as int);
                    let body = kw_usage_sp() + digits;
                    assert(f.last() == 10);
                    assert(f.drop_last() =~= body);
                    assert(body.len() >= 7);
                    assert(body != kw_ok()) by {
                        assert(body.len() != kw_ok().len());
                    }
                    assert(body != kw_not_found()) by {
                        if body == kw_not_found() {
                            assert(body[0] == kw_usage_sp()[0]);
                            assert(body[0] == 85 && kw_not_found()[0] == 78);
                        }
                    }
                    assert(body.take(6) =~= kw_usage_sp());
                    assert(body.take(6) != kw_value_sp()) by {
                        if body.take(6) == kw_value_sp() {
                            assert(kw_usage_sp()[0] == 85 && kw_value_sp()[0] == 86);
                        }
                    }
                    assert(body.skip(6) =~= digits);
                    assert(crate::decimal::spec_parse_u64(digits) == Some(*n));
                }
            },
            Response::Error(m) => {
                let kw = kw_error_sp_vec();
                crate::util::append_bytes(out, kw.as_slice());
                let ghost mid = out@;
                let len = m.len();
                let mut i: usize = 0;
                while i < len
                    invariant
                        0 <= i <= len,
                        len == m@.len(),
                        out@ =~= mid + sanitize(m@).take(i as int),
                    decreases len - i,
                {
                    let b = m[i];
                    if b == 10 {
                        out.push(32);
                    } else {
                        out.push(b);
                    }
                    i = i + 1;
                    assert(out@ =~= mid + sanitize(m@).take(i as int));
                }
                assert(out@ =~= mid + sanitize(m@));
                out.push(10);
                proof {
                    assert(out@ =~= old(out)@ + f);
                    let body = kw_error_sp() + sanitize(m@);
                    assert(f.last() == 10);
                    assert(f.drop_last() =~= body);
                    assert(body.len() >= 6);
                    assert(body != kw_ok()) by {
                        assert(body.len() != kw_ok().len());
                    }
                    assert(body != kw_not_found()) by {
                        if body == kw_not_found() {
                            assert(body[0] == kw_error_sp()[0]);
                            assert(body[0] == 69 && kw_not_found()[0] == 78);
                        }
                    }
                    assert(body.take(6) =~= kw_error_sp());
                    assert(body.take(6) != kw_value_sp()) by {
                        if body.take(6) == kw_value_sp() {
                            assert(kw_error_sp()[0] == 69 && kw_value_sp()[0] == 86);
                        }
                    }
                    assert(body.take(6) != kw_usage_sp()) by {
                        if body.take(6) == kw_usage_sp() {
                            assert(kw_error_sp()[0] == 69 && kw_usage_sp()[0] == 85);
                        }
                    }
                    assert(body.skip(6) =~= sanitize(m@));
                }
            },
        }
    }
}

/// Parses one response line back into a response; `None` for text that is
/// not the wire form of any response.
pub fn parse_response(line: &[u8]) -> (r: Option<Response>)
    ensures
        match r {
            Some(resp) => parse_response_model(line@) == Some(resp@),
            None => parse_response_model(line@) is None,
        },
{
    let n = line.len();
    let end: usize = if n > 0 && line[n - 1] == 10 {
        n - 1
    } else {
        n
    };
    let ghost body = if line@.len() > 0 && line@.last() == 10 {
        line@.drop_last()
    } else {
        line@
    };
    proof {
        assert(line@.subrange(0, end as int) =~= body);
    }
    let b = sub_bytes(line, 0, end);
    if bytes_eq(b.as_slice(), kw_ok_vec().as_slice()) {
        return Some(Response::Okay);
    }
    if bytes_eq(b.as_slice(), kw_not_found_vec().as_slice()) {
        return Some(Response::NotFound);
    }
    if end >= 6 {
        let pre = sub_bytes(line, 0, 6);
        proof {
            assert(pre@ =~= body.take(6));
        }
        if bytes_eq(pre.as_slice(), kw_value_sp_vec().as_slice()) {
            let payload = sub_bytes(line, 6, end);
            proof {
                assert(payload@ =~= body.skip(6));
            }
            return match base64_decode(payload.as_slice()) {
                Some(d) => Some(Response::Value(d)),
                None => None,
            };
        }
        if bytes_eq(pre.as_slice(), kw_usage_sp_vec().as_slice()) {
            let payload = sub_bytes(line, 6, end);
            proof {
                assert(payload@ =~= body.skip(6));
            }
            return match crate::decimal::parse_u64(payload.as_slice()) {
                Some(x) => Some(Response::Usage(x)),
                None => None,
            };
        }
        if bytes_eq(pre.as_slice(), kw_error_sp_vec().as_slice()) {
            let payload = sub_bytes(line, 6, end);
            proof {
                assert(payload@ =~= body.skip(6));
            }
            return Some(Response::Error(payload));
        }
    }
    None
}

} // verus!
