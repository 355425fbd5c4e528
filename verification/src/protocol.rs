//! The framed request and response that the host and the converter helper
//! process exchange over the helper's standard input and output.
//!
//! A request is `PMCR`, then five little-endian 32-bit fields (version,
//! operation, flags, length of the globals, length of the body), then the two
//! texts. A response is `PMCS`, then three such fields (version, status, length
//! of the payload), then the payload.

use crate::text;
use crate::text::decimal_text;
use crate::utf8;
use crate::utf8::{text_of_utf8, truncate_utf8};
use vstd::prelude::*;
use vstd::slice::slice_subrange;
use vstd::string::*;
use vstd::utf8::*;

verus! {

pub const PROTOCOL_VERSION: u32 = 1;

pub const OP_PROBE: u32 = 0;

pub const OP_CONVERT: u32 = 1;

pub const FLAG_OPTIMIZE: u32 = 1;

pub const FLAG_GLOBALS_PRESENT: u32 = 2;

pub const ALLOWED_FLAGS: u32 = 3;

pub const REQUEST_HEADER_BYTES: usize = 24;

pub const RESPONSE_HEADER_BYTES: usize = 16;

/// Most bytes accepted of the file-scope globals and the shader body together.
pub const MAX_CONVERTER_INPUT_BYTES: usize = 1048576;

/// Most payload bytes accepted back from the helper.
pub const MAX_CONVERTER_OUTPUT_BYTES: usize = 8388608;

// ---------------------------------------------------------------------------
// Requests
// ---------------------------------------------------------------------------
/// What a request asks for.
pub ghost enum RequestView {
    Probe,
    Convert { file_globals: Option<Seq<char>>, body: Seq<char>, optimize: bool },
}

/// A request that the host sends.
pub enum Request<'a> {
    Probe,
    Convert { file_globals: Option<&'a str>, body: &'a str, optimize: bool },
}

impl<'a> View for Request<'a> {
    type V = RequestView;

    open spec fn view(&self) -> RequestView {
        match *self {
            Request::Probe => RequestView::Probe,
            Request::Convert { file_globals, body, optimize } => RequestView::Convert {
                file_globals: match file_globals {
                    Some(g) => Some(g@),
                    None => None,
                },
                body: body@,
                optimize,
            },
        }
    }
}

/// The texts and the setting of a received conversion request.
pub struct DecodedConvertRequest {
    pub file_globals: Option<String>,
    pub body: String,
    pub optimize: bool,
}

/// A request that the helper received.
pub enum DecodedRequest {
    Probe,
    Convert(DecodedConvertRequest),
}

impl View for DecodedRequest {
    type V = RequestView;

    open spec fn view(&self) -> RequestView {
        match *self {
            DecodedRequest::Probe => RequestView::Probe,
            DecodedRequest::Convert(r) => RequestView::Convert {
                file_globals: match r.file_globals {
                    Some(g) => Some(g@),
                    None => None,
                },
                body: r.body@,
                optimize: r.optimize,
            },
        }
    }
}

// ---------------------------------------------------------------------------
// Fields
// ---------------------------------------------------------------------------
/// `PMCR`.
pub open spec fn request_magic() -> Seq<u8> {
    seq![80u8, 77u8, 67u8, 82u8]
}

/// `PMCS`.
pub open spec fn response_magic() -> Seq<u8> {
    seq![80u8, 77u8, 67u8, 83u8]
}

/// The little-endian bytes of `x`.
pub open spec fn le32(x: int) -> Seq<u8> {
    seq![
        (x % 256) as u8,
        ((x / 256) % 256) as u8,
        ((x / 65536) % 256) as u8,
        ((x / 16777216) % 256) as u8,
    ]
}

/// The little-endian number in the four bytes of `b` from index `at` on.
pub open spec fn le32_at(b: Seq<u8>, at: int) -> int {
    b[at] + 256 * b[at + 1] + 65536 * b[at + 2] + 16777216 * b[at + 3]
}

/// Reading back a written field.
pub proof fn lemma_le32(b: Seq<u8>, at: int, x: int)
    requires
        0 <= x <= u32::MAX,
        0 <= at,
        at + 4 <= b.len(),
        b.subrange(at, at + 4) == le32(x),
    ensures
        le32_at(b, at) == x,
{
    let f = b.subrange(at, at + 4);
    assert(f[0] == b[at] && f[1] == b[at + 1] && f[2] == b[at + 2] && f[3] == b[at + 3]);
}

/// Writing back a read field.
proof fn lemma_le32_inverse(b: Seq<u8>, at: int)
    requires
        0 <= at,
        at + 4 <= b.len(),
    ensures
        le32(le32_at(b, at)) == b.subrange(at, at + 4),
{
    let b0 = b[at] as int;
    let b1 = b[at + 1] as int;
    let b2 = b[at + 2] as int;
    let b3 = b[at + 3] as int;
    let x = le32_at(b, at);
    assert(x == b0 + 256 * (b1 + 256 * (b2 + 256 * b3)));
    assert(x % 256 == b0);
    assert(x / 256 == b1 + 256 * (b2 + 256 * b3));
    assert(x / 65536 == b2 + 256 * b3);
    assert(x / 16777216 == b3);
    let f = b.subrange(at, at + 4);
    assert(f[0] == b[at] && f[1] == b[at + 1] && f[2] == b[at + 2] && f[3] == b[at + 3]);
    assert(le32(x) =~= f);
}

fn push_u32(out: &mut Vec<u8>, x: u32)
    ensures
        final(out)@ == old(out)@ + le32(x as int),
{
    let ghost start = out@;
    out.push((x % 256) as u8);
    out.push(((x / 256) % 256) as u8);
    out.push(((x / 65536) % 256) as u8);
    out.push(((x / 16777216) % 256) as u8);
    assert(out@ =~= start + le32(x as int));
}

fn push_bytes(out: &mut Vec<u8>, tail: &[u8])
    ensures
        final(out)@ == old(out)@ + tail@,
{
    let ghost start = out@;
    let mut i: usize = 0;
    while i < tail.len()
        invariant
            i <= tail@.len(),
            out@ == start + tail@.take(i as int),
        decreases tail@.len() - i,
    {
        out.push(tail[i]);
        i += 1;
        assert(start + tail@.take(i as int) =~= (start + tail@.take(i - 1)).push(tail@[i - 1]));
    }
    assert(tail@.take(i as int) =~= tail@);
}

/// The little-endian number in the four bytes of `bytes` from `offset` on.
pub fn read_u32(bytes: &[u8], offset: usize) -> (out: Result<u32, String>)
    requires
        offset + 4 <= usize::MAX,
    ensures
        match out {
            Ok(x) => offset + 4 <= bytes@.len() && x == le32_at(bytes@, offset as int),
            Err(e) => offset + 4 > bytes@.len() && e@
                == "converter helper protocol field is truncated"@,
        },
{
    if bytes.len() < offset + 4 {
        return Err("converter helper protocol field is truncated".to_owned());
    }
    let x: u32 = bytes[offset] as u32 + 256 * (bytes[offset + 1] as u32) + 65536 * (bytes[offset
        + 2] as u32) + 16777216 * (bytes[offset + 3] as u32);
    Ok(x)
}

/// Whether the first four bytes of `bytes` are `a`, `b`, `c`, `d`.
fn begins_with(bytes: &[u8], a: u8, b: u8, c: u8, d: u8) -> (yes: bool)
    requires
        bytes@.len() >= 4,
    ensures
        yes == (bytes@.take(4) == seq![a, b, c, d]),
{
    let yes = bytes[0] == a && bytes[1] == b && bytes[2] == c && bytes[3] == d;
    proof {
        let head = bytes@.take(4);
        assert(head[0] == bytes@[0] && head[1] == bytes@[1] && head[2] == bytes@[2] && head[3]
            == bytes@[3]);
        if yes {
            assert(head =~= seq![a, b, c, d]);
        } else {
            let m = seq![a, b, c, d];
            assert(m[0] == a && m[1] == b && m[2] == c && m[3] == d);
        }
    }
    yes
}

// ---------------------------------------------------------------------------
// The input cap
// ---------------------------------------------------------------------------
/// The bytes of the globals, where there are any.
pub open spec fn globals_bytes(file_globals: Option<Seq<char>>) -> Seq<u8> {
    match file_globals {
        Some(g) => encode_utf8(g),
        None => Seq::empty(),
    }
}

/// The refusal of an input of `total` bytes, where it is refused.
pub open spec fn input_size_error(total: nat) -> Option<Seq<char>> {
    if total > usize::MAX {
        Some("native converter input length overflow"@)
    } else if total > MAX_CONVERTER_INPUT_BYTES {
        Some(
            "native converter input is "@ + text::decimal(total) + " bytes, exceeding the "@
                + text::decimal(MAX_CONVERTER_INPUT_BYTES as nat) + "-byte safety cap"@,
        )
    } else {
        None
    }
}

/// Refuses globals and a body that together exceed the input cap.
pub fn validate_input_size(file_globals: Option<&str>, body: &str) -> (out: Result<(), String>)
    ensures
        match input_size_error(
            globals_bytes(
                match file_globals {
                    Some(g) => Some(g@),
                    None => None,
                },
            ).len() + encode_utf8(body@).len(),
        ) {
            Some(m) => out is Err && out->Err_0@ == m,
            None => out is Ok,
        },
{
    let globals_len: usize = match file_globals {
        Some(g) => g.as_bytes().len(),
        None => 0,
    };
    let body_len: usize = body.as_bytes().len();
    match globals_len.checked_add(body_len) {
        None => Err("native converter input length overflow".to_owned()),
        Some(total) => {
            if total > MAX_CONVERTER_INPUT_BYTES {
                let mut m = String::new();
                m.append("native converter input is ");
                m.append(decimal_text(total as u128).as_str());
                m.append(" bytes, exceeding the ");
                m.append(decimal_text(MAX_CONVERTER_INPUT_BYTES as u128).as_str());
                m.append("-byte safety cap");
                assert(m@ =~= input_size_error(total as nat)->0);
                Err(m)
            } else {
                Ok(())
            }
        },
    }
}

// ---------------------------------------------------------------------------
// Encoding and decoding a request
// ---------------------------------------------------------------------------
/// A frame of the given operation, flags and texts.
pub open spec fn request_frame(op: int, flags: int, globals: Seq<u8>, body: Seq<u8>) -> Seq<u8> {
    request_magic() + le32(PROTOCOL_VERSION as int) + le32(op) + le32(flags) + le32(
        globals.len() as int,
    ) + le32(body.len() as int) + globals + body
}

/// The number of bytes of text that a request carries.
pub open spec fn request_size(r: RequestView) -> nat {
    match r {
        RequestView::Probe => 0,
        RequestView::Convert { file_globals, body, optimize } => globals_bytes(file_globals).len()
            + encode_utf8(body).len(),
    }
}

/// The flags of a conversion request.
pub open spec fn convert_flags(globals_present: bool, optimize: bool) -> int {
    (if optimize { 1int } else { 0 }) + (if globals_present { 2int } else { 0 })
}

/// The frame of a request.
pub open spec fn request_bytes(r: RequestView) -> Seq<u8> {
    match r {
        RequestView::Probe => request_frame(OP_PROBE as int, 0, Seq::empty(), Seq::empty()),
        RequestView::Convert { file_globals, body, optimize } => request_frame(
            OP_CONVERT as int,
            convert_flags(file_globals is Some, optimize),
            globals_bytes(file_globals),
            encode_utf8(body),
        ),
    }
}

/// Frames a request, unless its texts exceed the input cap.
pub fn encode_request(request: Request<'_>) -> (out: Result<Vec<u8>, String>)
    ensures
        match input_size_error(request_size(request@)) {
            Some(m) => out is Err && out->Err_0@ == m,
            None => out is Ok && out->Ok_0@ == request_bytes(request@),
        },
{
    let ghost r = request@;
    let (op, flags, globals, body): (u32, u32, &str, &str) = match request {
        Request::Probe => {
            proof {
                reveal_strlit("");
                assert(encode_utf8(""@) =~= Seq::empty());
            }
            (OP_PROBE, 0, "", "")
        },
        Request::Convert { file_globals, body, optimize } => {
            match validate_input_size(file_globals, body) {
                Err(e) => {
                    return Err(e);
                },
                Ok(_) => {},
            }
            let mut flags: u32 = if optimize {
                FLAG_OPTIMIZE
            } else {
                0
            };
            assert(1u32 | 2 == 3 && 0u32 | 2 == 2) by (bit_vector);
            match file_globals {
                Some(g) => {
                    flags = flags | FLAG_GLOBALS_PRESENT;
                    (OP_CONVERT, flags, g, body)
                },
                None => {
                    proof {
                        reveal_strlit("");
                        assert(encode_utf8(""@) =~= Seq::empty());
                    }
                    (OP_CONVERT, flags, "", body)
                },
            }
        },
    };
    let globals_bytes = globals.as_bytes();
    let body_bytes = body.as_bytes();
    assert(globals_bytes@.len() + body_bytes@.len() <= MAX_CONVERTER_INPUT_BYTES);
    let mut bytes: Vec<u8> = Vec::new();
    bytes.push(80);
    bytes.push(77);
    bytes.push(67);
    bytes.push(82);
    assert(bytes@ =~= request_magic());
    push_u32(&mut bytes, PROTOCOL_VERSION);
    push_u32(&mut bytes, op);
    push_u32(&mut bytes, flags);
    push_u32(&mut bytes, globals_bytes.len() as u32);
    push_u32(&mut bytes, body_bytes.len() as u32);
    push_bytes(&mut bytes, globals_bytes);
    push_bytes(&mut bytes, body_bytes);
    assert(bytes@ =~= request_bytes(r));
    Ok(bytes)
}

/// What a helper makes of a frame: the request it holds, or why it is refused.
pub open spec fn decoded_request(b: Seq<u8>) -> Result<RequestView, Seq<char>> {
    let op = le32_at(b, 8);
    let flags = le32_at(b, 12);
    let globals_len = le32_at(b, 16);
    let body_len = le32_at(b, 20);
    let payload = globals_len + body_len;
    if b.len() < REQUEST_HEADER_BYTES {
        Err("converter helper request header is truncated"@)
    } else if b.take(4) != request_magic() {
        Err("converter helper request has bad magic"@)
    } else if le32_at(b, 4) != PROTOCOL_VERSION {
        Err(
            "unsupported converter helper protocol version "@ + text::decimal(
                le32_at(b, 4) as nat,
            ),
        )
    } else if payload > usize::MAX {
        Err("converter helper request length overflow"@)
    } else if payload > MAX_CONVERTER_INPUT_BYTES {
        Err(
            "converter helper request exceeds the "@ + text::decimal(
                MAX_CONVERTER_INPUT_BYTES as nat,
            ) + "-byte safety cap"@,
        )
    } else if b.len() != REQUEST_HEADER_BYTES + payload {
        Err(
            "converter helper request length mismatch: expected "@ + text::decimal(
                (REQUEST_HEADER_BYTES + payload) as nat,
            ) + ", got "@ + text::decimal(b.len()),
        )
    } else if flags > ALLOWED_FLAGS {
        Err("converter helper request has unknown flags"@)
    } else if op == OP_PROBE {
        if flags == 0 && payload == 0 {
            Ok(RequestView::Probe)
        } else {
            Err("converter helper probe carries unexpected payload"@)
        }
    } else if op == OP_CONVERT {
        let globals = b.subrange(
            REQUEST_HEADER_BYTES as int,
            REQUEST_HEADER_BYTES + globals_len,
        );
        let body = b.skip(REQUEST_HEADER_BYTES + globals_len);
        if !valid_utf8(globals) {
            Err("converter globals are not UTF-8"@)
        } else if !valid_utf8(body) {
            Err("converter body is not UTF-8"@)
        } else if flags / 2 == 0 && globals_len != 0 {
            Err("converter globals payload lacks its presence flag"@)
        } else {
            Ok(
                RequestView::Convert {
                    file_globals: if flags / 2 == 1 {
                        Some(decode_utf8(globals))
                    } else {
                        None
                    },
                    body: decode_utf8(body),
                    optimize: flags % 2 == 1,
                },
            )
        }
    } else {
        Err("unknown converter helper operation "@ + text::decimal(op as nat))
    }
}

/// Takes a request out of its frame.
pub fn decode_request(bytes: &[u8]) -> (out: Result<DecodedRequest, String>)
    ensures
        match decoded_request(bytes@) {
            Ok(r) => out is Ok && out->Ok_0@ == r,
            Err(m) => out is Err && out->Err_0@ == m,
        },
{
    if bytes.len() < REQUEST_HEADER_BYTES {
        return Err("converter helper request header is truncated".to_owned());
    }
    if !begins_with(bytes, 80, 77, 67, 82) {
        return Err("converter helper request has bad magic".to_owned());
    }
    let version: u32 = match read_u32(bytes, 4) {
        Ok(x) => x,
        Err(e) => {
            return Err(e);
        },
    };
    if version != PROTOCOL_VERSION {
        let mut m = "unsupported converter helper protocol version ".to_owned();
        m.append(decimal_text(version as u128).as_str());
        return Err(m);
    }
    let op: u32 = match read_u32(bytes, 8) {
        Ok(x) => x,
        Err(e) => {
            return Err(e);
        },
    };
    let flags: u32 = match read_u32(bytes, 12) {
        Ok(x) => x,
        Err(e) => {
            return Err(e);
        },
    };
    let globals_len: usize = match read_u32(bytes, 16) {
        Ok(x) => x as usize,
        Err(e) => {
            return Err(e);
        },
    };
    let body_len: usize = match read_u32(bytes, 20) {
        Ok(x) => x as usize,
        Err(e) => {
            return Err(e);
        },
    };
    let payload_len: usize = match globals_len.checked_add(body_len) {
        None => {
            return Err("converter helper request length overflow".to_owned());
        },
        Some(n) => n,
    };
    if payload_len > MAX_CONVERTER_INPUT_BYTES {
        let mut m = "converter helper request exceeds the ".to_owned();
        m.append(decimal_text(MAX_CONVERTER_INPUT_BYTES as u128).as_str());
        m.append("-byte safety cap");
        return Err(m);
    }
    let expected: usize = REQUEST_HEADER_BYTES + payload_len;
    if bytes.len() != expected {
        let mut m = "converter helper request length mismatch: expected ".to_owned();
        m.append(decimal_text(expected as u128).as_str());
        m.append(", got ");
        m.append(decimal_text(bytes.len() as u128).as_str());
        return Err(m);
    }
    assert(flags & !3u32 != 0 <==> flags > 3) by (bit_vector);
    if flags & !ALLOWED_FLAGS != 0 {
        return Err("converter helper request has unknown flags".to_owned());
    }
    assert(flags <= 3 ==> ((flags & 2 != 0) <==> flags / 2 == 1)) by (bit_vector);
    assert(flags <= 3 ==> ((flags & 1 != 0) <==> flags % 2 == 1)) by (bit_vector);
    if op == OP_PROBE {
        if flags == 0 && payload_len == 0 {
            Ok(DecodedRequest::Probe)
        } else {
            Err("converter helper probe carries unexpected payload".to_owned())
        }
    } else if op == OP_CONVERT {
        let body_start: usize = REQUEST_HEADER_BYTES + globals_len;
        let globals: String = match text_of_utf8(
            slice_subrange(bytes, REQUEST_HEADER_BYTES, body_start),
        ) {
            Some(s) => s,
            None => {
                return Err("converter globals are not UTF-8".to_owned());
            },
        };
        let tail = slice_subrange(bytes, body_start, bytes.len());
        assert(tail@ =~= bytes@.skip(body_start as int));
        let body: String = match text_of_utf8(tail) {
            Some(s) => s,
            None => {
                return Err("converter body is not UTF-8".to_owned());
            },
        };
        let globals_present: bool = flags & FLAG_GLOBALS_PRESENT != 0;
        if !globals_present && globals_len != 0 {
            return Err("converter globals payload lacks its presence flag".to_owned());
        }
        Ok(
            DecodedRequest::Convert(
                DecodedConvertRequest {
                    file_globals: if globals_present {
                        Some(globals)
                    } else {
                        None
                    },
                    body,
                    optimize: flags & FLAG_OPTIMIZE != 0,
                },
            ),
        )
    } else {
        let mut m = "unknown converter helper operation ".to_owned();
        m.append(decimal_text(op as u128).as_str());
        Err(m)
    }
}

// ---------------------------------------------------------------------------
// Encoding and decoding a response
// ---------------------------------------------------------------------------
/// The outcome of a conversion as texts.
pub open spec fn outcome(r: Result<String, String>) -> Result<Seq<char>, Seq<char>> {
    match r {
        Ok(s) => Ok(s@),
        Err(e) => Err(e@),
    }
}

/// The report of an output of `n` bytes, which is too long to send.
pub open spec fn output_size_error(n: nat) -> Seq<char> {
    "native converter output is "@ + text::decimal(n) + " bytes, exceeding the "@ + text::decimal(
        MAX_CONVERTER_OUTPUT_BYTES as nat,
    ) + "-byte safety cap"@
}

/// The outcome that a response carries: an output that is too long becomes an
/// error, and an error is cut to the cap.
pub open spec fn carried(r: Result<Seq<char>, Seq<char>>) -> Result<Seq<char>, Seq<char>> {
    match r {
        Ok(s) => if encode_utf8(s).len() <= MAX_CONVERTER_OUTPUT_BYTES {
            Ok(s)
        } else {
            Err(output_size_error(encode_utf8(s).len()))
        },
        Err(e) => Err(utf8::truncated(e, MAX_CONVERTER_OUTPUT_BYTES as nat)),
    }
}

/// A frame of the given status and payload.
pub open spec fn response_frame(status: int, payload: Seq<u8>) -> Seq<u8> {
    response_magic() + le32(PROTOCOL_VERSION as int) + le32(status) + le32(payload.len() as int)
        + payload
}

/// The frame of an outcome.
pub open spec fn response_bytes(r: Result<Seq<char>, Seq<char>>) -> Seq<u8> {
    match carried(r) {
        Ok(s) => response_frame(0, encode_utf8(s)),
        Err(e) => response_frame(1, encode_utf8(e)),
    }
}

/// The report of an output that is too long is itself short.
proof fn lemma_output_size_error_len(n: nat)
    requires
        n <= u64::MAX,
    ensures
        encode_utf8(output_size_error(n)).len() <= MAX_CONVERTER_OUTPUT_BYTES,
{
    reveal_with_fuel(text::power_of_ten, 21);
    text::lemma_decimal_len(n, 20);
    text::lemma_decimal_len(MAX_CONVERTER_OUTPUT_BYTES as nat, 20);
    reveal_strlit("native converter output is ");
    reveal_strlit(" bytes, exceeding the ");
    reveal_strlit("-byte safety cap");
    utf8::lemma_encode_len(output_size_error(n));
}

/// Every payload that a response carries keeps to the cap.
proof fn lemma_carried_len(r: Result<Seq<char>, Seq<char>>)
    requires
        r matches Ok(s) ==> encode_utf8(s).len() <= u64::MAX,
    ensures
        match carried(r) {
            Ok(s) => encode_utf8(s).len() <= MAX_CONVERTER_OUTPUT_BYTES,
            Err(e) => encode_utf8(e).len() <= MAX_CONVERTER_OUTPUT_BYTES,
        },
{
    match r {
        Ok(s) => if encode_utf8(s).len() > MAX_CONVERTER_OUTPUT_BYTES {
            lemma_output_size_error_len(encode_utf8(s).len());
        },
        Err(e) => {
            utf8::lemma_truncated_fits(e, MAX_CONVERTER_OUTPUT_BYTES as nat);
        },
    }
}

/// Frames the outcome of a conversion.
pub fn encode_response(result: Result<String, String>) -> (out: Vec<u8>)
    ensures
        out@ == response_bytes(outcome(result)),
{
    let ghost r = outcome(result);
    let (status, payload): (u32, String) = match result {
        Ok(payload) => {
            let n: usize = payload.as_str().as_bytes().len();
            proof {
                lemma_carried_len(r);
            }
            if n <= MAX_CONVERTER_OUTPUT_BYTES {
                (0, payload)
            } else {
                let mut m = "native converter output is ".to_owned();
                m.append(decimal_text(n as u128).as_str());
                m.append(" bytes, exceeding the ");
                m.append(decimal_text(MAX_CONVERTER_OUTPUT_BYTES as u128).as_str());
                m.append("-byte safety cap");
                assert(m@ =~= output_size_error(n as nat));
                (1, m)
            }
        },
        Err(error) => {
            proof {
                lemma_carried_len(r);
            }
            (1, truncate_utf8(error, MAX_CONVERTER_OUTPUT_BYTES))
        },
    };
    let payload_bytes = payload.as_str().as_bytes();
    assert(payload_bytes@ == encode_utf8(payload@));
    let mut bytes: Vec<u8> = Vec::new();
    bytes.push(80);
    bytes.push(77);
    bytes.push(67);
    bytes.push(83);
    assert(bytes@ =~= response_magic());
    push_u32(&mut bytes, PROTOCOL_VERSION);
    push_u32(&mut bytes, status);
    push_u32(&mut bytes, payload_bytes.len() as u32);
    push_bytes(&mut bytes, payload_bytes);
    bytes
}

/// What the host makes of a response: the outcome it carries, or why it is
/// refused.
pub open spec fn decoded_response(b: Seq<u8>) -> Result<Seq<char>, Seq<char>> {
    let status = le32_at(b, 8);
    let payload_len = le32_at(b, 12);
    let payload = b.skip(RESPONSE_HEADER_BYTES as int);
    if b.len() < RESPONSE_HEADER_BYTES {
        Err("native converter helper returned a truncated response"@)
    } else if b.take(4) != response_magic() {
        Err("native converter helper returned bad response magic"@)
    } else if le32_at(b, 4) != PROTOCOL_VERSION {
        Err(
            "native converter helper returned unsupported protocol version "@ + text::decimal(
                le32_at(b, 4) as nat,
            ),
        )
    } else if payload_len > MAX_CONVERTER_OUTPUT_BYTES || b.len() != RESPONSE_HEADER_BYTES
        + payload_len {
        Err("native converter helper returned an invalid payload length"@)
    } else if !valid_utf8(payload) {
        Err("native converter helper returned non-UTF-8 output"@)
    } else if status == 0 {
        Ok(decode_utf8(payload))
    } else if status == 1 {
        Err(decode_utf8(payload))
    } else {
        Err("native converter helper returned unknown status "@ + text::decimal(status as nat))
    }
}

/// Takes the outcome of a conversion out of its frame.
pub fn decode_response(bytes: &[u8]) -> (out: Result<String, String>)
    ensures
        outcome(out) == decoded_response(bytes@),
{
    if bytes.len() < RESPONSE_HEADER_BYTES {
        return Err("native converter helper returned a truncated response".to_owned());
    }
    if !begins_with(bytes, 80, 77, 67, 83) {
        return Err("native converter helper returned bad response magic".to_owned());
    }
    let version: u32 = match read_u32(bytes, 4) {
        Ok(x) => x,
        Err(e) => {
            return Err(e);
        },
    };
    if version != PROTOCOL_VERSION {
        let mut m = "native converter helper returned unsupported protocol version ".to_owned();
        m.append(decimal_text(version as u128).as_str());
        return Err(m);
    }
    let status: u32 = match read_u32(bytes, 8) {
        Ok(x) => x,
        Err(e) => {
            return Err(e);
        },
    };
    let payload_len: usize = match read_u32(bytes, 12) {
        Ok(x) => x as usize,
        Err(e) => {
            return Err(e);
        },
    };
    if payload_len > MAX_CONVERTER_OUTPUT_BYTES || bytes.len() != RESPONSE_HEADER_BYTES
        + payload_len {
        return Err("native converter helper returned an invalid payload length".to_owned());
    }
    let tail = slice_subrange(bytes, RESPONSE_HEADER_BYTES, bytes.len());
    assert(tail@ =~= bytes@.skip(RESPONSE_HEADER_BYTES as int));
    let payload: String = match text_of_utf8(tail) {
        Some(s) => s,
        None => {
            return Err("native converter helper returned non-UTF-8 output".to_owned());
        },
    };
    if status == 0 {
        Ok(payload)
    } else if status == 1 {
        Err(payload)
    } else {
        let mut m = "native converter helper returned unknown status ".to_owned();
        m.append(decimal_text(status as u128).as_str());
        Err(m)
    }
}

// ---------------------------------------------------------------------------
// Laws
// ---------------------------------------------------------------------------
/// The header of a request frame, field by field.
proof fn lemma_request_header(op: int, flags: int, globals: Seq<u8>, body: Seq<u8>)
    requires
        0 <= op <= u32::MAX,
        0 <= flags <= u32::MAX,
        globals.len() <= u32::MAX,
        body.len() <= u32::MAX,
    ensures
        ({
            let b = request_frame(op, flags, globals, body);
            &&& b.len() == REQUEST_HEADER_BYTES + globals.len() + body.len()
            &&& b.take(4) == request_magic()
            &&& le32_at(b, 4) == PROTOCOL_VERSION
            &&& le32_at(b, 8) == op
            &&& le32_at(b, 12) == flags
            &&& le32_at(b, 16) == globals.len()
            &&& le32_at(b, 20) == body.len()
        }),
{
    let b = request_frame(op, flags, globals, body);
    assert(b.take(4) =~= request_magic());
    assert(b.subrange(4, 8) =~= le32(PROTOCOL_VERSION as int));
    assert(b.subrange(8, 12) =~= le32(op));
    assert(b.subrange(12, 16) =~= le32(flags));
    assert(b.subrange(16, 20) =~= le32(globals.len() as int));
    assert(b.subrange(20, 24) =~= le32(body.len() as int));
    lemma_le32(b, 4, PROTOCOL_VERSION as int);
    lemma_le32(b, 8, op);
    lemma_le32(b, 12, flags);
    lemma_le32(b, 16, globals.len() as int);
    lemma_le32(b, 20, body.len() as int);
}

/// The texts of a request frame behind its header.
proof fn lemma_request_payload(op: int, flags: int, globals: Seq<u8>, body: Seq<u8>)
    ensures
        ({
            let b = request_frame(op, flags, globals, body);
            &&& b.subrange(24, 24int + globals.len()) == globals
            &&& b.skip(24int + globals.len()) == body
        }),
{
    let b = request_frame(op, flags, globals, body);
    assert(b.subrange(24, 24int + globals.len()) =~= globals);
    assert(b.skip(24int + globals.len()) =~= body);
}

/// A framed text comes out as it went in.
proof fn lemma_text_roundtrip(s: Seq<char>)
    ensures
        valid_utf8(encode_utf8(s)),
        decode_utf8(encode_utf8(s)) == s,
{
    encode_utf8_valid_utf8(s);
    encode_utf8_decode_utf8(s);
}

/// Every request within the input cap comes out of its frame as it went in.
#[verifier::spinoff_prover]
pub proof fn law_request_roundtrip(r: RequestView)
    requires
        request_size(r) <= MAX_CONVERTER_INPUT_BYTES,
    ensures
        decoded_request(request_bytes(r)) == Ok::<RequestView, Seq<char>>(r),
{
    match r {
        RequestView::Probe => {
            lemma_request_header(OP_PROBE as int, 0, Seq::empty(), Seq::empty());
        },
        RequestView::Convert { file_globals, body, optimize } => {
            let flags = convert_flags(file_globals is Some, optimize);
            let globals = globals_bytes(file_globals);
            lemma_request_header(OP_CONVERT as int, flags, globals, encode_utf8(body));
            lemma_request_payload(OP_CONVERT as int, flags, globals, encode_utf8(body));
            lemma_text_roundtrip(body);
            match file_globals {
                Some(g) => {
                    lemma_text_roundtrip(g);
                },
                None => {
                    lemma_text_roundtrip(Seq::empty());
                },
            }
        },
    }
}

/// A frame is taken for a request only where it is, byte for byte, the frame of
/// that request.
#[verifier::spinoff_prover]
pub proof fn law_accepted_request_is_a_whole_frame(b: Seq<u8>)
    requires
        decoded_request(b) is Ok,
    ensures
        b == request_bytes(decoded_request(b)->Ok_0),
{
    let globals_len = le32_at(b, 16);
    let globals = b.subrange(24, 24 + globals_len);
    let body = b.skip(24 + globals_len);
    lemma_le32_inverse(b, 4);
    lemma_le32_inverse(b, 8);
    lemma_le32_inverse(b, 12);
    lemma_le32_inverse(b, 16);
    lemma_le32_inverse(b, 20);
    let head = b.take(4) + b.subrange(4, 8) + b.subrange(8, 12) + b.subrange(12, 16) + b.subrange(
        16,
        20,
    ) + b.subrange(20, 24);
    assert(b =~= head + globals + body);
    match decoded_request(b)->Ok_0 {
        RequestView::Probe => {
            assert(globals =~= Seq::<u8>::empty());
            assert(body =~= Seq::<u8>::empty());
        },
        RequestView::Convert { file_globals, body: text, optimize } => {
            decode_utf8_encode_utf8(globals);
            decode_utf8_encode_utf8(body);
            if file_globals is None {
                assert(globals =~= Seq::<u8>::empty());
            }
        },
    }
}

/// Every response comes out of its frame as it went in, up to the caps: a
/// success stays a success, and a failure stays a failure with its message.
#[verifier::spinoff_prover]
pub proof fn law_response_roundtrip(r: Result<Seq<char>, Seq<char>>)
    requires
        r matches Ok(s) ==> encode_utf8(s).len() <= u64::MAX,
    ensures
        decoded_response(response_bytes(r)) == carried(r),
{
    lemma_carried_len(r);
    let b = response_bytes(r);
    let (status, payload) = match carried(r) {
        Ok(s) => (0int, s),
        Err(e) => (1int, e),
    };
    let bytes = encode_utf8(payload);
    assert(b == response_frame(status, bytes));
    assert(b.take(4) =~= response_magic());
    assert(b.subrange(4, 8) =~= le32(PROTOCOL_VERSION as int));
    assert(b.subrange(8, 12) =~= le32(status));
    assert(b.subrange(12, 16) =~= le32(bytes.len() as int));
    lemma_le32(b, 4, PROTOCOL_VERSION as int);
    lemma_le32(b, 8, status);
    lemma_le32(b, 12, bytes.len() as int);
    assert(b.skip(16) =~= bytes);
    encode_utf8_valid_utf8(payload);
    encode_utf8_decode_utf8(payload);
}

/// An error that fits under the cap reaches the host unchanged, as an error.
pub proof fn law_error_response_is_fail_closed(e: Seq<char>)
    requires
        encode_utf8(e).len() <= MAX_CONVERTER_OUTPUT_BYTES,
    ensures
        decoded_response(response_bytes(Err(e))) == Err::<Seq<char>, Seq<char>>(e),
{
    law_response_roundtrip(Err(e));
}

/// A frame is taken for a success only where it is, byte for byte, the frame of
/// that success.
#[verifier::spinoff_prover]
pub proof fn law_success_is_a_whole_frame(b: Seq<u8>)
    requires
        decoded_response(b) is Ok,
    ensures
        b == response_frame(0, encode_utf8(decoded_response(b)->Ok_0)),
{
    let payload = b.skip(16);
    decode_utf8_encode_utf8(payload);
    lemma_le32_inverse(b, 4);
    lemma_le32_inverse(b, 8);
    lemma_le32_inverse(b, 12);
    let head = b.take(4) + b.subrange(4, 8) + b.subrange(8, 12) + b.subrange(12, 16);
    assert(b =~= head + payload);
}

/// A number is framed as four bytes, the lowest first.
pub proof fn law_numbers_are_little_endian(x: int, b: Seq<u8>, at: int)
    requires
        0 <= x <= u32::MAX,
        0 <= at,
        at + 4 <= b.len(),
    ensures
        le32(x).len() == 4,
        le32(x)[0] + 256 * (le32(x)[1] + 256 * (le32(x)[2] + 256 * le32(x)[3])) == x,
        le32_at(b, at) == b[at] + 256 * (b[at + 1] + 256 * (b[at + 2] + 256 * b[at + 3])),
{
}

/// The flags of a conversion, as bits: the lowest asks for the optimiser, the next
/// says that globals follow, and no other is set.
pub proof fn law_flags_of_a_conversion(globals_present: bool, optimize: bool)
    ensures
        0 <= convert_flags(globals_present, optimize) < 4,
        convert_flags(globals_present, optimize) % 2 == 1 <==> optimize,
        convert_flags(globals_present, optimize) >= 2 <==> globals_present,
{
}

/// How a request lies in its frame: the letters `PMCR`, then as little-endian numbers
/// the version, which is one, the operation, the flags and the lengths of the two
/// texts in bytes, and then the texts, the globals before the body.
#[verifier::spinoff_prover]
pub proof fn law_layout_of_a_request(r: RequestView)
    requires
        request_size(r) <= 1048576,
    ensures
        ({
            let b = request_bytes(r);
            let (op, flags, globals, body) = match r {
                RequestView::Probe => (0int, 0int, Seq::<u8>::empty(), Seq::<u8>::empty()),
                RequestView::Convert { file_globals, body, optimize } => (
                    1int,
                    (if optimize {
                        1int
                    } else {
                        0
                    }) + (if file_globals is Some {
                        2int
                    } else {
                        0
                    }),
                    (match file_globals {
                        Some(g) => encode_utf8(g),
                        None => Seq::empty(),
                    }),
                    encode_utf8(body),
                ),
            };
            let field = |at: int| b[at] + 256 * b[at + 1] + 65536 * b[at + 2] + 16777216 * b[at + 3];
            &&& b.len() == 24 + globals.len() + body.len()
            &&& b[0] == 80 && b[1] == 77 && b[2] == 67 && b[3] == 82
            &&& field(4) == 1
            &&& field(8) == op
            &&& field(12) == flags
            &&& field(16) == globals.len()
            &&& field(20) == body.len()
            &&& b.subrange(24, 24 + globals.len() as int) == globals
            &&& b.skip(24 + globals.len() as int) == body
        }),
{
    let (op, flags, globals, body) = match r {
        RequestView::Probe => (0int, 0int, Seq::<u8>::empty(), Seq::<u8>::empty()),
        RequestView::Convert { file_globals, body, optimize } => (
            1int,
            convert_flags(file_globals is Some, optimize),
            globals_bytes(file_globals),
            encode_utf8(body),
        ),
    };
    let b = request_bytes(r);
    assert(b == request_frame(op, flags, globals, body));
    lemma_request_header(op, flags, globals, body);
    lemma_request_payload(op, flags, globals, body);
    let head = b.take(4);
    assert(head[0] == b[0] && head[1] == b[1] && head[2] == b[2] && head[3] == b[3]);
}

/// How an outcome lies in its frame: the letters `PMCS`, then as little-endian
/// numbers the version, which is one, the status, which is zero for a success and one
/// for a failure, and the length of the text in bytes, and then the text.
#[verifier::spinoff_prover]
pub proof fn law_layout_of_a_response(r: Result<Seq<char>, Seq<char>>)
    requires
        r matches Ok(s) ==> encode_utf8(s).len() <= u64::MAX,
    ensures
        ({
            let b = response_bytes(r);
            let (status, text) = match carried(r) {
                Ok(s) => (0int, encode_utf8(s)),
                Err(e) => (1int, encode_utf8(e)),
            };
            let field = |at: int| b[at] + 256 * b[at + 1] + 65536 * b[at + 2] + 16777216 * b[at + 3];
            &&& b.len() == 16 + text.len()
            &&& b[0] == 80 && b[1] == 77 && b[2] == 67 && b[3] == 83
            &&& field(4) == 1
            &&& field(8) == status
            &&& field(12) == text.len()
            &&& b.skip(16) == text
        }),
{
    lemma_carried_len(r);
    let b = response_bytes(r);
    let (status, payload) = match carried(r) {
        Ok(s) => (0int, encode_utf8(s)),
        Err(e) => (1int, encode_utf8(e)),
    };
    assert(b == response_frame(status, payload));
    let head = b.take(4);
    assert(head =~= response_magic());
    assert(head[0] == b[0] && head[1] == b[1] && head[2] == b[2] && head[3] == b[3]);
    assert(b.subrange(4, 8) =~= le32(1));
    assert(b.subrange(8, 12) =~= le32(status));
    assert(b.subrange(12, 16) =~= le32(payload.len() as int));
    lemma_le32(b, 4, 1);
    lemma_le32(b, 8, status);
    lemma_le32(b, 12, payload.len() as int);
    assert(b.skip(16) =~= payload);
}

/// What a response carries: a success of at most eight mebibytes as it is, a longer
/// one as a failure that gives its length, and a failure with the longest beginning
/// of its message that keeps to the same cap.
pub proof fn law_response_keeps_to_its_cap(r: Result<Seq<char>, Seq<char>>)
    requires
        r matches Ok(s) ==> encode_utf8(s).len() <= u64::MAX,
    ensures
        r matches Ok(s) ==> (encode_utf8(s).len() <= 8388608 ==> carried(r) == r),
        r matches Ok(s) ==> (encode_utf8(s).len() > 8388608 ==> carried(r) == Err::<
            Seq<char>,
            Seq<char>,
        >(
            "native converter output is "@ + text::decimal(encode_utf8(s).len())
                + " bytes, exceeding the 8388608-byte safety cap"@,
        )),
        r matches Err(e) ==> (encode_utf8(e).len() <= 8388608 ==> carried(r) == r),
        r matches Err(e) ==> (carried(r) matches Err(m) && encode_utf8(m).len() <= 8388608
            && m.len() <= e.len() && m == e.take(m.len() as int) && (m.len() < e.len()
            ==> encode_utf8(e.take(m.len() as int + 1)).len() > 8388608)),
{
    match r {
        Ok(s) => {
            if encode_utf8(s).len() > 8388608 {
                lemma_cap_in_decimal();
                assert(output_size_error(encode_utf8(s).len()) =~= "native converter output is "@
                    + text::decimal(encode_utf8(s).len())
                    + " bytes, exceeding the 8388608-byte safety cap"@) by {
                    reveal_strlit(" bytes, exceeding the ");
                    reveal_strlit("-byte safety cap");
                    reveal_strlit("8388608");
                    reveal_strlit(" bytes, exceeding the 8388608-byte safety cap");
                }
            }
        },
        Err(e) => {
            utf8::law_truncated_is_the_longest_that_fits(e, 8388608);
        },
    }
}

/// The two caps in decimal.
proof fn lemma_cap_in_decimal()
    ensures
        text::decimal(8388608) == "8388608"@,
        text::decimal(1048576) == "1048576"@,
{
    reveal_with_fuel(text::decimal, 8);
    reveal_strlit("8388608");
    reveal_strlit("1048576");
    assert(text::decimal(8388608) =~= "8388608"@);
    assert(text::decimal(1048576) =~= "1048576"@);
}

/// Texts of more than a mebibyte are refused, with their length as long as that can
/// be counted, and no others are.
pub proof fn law_input_keeps_to_its_cap(total: nat)
    ensures
        total <= 1048576 ==> input_size_error(total) is None,
        total > usize::MAX ==> input_size_error(total) == Some(
            "native converter input length overflow"@,
        ),
        1048576 < total <= usize::MAX ==> input_size_error(total) == Some(
            "native converter input is "@ + text::decimal(total)
                + " bytes, exceeding the 1048576-byte safety cap"@,
        ),
{
    if 1048576 < total <= usize::MAX {
        lemma_cap_in_decimal();
        reveal_strlit(" bytes, exceeding the ");
        reveal_strlit("-byte safety cap");
        reveal_strlit("1048576");
        reveal_strlit(" bytes, exceeding the 1048576-byte safety cap");
        assert(input_size_error(total)->0 =~= "native converter input is "@ + text::decimal(total)
            + " bytes, exceeding the 1048576-byte safety cap"@);
    }
}

/// The texts of a request take their bytes together, and a probe has none.
pub proof fn law_size_of_a_request(r: RequestView)
    ensures
        r is Probe ==> request_size(r) == 0,
        r matches RequestView::Convert { file_globals: Some(g), body, .. } ==> request_size(r)
            == encode_utf8(g).len() + encode_utf8(body).len(),
        r matches RequestView::Convert { file_globals: None, body, .. } ==> request_size(r)
            == encode_utf8(body).len(),
{
}

/// What is no request, and why: the first of these faults is reported.
pub proof fn law_faults_of_a_request(b: Seq<u8>)
    ensures
        ({
            let field = |at: int| b[at] + 256 * b[at + 1] + 65536 * b[at + 2] + 16777216 * b[at + 3];
            let fault = |m: Seq<char>| decoded_request(b) == Err::<RequestView, Seq<char>>(m);
            let texts = field(16) + field(20);
            if b.len() < 24 {
                fault("converter helper request header is truncated"@)
            } else if !(b[0] == 80 && b[1] == 77 && b[2] == 67 && b[3] == 82) {
                fault("converter helper request has bad magic"@)
            } else if field(4) != 1 {
                fault(
                    "unsupported converter helper protocol version "@ + text::decimal(
                        field(4) as nat,
                    ),
                )
            } else if texts > usize::MAX {
                fault("converter helper request length overflow"@)
            } else if texts > 1048576 {
                fault("converter helper request exceeds the 1048576-byte safety cap"@)
            } else if b.len() != 24 + texts {
                fault(
                    "converter helper request length mismatch: expected "@ + text::decimal(
                        (24 + texts) as nat,
                    ) + ", got "@ + text::decimal(b.len()),
                )
            } else if field(12) > 3 {
                fault("converter helper request has unknown flags"@)
            } else if field(8) == 0 && (field(12) != 0 || texts != 0) {
                fault("converter helper probe carries unexpected payload"@)
            } else if field(8) == 0 {
                decoded_request(b) == Ok::<RequestView, Seq<char>>(RequestView::Probe)
            } else if field(8) != 1 {
                fault("unknown converter helper operation "@ + text::decimal(field(8) as nat))
            } else if !valid_utf8(b.subrange(24, 24 + field(16))) {
                fault("converter globals are not UTF-8"@)
            } else if !valid_utf8(b.skip(24 + field(16))) {
                fault("converter body is not UTF-8"@)
            } else if field(12) < 2 && field(16) != 0 {
                fault("converter globals payload lacks its presence flag"@)
            } else {
                decoded_request(b) matches Ok(RequestView::Convert {
                    file_globals,
                    body,
                    optimize,
                }) && {
                    &&& body == decode_utf8(b.skip(24 + field(16)))
                    &&& (file_globals is Some <==> field(12) >= 2)
                    &&& (file_globals matches Some(g) ==> g == decode_utf8(
                        b.subrange(24, 24 + field(16)),
                    ))
                    &&& (optimize <==> field(12) % 2 == 1)
                }
            }
        }),
{
    if b.len() >= 24 {
        let head = b.take(4);
        assert(head[0] == b[0] && head[1] == b[1] && head[2] == b[2] && head[3] == b[3]);
        if b[0] == 80 && b[1] == 77 && b[2] == 67 && b[3] == 82 {
            assert(head =~= request_magic());
        } else {
            let m = request_magic();
            assert(m[0] == 80 && m[1] == 77 && m[2] == 67 && m[3] == 82);
        }
        lemma_cap_in_decimal();
        reveal_strlit("converter helper request exceeds the ");
        reveal_strlit("1048576");
        reveal_strlit("-byte safety cap");
        reveal_strlit("converter helper request exceeds the 1048576-byte safety cap");
        assert("converter helper request exceeds the "@ + "1048576"@ + "-byte safety cap"@
            =~= "converter helper request exceeds the 1048576-byte safety cap"@);
    }
}

/// What is no response, and why: the first of these faults is reported.
pub proof fn law_faults_of_a_response(b: Seq<u8>)
    ensures
        ({
            let field = |at: int| b[at] + 256 * b[at + 1] + 65536 * b[at + 2] + 16777216 * b[at + 3];
            let fault = |m: Seq<char>| decoded_response(b) == Err::<Seq<char>, Seq<char>>(m);
            if b.len() < 16 {
                fault("native converter helper returned a truncated response"@)
            } else if !(b[0] == 80 && b[1] == 77 && b[2] == 67 && b[3] == 83) {
                fault("native converter helper returned bad response magic"@)
            } else if field(4) != 1 {
                fault(
                    "native converter helper returned unsupported protocol version "@
                        + text::decimal(field(4) as nat),
                )
            } else if field(12) > 8388608 || b.len() != 16 + field(12) {
                fault("native converter helper returned an invalid payload length"@)
            } else if !valid_utf8(b.skip(16)) {
                fault("native converter helper returned non-UTF-8 output"@)
            } else if field(8) == 0 {
                decoded_response(b) == Ok::<Seq<char>, Seq<char>>(decode_utf8(b.skip(16)))
            } else if field(8) == 1 {
                fault(decode_utf8(b.skip(16)))
            } else {
                fault(
                    "native converter helper returned unknown status "@ + text::decimal(
                        field(8) as nat,
                    ),
                )
            }
        }),
{
    if b.len() >= 16 {
        let head = b.take(4);
        assert(head[0] == b[0] && head[1] == b[1] && head[2] == b[2] && head[3] == b[3]);
        if b[0] == 80 && b[1] == 77 && b[2] == 67 && b[3] == 83 {
            assert(head =~= response_magic());
        } else {
            let m = response_magic();
            assert(m[0] == 80 && m[1] == 77 && m[2] == 67 && m[3] == 83);
        }
    }
}

/// A request is seen as it is on both sides, with its texts and its setting, and so is
/// an outcome.
pub proof fn law_requests_and_outcomes_as_they_are(
    sent: Request<'_>,
    received: DecodedRequest,
    r: Result<String, String>,
)
    ensures
        sent is Probe <==> sent@ is Probe,
        received is Probe <==> received@ is Probe,
        sent matches Request::Convert { file_globals, body, optimize } ==> (
        sent@ matches RequestView::Convert { file_globals: g, body: b, optimize: o } && b == body@
            && o == optimize && (g is Some <==> file_globals is Some) && (file_globals matches Some(
            text,
        ) ==> g == Some(text@))),
        received matches DecodedRequest::Convert(c) ==> (received@ matches RequestView::Convert {
            file_globals: g,
            body: b,
            optimize: o,
        } && b == c.body@ && o == c.optimize && (g is Some <==> c.file_globals is Some) && (
        c.file_globals matches Some(text) ==> g == Some(text@))),
        r matches Ok(s) ==> outcome(r) == Ok::<Seq<char>, Seq<char>>(s@),
        r matches Err(e) ==> outcome(r) == Err::<Seq<char>, Seq<char>>(e@),
{
}

} // verus!
