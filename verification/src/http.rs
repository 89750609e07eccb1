//! The HTTP the panel speaks: request texts, response texts, chunked bodies and
//! query encoding.

use vstd::prelude::*;
use vstd::string::*;
use vstd::utf8::encode_utf8;

use crate::lang::{filled, pick, tr_two, Lang};
use crate::text::{
    begins, chars_of, cut_at, decimal, decimal_text, find, find_from, has_text, includes, lower,
    piece, split_once, to_lower, trim, trim_end_char, trim_prefixes, trimmed, without_prefixes,
    without_trailing, words, words_of,
};

verus! {

broadcast use crate::model::group_views;

// ── Chunked bodies ──────────────────────────────────────────────────────────

/// How many bytes UTF-8 takes for `c`.
pub open spec fn width(c: char) -> nat {
    let u = c as u32;
    if u < 0x80 {
        1
    } else if u < 0x800 {
        2
    } else if u < 0x10000 {
        3
    } else {
        4
    }
}

/// How many bytes UTF-8 takes for `s`.
pub open spec fn byte_len(s: Seq<char>) -> nat
    decreases s.len(),
{
    if s.len() == 0 {
        0
    } else {
        width(s[0]) + byte_len(s.drop_first())
    }
}

/// How many leading characters of `s` make up its first `n` bytes, or all of
/// it if it is shorter; nothing if byte `n` falls inside a character.
pub open spec fn chars_for(s: Seq<char>, n: nat) -> Option<int>
    decreases s.len(),
{
    if n == 0 || s.len() == 0 {
        Some(0)
    } else if width(s[0]) > n {
        None
    } else {
        match chars_for(s.drop_first(), (n - width(s[0])) as nat) {
            Some(k) => Some(k + 1),
            None => None,
        }
    }
}

/// The value of a hexadecimal digit.
pub open spec fn hex_digit(c: char) -> Option<nat> {
    if '0' <= c <= '9' {
        Some((c as u32 - '0' as u32) as nat)
    } else if 'a' <= c <= 'f' {
        Some((c as u32 - 'a' as u32 + 10) as nat)
    } else if 'A' <= c <= 'F' {
        Some((c as u32 - 'A' as u32 + 10) as nat)
    } else {
        None
    }
}

/// The value of a decimal digit.
pub open spec fn dec_digit(c: char) -> Option<nat> {
    if '0' <= c <= '9' {
        Some((c as u32 - '0' as u32) as nat)
    } else {
        None
    }
}

/// The number that the digits `s` write; nothing if one is no digit.
pub open spec fn digits_value(s: Seq<char>, hex: bool) -> Option<nat>
    decreases s.len(),
{
    if s.len() == 0 {
        Some(0)
    } else {
        let last = if hex {
            hex_digit(s.last())
        } else {
            dec_digit(s.last())
        };
        match (digits_value(s.drop_last(), hex), last) {
            (Some(n), Some(d)) => Some(
                n * (if hex {
                    16nat
                } else {
                    10nat
                }) + d,
            ),
            _ => None,
        }
    }
}

/// An unsigned number as text: at least one digit, with an optional plus sign.
pub open spec fn number_of(s: Seq<char>, hex: bool) -> Option<nat> {
    let d = if s.len() > 0 && s[0] == '+' {
        s.drop_first()
    } else {
        s
    };
    if d.len() == 0 {
        None
    } else {
        digits_value(d, hex)
    }
}

/// The part of a chunk-size line that holds the size.
pub open spec fn size_part(line: Seq<char>) -> Seq<char> {
    let at = find(line, ';');
    if at < line.len() {
        trimmed(line.take(at))
    } else {
        trimmed(line)
    }
}

/// The size a chunk-size line gives; 0 if it is no number or too large.
pub open spec fn chunk_size(line: Seq<char>) -> nat {
    match number_of(size_part(line), true) {
        Some(n) => if n <= usize::MAX {
            n
        } else {
            0
        },
        None => 0,
    }
}

/// `s` without a line ending at its front.
pub open spec fn after_crlf(s: Seq<char>) -> Seq<char> {
    if begins(s, "\r\n"@) {
        s.skip("\r\n"@.len() as int)
    } else {
        s
    }
}

/// The payload of a chunked body: `<hex size>[;ext]\r\n<data>\r\n` repeated, up
/// to a chunk of size 0. Nothing if a chunk ends inside a character.
pub open spec fn dechunked(s: Seq<char>) -> Option<Seq<char>>
    decreases s.len(),
{
    let at = find(s, '\n');
    if !(0 <= at < s.len()) {
        Some(Seq::empty())
    } else {
        let size = chunk_size(trim_end_char(s.take(at), '\r'));
        let rest = s.skip(at + 1);
        if size == 0 {
            Some(Seq::empty())
        } else {
            match chars_for(rest, size) {
                Some(k) => if 0 <= k <= rest.len() {
                    match dechunked(after_crlf(rest.skip(k))) {
                        Some(more) => Some(rest.take(k) + more),
                        None => None,
                    }
                } else {
                    None
                },
                None => None,
            }
        }
    }
}

fn char_width(c: char) -> (out: usize)
    ensures
        out == width(c),
{
    let u: u32 = c as u32;
    if u < 0x80 {
        1
    } else if u < 0x800 {
        2
    } else if u < 0x10000 {
        3
    } else {
        4
    }
}

fn digit_value(c: char, hex: bool) -> (out: Option<u32>)
    ensures
        match out {
            Some(d) => d < 16 && (if hex {
                hex_digit(c)
            } else {
                dec_digit(c)
            }) == Some(d as nat) && (!hex ==> d < 10),
            None => (if hex {
                hex_digit(c)
            } else {
                dec_digit(c)
            }) is None,
        },
{
    let u: u32 = c as u32;
    if '0' <= c && c <= '9' {
        Some(u - 48)
    } else if hex && 'a' <= c && c <= 'f' {
        Some(u - 97 + 10)
    } else if hex && 'A' <= c && c <= 'F' {
        Some(u - 65 + 10)
    } else {
        None
    }
}

/// An unsigned number up to `max`.
fn parse_number(s: &str, hex: bool, max: usize) -> (out: Option<usize>)
    ensures
        out == match number_of(s@, hex) {
            Some(n) => if n <= max {
                Some(n as usize)
            } else {
                None
            },
            None => None::<usize>,
        },
{
    let v = chars_of(s);
    let start: usize = if v.len() > 0 && v[0] == '+' {
        1
    } else {
        0
    };
    let ghost d = v@.skip(start as int);
    assert(start == 1 ==> d =~= v@.drop_first());
    assert(start == 0 ==> d =~= v@);
    if start == v.len() {
        return None;
    }
    let base: u128 = if hex {
        16
    } else {
        10
    };
    let mut value: usize = 0;
    let mut over = false;
    let mut i: usize = start;
    assert(d.take(0) =~= Seq::empty());
    while i < v.len()
        invariant
            start <= i <= v@.len(),
            d == v@.skip(start as int),
            base == (if hex {
                16u128
            } else {
                10u128
            }),
            value <= max,
            digits_value(d.take(i - start), hex) matches Some(n) && (if over {
                n > max
            } else {
                n == value
            }),
            number_of(s@, hex) == digits_value(d, hex),
        decreases v@.len() - i,
    {
        assert(d.take(i + 1 - start).drop_last() =~= d.take(i - start));
        assert(d.take(i + 1 - start).last() == v@[i as int]);
        match digit_value(v[i], hex) {
            Some(digit) => {
                let ghost n = digits_value(d.take(i - start), hex)->0;
                let wide: u128 = value as u128 * base + digit as u128;
                assert(n > max ==> n * 16 > max && n * 10 > max);
                if !over && wide <= max as u128 {
                    value = wide as usize;
                } else {
                    over = true;
                }
            },
            None => {
                proof {
                    lemma_bad_digit(d, hex, i - start);
                }
                return None;
            },
        }
        i += 1;
    }
    assert(d.take(i - start) =~= d);
    if over {
        None
    } else {
        Some(value)
    }
}

/// A text with something else than a digit in it writes no number.
proof fn lemma_bad_digit(s: Seq<char>, hex: bool, at: int)
    requires
        0 <= at < s.len(),
        (if hex {
            hex_digit(s[at])
        } else {
            dec_digit(s[at])
        }) is None,
    ensures
        digits_value(s, hex) is None,
    decreases s.len(),
{
    if at < s.len() - 1 {
        lemma_bad_digit(s.drop_last(), hex, at);
    }
}

/// The hexadecimal part of a chunk-size line, without extensions.
fn size_line_hex(line: &str) -> (out: String)
    ensures
        out@ == size_part(line@),
{
    let v = chars_of(line);
    assert(v@.skip(0) =~= v@);
    let at: usize = find_from(&v, 0, ';');
    if at < v.len() {
        let head = piece(&v, 0, at);
        assert(head@ =~= line@.take(at as int));
        trim(head.as_str())
    } else {
        trim(line)
    }
}

fn read_chunk_size(line: &str) -> (out: usize)
    ensures
        out == chunk_size(line@),
{
    match parse_number(size_line_hex(line).as_str(), true, usize::MAX) {
        Some(n) => n,
        None => 0,
    }
}

/// Index of the character behind the next `n` bytes from `from` on.
fn skip_bytes(v: &Vec<char>, from: usize, n: usize) -> (out: Option<usize>)
    requires
        from <= v@.len(),
    ensures
        match out {
            Some(end) => from <= end <= v@.len() && chars_for(v@.skip(from as int), n as nat) == Some(
                end - from,
            ),
            None => chars_for(v@.skip(from as int), n as nat) is None,
        },
{
    let mut at: usize = from;
    let mut left: usize = n;
    let ghost all = v@.skip(from as int);
    while left > 0 && at < v.len()
        invariant
            from <= at <= v@.len(),
            all == v@.skip(from as int),
            chars_for(all, n as nat) == match chars_for(v@.skip(at as int), left as nat) {
                Some(k) => Some(k + (at - from)),
                None => None,
            },
        decreases v@.len() - at,
    {
        let w: usize = char_width(v[at]);
        assert(v@.skip(at as int)[0] == v@[at as int]);
        if w > left {
            return None;
        }
        assert(v@.skip(at as int).drop_first() =~= v@.skip(at + 1));
        left = left - w;
        at += 1;
    }
    Some(at)
}

/// What stands at some place of a chunked body.
enum Chunk {
    /// The end of the payload.
    End,
    /// A chunk that ends inside a character.
    Broken,
    /// Data from `from` up to `to`; the next chunk is at `next`.
    Data { from: usize, to: usize, next: usize },
}

fn read_chunk(v: &Vec<char>, at: usize) -> (out: Chunk)
    requires
        at <= v@.len(),
    ensures
        match out {
            Chunk::End => dechunked(v@.skip(at as int)) == Some(Seq::<char>::empty()),
            Chunk::Broken => dechunked(v@.skip(at as int)) is None,
            Chunk::Data { from, to, next } => {
                &&& at < from <= to <= next <= v@.len()
                &&& dechunked(v@.skip(at as int)) == match dechunked(v@.skip(next as int)) {
                    Some(more) => Some(v@.subrange(from as int, to as int) + more),
                    None => None,
                }
            },
        },
{
    proof {
        reveal_strlit("\r\n");
        assert("\r\n"@ =~= seq!['\r', '\n']);
    }
    let total: usize = v.len();
    let ghost rest0 = v@.skip(at as int);
    let line_end: usize = find_from(v, at, '\n');
    if line_end == total {
        return Chunk::End;
    }
    let line = piece(v, at, line_end);
    assert(line@ =~= rest0.take(line_end - at));
    let size: usize = read_chunk_size(without_trailing(line.as_str(), '\r').as_str());
    let from: usize = line_end + 1;
    assert(rest0.skip(line_end - at + 1) =~= v@.skip(from as int));
    if size == 0 {
        return Chunk::End;
    }
    let ghost rest = v@.skip(from as int);
    let to: usize = match skip_bytes(v, from, size) {
        Some(to) => to,
        None => {
            return Chunk::Broken;
        },
    };
    let ghost tail = rest.skip(to - from);
    assert(tail =~= v@.skip(to as int));
    assert(rest.take(to - from) =~= v@.subrange(from as int, to as int));
    let crlf = total - to >= 2 && v[to] == '\r' && v[to + 1] == '\n';
    assert(crlf == begins(tail, "\r\n"@)) by {
        if crlf {
            assert(tail.take(2) =~= seq!['\r', '\n']);
        } else if begins(tail, "\r\n"@) {
            assert(tail.take(2)[0] == '\r');
            assert(tail.take(2)[1] == '\n');
        }
    }
    let next: usize = if crlf {
        to + 2
    } else {
        to
    };
    assert(after_crlf(tail) =~= v@.skip(next as int));
    Chunk::Data { from, to, next }
}

/// Decodes a chunked body, as far as its chunks end between characters.
fn decode_chunks(body: &str) -> (out: Option<String>)
    ensures
        out.deep_view() == dechunked(body@),
{
    let v = chars_of(body);
    let mut out = String::new();
    let mut at: usize = 0;
    assert(v@.skip(0) =~= v@);
    proof {
        if dechunked(v@) is Some {
            assert(out@ + dechunked(v@)->0 =~= dechunked(v@)->0);
        }
    }
    loop
        invariant
            v@ == body@,
            at <= v@.len(),
            dechunked(body@) == match dechunked(v@.skip(at as int)) {
                Some(more) => Some(out@ + more),
                None => None,
            },
        decreases v@.len() - at,
    {
        match read_chunk(&v, at) {
            Chunk::End => {
                assert(out@ + Seq::<char>::empty() =~= out@);
                return Some(out);
            },
            Chunk::Broken => {
                return None;
            },
            Chunk::Data { from, to, next } => {
                let data = piece(&v, from, to);
                let ghost before = out@;
                out.append(data.as_str());
                proof {
                    if dechunked(v@.skip(next as int)) is Some {
                        let more = dechunked(v@.skip(next as int))->0;
                        assert(out@ + more =~= before + (data@ + more));
                    }
                }
                at = next;
            },
        }
    }
}

/// Whether every chunk of `body` ends between two characters, so that it can be
/// decoded.
pub fn chunks_fit(body: &str) -> (r: bool)
    ensures
        r == (dechunked(body@) is Some),
{
    decode_chunks(body).is_some()
}

/// Decodes a chunked body.
pub fn dechunk(body: &str) -> (out: String)
    requires
        dechunked(body@) is Some,
    ensures
        Some(out@) == dechunked(body@),
{
    match decode_chunks(body) {
        Some(out) => out,
        None => String::new(),
    }
}

// ── Requests and responses ──────────────────────────────────────────────────

/// A request to the server.
#[derive(Debug, PartialEq)]
pub struct Request {
    pub method: String,
    pub path: String,
    pub body: Option<String>,
}

/// Model of [`Request`].
pub struct RequestV {
    pub method: Seq<char>,
    pub path: Seq<char>,
    pub body: Option<Seq<char>>,
}

impl DeepView for Request {
    type V = RequestV;

    open spec fn deep_view(&self) -> RequestV {
        RequestV { method: self.method@, path: self.path@, body: self.body.deep_view() }
    }
}

/// A response of the server, headers stripped.
#[derive(Debug, PartialEq)]
pub struct Response {
    pub status: u16,
    pub body: String,
}

/// Model of [`Response`].
pub struct ResponseV {
    pub status: u16,
    pub body: Seq<char>,
}

impl DeepView for Response {
    type V = ResponseV;

    open spec fn deep_view(&self) -> ResponseV {
        ResponseV { status: self.status, body: self.body@ }
    }
}

/// Host and port of an endpoint.
pub open spec fn host_of(endpoint: Seq<char>) -> Seq<char> {
    trim_end_char(trim_prefixes(endpoint, "http://"@), '/')
}

/// Host and port of an endpoint.
pub fn host_port(endpoint: &str) -> (out: String)
    ensures
        out@ == host_of(endpoint@),
{
    without_trailing(without_prefixes(endpoint, "http://").as_str(), '/')
}

/// The endpoint a user wrote, without white space around it and without
/// trailing slashes.
pub fn clean_endpoint(endpoint: &str) -> (out: String)
    ensures
        out@ == trim_end_char(trimmed(endpoint@), '/'),
{
    without_trailing(trim(endpoint).as_str(), '/')
}

/// The text of a request.
pub open spec fn request_of(req: RequestV, host: Seq<char>) -> Seq<char> {
    let payload = match req.body {
        Some(b) => b,
        None => ""@,
    };
    req.method + " "@ + req.path + " HTTP/1.1\r\nHost: "@ + host
        + "\r\nAccept: application/json\r\nContent-Type: application/json\r\nContent-Length: "@
        + decimal(encode_utf8(payload).len()) + "\r\nConnection: close\r\n\r\n"@ + payload
}

/// The text of a request, to be sent over a fresh connection.
pub fn request_text(req: &Request, host: &str) -> (out: String)
    ensures
        out@ == request_of(req.deep_view(), host@),
{
    let payload: &str = match &req.body {
        Some(b) => b.as_str(),
        None => "",
    };
    let mut out = req.method.clone();
    out.append(" ");
    out.append(req.path.as_str());
    out.append(" HTTP/1.1\r\nHost: ");
    out.append(host);
    out.append("\r\nAccept: application/json\r\nContent-Type: application/json\r\nContent-Length: ");
    let size: usize = payload.as_bytes().len();
    out.append(decimal_text(size as u64).as_str());
    out.append("\r\nConnection: close\r\n\r\n");
    out.append(payload);
    out
}

/// The text of the request that opens a session's event stream.
pub open spec fn events_request_of(session: Seq<char>, host: Seq<char>) -> Seq<char> {
    "GET /api/agent/"@ + session + "/events HTTP/1.1\r\nHost: "@ + host
        + "\r\nAccept: text/event-stream\r\nConnection: keep-alive\r\n\r\n"@
}

pub fn events_request(session: &str, host: &str) -> (out: String)
    ensures
        out@ == events_request_of(session@, host@),
{
    let mut out = "GET /api/agent/".to_owned();
    out.append(session);
    out.append("/events HTTP/1.1\r\nHost: ");
    out.append(host);
    out.append("\r\nAccept: text/event-stream\r\nConnection: keep-alive\r\n\r\n");
    out
}

/// The status code in a status line; 0 if there is none.
pub open spec fn status_of(line: Seq<char>) -> u16 {
    let w = words_of(line);
    if w.len() > 1 {
        match number_of(w[1], false) {
            Some(n) => if n <= u16::MAX {
                n as u16
            } else {
                0
            },
            None => 0,
        }
    } else {
        0
    }
}

/// Status line, headers and raw body of a response text.
pub open spec fn response_parts(out: Seq<char>) -> (Seq<char>, Seq<char>, Seq<char>) {
    let (line, rest) = match cut_at(out, "\r\n"@) {
        Some((a, b)) => (a, b),
        None => (out, Seq::empty()),
    };
    match cut_at(rest, "\r\n\r\n"@) {
        Some((h, b)) => (line, h, b),
        None => (line, rest, Seq::empty()),
    }
}

/// What a response text says; a chunked body is decoded. Nothing if a chunk
/// ends inside a character.
pub open spec fn response_of(out: Seq<char>) -> Option<ResponseV> {
    let (line, headers, raw) = response_parts(out);
    let body = if has_text(lower(headers), "transfer-encoding: chunked"@) {
        dechunked(raw)
    } else {
        Some(raw)
    };
    match body {
        Some(body) => Some(ResponseV { status: status_of(line), body }),
        None => None,
    }
}

fn read_status(line: &str) -> (out: u16)
    ensures
        out == status_of(line@),
{
    let w = words(line);
    if w.len() > 1 {
        assert(words_of(line@)[1] == w@[1]@);
        match parse_number(w[1].as_str(), false, 65535) {
            Some(n) => n as u16,
            None => 0,
        }
    } else {
        0
    }
}

/// The status, the headers and the raw body of a response text.
fn split_response(out: &str) -> (r: (u16, String, String))
    ensures
        r.0 == status_of(response_parts(out@).0),
        r.1@ == response_parts(out@).1,
        r.2@ == response_parts(out@).2,
{
    let (line, rest) = match split_once(out, "\r\n") {
        Some((a, b)) => (a, b),
        None => {
            let none = String::new();
            assert(none@ =~= Seq::empty());
            (out.to_owned(), none)
        },
    };
    match split_once(rest.as_str(), "\r\n\r\n") {
        Some((h, b)) => (read_status(line.as_str()), h, b),
        None => {
            let none = String::new();
            assert(none@ =~= Seq::empty());
            (read_status(line.as_str()), rest, none)
        },
    }
}

/// Whether a response text can be read: its chunks, if it has any, end between
/// characters.
pub fn response_fits(out: &str) -> (r: bool)
    ensures
        r == (response_of(out@) is Some),
{
    let (_, headers, raw) = split_response(out);
    if includes(to_lower(headers.as_str()).as_str(), "transfer-encoding: chunked") {
        chunks_fit(raw.as_str())
    } else {
        true
    }
}

/// Reads a response text.
pub fn parse_response(out: &str) -> (r: Response)
    requires
        response_of(out@) is Some,
    ensures
        Some(r.deep_view()) == response_of(out@),
{
    let (status, headers, raw) = split_response(out);
    let body = if includes(to_lower(headers.as_str()).as_str(), "transfer-encoding: chunked") {
        dechunk(raw.as_str())
    } else {
        raw
    };
    Response { status, body }
}

/// What is reported when no connection comes about.
pub fn connect_error(lang: Lang, host: &str, error: &str) -> (out: String)
    ensures
        out@ == filled(
            pick(lang, "连接 {host_port} 失败：{e}"@, "connection to {host_port} failed: {e}"@),
            seq![("host_port"@, host@), ("e"@, error@)],
        ),
{
    tr_two(
        lang,
        "连接 {host_port} 失败：{e}",
        "connection to {host_port} failed: {e}",
        "host_port",
        host,
        "e",
        error,
    )
}

// ── Query encoding ──────────────────────────────────────────────────────────

/// A byte that stands for itself in a query.
pub open spec fn plain_byte(b: u8) -> bool {
    ||| 'A' as u32 <= b as u32 <= 'Z' as u32
    ||| 'a' as u32 <= b as u32 <= 'z' as u32
    ||| '0' as u32 <= b as u32 <= '9' as u32
    ||| b as u32 == '-' as u32
    ||| b as u32 == '_' as u32
    ||| b as u32 == '.' as u32
    ||| b as u32 == '~' as u32
    ||| b as u32 == '/' as u32
}

/// The upper-case hexadecimal digit `n`.
pub open spec fn hex_upper(n: int) -> char {
    if n < 10 {
        ('0' as u32 + n) as char
    } else {
        ('A' as u32 + n - 10) as char
    }
}

/// One byte of a query: itself, or `%` and two digits.
pub open spec fn encoded_byte(b: u8) -> Seq<char> {
    if plain_byte(b) {
        seq![b as char]
    } else {
        seq!['%', hex_upper(b as int / 16), hex_upper(b as int % 16)]
    }
}

/// Bytes as they stand in a query.
pub open spec fn encoded(bytes: Seq<u8>) -> Seq<char>
    decreases bytes.len(),
{
    if bytes.len() == 0 {
        Seq::empty()
    } else {
        encoded_byte(bytes[0]) + encoded(bytes.drop_first())
    }
}

fn upper_digit(n: u8) -> (out: char)
    requires
        n < 16,
    ensures
        out == hex_upper(n as int),
{
    if n < 10 {
        (48 + n) as char
    } else {
        (65 + (n - 10)) as char
    }
}

/// Percent-encodes a value for a query string.
pub fn encode_query(value: &str) -> (out: String)
    ensures
        out@ == encoded(encode_utf8(value@)),
{
    let bytes = value.as_bytes();
    let ghost all = bytes@;
    let mut out = String::new();
    let mut i: usize = 0;
    assert(all.skip(0) =~= all);
    assert(out@ + encoded(all) =~= encoded(all));
    while i < bytes.len()
        invariant
            i <= bytes@.len(),
            all == bytes@,
            all == encode_utf8(value@),
            out@ + encoded(all.skip(i as int)) == encoded(all),
        decreases bytes@.len() - i,
    {
        let b: u8 = bytes[i];
        let ghost before = out@;
        assert(all.skip(i as int)[0] == b);
        assert(all.skip(i as int).drop_first() =~= all.skip(i + 1));
        let c = b as char;
        if ('A' <= c && c <= 'Z') || ('a' <= c && c <= 'z') || ('0' <= c && c <= '9') || c == '-'
            || c == '_' || c == '.' || c == '~' || c == '/' {
            assert(plain_byte(b));
            out.push(c);
            assert(out@ =~= before + encoded_byte(b));
        } else {
            assert(!plain_byte(b));
            out.push('%');
            out.push(upper_digit(b / 16));
            out.push(upper_digit(b % 16));
            assert(out@ =~= before + encoded_byte(b));
        }
        assert(out@ + encoded(all.skip(i + 1)) =~= before + encoded(all.skip(i as int)));
        i += 1;
    }
    assert(all.skip(i as int) =~= Seq::<u8>::empty());
    assert(out@ + Seq::<char>::empty() =~= out@);
    out
}

// ── Laws ────────────────────────────────────────────────────────────────────

/// Reads a percent-encoded query value.
pub open spec fn query_bytes(s: Seq<char>) -> Seq<u8>
    decreases s.len(),
{
    if s.len() == 0 {
        Seq::empty()
    } else if s[0] == '%' && s.len() >= 3 && hex_digit(s[1]) is Some && hex_digit(s[2]) is Some {
        seq![((hex_digit(s[1])->0) * 16 + (hex_digit(s[2])->0)) as u8] + query_bytes(s.skip(3))
    } else {
        seq![s[0] as u8] + query_bytes(s.drop_first())
    }
}

/// Reading an encoded query value gives the value's bytes back.
pub proof fn law_query_reads_back(bytes: Seq<u8>)
    ensures
        query_bytes(encoded(bytes)) == bytes,
    decreases bytes.len(),
{
    if bytes.len() > 0 {
        let b = bytes[0];
        let rest = bytes.drop_first();
        let s = encoded(bytes);
        law_query_reads_back(rest);
        if plain_byte(b) {
            assert(s.drop_first() =~= encoded(rest));
            assert(s[0] == b as char);
            assert(s[0] != '%');
            assert(s[0] as u8 == b);
        } else {
            assert(s.skip(3) =~= encoded(rest));
            assert(s[0] == '%' && s[1] == hex_upper(b as int / 16) && s[2] == hex_upper(
                b as int % 16,
            ));
            assert(hex_digit(s[1]) == Some((b as int / 16) as nat));
            assert(hex_digit(s[2]) == Some((b as int % 16) as nat));
        }
        assert(query_bytes(s) =~= bytes);
    } else {
        assert(query_bytes(encoded(bytes)) =~= bytes);
    }
}

/// A character that may stand in an encoded query value: none that would end
/// the value or split the request line.
pub open spec fn query_char(c: char) -> bool {
    ||| 'A' <= c <= 'Z'
    ||| 'a' <= c <= 'z'
    ||| '0' <= c <= '9'
    ||| c == '-'
    ||| c == '_'
    ||| c == '.'
    ||| c == '~'
    ||| c == '/'
    ||| c == '%'
}

/// An encoded query value consists of query characters only.
pub proof fn law_query_is_clean(bytes: Seq<u8>)
    ensures
        forall|i: int| 0 <= i < encoded(bytes).len() ==> query_char(#[trigger] encoded(bytes)[i]),
    decreases bytes.len(),
{
    if bytes.len() > 0 {
        law_query_is_clean(bytes.drop_first());
        let head = encoded_byte(bytes[0]);
        assert forall|i: int| 0 <= i < encoded(bytes).len() implies query_char(
            #[trigger] encoded(bytes)[i],
        ) by {
            if i < head.len() {
                assert(encoded(bytes)[i] == head[i]);
            } else {
                assert(encoded(bytes)[i] == encoded(bytes.drop_first())[i - head.len()]);
            }
        }
    }
}

/// The lower-case hexadecimal digit `n`.
pub open spec fn hex_lower(n: nat) -> char {
    if n < 10 {
        ('0' as u32 + n) as char
    } else {
        ('a' as u32 + n - 10) as char
    }
}

/// `n` in hexadecimal.
pub open spec fn hex_text(n: nat) -> Seq<char>
    decreases n,
{
    if n < 16 {
        seq![hex_lower(n)]
    } else {
        hex_text(n / 16).push(hex_lower(n % 16))
    }
}

/// One chunk: its size in bytes, its data, and the line endings.
pub open spec fn chunk_of(data: Seq<char>) -> Seq<char> {
    hex_text(byte_len(data)) + seq!['\r', '\n'] + data + seq!['\r', '\n']
}

/// A chunked body that carries `parts`, with `trailers` at its end.
pub open spec fn chunked(parts: Seq<Seq<char>>, trailers: Seq<char>) -> Seq<char>
    decreases parts.len(),
{
    if parts.len() == 0 {
        seq!['0', '\r', '\n'] + trailers
    } else {
        chunk_of(parts[0]) + chunked(parts.drop_first(), trailers)
    }
}

/// The texts of `parts`, one after the other.
pub open spec fn flat(parts: Seq<Seq<char>>) -> Seq<char>
    decreases parts.len(),
{
    if parts.len() == 0 {
        Seq::empty()
    } else {
        parts[0] + flat(parts.drop_first())
    }
}

proof fn lemma_hex_text(n: nat)
    ensures
        hex_text(n).len() > 0,
        digits_value(hex_text(n), true) == Some(n),
        forall|i: int|
            0 <= i < hex_text(n).len() ==> hex_digit(#[trigger] hex_text(n)[i]) is Some && hex_text(
                n,
            )[i] != '+',
    decreases n,
{
    reveal_with_fuel(digits_value, 2);
    if n >= 16 {
        lemma_hex_text(n / 16);
        let s = hex_text(n);
        assert(s.drop_last() =~= hex_text(n / 16));
        assert(hex_digit(hex_lower(n % 16)) == Some(n % 16));
        assert forall|i: int| 0 <= i < s.len() implies hex_digit(#[trigger] s[i]) is Some && s[i]
            != '+' by {
            if i < s.len() - 1 {
                assert(s[i] == hex_text(n / 16)[i]);
            }
        }
    } else {
        assert(hex_text(n).drop_last() =~= Seq::empty());
        assert(hex_digit(hex_lower(n)) == Some(n));
    }
}

/// A text of hexadecimal digits is its own size part.
proof fn lemma_size_part(s: Seq<char>)
    requires
        s.len() > 0,
        forall|i: int| 0 <= i < s.len() ==> hex_digit(#[trigger] s[i]) is Some,
    ensures
        size_part(s) == s,
        trim_end_char(s.push('\r'), '\r') == s,
{
    crate::text::lemma_find_bounds(s, ';');
    assert(hex_digit(';') is None);
    assert(!s.contains(';'));
    assert(hex_digit(s[0]) is Some);
    assert(hex_digit(s.last()) is Some);
    assert(trimmed(s) == s);
    assert(s.last() != '\r');
    assert(trim_end_char(s, '\r') == s);
    assert(s.push('\r').drop_last() =~= s);
}

proof fn lemma_chars_for_prefix(data: Seq<char>, more: Seq<char>)
    ensures
        chars_for(data + more, byte_len(data)) == Some(data.len() as int),
    decreases data.len(),
{
    if data.len() > 0 {
        lemma_chars_for_prefix(data.drop_first(), more);
        assert((data + more).drop_first() =~= data.drop_first() + more);
        assert((data + more)[0] == data[0]);
    }
}

/// Decoding a chunked body gives the chunks' data back, whatever trailers
/// follow. Chunks hold at least one character; sizes fit the machine.
pub proof fn law_dechunk_reads_back(parts: Seq<Seq<char>>, trailers: Seq<char>)
    requires
        forall|i: int|
            0 <= i < parts.len() ==> (#[trigger] parts[i]).len() > 0 && byte_len(parts[i])
                <= usize::MAX,
    ensures
        dechunked(chunked(parts, trailers)) == Some(flat(parts)),
    decreases parts.len(),
{
    reveal_strlit("\r\n");
    assert("\r\n"@ =~= seq!['\r', '\n']);
    if parts.len() == 0 {
        let s = chunked(parts, trailers);
        let line = seq!['0'];
        assert(s[0] == '0' && s[1] == '\r' && s[2] == '\n');
        crate::text::lemma_find_bounds(s, '\n');
        assert(find(s, '\n') == 2);
        assert(s.take(2) =~= line.push('\r'));
        assert(hex_digit('0') == Some(0nat));
        lemma_size_part(line);
        reveal_with_fuel(digits_value, 2);
        assert(line.drop_last() =~= Seq::empty());
        assert(number_of(line, true) == Some(0nat));
    } else {
        let data = parts[0];
        let n = byte_len(data);
        let size = hex_text(n);
        let more = chunked(parts.drop_first(), trailers);
        let s = chunked(parts, trailers);
        lemma_hex_text(n);
        lemma_size_part(size);
        assert(n > 0);
        crate::text::lemma_find_bounds(s, '\n');
        let at: int = size.len() as int + 1;
        assert(s[at as int] == '\n');
        assert(s[at - 1] == '\r');
        assert forall|i: int| 0 <= i < at implies s[i] != '\n' by {
            if i < size.len() {
                assert(s[i] == size[i]);
                assert(hex_digit(size[i]) is Some);
            }
        }
        assert(find(s, '\n') == at);
        assert(s.take(at as int) =~= size.push('\r'));
        assert(size[0] != '+');
        assert(chunk_size(size) == n);
        let rest = s.skip(at + 1);
        let tail = seq!['\r', '\n'] + more;
        assert(rest =~= data + tail);
        lemma_chars_for_prefix(data, tail);
        assert(rest.take(data.len() as int) =~= data);
        assert(rest.skip(data.len() as int) =~= tail);
        assert(tail.take(2) =~= seq!['\r', '\n']);
        assert(after_crlf(tail) =~= more);
        assert forall|i: int| 0 <= i < parts.drop_first().len() implies (
        #[trigger] parts.drop_first()[i]).len() > 0 && byte_len(parts.drop_first()[i]) <= usize::MAX by {
            assert(parts.drop_first()[i] == parts[i + 1]);
        }
        law_dechunk_reads_back(parts.drop_first(), trailers);
        assert(dechunked(s) == Some(data + flat(parts.drop_first())));
    }
}

/// A request says what it wants, of whom, how many bytes it carries, and carries them
/// all; one without a body carries none.
pub proof fn law_request_carries_its_body(method: Seq<char>, path: Seq<char>, body: Seq<char>, host: Seq<char>)
    ensures
        request_of(RequestV { method, path, body: Some(body) }, host) == method + " "@ + path
            + " HTTP/1.1\r\nHost: "@ + host
            + "\r\nAccept: application/json\r\nContent-Type: application/json\r\nContent-Length: "@
            + decimal(encode_utf8(body).len()) + "\r\nConnection: close\r\n\r\n"@ + body,
        request_of(RequestV { method, path, body: None }, host) == request_of(
            RequestV { method, path, body: Some(Seq::empty()) },
            host,
        ),
        events_request_of(path, host) == "GET /api/agent/"@ + path + "/events HTTP/1.1\r\nHost: "@
            + host + "\r\nAccept: text/event-stream\r\nConnection: keep-alive\r\n\r\n"@,
{
    reveal_strlit("");
    assert(""@ =~= Seq::<char>::empty());
}

/// A number reads back as itself.
pub proof fn law_number_reads_back(n: nat)
    ensures
        number_of(decimal(n), false) == Some(n),
    decreases n,
{
    lemma_digits_read_back(n);
    lemma_first_digit(n);
}

proof fn lemma_digits_read_back(n: nat)
    ensures
        digits_value(decimal(n), false) == Some(n),
        decimal(n).len() > 0,
    decreases n,
{
    reveal_with_fuel(digits_value, 2);
    let d = crate::text::digit_char((n % 10) as int);
    assert(dec_digit(d) == Some((n % 10) as nat));
    if n < 10 {
        assert(decimal(n) =~= seq![d]);
        assert(decimal(n).drop_last() =~= Seq::empty());
    } else {
        lemma_digits_read_back(n / 10);
        assert(decimal(n).drop_last() =~= decimal(n / 10));
    }
}

proof fn lemma_first_digit(n: nat)
    ensures
        decimal(n).len() > 0,
        decimal(n)[0] != '+',
        forall|i: int| 0 <= i < decimal(n).len() ==> !crate::text::is_white(#[trigger] decimal(n)[i]),
    decreases n,
{
    let d = crate::text::digit_char((n % 10) as int);
    assert('0' as u32 <= d as u32 <= '9' as u32);
    if n >= 10 {
        lemma_first_digit(n / 10);
        let all = decimal(n);
        assert(all =~= decimal(n / 10).push(d));
        assert forall|i: int| 0 <= i < all.len() implies !crate::text::is_white(
            #[trigger] all[i],
        ) by {
            if i < all.len() - 1 {
                assert(all[i] == decimal(n / 10)[i]);
            }
        }
    }
}

/// The status of a response is the number behind the first word of its first line.
pub proof fn law_status_is_the_second_word(version: Seq<char>, status: u16, reason: Seq<char>)
    requires
        version.len() > 0,
        forall|i: int| 0 <= i < version.len() ==> !crate::text::is_white(#[trigger] version[i]),
    ensures
        status_of(version + seq![' '] + decimal(status as nat) + seq![' '] + reason) == status,
{
    let number = decimal(status as nat);
    let behind = number + seq![' '] + reason;
    let line = version + seq![' '] + number + seq![' '] + reason;
    assert(line =~= version + seq![' '] + behind);
    lemma_first_digit(status as nat);
    law_number_reads_back(status as nat);
    crate::text::law_words_are_separated_by_white_space(version, ' ', behind);
    crate::text::law_words_are_separated_by_white_space(number, ' ', reason);
    let w = words_of(line);
    assert(w =~= seq![version] + (seq![number] + words_of(reason)));
    assert(w[1] == number);
}

proof fn lemma_blank_line(headers: Seq<char>, body: Seq<char>)
    requires
        forall|i: int|
            0 <= i < headers.len() ==> !begins(
                #[trigger] (headers + "\r\n\r\n"@).skip(i),
                "\r\n\r\n"@,
            ),
    ensures
        crate::text::find_text(headers + "\r\n\r\n"@ + body, "\r\n\r\n"@) == Some(
            headers.len() as int,
        ),
    decreases headers.len(),
{
    reveal_strlit("\r\n\r\n");
    let p = "\r\n\r\n"@;
    let s = headers + p + body;
    if headers.len() == 0 {
        assert(s.take(4) =~= p);
    } else {
        let less = headers.drop_first();
        let own = headers + p;
        assert(own.skip(0) =~= own);
        if begins(s, p) {
            assert(own.take(4) =~= s.take(4));
            assert(begins(own.skip(0), p));
        }
        assert(s.drop_first() =~= less + p + body);
        assert forall|i: int| 0 <= i < less.len() implies !begins(
            #[trigger] (less + p).skip(i),
            p,
        ) by {
            assert((less + p).skip(i) =~= own.skip(i + 1));
        }
        lemma_blank_line(less, body);
    }
}

/// A response is its status line, its headers up to the first blank line, and all that
/// follows, which is decoded if the headers say that it comes in chunks.
pub proof fn law_response_is_read_whole(line: Seq<char>, headers: Seq<char>, body: Seq<char>)
    requires
        !line.contains('\r'),
        forall|i: int|
            0 <= i < headers.len() ==> !begins(
                #[trigger] (headers + "\r\n\r\n"@).skip(i),
                "\r\n\r\n"@,
            ),
    ensures
        ({
            let out = line + "\r\n"@ + headers + "\r\n\r\n"@ + body;
            let chunked = has_text(lower(headers), "transfer-encoding: chunked"@);
            &&& !chunked ==> response_of(out) == Some(
                ResponseV { status: status_of(line), body },
            )
            &&& chunked ==> match dechunked(body) {
                Some(b) => response_of(out) == Some(
                    ResponseV { status: status_of(line), body: b },
                ),
                None => response_of(out) is None,
            }
        }),
{
    reveal_strlit("\r\n");
    reveal_strlit("\r\n\r\n");
    let rest = headers + "\r\n\r\n"@ + body;
    let out = line + "\r\n"@ + headers + "\r\n\r\n"@ + body;
    assert(out =~= line + "\r\n"@ + rest);
    assert("\r\n"@[0] == '\r');
    crate::text::law_cut_at_first_occurrence(line, "\r\n"@, rest);
    lemma_blank_line(headers, body);
    assert(rest.take(headers.len() as int) =~= headers);
    assert(rest.skip(headers.len() as int + 4) =~= body);
    assert(cut_at(rest, "\r\n\r\n"@) == Some((headers, body)));
}

/// The host of an endpoint is what stands behind its scheme, without slashes at its end.
pub proof fn law_host_is_behind_scheme(host: Seq<char>)
    requires
        host.len() > 0,
        host.last() != '/',
        !begins(host, "http://"@),
    ensures
        host_of("http://"@ + host) == host,
        host_of("http://"@ + host + seq!['/']) == host,
        host_of(host) == host,
{
    reveal_strlit("http://");
    let p = "http://"@;
    let a = p + host;
    assert(a.take(7) =~= p);
    assert(a.skip(7) =~= host);
    assert(trim_prefixes(a, p) == trim_prefixes(host, p));
    let slashed = host + seq!['/'];
    let b = p + host + seq!['/'];
    assert(b =~= p + slashed);
    assert(b.take(7) =~= p);
    assert(b.skip(7) =~= slashed);
    if begins(slashed, p) {
        if host.len() >= 7 {
            assert(host.take(7) =~= slashed.take(7));
        } else {
            assert(slashed.take(7)[6] == slashed[6]);
            assert(host.len() == 6);
            assert(host.last() == slashed.take(7)[5]);
            assert(p[5] == '/');
        }
    }
    assert(!begins(slashed, p));
    assert(trim_prefixes(slashed, p) == slashed);
    assert(trim_prefixes(b, p) == trim_prefixes(slashed, p));
    crate::text::law_trailing_copies_are_dropped(host, '/');
    assert(slashed =~= host.push('/'));
}

/// The bytes of a text are counted as UTF-8 writes them, so that the size of a chunk is
/// that of its data.
pub proof fn law_bytes_are_counted_as_written(s: Seq<char>)
    ensures
        byte_len(s) == encode_utf8(s).len(),
    decreases s.len(),
{
    if s.len() > 0 {
        law_bytes_are_counted_as_written(s.drop_first());
        let c: char = s[0];
        vstd::utf8::char_is_scalar(c);
        assert(vstd::utf8::encode_scalar(c as u32).len() == width(c));
    }
}

/// The size of a chunk stands before the first semicolon of its line, in hexadecimal
/// digits, small or capital.
pub proof fn law_chunk_size_is_before_semicolon(size: Seq<char>, extension: Seq<char>, d: char)
    requires
        !size.contains(';'),
    ensures
        chunk_size(size + seq![';'] + extension) == chunk_size(size),
        '0' <= d <= '9' ==> hex_digit(d) == Some((d as u32 - '0' as u32) as nat),
        d == 'a' || d == 'A' ==> hex_digit(d) == Some(10nat),
        d == 'f' || d == 'F' ==> hex_digit(d) == Some(15nat),
        d == 'g' || d == 'G' || d == '/' || d == ':' || d == '@' || d == '`' ==> hex_digit(d) is None,
{
    let line = size + seq![';'] + extension;
    crate::text::lemma_find_bounds(line, ';');
    crate::text::lemma_find_bounds(size, ';');
    let at = find(line, ';');
    assert(line[size.len() as int] == ';');
    assert forall|i: int| 0 <= i < size.len() implies line[i] != ';' by {
        assert(size.contains(size[i]));
    }
    assert(at == size.len());
    assert(line.take(at) =~= size);
}

} // verus!
