//! Per-session and per-connection identity values: randomized identifiers,
//! trace ids, the simulated origin address, and the connection header set
//! presented when the duplex channel is opened.

use vstd::prelude::*;
use crate::text::{spec_dec_digits, push_dec_digits, string_of_chars};

verus! {

/// One header: a name and a value.
#[derive(Debug, Clone)]
pub struct Header {
    pub name: String,
    pub value: String,
}

impl View for Header {
    type V = (Seq<char>, Seq<char>);

    open spec fn view(&self) -> (Seq<char>, Seq<char>) {
        (self.name@, self.value@)
    }
}

impl DeepView for Header {
    type V = (Seq<char>, Seq<char>);

    open spec fn deep_view(&self) -> (Seq<char>, Seq<char>) {
        self.view()
    }
}

/// Relies on `rand::random_range` over `0..n`: a value below `n`; the call
/// panics only on an empty range, which the precondition excludes.
#[verifier::external_body]
fn random_below(n: usize) -> (r: usize)
    requires
        n > 0,
    ensures
        r < n,
{
    rand::random_range(0..n)
}

/// Relies on `rand::random_range` over `lo..=hi`: a value inside the
/// inclusive range; the call panics only on an empty range, which the
/// precondition excludes.
#[verifier::external_body]
fn random_u8_between(lo: u8, hi: u8) -> (r: u8)
    requires
        lo <= hi,
    ensures
        lo <= r <= hi,
{
    rand::random_range(lo..=hi)
}

/// Relies on `uuid::Uuid::new_v4` and `Hyphenated::encode_lower`: a fresh
/// version-4 identifier in its 36-character hyphenated lowercase form,
/// grouped 8-4-4-4-12.
#[verifier::external_body]
pub(crate) fn fresh_uuid_string() -> (r: String)
    ensures
        r@.len() == 36,
        r@[8] == '-',
        r@[13] == '-',
        r@[18] == '-',
        r@[23] == '-',
{
    let id = uuid::Uuid::new_v4().hyphenated();
    id.encode_lower(&mut uuid::Uuid::encode_buffer()).to_string()
}

/// The standard base64 form of a byte sequence.
pub uninterp spec fn b64_of(bytes: Seq<u8>) -> Seq<char>;

/// Relies on base64's standard padded engine: the result is a function of
/// the bytes alone, four output characters for every started three input
/// bytes.
#[verifier::external_body]
fn base64_standard(bytes: &Vec<u8>) -> (r: String)
    ensures
        r@ == b64_of(bytes@),
        r@.len() == 4 * ((bytes@.len() + 2) / 3),
{
    base64::Engine::encode(&base64::engine::general_purpose::STANDARD, bytes)
}

/// Whether a character is a lowercase hexadecimal digit.
pub open spec fn is_lower_hex(c: char) -> bool {
    (0x30 <= (c as u32) && (c as u32) <= 0x39) || (0x61 <= (c as u32) && (c as u32) <= 0x66)
}

fn lower_hex_char(d: usize) -> (r: char)
    requires
        d < 16,
    ensures
        is_lower_hex(r),
{
    if d == 0 { '0' }
    else if d == 1 { '1' }
    else if d == 2 { '2' }
    else if d == 3 { '3' }
    else if d == 4 { '4' }
    else if d == 5 { '5' }
    else if d == 6 { '6' }
    else if d == 7 { '7' }
    else if d == 8 { '8' }
    else if d == 9 { '9' }
    else if d == 10 { 'a' }
    else if d == 11 { 'b' }
    else if d == 12 { 'c' }
    else if d == 13 { 'd' }
    else if d == 14 { 'e' }
    else { 'f' }
}

/// A fresh random string of lowercase hexadecimal digits, used for trace
/// identifiers.
pub fn random_hex_string(length: usize) -> (r: String)
    ensures
        r@.len() == length,
        forall|k: int| 0 <= k < length ==> is_lower_hex(#[trigger] r@[k]),
{
    let mut chars: Vec<char> = Vec::new();
    let mut i: usize = 0;
    while i < length
        invariant
            i <= length,
            chars@.len() == i,
            forall|k: int| 0 <= k < i ==> is_lower_hex(#[trigger] chars@[k]),
        decreases length - i,
    {
        chars.push(lower_hex_char(random_below(16)));
        i += 1;
    }
    string_of_chars(&chars)
}

fn lower_hex_code(d: usize) -> (r: u8)
    requires
        d < 16,
    ensures
        (0x30 <= r <= 0x39) || (0x61 <= r <= 0x66),
{
    if d < 10 {
        0x30 + (d as u8)
    } else {
        0x57 + (d as u8)
    }
}

/// A fresh handshake key: sixteen random hexadecimal digits, base64-encoded
/// into the 24-character header value the channel handshake expects.
pub fn fresh_ws_key() -> (r: String)
    ensures
        r@.len() == 24,
        exists|b: Seq<u8>| b.len() == 16 && r@ == #[trigger] b64_of(b),
{
    let mut bytes: Vec<u8> = Vec::new();
    let mut i: usize = 0;
    while i < 16
        invariant
            i <= 16,
            bytes@.len() == i,
        decreases 16 - i,
    {
        bytes.push(lower_hex_code(random_below(16)));
        i += 1;
    }
    base64_standard(&bytes)
}

/// The text of a simulated origin address `13.a.b.c`.
pub open spec fn spec_origin_ip(a: u8, b: u8, c: u8) -> Seq<char> {
    seq!['1', '3', '.'] + spec_dec_digits(a as nat) + seq!['.'] + spec_dec_digits(b as nat)
        + seq!['.'] + spec_dec_digits(c as nat)
}

/// Whether a text is a simulated origin address from the fixed block:
/// `13.a.b.c` with `a` between 104 and 107.
pub open spec fn valid_origin_ip(s: Seq<char>) -> bool {
    exists|a: u8, b: u8, c: u8|
        104 <= a <= 107 && s == #[trigger] spec_origin_ip(a, b, c)
}

/// Draws a fresh simulated origin address from the fixed block; chosen once
/// per session and reused across its requests.
pub fn random_forwarded_ip() -> (r: String)
    ensures
        valid_origin_ip(r@),
{
    let a = random_u8_between(104, 107);
    let b = random_u8_between(0, 255);
    let c = random_u8_between(0, 255);
    let mut chars: Vec<char> = Vec::new();
    chars.push('1');
    chars.push('3');
    chars.push('.');
    proof {
        assert(chars@ =~= seq!['1', '3', '.']);
    }
    push_dec_digits(&mut chars, a as u64);
    chars.push('.');
    push_dec_digits(&mut chars, b as u64);
    chars.push('.');
    push_dec_digits(&mut chars, c as u64);
    proof {
        assert(chars@ =~= spec_origin_ip(a, b, c));
    }
    string_of_chars(&chars)
}

/// The fixed browser-identity part of the connection header set, in order;
/// the per-session and per-connection values follow it.
pub open spec fn spec_chat_headers(uuid: Seq<char>, ip: Seq<char>, key: Seq<char>)
    -> Seq<(Seq<char>, Seq<char>)> {
    seq![
        ("accept"@, "application/json"@),
        ("accept-language"@, "en-US,en;q=0.9"@),
        ("content-type"@, "application/json"@),
        ("sec-ch-ua"@,
            "\"Not_A Brand\";v=\"99\", \"Microsoft Edge\";v=\"110\", \"Chromium\";v=\"110\""@),
        ("sec-ch-ua-arch"@, "\"x86\""@),
        ("sec-ch-ua-bitness"@, "\"64\""@),
        ("sec-ch-ua-full-version"@, "\"109.0.1518.78\""@),
        ("sec-ch-ua-full-version-list"@,
            "\"Chromium\";v=\"110.0.5481.192\", \"Not A(Brand\";v=\"24.0.0.0\", \"Microsoft Edge\";v=\"110.0.1587.69\""@),
        ("sec-ch-ua-mobile"@, "?0"@),
        ("sec-ch-ua-model"@, ""@),
        ("sec-ch-ua-platform"@, "\"Windows\""@),
        ("sec-ch-ua-platform-version"@, "\"15.0.0\""@),
        ("sec-fetch-dest"@, "empty"@),
        ("sec-fetch-mode"@, "cors"@),
        ("sec-fetch-site"@, "same-origin"@),
        ("x-ms-useragent"@,
            "azsdk-js-api-client-factory/1.0.0-beta.1 core-rest-pipeline/1.10.0 OS/Win32"@),
        ("Referer"@, "https://www.bing.com/search?q=Bing+AI&showconv=1&FORM=hpcodx"@),
        ("Referrer-Policy"@, "origin-when-cross-origin"@),
        ("x-ms-client-request-id"@, uuid),
        ("x-forwarded-for"@, ip),
        ("Sec-websocket-key"@, key),
        ("Sec-WebSocket-Version"@, "13"@),
        ("Connection"@, "Upgrade"@),
        ("Upgrade"@, "websocket"@),
        ("Host"@, "sydney.bing.com"@),
    ]
}

fn push_header(out: &mut Vec<Header>, name: &str, value: &str)
    ensures
        final(out).deep_view() == old(out).deep_view().push((name@, value@)),
{
    let ghost before = out.deep_view();
    out.push(Header { name: name.to_owned(), value: value.to_owned() });
    proof {
        assert(out.deep_view() =~~= before.push((name@, value@)));
    }
}

/// The header set presented when a duplex channel is opened: the fixed
/// browser identity, the session's stable request id and simulated origin
/// address, and the fresh per-connection handshake key.
pub fn chat_headers(uuid: &str, ip: &str, ws_key: &str) -> (r: Vec<Header>)
    ensures
        r.deep_view() == spec_chat_headers(uuid@, ip@, ws_key@),
{
    let mut out: Vec<Header> = Vec::new();
    push_header(&mut out, "accept", "application/json");
    push_header(&mut out, "accept-language", "en-US,en;q=0.9");
    push_header(&mut out, "content-type", "application/json");
    push_header(&mut out, "sec-ch-ua",
        "\"Not_A Brand\";v=\"99\", \"Microsoft Edge\";v=\"110\", \"Chromium\";v=\"110\"");
    push_header(&mut out, "sec-ch-ua-arch", "\"x86\"");
    push_header(&mut out, "sec-ch-ua-bitness", "\"64\"");
    push_header(&mut out, "sec-ch-ua-full-version", "\"109.0.1518.78\"");
    push_header(&mut out, "sec-ch-ua-full-version-list",
        "\"Chromium\";v=\"110.0.5481.192\", \"Not A(Brand\";v=\"24.0.0.0\", \"Microsoft Edge\";v=\"110.0.1587.69\"");
    push_header(&mut out, "sec-ch-ua-mobile", "?0");
    push_header(&mut out, "sec-ch-ua-model", "");
    push_header(&mut out, "sec-ch-ua-platform", "\"Windows\"");
    push_header(&mut out, "sec-ch-ua-platform-version", "\"15.0.0\"");
    push_header(&mut out, "sec-fetch-dest", "empty");
    push_header(&mut out, "sec-fetch-mode", "cors");
    push_header(&mut out, "sec-fetch-site", "same-origin");
    push_header(&mut out, "x-ms-useragent",
        "azsdk-js-api-client-factory/1.0.0-beta.1 core-rest-pipeline/1.10.0 OS/Win32");
    push_header(&mut out, "Referer", "https://www.bing.com/search?q=Bing+AI&showconv=1&FORM=hpcodx");
    push_header(&mut out, "Referrer-Policy", "origin-when-cross-origin");
    push_header(&mut out, "x-ms-client-request-id", uuid);
    push_header(&mut out, "x-forwarded-for", ip);
    push_header(&mut out, "Sec-websocket-key", ws_key);
    push_header(&mut out, "Sec-WebSocket-Version", "13");
    push_header(&mut out, "Connection", "Upgrade");
    push_header(&mut out, "Upgrade", "websocket");
    push_header(&mut out, "Host", "sydney.bing.com");
    proof {
        assert(out.deep_view() =~~= spec_chat_headers(uuid@, ip@, ws_key@));
    }
    out
}

} // verus!
