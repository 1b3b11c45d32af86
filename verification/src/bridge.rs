//! The local HTTP bridge that browser extensions use to hand downloads to
//! Fluxor: who may call it, how a request head is read, which route a
//! request takes, and the exact bytes of each response.
use vstd::prelude::*;
use crate::error::{spec_app_message, AppError};
use crate::outside::{json_string, new_uuid_simple, spec_json_string, string_from_utf8};
use crate::http::{
    before_first, find_char, first_occurrence, lemma_first_occurrence_found,
    lemma_first_occurrence_none, split_once,
};
use crate::text::{
    char_is_ws, chars_equal, chars_of, contains_at, decimal_text, find_from, has_prefix, is_hex_digit, is_ws,
    lemma_trim_start_from, lower_chars, lower_seq, parse_u64, parse_u64_spec, push_decimal,
    push_str, starts_with, str_equal, trim, trim_chars, trim_start,
};

verus! {

/// The loopback port the bridge listens on.
pub const BROWSER_BRIDGE_PORT: u16 = 17846;

/// The most bytes a request may take, head and body together.
pub const MAX_REQUEST_BYTES: usize = 1048576;

/// The most connections served at once.
pub const MAX_CONNECTIONS: usize = 32;

/// What the user interface shows of the bridge: whether it listens, on
/// which port, and the token an extension must send.
#[derive(Clone, Debug)]
pub struct BrowserIntegration {
    pub available: bool,
    pub port: u16,
    pub token: String,
}

/// The bridge's description, on its fixed port.
pub fn integration(available: bool, token: String) -> (r: BrowserIntegration)
    ensures
        r.available == available,
        r.port == BROWSER_BRIDGE_PORT,
        r.token == token,
{
    BrowserIntegration { available, port: BROWSER_BRIDGE_PORT, token }
}

/// A token is 32 hexadecimal digits.
pub open spec fn valid_token(s: Seq<char>) -> bool {
    s.len() == 32 && forall|i: int| 0 <= i < s.len() ==> is_hex_digit(#[trigger] s[i])
}

/// Whether a text is a well-formed bridge token.
pub fn is_valid_token(token: &str) -> (r: bool)
    ensures
        r == valid_token(token@),
{
    let v = chars_of(token);
    if v.len() != 32 {
        return false;
    }
    let mut i: usize = 0;
    while i < v.len()
        invariant
            i <= v@.len(),
            v@ == token@,
            forall|j: int| 0 <= j < i ==> is_hex_digit(#[trigger] v@[j]),
        decreases v@.len() - i,
    {
        let c = v[i];
        let hex = ('0' <= c && c <= '9') || ('a' <= c && c <= 'f') || ('A' <= c && c <= 'F');
        if !hex {
            return false;
        }
        i = i + 1;
    }
    true
}

/// The bridge's token: the stored one, without surrounding blanks, when it
/// is well formed; else a fresh random one.
pub fn bridge_token(stored: Option<&str>) -> (r: String)
    ensures
        valid_token(r@),
        stored matches Some(s) ==> (valid_token(trim(s@)) ==> r@ == trim(s@)),
{
    if let Some(s) = stored {
        let t = trim_chars(&chars_of(s));
        let candidate = crate::text::string_of(&t);
        if is_valid_token(candidate.as_str()) {
            return candidate;
        }
    }
    let fresh = new_uuid_simple();
    proof {
        assert forall|i: int| 0 <= i < fresh@.len() implies is_hex_digit(#[trigger] fresh@[i]) by {
            assert('0' <= fresh@[i] <= '9' || 'a' <= fresh@[i] <= 'f');
        }
    }
    fresh
}

/// An origin that belongs to a browser extension.
pub open spec fn extension_origin(origin: Seq<char>) -> bool {
    has_prefix(origin, "chrome-extension://"@) || has_prefix(origin, "moz-extension://"@)
}

/// Whether a request's origin is that of a Chrome or Firefox extension.
pub fn is_extension_origin(origin: &str) -> (r: bool)
    ensures
        r == extension_origin(origin@),
{
    let v = chars_of(origin);
    starts_with(&v, "chrome-extension://") || starts_with(&v, "moz-extension://")
}

/// Whether a request may be served: it comes from no page or from an
/// extension, and it carries the bridge's token unless it is a preflight.
pub open spec fn spec_authorized(
    method: Seq<char>,
    origin: Option<Seq<char>>,
    token: Option<Seq<char>>,
    expected: Seq<char>,
) -> bool {
    let origin_allowed = match origin {
        Some(o) => extension_origin(o),
        None => true,
    };
    let token_allowed = match token {
        Some(t) => t == expected,
        None => false,
    };
    origin_allowed && (method == "OPTIONS"@ || token_allowed)
}

pub fn authorized(method: &str, origin: Option<&str>, token: Option<&str>, expected: &str) -> (r:
    bool)
    ensures
        r == spec_authorized(
            method@,
            match origin {
                Some(o) => Some(o@),
                None => None,
            },
            match token {
                Some(t) => Some(t@),
                None => None,
            },
            expected@,
        ),
{
    let origin_allowed = match origin {
        Some(o) => is_extension_origin(o),
        None => true,
    };
    let token_allowed = match token {
        Some(t) => str_equal(t, expected),
        None => false,
    };
    origin_allowed && (str_equal(method, "OPTIONS") || token_allowed)
}

/// The answer a request gets.
#[derive(Clone, Copy, Debug, PartialEq, Eq, Structural)]
pub enum BridgeRoute {
    /// A CORS preflight.
    Preflight,
    /// `GET /v1/status`.
    Status,
    /// `POST /v1/downloads`.
    CreateDownload,
    NotFound,
}

pub open spec fn spec_route(method: Seq<char>, path: Seq<char>) -> BridgeRoute {
    if method == "OPTIONS"@ {
        BridgeRoute::Preflight
    } else if method == "GET"@ && path == "/v1/status"@ {
        BridgeRoute::Status
    } else if method == "POST"@ && path == "/v1/downloads"@ {
        BridgeRoute::CreateDownload
    } else {
        BridgeRoute::NotFound
    }
}

/// The route an authorized request takes.
pub fn route(method: &str, path: &str) -> (r: BridgeRoute)
    ensures
        r == spec_route(method@, path@),
{
    if str_equal(method, "OPTIONS") {
        BridgeRoute::Preflight
    } else if str_equal(method, "GET") && str_equal(path, "/v1/status") {
        BridgeRoute::Status
    } else if str_equal(method, "POST") && str_equal(path, "/v1/downloads") {
        BridgeRoute::CreateDownload
    } else {
        BridgeRoute::NotFound
    }
}

/// The reason phrase of each status the bridge sends.
pub open spec fn reason_phrase(status: u16) -> Seq<char> {
    if status == 200 {
        "OK"@
    } else if status == 201 {
        "Created"@
    } else if status == 204 {
        "No Content"@
    } else if status == 400 {
        "Bad Request"@
    } else if status == 403 {
        "Forbidden"@
    } else if status == 404 {
        "Not Found"@
    } else if status == 422 {
        "Unprocessable Content"@
    } else {
        "Error"@
    }
}

fn push_reason(out: &mut String, status: u16)
    ensures
        final(out)@ == old(out)@ + reason_phrase(status),
{
    let reason = if status == 200 {
        "OK"
    } else if status == 201 {
        "Created"
    } else if status == 204 {
        "No Content"
    } else if status == 400 {
        "Bad Request"
    } else if status == 403 {
        "Forbidden"
    } else if status == 404 {
        "Not Found"
    } else if status == 422 {
        "Unprocessable Content"
    } else {
        "Error"
    };
    push_str(out, reason);
}

/// The headers that let the page of `origin` read a response.
pub open spec fn cors_headers(origin: Option<Seq<char>>) -> Seq<char> {
    match origin {
        Some(o) => "Access-Control-Allow-Origin: "@ + o
            + "\r\nAccess-Control-Allow-Methods: GET, POST, OPTIONS\r\nAccess-Control-Allow-Headers: Content-Type, X-Fluxor-Token\r\nVary: Origin\r\n"@,
        None => Seq::empty(),
    }
}

/// A whole HTTP response: status line, headers (CORS ones only for an
/// origin), a blank line and the body. `Content-Length` is the body's
/// length in UTF-8 bytes, as `str::len` gives it.
pub open spec fn spec_http_response(
    status: u16,
    content_type: Seq<char>,
    body: Seq<char>,
    origin: Option<Seq<char>>,
) -> Seq<char> {
    "HTTP/1.1 "@ + decimal_text(status as nat) + " "@ + reason_phrase(status)
        + "\r\nContent-Type: "@ + content_type + "\r\nContent-Length: "@ + decimal_text(
        (vstd::utf8::encode_utf8(body).len() as usize) as nat,
    ) + "\r\nCache-Control: no-store\r\nX-Content-Type-Options: nosniff\r\n"@ + cors_headers(
        origin,
    ) + "Connection: close\r\n\r\n"@ + body
}

pub open spec fn opt_view(o: Option<&str>) -> Option<Seq<char>> {
    match o {
        Some(s) => Some(s@),
        None => None,
    }
}

/// Writes a response of the bridge.
pub fn http_response(status: u16, content_type: &str, body: &str, origin: Option<&str>) -> (r:
    String)
    ensures
        r@ == spec_http_response(status, content_type@, body@, opt_view(origin)),
{
    let mut r = String::new();
    push_str(&mut r, "HTTP/1.1 ");
    push_decimal(&mut r, status as u64);
    push_str(&mut r, " ");
    push_reason(&mut r, status);
    push_str(&mut r, "\r\nContent-Type: ");
    push_str(&mut r, content_type);
    push_str(&mut r, "\r\nContent-Length: ");
    push_decimal(&mut r, body.len() as u64);
    push_str(&mut r, "\r\nCache-Control: no-store\r\nX-Content-Type-Options: nosniff\r\n");
    if let Some(o) = origin {
        push_str(&mut r, "Access-Control-Allow-Origin: ");
        push_str(&mut r, o);
        push_str(
            &mut r,
            "\r\nAccess-Control-Allow-Methods: GET, POST, OPTIONS\r\nAccess-Control-Allow-Headers: Content-Type, X-Fluxor-Token\r\nVary: Origin\r\n",
        );
    }
    push_str(&mut r, "Connection: close\r\n\r\n");
    push_str(&mut r, body);
    proof {
        let pre = "HTTP/1.1 "@ + decimal_text(status as nat) + " "@ + reason_phrase(status)
            + "\r\nContent-Type: "@ + content_type@ + "\r\nContent-Length: "@ + decimal_text(
            (vstd::utf8::encode_utf8(body@).len() as usize) as nat,
        ) + "\r\nCache-Control: no-store\r\nX-Content-Type-Options: nosniff\r\n"@;
        match origin {
            Some(o) => {
                assert(pre + "Access-Control-Allow-Origin: "@ + o@
                    + "\r\nAccess-Control-Allow-Methods: GET, POST, OPTIONS\r\nAccess-Control-Allow-Headers: Content-Type, X-Fluxor-Token\r\nVary: Origin\r\n"@
                    =~= pre + cors_headers(opt_view(origin)));
            },
            None => {
                assert(pre =~= pre + cors_headers(opt_view(origin)));
            },
        }
    }
    r
}

/// The body of a refusal: `{"ok":false,"data":null,"error":<message>}`,
/// the message written as a JSON string.
pub open spec fn error_body(message: Seq<char>) -> Seq<char> {
    "{\"ok\":false,\"data\":null,\"error\":"@ + spec_json_string(message) + "}"@
}

/// A JSON refusal with this status and message.
pub fn json_error(status: u16, message: &str, origin: Option<&str>) -> (r: String)
    ensures
        r@ == spec_http_response(status, "application/json"@, error_body(message@), opt_view(origin)),
{
    let mut body = String::new();
    push_str(&mut body, "{\"ok\":false,\"data\":null,\"error\":");
    let quoted = json_string(message);
    push_str(&mut body, quoted.as_str());
    push_str(&mut body, "}");
    http_response(status, "application/json", body.as_str(), origin)
}

/// The body of a success that carries `data`, already written as JSON.
pub open spec fn success_body(data: Seq<char>) -> Seq<char> {
    "{\"ok\":true,\"data\":"@ + data + ",\"error\":null}"@
}

/// The answer to a download that was created: `201 Created` with the new
/// download, given as JSON.
pub fn json_success(data: &str, origin: Option<&str>) -> (r: String)
    ensures
        r@ == spec_http_response(201, "application/json"@, success_body(data@), opt_view(origin)),
{
    let mut body = String::new();
    push_str(&mut body, "{\"ok\":true,\"data\":");
    push_str(&mut body, data);
    push_str(&mut body, ",\"error\":null}");
    http_response(201, "application/json", body.as_str(), origin)
}

/// The answer to a download the queue refused: `422` with the error's text.
pub fn json_app_error(error: &AppError, origin: Option<&str>) -> (r: String)
    ensures
        r@ == spec_http_response(
            422,
            "application/json"@,
            error_body(spec_app_message(*error)),
            opt_view(origin),
        ),
{
    let message = error.message();
    json_error(422, message.as_str(), origin)
}

/// The body of `GET /v1/status`: the bridge is available on its port; the
/// token is never sent back.
pub open spec fn status_body() -> Seq<char> {
    "{\"ok\":true,\"data\":{\"available\":true,\"port\":"@ + decimal_text(
        BROWSER_BRIDGE_PORT as nat,
    ) + ",\"token\":\"\"},\"error\":null}"@
}

/// The answer to `GET /v1/status`.
pub fn status_response(origin: Option<&str>) -> (r: String)
    ensures
        r@ == spec_http_response(200, "application/json"@, status_body(), opt_view(origin)),
{
    let mut body = String::new();
    push_str(&mut body, "{\"ok\":true,\"data\":{\"available\":true,\"port\":");
    push_decimal(&mut body, BROWSER_BRIDGE_PORT as u64);
    push_str(&mut body, ",\"token\":\"\"},\"error\":null}");
    http_response(200, "application/json", body.as_str(), origin)
}

/// The answer to a request that is refused for its origin or token.
pub fn forbidden_response(origin: Option<&str>) -> (r: String)
    ensures
        r@ == spec_http_response(
            403,
            "application/json"@,
            error_body("Token de Fluxor inválido o extensión no autorizada"@),
            opt_view(origin),
        ),
{
    json_error(403, "Token de Fluxor inválido o extensión no autorizada", origin)
}

/// The answer to a preflight: `204` with an empty body.
pub fn preflight_response(origin: Option<&str>) -> (r: String)
    ensures
        r@ == spec_http_response(204, "text/plain"@, ""@, opt_view(origin)),
{
    http_response(204, "text/plain", "", origin)
}

/// The answer to a download request whose body is not a valid request.
pub fn bad_request_response(origin: Option<&str>) -> (r: String)
    ensures
        r@ == spec_http_response(
            400,
            "application/json"@,
            error_body("La solicitud no tiene un formato válido"@),
            opt_view(origin),
        ),
{
    json_error(400, "La solicitud no tiene un formato válido", origin)
}

/// The answer to a request for any other route.
pub fn not_found_response(origin: Option<&str>) -> (r: String)
    ensures
        r@ == spec_http_response(
            404,
            "application/json"@,
            error_body("Ruta no encontrada"@),
            opt_view(origin),
        ),
{
    json_error(404, "Ruta no encontrada", origin)
}

/// Why a request could not be read.
#[derive(Clone, Copy, Debug, PartialEq, Eq, Structural)]
pub enum BridgeError {
    /// The connection closed before the head was complete.
    HeadersEndedEarly,
    /// The request is longer than the bridge accepts.
    TooLarge,
    /// The head is not UTF-8.
    InvalidHeaders,
    /// A `Content-Length` header is not a number.
    InvalidContentLength,
    /// The connection closed before the body was complete.
    BodyEndedEarly,
}

pub open spec fn spec_bridge_message(e: BridgeError) -> Seq<char> {
    match e {
        BridgeError::HeadersEndedEarly => "request headers ended early"@,
        BridgeError::TooLarge => "request too large"@,
        BridgeError::InvalidHeaders => "invalid request headers"@,
        BridgeError::InvalidContentLength => "invalid content length"@,
        BridgeError::BodyEndedEarly => "request body ended early"@,
    }
}

impl BridgeError {
    /// The text logged for the error.
    pub fn message(&self) -> (m: String)
        ensures
            m@ == spec_bridge_message(*self),
    {
        match self {
            BridgeError::HeadersEndedEarly => "request headers ended early".to_owned(),
            BridgeError::TooLarge => "request too large".to_owned(),
            BridgeError::InvalidHeaders => "invalid request headers".to_owned(),
            BridgeError::InvalidContentLength => "invalid content length".to_owned(),
            BridgeError::BodyEndedEarly => "request body ended early".to_owned(),
        }
    }
}

/// A blank line, `\r\n\r\n`, starts at `i`.
pub open spec fn blank_line_at(b: Seq<u8>, i: int) -> bool {
    0 <= i && i + 4 <= b.len() && b[i] == 13 && b[i + 1] == 10 && b[i + 2] == 13 && b[i + 3] == 10
}

/// Where the head of a request ends: just past its first blank line.
pub fn find_header_end(bytes: &Vec<u8>) -> (r: Option<usize>)
    ensures
        match r {
            Some(e) => e >= 4 && blank_line_at(bytes@, e - 4) && forall|j: int|
                0 <= j < e - 4 ==> !blank_line_at(bytes@, j),
            None => forall|j: int| !blank_line_at(bytes@, j),
        },
{
    if bytes.len() < 4 {
        return None;
    }
    let mut i: usize = 0;
    while i < bytes.len() - 3
        invariant
            bytes@.len() >= 4,
            i <= bytes@.len(),
            forall|j: int| 0 <= j < i ==> !blank_line_at(bytes@, j),
        decreases bytes@.len() - i,
    {
        if bytes[i] == 13 && bytes[i + 1] == 10 && bytes[i + 2] == 13 && bytes[i + 3] == 10 {
            return Some(i + 4);
        }
        i = i + 1;
    }
    None
}

/// Where reading a request head stands after some bytes arrived.
#[derive(Clone, Copy, Debug, PartialEq, Eq, Structural)]
pub enum HeadScan {
    /// The head is not complete yet.
    NeedMore,
    /// More bytes arrived than a request may have.
    TooLarge,
    /// The head ends at this offset.
    Complete(usize),
}

/// Decides, after each read, whether the head is complete, too large, or
/// needs more bytes.
pub fn scan_request_head(bytes: &Vec<u8>) -> (r: HeadScan)
    ensures
        bytes@.len() > MAX_REQUEST_BYTES ==> r == HeadScan::TooLarge,
        bytes@.len() <= MAX_REQUEST_BYTES ==> match r {
            HeadScan::Complete(e) => e >= 4 && blank_line_at(bytes@, e - 4) && forall|j: int|
                0 <= j < e - 4 ==> !blank_line_at(bytes@, j),
            HeadScan::NeedMore => forall|j: int| !blank_line_at(bytes@, j),
            HeadScan::TooLarge => false,
        },
{
    if bytes.len() > MAX_REQUEST_BYTES {
        return HeadScan::TooLarge;
    }
    match find_header_end(bytes) {
        Some(e) => HeadScan::Complete(e),
        None => HeadScan::NeedMore,
    }
}

/// The lines of a request head from `start` on: the text split at each
/// `\r\n`.
pub open spec fn lines_from(s: Seq<char>, start: int) -> Seq<Seq<char>>
    decreases s.len() - start,
{
    if start < 0 || start > s.len() {
        Seq::empty()
    } else {
        match first_occurrence(s, "\r\n"@, start) {
            Some(i) => if start <= i && i + 2 <= s.len() {
                seq![s.subrange(start, i)] + lines_from(s, i + 2)
            } else {
                Seq::empty()
            },
            None => seq![s.subrange(start, s.len() as int)],
        }
    }
}

proof fn lemma_first_occurrence_bounds(s: Seq<char>, p: Seq<char>, from: int)
    ensures
        first_occurrence(s, p, from) matches Some(i) ==> from <= i && contains_at(s, p, i),
    decreases s.len() + 1 - from,
{
    if 0 <= from <= s.len() && !contains_at(s, p, from) {
        lemma_first_occurrence_bounds(s, p, from + 1);
    }
}

proof fn lemma_lines_nonempty(s: Seq<char>, start: int)
    requires
        0 <= start <= s.len(),
    ensures
        lines_from(s, start).len() > 0,
{
    reveal_strlit("\r\n");
    lemma_first_occurrence_bounds(s, "\r\n"@, start);
}

pub open spec fn lines_view(lines: Seq<Vec<char>>) -> Seq<Seq<char>> {
    lines.map_values(|l: Vec<char>| l@)
}

fn copy_range(v: &Vec<char>, from: usize, to: usize) -> (r: Vec<char>)
    requires
        from <= to <= v@.len(),
    ensures
        r@ == v@.subrange(from as int, to as int),
{
    let mut r: Vec<char> = Vec::new();
    let mut i = from;
    while i < to
        invariant
            from <= i <= to <= v@.len(),
            r@ == v@.subrange(from as int, i as int),
        decreases to - i,
    {
        r.push(v[i]);
        i = i + 1;
    }
    r
}

/// Splits a request head into its lines.
fn split_lines(v: &Vec<char>) -> (r: Vec<Vec<char>>)
    ensures
        lines_view(r@) == lines_from(v@, 0),
{
    let mut lines: Vec<Vec<char>> = Vec::new();
    let mut start: usize = 0;
    proof {
        reveal_strlit("\r\n");
        assert(lines_view(lines@) + lines_from(v@, 0) =~= lines_from(v@, 0));
    }
    loop
        invariant
            start <= v@.len(),
            lines_from(v@, 0) == lines_view(lines@) + lines_from(v@, start as int),
        decreases v@.len() - start,
    {
        match find_from(v, "\r\n", start) {
            Some(i) => {
                proof {
                    reveal_strlit("\r\n");
                    assert("\r\n"@.len() == 2);
                    assert(v@.len() == v.len());
                    assert(i + 2 <= v@.len());
                    lemma_first_occurrence_found(v@, "\r\n"@, start as int, i as int);
                }
                let line = copy_range(v, start, i);
                let ghost before = lines@;
                lines.push(line);
                proof {
                    assert(lines_view(lines@) =~= lines_view(before).push(line@));
                    assert(lines_view(before) + (seq![line@] + lines_from(v@, i + 2))
                        =~= lines_view(lines@) + lines_from(v@, i + 2));
                }
                start = i + 2;
            },
            None => {
                proof {
                    lemma_first_occurrence_none(v@, "\r\n"@, start as int);
                }
                let line = copy_range(v, start, v.len());
                let ghost before = lines@;
                lines.push(line);
                proof {
                    assert(lines_view(lines@) =~= lines_view(before).push(line@));
                    assert(lines_view(lines@) =~= lines_from(v@, 0));
                }
                return lines;
            },
        }
    }
}

/// How many chars a text starts with before its first blank.
pub open spec fn word_len(t: Seq<char>) -> nat
    decreases t.len(),
{
    if t.len() > 0 && !is_ws(t[0]) {
        1 + word_len(t.drop_first())
    } else {
        0
    }
}

proof fn lemma_word_len(t: Seq<char>, k: int)
    requires
        0 <= k <= t.len(),
        forall|j: int| 0 <= j < k ==> !is_ws(#[trigger] t[j]),
        k == t.len() || is_ws(t[k]),
    ensures
        word_len(t) == k,
    decreases k,
{
    if k > 0 {
        assert forall|j: int| 0 <= j < k - 1 implies !is_ws(#[trigger] t.drop_first()[j]) by {
            assert(t.drop_first()[j] == t[j + 1]);
        }
        if k < t.len() {
            assert(t.drop_first()[k - 1] == t[k]);
        }
        lemma_word_len(t.drop_first(), k - 1);
    }
}

/// The first word of a text, as `split_whitespace` finds it.
pub open spec fn first_word(s: Seq<char>) -> Seq<char> {
    let t = trim_start(s);
    t.subrange(0, word_len(t) as int)
}

/// What follows the first word of a text.
pub open spec fn after_first_word(s: Seq<char>) -> Seq<char> {
    let t = trim_start(s);
    t.subrange(word_len(t) as int, t.len() as int)
}

proof fn lemma_word_len_bound(t: Seq<char>)
    ensures
        word_len(t) <= t.len(),
    decreases t.len(),
{
    if t.len() > 0 && !is_ws(t[0]) {
        lemma_word_len_bound(t.drop_first());
    }
}

proof fn lemma_trim_start_len(s: Seq<char>)
    ensures
        trim_start(s).len() <= s.len(),
    decreases s.len(),
{
    if s.len() > 0 && is_ws(s[0]) {
        lemma_trim_start_len(s.drop_first());
    }
}

/// Splits off the first word of a text: the word, and what follows it.
fn split_word(v: &Vec<char>) -> (r: (Vec<char>, Vec<char>))
    ensures
        r.0@ == first_word(v@),
        r.1@ == after_first_word(v@),
{
    let mut a: usize = 0;
    while a < v.len() && char_is_ws(v[a])
        invariant
            a <= v@.len(),
            forall|j: int| 0 <= j < a ==> is_ws(#[trigger] v@[j]),
        decreases v@.len() - a,
    {
        a = a + 1;
    }
    let mut b: usize = a;
    while b < v.len() && !char_is_ws(v[b])
        invariant
            a <= b <= v@.len(),
            forall|j: int| a <= j < b ==> !is_ws(#[trigger] v@[j]),
        decreases v@.len() - b,
    {
        b = b + 1;
    }
    proof {
        lemma_trim_start_from(v@, a as int);
        let t = v@.subrange(a as int, v@.len() as int);
        if t.len() > 0 {
            assert(t[0] == v@[a as int]);
        }
        assert(trim_start(t) == t);
        assert forall|j: int| 0 <= j < b - a implies !is_ws(#[trigger] t[j]) by {
            assert(t[j] == v@[a + j]);
        }
        if b < v@.len() {
            assert(t[b - a] == v@[b as int]);
        }
        lemma_word_len(t, b - a);
        assert(t.subrange(0, b - a) =~= v@.subrange(a as int, b as int));
        assert(t.subrange(b - a, t.len() as int) =~= v@.subrange(b as int, v@.len() as int));
    }
    (copy_range(v, a, b), copy_range(v, b, v.len()))
}

/// What the headers of a request tell, read in order: the content length
/// (`None` once one was not a number), the origin and the token; a later
/// header of a name replaces an earlier one.
pub type HeadFields = (Option<u64>, Option<Seq<char>>, Option<Seq<char>>);

/// `s.parse::<usize>()`.
pub open spec fn parse_usize_spec(s: Seq<char>) -> Option<u64> {
    match parse_u64_spec(s) {
        Some(n) => if n <= usize::MAX {
            Some(n)
        } else {
            None
        },
        None => None,
    }
}

/// One header line read into the fields: a line without `:` tells nothing;
/// names are compared without regard to ASCII case, and values without
/// surrounding blanks.
pub open spec fn header_step(acc: HeadFields, line: Seq<char>) -> HeadFields {
    match split_once(line, ':') {
        None => acc,
        Some((name, value)) => {
            let n = lower_seq(name);
            let v = trim(value);
            if n == "content-length"@ {
                (
                    match acc.0 {
                        Some(_) => parse_usize_spec(v),
                        None => None,
                    },
                    acc.1,
                    acc.2,
                )
            } else if n == "origin"@ {
                (acc.0, Some(v), acc.2)
            } else if n == "x-fluxor-token"@ {
                (acc.0, acc.1, Some(v))
            } else {
                acc
            }
        },
    }
}

/// The fields that header lines tell, from no content length, origin or token.
pub open spec fn header_fields(lines: Seq<Seq<char>>) -> HeadFields
    decreases lines.len(),
{
    if lines.len() == 0 {
        (Some(0u64), None, None)
    } else {
        header_step(header_fields(lines.drop_last()), lines.last())
    }
}

proof fn lemma_header_fields_bound(lines: Seq<Seq<char>>)
    ensures
        header_fields(lines).0 matches Some(n) ==> n <= usize::MAX,
    decreases lines.len(),
{
    if lines.len() > 0 {
        lemma_header_fields_bound(lines.drop_last());
    }
}

pub open spec fn opt_chars(o: Option<Vec<char>>) -> Option<Seq<char>> {
    match o {
        Some(v) => Some(v@),
        None => None,
    }
}

pub open spec fn opt_string(o: Option<String>) -> Option<Seq<char>> {
    match o {
        Some(v) => Some(v@),
        None => None,
    }
}

fn parse_usize(v: &Vec<char>) -> (r: Option<u64>)
    ensures
        r == parse_usize_spec(v@),
{
    match parse_u64(v) {
        Some(n) => if n <= usize::MAX as u64 {
            Some(n)
        } else {
            None
        },
        None => None,
    }
}

fn read_header_line(
    line: &Vec<char>,
    length: &mut Option<u64>,
    origin: &mut Option<Vec<char>>,
    token: &mut Option<Vec<char>>,
)
    ensures
        (*final(length), opt_chars(*final(origin)), opt_chars(*final(token))) == header_step(
            (*old(length), opt_chars(*old(origin)), opt_chars(*old(token))),
            line@,
        ),
{
    proof {
        assert(line@.subrange(0, line@.len() as int) =~= line@);
        crate::http::lemma_first_index(line@, ':');
    }
    let colon = match find_char(line, 0, line.len(), ':') {
        Some(c) => c,
        None => return ,
    };
    let name = copy_range(line, 0, colon);
    let value = copy_range(line, colon + 1, line.len());
    let lname = lower_chars(&name);
    let v = trim_chars(&value);
    if chars_equal(&lname, &chars_of("content-length")) {
        if length.is_some() {
            *length = parse_usize(&v);
        }
    } else if chars_equal(&lname, &chars_of("origin")) {
        *origin = Some(v);
    } else if chars_equal(&lname, &chars_of("x-fluxor-token")) {
        *token = Some(v);
    }
}

/// What the head of a request tells: its method, its path without the
/// query, its origin, its token and its content length; `None` when a
/// content length is not a number.
pub open spec fn spec_request_head(text: Seq<char>) -> Option<
    (Seq<char>, Seq<char>, Option<Seq<char>>, Option<Seq<char>>, u64),
> {
    let lines = lines_from(text, 0);
    let request_line = if lines.len() > 0 {
        lines[0]
    } else {
        Seq::empty()
    };
    let method = first_word(request_line);
    let path = before_first(first_word(after_first_word(request_line)), '?');
    let fields = header_fields(
        if lines.len() > 0 {
            lines.drop_first()
        } else {
            Seq::empty()
        },
    );
    match fields.0 {
        Some(n) => Some((method, path, fields.1, fields.2, n)),
        None => None,
    }
}

/// The head of a request, as the bridge reads it.
#[derive(Clone, Debug)]
pub struct RequestHead {
    pub method: String,
    pub path: String,
    pub origin: Option<String>,
    pub token: Option<String>,
    pub content_length: usize,
}

fn head_from_text(v: &Vec<char>) -> (r: Option<RequestHead>)
    ensures
        match spec_request_head(v@) {
            None => r is None,
            Some((m, p, o, t, n)) => r matches Some(h) && h.method@ == m && h.path@ == p
                && opt_string(h.origin) == o && opt_string(h.token) == t && h.content_length == n,
        },
{
    let lines = split_lines(v);
    let ghost all = lines_view(lines@);
    proof {
        lemma_lines_nonempty(v@, 0);
    }
    let request_line: Vec<char> = if lines.len() > 0 {
        copy_range(&lines[0], 0, lines[0].len())
    } else {
        Vec::new()
    };
    proof {
        if lines@.len() > 0 {
            assert(lines[0]@.subrange(0, lines[0]@.len() as int) =~= lines[0]@);
            assert(all[0] == lines@[0]@);
        }
    }
    let (method, rest) = split_word(&request_line);
    let (target, _) = split_word(&rest);
    let cut = match find_char(&target, 0, target.len(), '?') {
        Some(q) => q,
        None => target.len(),
    };
    proof {
        assert(target@.subrange(0, target@.len() as int) =~= target@);
        crate::http::lemma_first_index(target@, '?');
    }
    let path = crate::text::string_of_range(&target, 0, cut);
    let mut length: Option<u64> = Some(0);
    let mut origin: Option<Vec<char>> = None;
    let mut token: Option<Vec<char>> = None;
    let mut k: usize = 1;
    proof {
        if all.len() > 0 {
            assert(all.subrange(1, 1) =~= Seq::<Seq<char>>::empty());
        }
    }
    while k < lines.len()
        invariant
            1 <= k,
            all == lines_view(lines@),
            k <= lines@.len() || lines@.len() == 0,
            lines@.len() > 0 ==> (length, opt_chars(origin), opt_chars(token)) == header_fields(
                all.subrange(1, k as int),
            ),
        decreases lines@.len() - k,
    {
        read_header_line(&lines[k], &mut length, &mut origin, &mut token);
        proof {
            assert(all.subrange(1, k + 1).drop_last() =~= all.subrange(1, k as int));
            assert(all.subrange(1, k + 1).last() == lines@[k as int]@);
        }
        k = k + 1;
    }
    proof {
        if all.len() > 0 {
            assert(all.subrange(1, all.len() as int) =~= all.drop_first());
        } else {
            assert(all.len() == 0);
        }
    }
    proof {
        lemma_header_fields_bound(all.drop_first());
    }
    let n = match length {
        Some(n) => n,
        None => return None,
    };
    let origin = match origin {
        Some(o) => Some(crate::text::string_of(&o)),
        None => None,
    };
    let token = match token {
        Some(t) => Some(crate::text::string_of(&t)),
        None => None,
    };
    Some(
        RequestHead {
            method: crate::text::string_of(&method),
            path,
            origin,
            token,
            content_length: n as usize,
        },
    )
}

/// Reads the head of a request, the first `header_end` bytes: it must be
/// UTF-8, every content length must be a number, and head and body together
/// must fit the bridge's limit.
pub fn parse_request_head(bytes: &Vec<u8>, header_end: usize) -> (r: Result<RequestHead, BridgeError>)
    requires
        header_end <= bytes@.len(),
    ensures
        ({
            let head = bytes@.subrange(0, header_end as int);
            if !vstd::utf8::valid_utf8(head) {
                r == Err::<RequestHead, BridgeError>(BridgeError::InvalidHeaders)
            } else {
                match spec_request_head(vstd::utf8::decode_utf8(head)) {
                    None => r == Err::<RequestHead, BridgeError>(BridgeError::InvalidContentLength),
                    Some((m, p, o, t, n)) => if n > MAX_REQUEST_BYTES || header_end + n
                        > MAX_REQUEST_BYTES {
                        r == Err::<RequestHead, BridgeError>(BridgeError::TooLarge)
                    } else {
                        r matches Ok(h) && h.method@ == m && h.path@ == p && opt_string(h.origin)
                            == o && opt_string(h.token) == t && h.content_length == n
                    },
                }
            }
        }),
{
    let mut head: Vec<u8> = Vec::new();
    let mut i: usize = 0;
    while i < header_end
        invariant
            i <= header_end <= bytes@.len(),
            head@ == bytes@.subrange(0, i as int),
        decreases header_end - i,
    {
        head.push(bytes[i]);
        i = i + 1;
    }
    let text = match string_from_utf8(head) {
        Some(t) => t,
        None => return Err(BridgeError::InvalidHeaders),
    };
    let chars = chars_of(text.as_str());
    let parsed = match head_from_text(&chars) {
        Some(h) => h,
        None => return Err(BridgeError::InvalidContentLength),
    };
    if parsed.content_length > MAX_REQUEST_BYTES || header_end > MAX_REQUEST_BYTES
        || parsed.content_length > MAX_REQUEST_BYTES - header_end {
        return Err(BridgeError::TooLarge);
    }
    Ok(parsed)
}

} // verus!
