//! Request handling of the local media server that hands song stems,
//! source videos and remote streams to the player: the per-process session
//! prefix every URL carries, byte ranges, content types, the local-file
//! route's path decoding, the folders it may serve, and the header block of
//! a proxied stream.

use vstd::prelude::*;
use vstd::string::StringSliceAdditionalSpecFns;
use vstd::utf8::{decode_utf8, encode_utf8, valid_utf8};

use crate::config::LibrarySource;
use crate::text::{
    chars_of, concat, contains_seq, find_char, first_index_of, has_prefix, index_of, all_hex, is_ascii_hexdigit, is_hex, lower_chars, lower_seq, parse_u64, parse_u64_chars, starts_with, string_of, subvec, u64_to_decimal, decimal,
};

verus! {

/// What the player needs to reach the media server: its port and the
/// session token that prefixes every URL.
pub struct MediaEndpoint {
    pub port: u16,
    pub session_token: String,
}

/// The endpoint for the bound port and the process's session token.
pub fn endpoint(port: u16, session_token: String) -> (r: MediaEndpoint)
    ensures
        r.port == port,
        r.session_token == session_token,
{
    MediaEndpoint { port, session_token }
}

// ─── Session token ───────────────────────────────────────────────────

/// Digit `v < 64` of the URL-safe base64 alphabet.
pub open spec fn b64_digit(v: int) -> char {
    if v < 26 {
        (65 + v) as char
    } else if v < 52 {
        (97 + v - 26) as char
    } else if v < 62 {
        (48 + v - 52) as char
    } else if v == 62 {
        '-'
    } else {
        '_'
    }
}

/// URL-safe base64 without padding: every 3 bytes become 4 digits of 6
/// bits, high bits first; 2 trailing bytes give 3 digits, 1 gives 2.
pub open spec fn base64_url_no_pad(b: Seq<u8>) -> Seq<char>
    decreases b.len(),
{
    if b.len() >= 3 {
        seq![
            b64_digit((b[0] / 4) as int),
            b64_digit((b[0] % 4) * 16 + b[1] / 16),
            b64_digit((b[1] % 16) * 4 + b[2] / 64),
            b64_digit((b[2] % 64) as int),
        ] + base64_url_no_pad(b.skip(3))
    } else if b.len() == 2 {
        seq![
            b64_digit((b[0] / 4) as int),
            b64_digit((b[0] % 4) * 16 + b[1] / 16),
            b64_digit((b[1] % 16) * 4),
        ]
    } else if b.len() == 1 {
        seq![b64_digit((b[0] / 4) as int), b64_digit((b[0] % 4) * 16)]
    } else {
        seq![]
    }
}

/// `base64::engine::general_purpose::URL_SAFE_NO_PAD.encode`: the bytes in
/// URL-safe base64 (`-` and `_` for 62 and 63), without `=` padding.
#[verifier::external_body]
fn encode_url_safe(bytes: &[u8]) -> (r: String)
    ensures
        r@ == base64_url_no_pad(bytes@),
{
    base64::Engine::encode(&base64::engine::general_purpose::URL_SAFE_NO_PAD, bytes)
}

/// The session token for 32 random bytes.
pub fn session_token_from_bytes(bytes: &[u8; 32]) -> (r: String)
    ensures
        r@ == base64_url_no_pad(bytes@),
{
    encode_url_safe(bytes.as_slice())
}

// ─── Session prefix ──────────────────────────────────────────────────

pub open spec fn lit_session_prefix() -> Seq<char> {
    seq!['/', 's', '/']
}

/// Byte-for-byte equality.
pub fn constant_time_eq(a: &[u8], b: &[u8]) -> (r: bool)
    ensures
        r == (a@ == b@),
{
    if a.len() != b.len() {
        return false;
    }
    let mut diff: u8 = 0;
    let mut i: usize = 0;
    while i < a.len()
        invariant
            a@.len() == b@.len(),
            i <= a@.len(),
            (diff == 0) == forall|j: int| 0 <= j < i ==> a@[j] == b@[j],
        decreases a@.len() - i,
    {
        let x = a[i];
        let y = b[i];
        let d = diff;
        assert((d | (x ^ y)) == 0 <==> (d == 0 && x == y)) by (bit_vector);
        diff = diff | (x ^ y);
        i = i + 1;
    }
    assert(a@ =~= b@ <==> forall|j: int| 0 <= j < a@.len() ==> a@[j] == b@[j]);
    diff == 0
}

/// The rest of `url` (from the `/` after the token) when it starts with
/// `/s/<token>/` for this session's token, compared as UTF-8 bytes.
pub open spec fn strip_session_prefix_spec(url: Seq<char>, session: Seq<u8>) -> Option<
    Seq<char>,
> {
    if has_prefix(url, lit_session_prefix()) {
        let prefix = url.skip(3);
        match first_index_of(prefix, '/') {
            Some(j) => if encode_utf8(prefix.take(j)) == session {
                Some(prefix.skip(j))
            } else {
                None
            },
            None => None,
        }
    } else {
        None
    }
}

// ─── Per-process server state ────────────────────────────────────────

/// The media server's state for the life of the process: the port it is
/// bound to (0 until it has started) and the session token, drawn once and
/// kept from then on.
pub struct MediaSession {
    port: u16,
    token: Option<String>,
}

impl MediaSession {
    pub closed spec fn port_spec(&self) -> u16 {
        self.port
    }

    pub closed spec fn token_spec(&self) -> Option<Seq<char>> {
        match self.token {
            Some(t) => Some(t@),
            None => None,
        }
    }

    /// Not started, no token yet.
    pub fn new() -> (r: MediaSession)
        ensures
            r.port_spec() == 0,
            r.token_spec() is None,
    {
        MediaSession { port: 0, token: None }
    }

    /// The session token. The first call makes it from `bytes`; every later
    /// call gives that same token back and ignores its `bytes`.
    pub fn session_token(&mut self, bytes: &[u8; 32]) -> (r: String)
        ensures
            r@ == token_after(old(self).token_spec(), bytes@),
            final(self).token_spec() == Some(r@),
            final(self).port_spec() == old(self).port_spec(),
    {
        match &self.token {
            Some(t) => t.clone(),
            None => {
                let t = session_token_from_bytes(bytes);
                self.token = Some(t.clone());
                t
            },
        }
    }

    /// Records the port the server is bound to; the token stays.
    pub fn started(&mut self, port: u16)
        ensures
            final(self).port_spec() == port,
            final(self).token_spec() == old(self).token_spec(),
    {
        self.port = port;
    }

    /// The endpoint as it stands: the bound port (0 before the server has
    /// started) and the session token, made from `bytes` if none was yet.
    pub fn endpoint(&mut self, bytes: &[u8; 32]) -> (r: MediaEndpoint)
        ensures
            r.port == old(self).port_spec(),
            r.session_token@ == token_after(old(self).token_spec(), bytes@),
            final(self).token_spec() == Some(r.session_token@),
            final(self).port_spec() == old(self).port_spec(),
    {
        let token = self.session_token(bytes);
        endpoint(self.port, token)
    }
}

/// The session token after a call that was handed `bytes`: the token
/// already drawn, if any, else the one made from `bytes`.
pub open spec fn token_after(current: Option<Seq<char>>, bytes: Seq<u8>) -> Seq<char> {
    match current {
        Some(t) => t,
        None => base64_url_no_pad(bytes),
    }
}

/// URL-safe base64 gives about four digits for every three bytes.
proof fn lemma_base64_len(b: Seq<u8>)
    ensures
        base64_url_no_pad(b).len() == (4 * b.len() + 2) / 3,
    decreases b.len(),
{
    if b.len() >= 3 {
        lemma_base64_len(b.skip(3));
    }
}

/// Every base64 digit is a letter, a digit, `-` or `_`.
proof fn lemma_base64_digits(b: Seq<u8>)
    ensures
        forall|i: int|
            0 <= i < base64_url_no_pad(b).len() ==> is_url_safe(#[trigger] base64_url_no_pad(b)[i]),
    decreases b.len(),
{
    assert forall|v: int| 0 <= v < 64 implies is_url_safe(#[trigger] b64_digit(v)) by {
        if v < 26 {
            assert((65 + v) as char == (65 + v) as char);
        }
    }
    if b.len() >= 3 {
        lemma_base64_digits(b.skip(3));
        let head = seq![
            b64_digit((b[0] / 4) as int),
            b64_digit((b[0] % 4) * 16 + b[1] / 16),
            b64_digit((b[1] % 16) * 4 + b[2] / 64),
            b64_digit((b[2] % 64) as int),
        ];
        let all = head + base64_url_no_pad(b.skip(3));
        assert forall|i: int| 0 <= i < all.len() implies is_url_safe(#[trigger] all[i]) by {
            if i >= 4 {
                assert(all[i] == base64_url_no_pad(b.skip(3))[i - 4]);
            }
        }
    }
}

/// A letter, a digit, `-` or `_`: what a URL path segment carries as is.
pub open spec fn is_url_safe(c: char) -> bool {
    ('A' <= c <= 'Z') || ('a' <= c <= 'z') || ('0' <= c <= '9') || c == '-' || c == '_'
}

/// The session token is drawn once: whatever bytes later calls are
/// handed, they give the token of the first call back. Drawn from 32
/// bytes, it is 43 URL-safe characters, so it never holds a `/`.
pub proof fn lemma_endpoint_token_stable(current: Option<Seq<char>>, first: Seq<u8>, later: Seq<u8>)
    ensures
        token_after(Some(token_after(current, first)), later) == token_after(current, first),
        current is None && first.len() == 32 ==> token_after(current, first).len() == 43,
        current is None ==> forall|i: int|
            0 <= i < token_after(current, first).len() ==> is_url_safe(
                #[trigger] token_after(current, first)[i],
            ),
        current is None ==> !token_after(current, first).contains('/'),
{
    if current is None {
        lemma_base64_len(first);
        lemma_base64_digits(first);
        let t = token_after(current, first);
        if t.contains('/') {
            let k = choose|k: int| 0 <= k < t.len() && t[k] == '/';
            assert(is_url_safe(t[k]));
        }
    }
}

/// A URL made of `/s/`, the session token and a route starting with `/`
/// is answered with that route; with any other token it is refused.
pub proof fn lemma_session_url(token: Seq<char>, route: Seq<char>, session: Seq<u8>)
    requires
        !token.contains('/'),
        route.len() > 0,
        route[0] == '/',
    ensures
        encode_utf8(token) == session ==> strip_session_prefix_spec(
            lit_session_prefix() + token + route,
            session,
        ) == Some(route),
        encode_utf8(token) != session ==> strip_session_prefix_spec(
            lit_session_prefix() + token + route,
            session,
        ) is None,
{
    let url = lit_session_prefix() + token + route;
    assert(url.take(3) =~= lit_session_prefix());
    let prefix = url.skip(3);
    assert(prefix =~= token + route);
    assert forall|j: int| 0 <= j < token.len() implies prefix[j] != '/' by {
        assert(prefix[j] == token[j]);
        if token[j] == '/' {
            assert(token.contains('/'));
        }
    }
    assert(prefix[token.len() as int] == route[0]);
    crate::text::lemma_index_of_at(prefix, '/', token.len() as int);
    assert(prefix.take(token.len() as int) =~= token);
    assert(prefix.skip(token.len() as int) =~= route);
}

/// Route part of a request URL, when the URL carries the session token.
pub fn strip_session_prefix<'a>(url: &'a str, session: &str) -> (r: Option<&'a str>)
    ensures
        match r {
            Some(rest) => strip_session_prefix_spec(url@, session.spec_bytes()) == Some(rest@),
            None => strip_session_prefix_spec(url@, session.spec_bytes()) is None,
        },
{
    let chars = chars_of(url);
    if !starts_with(&chars, &vec!['/', 's', '/']) {
        return None;
    }
    let prefix = subvec(&chars, 3, chars.len());
    assert(prefix@ == chars@.skip(3));
    let j = match find_char(&prefix, '/') {
        Some(j) => j,
        None => return None,
    };
    let n = chars.len();
    let token = url.substring_char(3, 3 + j);
    assert(token@ =~= prefix@.take(j as int));
    if constant_time_eq(token.as_bytes(), session.as_bytes()) {
        let rest = url.substring_char(3 + j, n);
        assert(rest@ =~= prefix@.skip(j as int));
        Some(rest)
    } else {
        None
    }
}

// ─── Content types ───────────────────────────────────────────────────

pub open spec fn mime_for_extension_spec(ext: Seq<char>) -> Seq<char> {
    let e = lower_seq(ext);
    if e == seq!['o', 'g', 'g'] || e == seq!['o', 'g', 'a'] || e == seq!['o', 'p', 'u', 's'] {
        "audio/ogg"@
    } else if e == seq!['m', 'p', '3'] {
        "audio/mpeg"@
    } else if e == seq!['w', 'a', 'v'] {
        "audio/wav"@
    } else if e == seq!['f', 'l', 'a', 'c'] {
        "audio/flac"@
    } else if e == seq!['m', '4', 'a'] || e == seq!['a', 'a', 'c'] {
        "audio/mp4"@
    } else if e == seq!['m', 'p', '4'] {
        "video/mp4"@
    } else if e == seq!['m', 'k', 'v'] {
        "video/x-matroska"@
    } else if e == seq!['w', 'e', 'b', 'm'] {
        "video/webm"@
    } else {
        "application/octet-stream"@
    }
}

/// The content types of the media the library holds, whatever the ASCII
/// case of the extension: FLAC is `audio/flac`; every audio extension the
/// server knows (mp3, ogg, oga, opus, wav, flac, m4a, aac) gets an `audio/`
/// type and every video one (mp4, mkv, webm) a `video/` type; only an
/// unknown extension falls back to `application/octet-stream`.
pub proof fn lemma_media_types(ext: Seq<char>)
    ensures
        lower_seq(ext) == "flac"@ ==> mime_for_extension_spec(ext) == "audio/flac"@,
        lower_seq(ext) == "mp3"@ ==> mime_for_extension_spec(ext) == "audio/mpeg"@,
        (lower_seq(ext) == "mp3"@ || lower_seq(ext) == "ogg"@ || lower_seq(ext) == "oga"@
            || lower_seq(ext) == "opus"@ || lower_seq(ext) == "wav"@ || lower_seq(ext) == "flac"@
            || lower_seq(ext) == "m4a"@ || lower_seq(ext) == "aac"@) ==> has_prefix(
            mime_for_extension_spec(ext),
            "audio/"@,
        ),
        (lower_seq(ext) == "mp4"@ || lower_seq(ext) == "mkv"@ || lower_seq(ext) == "webm"@)
            ==> has_prefix(mime_for_extension_spec(ext), "video/"@),
        mime_for_extension_spec(ext) == "application/octet-stream"@ <==> !(lower_seq(ext)
            == "mp3"@ || lower_seq(ext) == "ogg"@ || lower_seq(ext) == "oga"@ || lower_seq(ext)
            == "opus"@ || lower_seq(ext) == "wav"@ || lower_seq(ext) == "flac"@ || lower_seq(ext)
            == "m4a"@ || lower_seq(ext) == "aac"@ || lower_seq(ext) == "mp4"@ || lower_seq(ext)
            == "mkv"@ || lower_seq(ext) == "webm"@),
{
    reveal_strlit("flac");
    reveal_strlit("mp3");
    reveal_strlit("ogg");
    reveal_strlit("oga");
    reveal_strlit("opus");
    reveal_strlit("wav");
    reveal_strlit("m4a");
    reveal_strlit("aac");
    reveal_strlit("mp4");
    reveal_strlit("mkv");
    reveal_strlit("webm");
    reveal_strlit("audio/");
    reveal_strlit("video/");
    reveal_strlit("audio/flac");
    reveal_strlit("audio/mpeg");
    reveal_strlit("audio/ogg");
    reveal_strlit("audio/wav");
    reveal_strlit("audio/mp4");
    reveal_strlit("video/mp4");
    reveal_strlit("video/x-matroska");
    reveal_strlit("video/webm");
    reveal_strlit("application/octet-stream");
    assert("flac"@ =~= seq!['f', 'l', 'a', 'c']);
    assert("mp3"@ =~= seq!['m', 'p', '3']);
    assert("ogg"@ =~= seq!['o', 'g', 'g']);
    assert("oga"@ =~= seq!['o', 'g', 'a']);
    assert("opus"@ =~= seq!['o', 'p', 'u', 's']);
    assert("wav"@ =~= seq!['w', 'a', 'v']);
    assert("m4a"@ =~= seq!['m', '4', 'a']);
    assert("aac"@ =~= seq!['a', 'a', 'c']);
    assert("mp4"@ =~= seq!['m', 'p', '4']);
    assert("mkv"@ =~= seq!['m', 'k', 'v']);
    assert("webm"@ =~= seq!['w', 'e', 'b', 'm']);
    assert("audio/flac"@.take(6) =~= "audio/"@);
    assert("audio/mpeg"@.take(6) =~= "audio/"@);
    assert("audio/ogg"@.take(6) =~= "audio/"@);
    assert("audio/wav"@.take(6) =~= "audio/"@);
    assert("audio/mp4"@.take(6) =~= "audio/"@);
    assert("video/mp4"@.take(6) =~= "video/"@);
    assert("video/x-matroska"@.take(6) =~= "video/"@);
    assert("video/webm"@.take(6) =~= "video/"@);
    assert("audio/flac"@.len() != "application/octet-stream"@.len());
    assert("audio/mpeg"@.len() != "application/octet-stream"@.len());
    assert("audio/ogg"@.len() != "application/octet-stream"@.len());
    assert("audio/wav"@.len() != "application/octet-stream"@.len());
    assert("audio/mp4"@.len() != "application/octet-stream"@.len());
    assert("video/mp4"@.len() != "application/octet-stream"@.len());
    assert("video/x-matroska"@.len() != "application/octet-stream"@.len());
    assert("video/webm"@.len() != "application/octet-stream"@.len());
}

/// Content type served for a file with extension `ext` (ASCII case
/// ignored; a missing extension counts as the empty one).
pub fn mime_for_extension(ext: Option<&str>) -> (r: &'static str)
    ensures
        r@ == mime_for_extension_spec(
            match ext {
                Some(e) => e@,
                None => Seq::<char>::empty(),
            },
        ),
{
    let raw = match ext {
        Some(e) => chars_of(e),
        None => Vec::new(),
    };
    let e = lower_chars(&raw);
    if crate::text::chars_eq(&e, &vec!['o', 'g', 'g']) || crate::text::chars_eq(
        &e,
        &vec!['o', 'g', 'a'],
    ) || crate::text::chars_eq(&e, &vec!['o', 'p', 'u', 's']) {
        "audio/ogg"
    } else if crate::text::chars_eq(&e, &vec!['m', 'p', '3']) {
        "audio/mpeg"
    } else if crate::text::chars_eq(&e, &vec!['w', 'a', 'v']) {
        "audio/wav"
    } else if crate::text::chars_eq(&e, &vec!['f', 'l', 'a', 'c']) {
        "audio/flac"
    } else if crate::text::chars_eq(&e, &vec!['m', '4', 'a']) || crate::text::chars_eq(
        &e,
        &vec!['a', 'a', 'c'],
    ) {
        "audio/mp4"
    } else if crate::text::chars_eq(&e, &vec!['m', 'p', '4']) {
        "video/mp4"
    } else if crate::text::chars_eq(&e, &vec!['m', 'k', 'v']) {
        "video/x-matroska"
    } else if crate::text::chars_eq(&e, &vec!['w', 'e', 'b', 'm']) {
        "video/webm"
    } else {
        "application/octet-stream"
    }
}

// ─── Byte ranges ─────────────────────────────────────────────────────

pub open spec fn lit_bytes_eq() -> Seq<char> {
    seq!['b', 'y', 't', 'e', 's', '=']
}

/// First and last byte of a `Range: bytes=...` request against a file of
/// `file_len` bytes: `bytes=-N` is the last N bytes, `bytes=S-` runs to the
/// end, `bytes=S-E` is clamped to the end. Numbers are `u64` decimal.
pub open spec fn parse_range_spec(header: Seq<char>, file_len: u64) -> Option<(u64, u64)> {
    if !has_prefix(header, lit_bytes_eq()) {
        None
    } else {
        let spec_part = header.skip(6);
        let cut = index_of(spec_part, '-') as int;
        let start_str = spec_part.take(cut);
        let end_str = if cut < spec_part.len() {
            spec_part.skip(cut + 1)
        } else {
            Seq::<char>::empty()
        };
        let last = file_len.saturating_sub(1);
        if start_str.len() == 0 {
            match parse_u64(end_str) {
                Some(suffix) => Some((file_len.saturating_sub(suffix), last)),
                None => None,
            }
        } else {
            match parse_u64(start_str) {
                Some(start) => if end_str.len() == 0 {
                    Some((start, last))
                } else {
                    match parse_u64(end_str) {
                        Some(end) => Some((start, if end < last { end } else { last })),
                        None => None,
                    }
                },
                None => None,
            }
        }
    }
}

/// A range served from a non-empty file never ends past its last byte.
pub proof fn lemma_range_within_file(header: Seq<char>, file_len: u64)
    requires
        file_len > 0,
    ensures
        parse_range_spec(header, file_len) matches Some((start, end)) ==> end < file_len,
{
}

pub fn parse_range(range_header: &str, file_len: u64) -> (r: Option<(u64, u64)>)
    ensures
        r == parse_range_spec(range_header@, file_len),
{
    let chars = chars_of(range_header);
    if !starts_with(&chars, &vec!['b', 'y', 't', 'e', 's', '=']) {
        return None;
    }
    let spec_part = subvec(&chars, 6, chars.len());
    assert(spec_part@ == chars@.skip(6));
    let cut = crate::text::find_char_from(&spec_part, '-', 0);
    assert(spec_part@.skip(0) =~= spec_part@);
    let start_str = subvec(&spec_part, 0, cut);
    let end_str = if cut < spec_part.len() {
        subvec(&spec_part, cut + 1, spec_part.len())
    } else {
        Vec::new()
    };
    assert(cut < spec_part.len() ==> end_str@ == spec_part@.skip(cut + 1));
    assert(cut >= spec_part.len() ==> end_str@ == Seq::<char>::empty());
    let last = file_len.saturating_sub(1);
    if start_str.len() == 0 {
        match parse_u64_chars(&end_str) {
            Some(suffix) => Some((file_len.saturating_sub(suffix), last)),
            None => None,
        }
    } else {
        match parse_u64_chars(&start_str) {
            Some(start) => if end_str.len() == 0 {
                Some((start, last))
            } else {
                match parse_u64_chars(&end_str) {
                    Some(end) => Some(
                        (
                            start,
                            if end < last {
                                end
                            } else {
                                last
                            },
                        ),
                    ),
                    None => None,
                }
            },
            None => None,
        }
    }
}

/// The byte range to send for a `Range` header: the parsed range when it
/// can be served (its start at or before its end, its end inside the file),
/// with the number of bytes in it. `None` otherwise, and the whole file is
/// sent instead.
pub fn range_to_serve(range_header: &str, file_len: u64) -> (r: Option<(u64, u64, u64)>)
    ensures
        match parse_range_spec(range_header@, file_len) {
            Some((s, e)) => if s <= e && e < file_len {
                r == Some((s, e, (e - s + 1) as u64))
            } else {
                r is None
            },
            None => r is None,
        },
        r matches Some((s, e, n)) ==> s <= e && e < file_len && n == e - s + 1,
{
    match parse_range(range_header, file_len) {
        Some((start, end)) => if start <= end && end < file_len {
            Some((start, end, end - start + 1))
        } else {
            None
        },
        None => None,
    }
}

// ─── Request routing ─────────────────────────────────────────────────

/// Where a media request goes.
pub enum Route {
    /// A CORS preflight, answered with no content.
    Preflight,
    /// No valid session token in the URL.
    Unauthorized,
    /// A remote song other than by `GET`.
    MethodNotAllowed,
    /// A remote song, by the hash segment that follows `/remote/`.
    Remote(String),
    /// A local file, by the path segment that follows `/local/`.
    Local(String),
    /// Any other route.
    NotFound,
}

pub enum RouteView {
    Preflight,
    Unauthorized,
    MethodNotAllowed,
    Remote(Seq<char>),
    Local(Seq<char>),
    NotFound,
}

impl View for Route {
    type V = RouteView;

    open spec fn view(&self) -> RouteView {
        match self {
            Route::Preflight => RouteView::Preflight,
            Route::Unauthorized => RouteView::Unauthorized,
            Route::MethodNotAllowed => RouteView::MethodNotAllowed,
            Route::Remote(h) => RouteView::Remote(h@),
            Route::Local(p) => RouteView::Local(p@),
            Route::NotFound => RouteView::NotFound,
        }
    }
}

pub open spec fn lit_remote_route() -> Seq<char> {
    seq!['/', 'r', 'e', 'm', 'o', 't', 'e', '/']
}

pub open spec fn lit_local_route() -> Seq<char> {
    seq!['/', 'l', 'o', 'c', 'a', 'l', '/']
}

/// Preflights first; then the session token; then `/remote/` (by `GET`
/// only) and `/local/`; anything else is not found.
pub open spec fn route_spec(is_options: bool, is_get: bool, url: Seq<char>, session: Seq<u8>) -> RouteView {
    if is_options {
        RouteView::Preflight
    } else {
        match strip_session_prefix_spec(url, session) {
            None => RouteView::Unauthorized,
            Some(rest) => if has_prefix(rest, lit_remote_route()) {
                if is_get {
                    RouteView::Remote(rest.skip(8))
                } else {
                    RouteView::MethodNotAllowed
                }
            } else if has_prefix(rest, lit_local_route()) {
                RouteView::Local(rest.skip(7))
            } else {
                RouteView::NotFound
            },
        }
    }
}

/// Routes a request to the media server by its method and URL.
pub fn route(is_options: bool, is_get: bool, url: &str, session: &str) -> (r: Route)
    ensures
        r@ == route_spec(is_options, is_get, url@, session.spec_bytes()),
{
    if is_options {
        return Route::Preflight;
    }
    let rest = match strip_session_prefix(url, session) {
        Some(rest) => rest,
        None => return Route::Unauthorized,
    };
    let chars = chars_of(rest);
    let remote = vec!['/', 'r', 'e', 'm', 'o', 't', 'e', '/'];
    assert(remote@ =~= lit_remote_route());
    if starts_with(&chars, &remote) {
        if !is_get {
            return Route::MethodNotAllowed;
        }
        let seg = subvec(&chars, 8, chars.len());
        assert(seg@ =~= chars@.skip(8));
        return Route::Remote(string_of(&seg));
    }
    let local = vec!['/', 'l', 'o', 'c', 'a', 'l', '/'];
    assert(local@ =~= lit_local_route());
    if starts_with(&chars, &local) {
        let seg = subvec(&chars, 7, chars.len());
        assert(seg@ =~= chars@.skip(7));
        return Route::Local(string_of(&seg));
    }
    Route::NotFound
}

// ─── Remote song hashes ──────────────────────────────────────────────

/// A song hash from a URL: 1 to 64 bytes (`str::len`) of ASCII hex digits,
/// lower-cased.
pub open spec fn sanitize_file_hash_spec(raw: &str) -> Option<Seq<char>> {
    let n = raw.len();
    if n == 0 || n > 64 {
        None
    } else if all_hex(raw@) {
        Some(lower_seq(raw@))
    } else {
        None
    }
}

pub fn sanitize_file_hash(raw: &str) -> (r: Option<String>)
    ensures
        match r {
            Some(h) => sanitize_file_hash_spec(raw) == Some(h@),
            None => sanitize_file_hash_spec(raw) is None,
        },
{
    let n = raw.len();
    if n == 0 || n > 64 {
        return None;
    }
    let chars = chars_of(raw);
    let mut i: usize = 0;
    while i < chars.len()
        invariant
            i <= chars.len(),
            chars@ == raw@,
            forall|j: int| 0 <= j < i ==> is_hex(#[trigger] chars@[j]),
        decreases chars.len() - i,
    {
        if !is_ascii_hexdigit(chars[i]) {
            assert(!is_hex(raw@[i as int]));
            return None;
        }
        i = i + 1;
    }
    Some(string_of(&lower_chars(&chars)))
}

// ─── Local files ─────────────────────────────────────────────────────

/// Value of an ASCII hex digit byte.
pub open spec fn hex_value(b: u8) -> u8 {
    if 48 <= b && b <= 57 {
        (b - 48) as u8
    } else if 65 <= b && b <= 70 {
        (b - 55) as u8
    } else {
        (b - 87) as u8
    }
}

pub open spec fn is_hex_byte(b: u8) -> bool {
    (48 <= b && b <= 57) || (65 <= b && b <= 70) || (97 <= b && b <= 102)
}

/// Bytes with each `%` followed by two hex digits replaced by the byte
/// they spell; every other byte (a `+` too) stays.
pub open spec fn percent_decode_bytes(b: Seq<u8>) -> Seq<u8>
    decreases b.len(),
{
    if b.len() == 0 {
        b
    } else if b[0] == 37 && b.len() >= 3 && is_hex_byte(b[1]) && is_hex_byte(b[2]) {
        seq![(hex_value(b[1]) * 16 + hex_value(b[2])) as u8] + percent_decode_bytes(b.skip(3))
    } else {
        seq![b[0]] + percent_decode_bytes(b.skip(1))
    }
}

/// A text percent-decoded: its UTF-8 bytes decoded as above, read back as
/// UTF-8; `None` when they are not UTF-8.
pub open spec fn percent_decode_spec(s: Seq<char>) -> Option<Seq<char>> {
    let d = percent_decode_bytes(encode_utf8(s));
    if valid_utf8(d) {
        Some(decode_utf8(d))
    } else {
        None
    }
}

/// `urlencoding::decode`: each `%XX` escape (hex digits in either case)
/// becomes its byte, other bytes stay, and the result is read as UTF-8,
/// failing when it is not.
#[verifier::external_body]
fn percent_decode(s: &str) -> (r: Option<String>)
    ensures
        match r {
            Some(d) => percent_decode_spec(s@) == Some(d@),
            None => percent_decode_spec(s@) is None,
        },
{
    urlencoding::decode(s).ok().map(|d| d.into_owned())
}

/// File path named by the `/local/` route's path segment: percent-decoded
/// (the raw segment when decoding fails), and on Windows without the `/`
/// in front of a drive letter (`/C:/...` becomes `C:/...`).
pub open spec fn local_path_spec(segment: Seq<char>, windows: bool) -> Seq<char> {
    let decoded = match percent_decode_spec(segment) {
        Some(d) => d,
        None => segment,
    };
    let b = encode_utf8(decoded);
    if windows && b.len() >= 3 && is_ascii_alpha_byte(b[1]) && b[2] == 0x3A {
        decoded.drop_first()
    } else {
        decoded
    }
}

pub open spec fn is_ascii_alpha_byte(b: u8) -> bool {
    (0x41 <= b && b <= 0x5A) || (0x61 <= b && b <= 0x7A)
}

pub fn local_path(segment: &str, windows: bool) -> (r: String)
    ensures
        r@ == local_path_spec(segment@, windows),
{
    let decoded = match percent_decode(segment) {
        Some(d) => d,
        None => String::from_str(segment),
    };
    let bytes = decoded.as_str().as_bytes();
    if windows && bytes.len() >= 3 && ((0x41 <= bytes[1] && bytes[1] <= 0x5A) || (0x61 <= bytes[1]
        && bytes[1] <= 0x7A)) && bytes[2] == 0x3A {
        let chars = chars_of(decoded.as_str());
        proof {
            if chars.len() == 0 {
                assert(encode_utf8(decoded@) =~= Seq::<u8>::empty());
            }
        }
        let rest = subvec(&chars, 1, chars.len());
        assert(rest@ == chars@.drop_first());
        string_of(&rest)
    } else {
        decoded
    }
}

/// Folders a local-file request may resolve into: the fixed data and cache
/// roots, then the library folder when the source is a local folder.
pub open spec fn local_media_roots_spec(
    fixed: Seq<Seq<char>>,
    source: Option<LibrarySource>,
) -> Seq<Seq<char>> {
    match source {
        Some(LibrarySource::Folder { path }) => fixed.push(path@),
        _ => fixed,
    }
}

pub fn local_media_roots(fixed: Vec<String>, source: &Option<LibrarySource>) -> (r: Vec<String>)
    ensures
        r@.map_values(|s: String| s@) == local_media_roots_spec(
            fixed@.map_values(|s: String| s@),
            *source,
        ),
{
    let mut roots = fixed;
    let ghost before = roots@;
    if let Some(LibrarySource::Folder { path }) = source {
        roots.push(path.clone());
        assert(roots@.map_values(|s: String| s@) =~= before.map_values(|s: String| s@).push(
            path@,
        ));
    }
    roots
}

// ─── Proxied stream header ───────────────────────────────────────────

/// Header fields of an upstream stream to proxy.
pub struct StreamHead {
    pub status: u16,
    pub content_type: Option<String>,
    pub content_range: Option<String>,
    pub accept_ranges: Option<String>,
    pub content_length: Option<u64>,
}

pub open spec fn crlf() -> Seq<char> {
    seq!['\r', '\n']
}

pub open spec fn header_line(name: Seq<char>, value: Seq<char>) -> Seq<char> {
    name + seq![':', ' '] + value + crlf()
}

pub open spec fn opt_header(name: Seq<char>, value: Option<String>) -> Seq<char> {
    match value {
        Some(v) => header_line(name, v@),
        None => seq![],
    }
}

/// The status line and headers written before the proxied body: status,
/// then content type, range and `Accept-Ranges` (`bytes` when upstream sent
/// none), content length, CORS exposure, `nosniff`, `Connection: close`,
/// and the blank line.
pub open spec fn stream_head_spec(h: StreamHead) -> Seq<char> {
    "HTTP/1.1 "@ + decimal(h.status as nat) + " OK"@ + crlf() + opt_header(
        "Content-Type"@,
        h.content_type,
    ) + opt_header("Content-Range"@, h.content_range) + match h.accept_ranges {
        Some(v) => header_line("Accept-Ranges"@, v@),
        None => header_line("Accept-Ranges"@, "bytes"@),
    } + match h.content_length {
        Some(n) => header_line("Content-Length"@, decimal(n as nat)),
        None => seq![],
    } + header_line("Access-Control-Allow-Origin"@, "*"@) + header_line(
        "Access-Control-Expose-Headers"@,
        "Content-Range, Accept-Ranges, Content-Length"@,
    ) + header_line("X-Content-Type-Options"@, "nosniff"@) + header_line(
        "Connection"@,
        "close"@,
    ) + crlf()
}

fn push_header(out: &mut Vec<char>, name: &str, value: &Vec<char>)
    ensures
        final(out)@ == old(out)@ + header_line(name@, value@),
{
    let line = concat(&concat(&concat(&chars_of(name), &vec![':', ' ']), value), &vec!['\r', '\n']);
    *out = concat(out, &line);
}

pub fn stream_head(h: &StreamHead) -> (r: String)
    ensures
        r@ == stream_head_spec(*h),
{
    let mut out = chars_of("HTTP/1.1 ");
    out = concat(&out, &u64_to_decimal(h.status as u64));
    out = concat(&out, &chars_of(" OK"));
    out = concat(&out, &vec!['\r', '\n']);
    let ghost p1 = out@;
    if let Some(ct) = &h.content_type {
        push_header(&mut out, "Content-Type", &chars_of(ct.as_str()));
    }
    assert(out@ == p1 + opt_header("Content-Type"@, h.content_type));
    let ghost p2 = out@;
    if let Some(cr) = &h.content_range {
        push_header(&mut out, "Content-Range", &chars_of(cr.as_str()));
    }
    assert(out@ == p2 + opt_header("Content-Range"@, h.content_range));
    match &h.accept_ranges {
        Some(ar) => push_header(&mut out, "Accept-Ranges", &chars_of(ar.as_str())),
        None => push_header(&mut out, "Accept-Ranges", &chars_of("bytes")),
    }
    let ghost p3 = out@;
    if let Some(len) = h.content_length {
        push_header(&mut out, "Content-Length", &u64_to_decimal(len));
    }
    push_header(&mut out, "Access-Control-Allow-Origin", &chars_of("*"));
    push_header(
        &mut out,
        "Access-Control-Expose-Headers",
        &chars_of("Content-Range, Accept-Ranges, Content-Length"),
    );
    push_header(&mut out, "X-Content-Type-Options", &chars_of("nosniff"));
    push_header(&mut out, "Connection", &chars_of("close"));
    out = concat(&out, &vec!['\r', '\n']);
    proof {
        assert(out@ =~= stream_head_spec(*h));
    }
    string_of(&out)
}

} // verus!
