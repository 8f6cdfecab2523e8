//! UltraStar Deluxe (USDX) song-file support.
//!
//! Parses the header tags and the note body of a `.txt` descriptor
//! (absolute and `#RELATIVE:yes` timing), decodes its text (UTF-8 with an
//! optional BOM, falling back to Windows-1252), names the sibling media it
//! references, and lays the notes out as transcript segments measured in
//! note beats. Converting beats to seconds (`#BPM`, `#GAP`) is floating-point
//! work that stays with the caller: the parse keeps those tags' texts.

use vstd::prelude::*;
use vstd::utf8::{decode_utf8, encode_utf8, valid_utf8};

use crate::text::{
    chars_eq, chars_of, concat, contains_chars, contains_seq, is_whitespace, is_ws, eq_ignore_ascii_case, eq_ignore_case, find_char, find_char_from, first_index_of, index_of, is_ascii_digit, is_digit, parse_i64, parse_i64_chars, string_of, subvec, trim, trim_chars, trim_start, trim_start_chars, upper_chars, upper_seq, split_lines, lemma_split_lines_step,
};

verus! {

// ─── Parsed model ────────────────────────────────────────────────────

/// One sung note. `beat` is absolute: relative-mode files have the line
/// offset folded in.
pub struct UsdxNote {
    pub beat: i64,
    pub length: i64,
    pub pitch: i32,
    pub text: String,
}

pub struct NoteView {
    pub beat: i64,
    pub length: i64,
    pub pitch: i32,
    pub text: Seq<char>,
}

impl View for UsdxNote {
    type V = NoteView;

    open spec fn view(&self) -> NoteView {
        NoteView { beat: self.beat, length: self.length, pitch: self.pitch, text: self.text@ }
    }
}

pub open spec fn phrase_view(p: Seq<UsdxNote>) -> Seq<NoteView> {
    p.map_values(|n: UsdxNote| n@)
}

pub open spec fn phrases_view(ps: Seq<Vec<UsdxNote>>) -> Seq<Seq<NoteView>> {
    ps.map_values(|p: Vec<UsdxNote>| phrase_view(p@))
}

pub open spec fn opt_view(o: Option<String>) -> Option<Seq<char>> {
    match o {
        Some(s) => Some(s@),
        None => None,
    }
}

/// Parsed USDX descriptor, reduced to the fields that drive transcript
/// synthesis and sibling-file resolution. Note kinds (golden / freestyle /
/// rap / …) and unread tags are discarded. `bpm_text`, `gap_text` and
/// `end_text` hold the last `#BPM`, `#GAP` and `#END` values with `,`
/// turned into `.`, ready for a decimal parse.
pub struct UsdxFile {
    pub title: String,
    pub artist: String,
    pub audio_filename: String,
    pub vocals_filename: Option<String>,
    pub instrumental_filename: Option<String>,
    pub video_filename: Option<String>,
    pub cover_filename: Option<String>,
    pub language: Option<String>,
    pub edition: Option<String>,
    pub end_text: Option<String>,
    pub bpm_text: String,
    pub gap_text: Option<String>,
    pub phrases: Vec<Vec<UsdxNote>>,
}

/// Why a descriptor could not be parsed.
#[derive(PartialEq, Eq, Structural, Clone, Copy, Debug)]
pub enum UsdxError {
    MissingTitle,
    MissingArtist,
    MissingAudio,
    MissingBpm,
}

impl UsdxError {
    /// The message shown for this error.
    pub fn message(&self) -> (r: String)
        ensures
            r@ == usdx_error_message(*self),
    {
        match self {
            UsdxError::MissingTitle => String::from_str("Missing #TITLE tag"),
            UsdxError::MissingArtist => String::from_str("Missing #ARTIST tag"),
            UsdxError::MissingAudio => String::from_str("Missing #AUDIO/#MP3 tag"),
            UsdxError::MissingBpm => String::from_str("Missing or invalid #BPM tag"),
        }
    }
}

pub open spec fn usdx_error_message(e: UsdxError) -> Seq<char> {
    match e {
        UsdxError::MissingTitle => "Missing #TITLE tag"@,
        UsdxError::MissingArtist => "Missing #ARTIST tag"@,
        UsdxError::MissingAudio => "Missing #AUDIO/#MP3 tag"@,
        UsdxError::MissingBpm => "Missing or invalid #BPM tag"@,
    }
}

// ─── Header tags ─────────────────────────────────────────────────────

/// `Some(value)` unless `value` is empty.
pub open spec fn non_empty_spec(value: Seq<char>) -> Option<Seq<char>> {
    if value.len() == 0 {
        None
    } else {
        Some(value)
    }
}

pub fn non_empty(value: String) -> (r: Option<String>)
    ensures
        opt_view(r) == non_empty_spec(value@),
{
    let v = chars_of(value.as_str());
    if v.len() == 0 {
        None
    } else {
        Some(value)
    }
}

/// `#KEY:VALUE` split at the first `:`, both sides trimmed.
pub open spec fn parse_tag_spec(line: Seq<char>) -> Option<(Seq<char>, Seq<char>)> {
    if line.len() == 0 || line[0] != '#' {
        None
    } else {
        let after = line.drop_first();
        match first_index_of(after, ':') {
            Some(j) => Some((trim(after.take(j)), trim(after.skip(j + 1)))),
            None => None,
        }
    }
}

fn parse_tag_chars(line: &Vec<char>) -> (r: Option<(Vec<char>, Vec<char>)>)
    ensures
        match r {
            Some((k, v)) => parse_tag_spec(line@) == Some((k@, v@)),
            None => parse_tag_spec(line@) is None,
        },
{
    if line.len() == 0 || line[0] != '#' {
        return None;
    }
    let after = subvec(line, 1, line.len());
    assert(after@ == line@.drop_first());
    match find_char(&after, ':') {
        Some(j) => {
            let key = subvec(&after, 0, j);
            let value = subvec(&after, j + 1, after.len());
            assert(key@ == after@.take(j as int));
            assert(value@ == after@.skip(j + 1));
            Some((trim_chars(&key), trim_chars(&value)))
        },
        None => None,
    }
}

/// Splits a `#KEY:VALUE` header line into its trimmed key and value.
pub fn parse_tag(line: &str) -> (r: Option<(String, String)>)
    ensures
        match r {
            Some((k, v)) => parse_tag_spec(line@) == Some((k@, v@)),
            None => parse_tag_spec(line@) is None,
        },
{
    let chars = chars_of(line);
    match parse_tag_chars(&chars) {
        Some((k, v)) => Some((string_of(&k), string_of(&v))),
        None => None,
    }
}

// ─── Integers in the note body ───────────────────────────────────────

/// Number of leading spaces and tabs.
pub open spec fn blank_run(s: Seq<char>) -> nat
    decreases s.len(),
{
    if s.len() > 0 && (s[0] == ' ' || s[0] == '\t') {
        1 + blank_run(s.drop_first())
    } else {
        0
    }
}

/// Number of leading ASCII digits.
pub open spec fn digit_run(s: Seq<char>) -> nat
    decreases s.len(),
{
    if s.len() > 0 && is_digit(s[0]) {
        1 + digit_run(s.drop_first())
    } else {
        0
    }
}

/// Reads a signed decimal integer after any spaces and tabs: an optional
/// sign, at least one digit, and a value that fits in `i64`. Gives the value
/// and what follows it.
pub open spec fn consume_int_spec(s: Seq<char>) -> Option<(i64, Seq<char>)> {
    let t = s.skip(blank_run(s) as int);
    let sign: int = if t.len() > 0 && (t[0] == '-' || t[0] == '+') {
        1
    } else {
        0
    };
    let n = sign + digit_run(t.skip(sign));
    if n == sign {
        None
    } else {
        match parse_i64(t.take(n)) {
            Some(v) => Some((v, t.skip(n))),
            None => None,
        }
    }
}

proof fn lemma_blank_run(s: Seq<char>, i: int)
    requires
        0 <= i <= s.len(),
        forall|j: int| 0 <= j < i ==> (s[j] == ' ' || s[j] == '\t'),
        i == s.len() || !(s[i] == ' ' || s[i] == '\t'),
    ensures
        blank_run(s) == i,
    decreases i,
{
    if i > 0 {
        lemma_blank_run(s.drop_first(), i - 1);
    }
}

proof fn lemma_digit_run(s: Seq<char>, i: int)
    requires
        0 <= i <= s.len(),
        forall|j: int| 0 <= j < i ==> is_digit(s[j]),
        i == s.len() || !is_digit(s[i]),
    ensures
        digit_run(s) == i,
    decreases i,
{
    if i > 0 {
        lemma_digit_run(s.drop_first(), i - 1);
    }
}

fn consume_int_chars(s: &Vec<char>) -> (r: Option<(i64, Vec<char>)>)
    ensures
        match r {
            Some((v, rest)) => consume_int_spec(s@) == Some((v, rest@)),
            None => consume_int_spec(s@) is None,
        },
{
    let mut b: usize = 0;
    while b < s.len() && (s[b] == ' ' || s[b] == '\t')
        invariant
            b <= s.len(),
            forall|j: int| 0 <= j < b ==> (s@[j] == ' ' || s@[j] == '\t'),
        decreases s.len() - b,
    {
        b = b + 1;
    }
    proof {
        lemma_blank_run(s@, b as int);
    }
    let t = subvec(s, b, s.len());
    assert(t@ == s@.skip(b as int));
    let sign: usize = if t.len() > 0 && (t[0] == '-' || t[0] == '+') {
        1
    } else {
        0
    };
    let mut i = sign;
    while i < t.len() && is_ascii_digit(t[i])
        invariant
            sign <= i <= t.len(),
            forall|j: int| sign <= j < i ==> is_digit(t@[j]),
        decreases t.len() - i,
    {
        i = i + 1;
    }
    proof {
        let u = t@.skip(sign as int);
        assert forall|j: int| 0 <= j < i - sign implies is_digit(u[j]) by {
            assert(u[j] == t@[j + sign]);
        }
        if i < t.len() {
            assert(u[i - sign] == t@[i as int]);
        }
        lemma_digit_run(u, i - sign);
    }
    if i == sign {
        return None;
    }
    let num = subvec(&t, 0, i);
    assert(num@ == t@.take(i as int));
    match parse_i64_chars(&num) {
        Some(v) => {
            let rest = subvec(&t, i, t.len());
            assert(rest@ == t@.skip(i as int));
            Some((v, rest))
        },
        None => None,
    }
}

/// Integer at the start of `rest` (after spaces and tabs), if any.
pub fn leading_int(rest: &str) -> (r: Option<i64>)
    ensures
        match consume_int_spec(rest@) {
            Some((v, _)) => r == Some(v),
            None => r is None,
        },
{
    let chars = chars_of(rest);
    match consume_int_chars(&chars) {
        Some((v, _)) => Some(v),
        None => None,
    }
}

/// Reads the next integer of a note line, advancing `s` past it. The
/// leading spaces and tabs are consumed whether or not a number follows.
pub fn consume_int(s: &mut String) -> (r: Option<i64>)
    ensures
        match consume_int_spec(old(s)@) {
            Some((v, rest)) => r == Some(v) && final(s)@ == rest,
            None => r is None && final(s)@ == old(s)@.skip(blank_run(old(s)@) as int),
        },
{
    let chars = chars_of(s.as_str());
    match consume_int_chars(&chars) {
        Some((v, rest)) => {
            *s = string_of(&rest);
            Some(v)
        },
        None => {
            let mut b: usize = 0;
            while b < chars.len() && (chars[b] == ' ' || chars[b] == '\t')
                invariant
                    b <= chars.len(),
                    forall|j: int| 0 <= j < b ==> (chars@[j] == ' ' || chars@[j] == '\t'),
                decreases chars.len() - b,
            {
                b = b + 1;
            }
            proof {
                lemma_blank_run(chars@, b as int);
            }
            let rest = subvec(&chars, b, chars.len());
            assert(rest@ =~= chars@.skip(b as int));
            *s = string_of(&rest);
            None
        },
    }
}

/// Note text after exactly one separating space or tab; USDX keeps further
/// leading spaces as a "new word starts here" marker.
pub open spec fn text_remainder_spec(s: Seq<char>) -> Seq<char> {
    if s.len() > 0 && (s[0] == ' ' || s[0] == '\t') {
        s.drop_first()
    } else {
        s
    }
}

pub fn consume_text_remainder(s: &str) -> (r: String)
    ensures
        r@ == text_remainder_spec(s@),
{
    let chars = chars_of(s);
    if chars.len() > 0 && (chars[0] == ' ' || chars[0] == '\t') {
        let rest = subvec(&chars, 1, chars.len());
        assert(rest@ == chars@.drop_first());
        string_of(&rest)
    } else {
        String::from_str(s)
    }
}

// ─── Notes ───────────────────────────────────────────────────────────

/// The note encoded by `rest` (a note line without its kind character):
/// beat, length and pitch, then the text. Relative files add the current
/// line offset to the beat (two's-complement wrapping, as a release build
/// computes it); negative lengths become 0; the pitch keeps its low 32 bits.
pub open spec fn note_spec(rest: Seq<char>, line_offset: i64, relative: bool) -> Option<NoteView> {
    match consume_int_spec(rest) {
        None => None,
        Some((beat, r1)) => match consume_int_spec(r1) {
            None => None,
            Some((length, r2)) => match consume_int_spec(r2) {
                None => None,
                Some((pitch, r3)) => Some(
                    NoteView {
                        beat: if relative {
                            line_offset.wrapping_add(beat)
                        } else {
                            beat
                        },
                        length: if length < 0 {
                            0
                        } else {
                            length
                        },
                        pitch: pitch as i32,
                        text: text_remainder_spec(r3),
                    },
                ),
            },
        },
    }
}

fn parse_note_chars(rest: &Vec<char>, line_offset: i64, relative: bool) -> (r: Option<UsdxNote>)
    ensures
        match r {
            Some(n) => note_spec(rest@, line_offset, relative) == Some(n@),
            None => note_spec(rest@, line_offset, relative) is None,
        },
{
    let (beat, r1) = match consume_int_chars(rest) {
        Some(p) => p,
        None => return None,
    };
    let (length, r2) = match consume_int_chars(&r1) {
        Some(p) => p,
        None => return None,
    };
    let (pitch, r3) = match consume_int_chars(&r2) {
        Some(p) => p,
        None => return None,
    };
    let text = if r3.len() > 0 && (r3[0] == ' ' || r3[0] == '\t') {
        let t = subvec(&r3, 1, r3.len());
        assert(t@ == r3@.drop_first());
        t
    } else {
        r3
    };
    Some(
        UsdxNote {
            beat: if relative {
                line_offset.wrapping_add(beat)
            } else {
                beat
            },
            length: if length < 0 {
                0
            } else {
                length
            },
            pitch: pitch as i32,
            text: string_of(&text),
        },
    )
}

/// Parses the body of a note line (everything after its kind character).
pub fn parse_note(rest: &str, line_offset: i64, relative: bool) -> (r: Option<UsdxNote>)
    ensures
        match r {
            Some(n) => note_spec(rest@, line_offset, relative) == Some(n@),
            None => note_spec(rest@, line_offset, relative) is None,
        },
{
    let chars = chars_of(rest);
    parse_note_chars(&chars, line_offset, relative)
}

// ─── Text decoding ───────────────────────────────────────────────────

/// Windows-1252 reading of one byte: the 0x80–0x9F block maps to the
/// typographic characters CP-1252 defines there; every other byte (the five
/// undefined ones included) is the code point of the same number.
pub open spec fn cp1252_spec(b: u8) -> char {
    if b == 0x80 {
        '\u{20AC}'
    } else if b == 0x82 {
        '\u{201A}'
    } else if b == 0x83 {
        '\u{0192}'
    } else if b == 0x84 {
        '\u{201E}'
    } else if b == 0x85 {
        '\u{2026}'
    } else if b == 0x86 {
        '\u{2020}'
    } else if b == 0x87 {
        '\u{2021}'
    } else if b == 0x88 {
        '\u{02C6}'
    } else if b == 0x89 {
        '\u{2030}'
    } else if b == 0x8A {
        '\u{0160}'
    } else if b == 0x8B {
        '\u{2039}'
    } else if b == 0x8C {
        '\u{0152}'
    } else if b == 0x8E {
        '\u{017D}'
    } else if b == 0x91 {
        '\u{2018}'
    } else if b == 0x92 {
        '\u{2019}'
    } else if b == 0x93 {
        '\u{201C}'
    } else if b == 0x94 {
        '\u{201D}'
    } else if b == 0x95 {
        '\u{2022}'
    } else if b == 0x96 {
        '\u{2013}'
    } else if b == 0x97 {
        '\u{2014}'
    } else if b == 0x98 {
        '\u{02DC}'
    } else if b == 0x99 {
        '\u{2122}'
    } else if b == 0x9A {
        '\u{0161}'
    } else if b == 0x9B {
        '\u{203A}'
    } else if b == 0x9C {
        '\u{0153}'
    } else if b == 0x9E {
        '\u{017E}'
    } else if b == 0x9F {
        '\u{0178}'
    } else {
        b as char
    }
}

pub fn cp1252_to_char(b: u8) -> (c: char)
    ensures
        c == cp1252_spec(b),
{
    match b {
        0x80 => '\u{20AC}',
        0x82 => '\u{201A}',
        0x83 => '\u{0192}',
        0x84 => '\u{201E}',
        0x85 => '\u{2026}',
        0x86 => '\u{2020}',
        0x87 => '\u{2021}',
        0x88 => '\u{02C6}',
        0x89 => '\u{2030}',
        0x8A => '\u{0160}',
        0x8B => '\u{2039}',
        0x8C => '\u{0152}',
        0x8E => '\u{017D}',
        0x91 => '\u{2018}',
        0x92 => '\u{2019}',
        0x93 => '\u{201C}',
        0x94 => '\u{201D}',
        0x95 => '\u{2022}',
        0x96 => '\u{2013}',
        0x97 => '\u{2014}',
        0x98 => '\u{02DC}',
        0x99 => '\u{2122}',
        0x9A => '\u{0161}',
        0x9B => '\u{203A}',
        0x9C => '\u{0153}',
        0x9E => '\u{017E}',
        0x9F => '\u{0178}',
        _ => b as char,
    }
}

/// `std::str::from_utf8`: the text the bytes encode when they are valid
/// UTF-8, `None` otherwise.
#[verifier::external_body]
fn utf8_str(bytes: &[u8]) -> (r: Option<&str>)
    ensures
        match r {
            Some(s) => valid_utf8(bytes@) && s@ == decode_utf8(bytes@),
            None => !valid_utf8(bytes@),
        },
{
    std::str::from_utf8(bytes).ok()
}

/// The bytes without a leading UTF-8 byte-order mark.
pub open spec fn strip_bom(bytes: Seq<u8>) -> Seq<u8> {
    if bytes.len() >= 3 && bytes[0] == 0xEF && bytes[1] == 0xBB && bytes[2] == 0xBF {
        bytes.skip(3)
    } else {
        bytes
    }
}

/// Text of a descriptor file: UTF-8 (after an optional BOM) when valid,
/// otherwise each byte read as Windows-1252.
pub open spec fn decode_text_spec(bytes: Seq<u8>) -> Seq<char> {
    let b = strip_bom(bytes);
    if valid_utf8(b) {
        decode_utf8(b)
    } else {
        b.map_values(|x: u8| cp1252_spec(x))
    }
}

/// Text written as UTF-8 reads back unchanged, with or without a leading
/// byte-order mark.
pub proof fn lemma_decode_text_round_trip(s: Seq<char>)
    ensures
        !(encode_utf8(s).len() >= 3 && encode_utf8(s)[0] == 0xEF && encode_utf8(s)[1] == 0xBB
            && encode_utf8(s)[2] == 0xBF) ==> decode_text_spec(encode_utf8(s)) == s,
        decode_text_spec(seq![0xEFu8, 0xBBu8, 0xBFu8] + encode_utf8(s)) == s,
{
    vstd::utf8::encode_utf8_valid_utf8(s);
    vstd::utf8::encode_utf8_decode_utf8(s);
    let b = seq![0xEFu8, 0xBBu8, 0xBFu8] + encode_utf8(s);
    assert(b.skip(3) =~= encode_utf8(s));
}

pub fn decode_text(bytes: &[u8]) -> (r: String)
    ensures
        r@ == decode_text_spec(bytes@),
{
    let stripped: &[u8] = if bytes.len() >= 3 && bytes[0] == 0xEF && bytes[1] == 0xBB && bytes[2]
        == 0xBF {
        vstd::slice::slice_subrange(bytes, 3, bytes.len())
    } else {
        bytes
    };
    assert(stripped@ == strip_bom(bytes@));
    if let Some(s) = utf8_str(stripped) {
        return String::from_str(s);
    }
    let mut out: Vec<char> = Vec::new();
    let mut i: usize = 0;
    while i < stripped.len()
        invariant
            i <= stripped@.len(),
            out@ == stripped@.take(i as int).map_values(|x: u8| cp1252_spec(x)),
        decreases stripped@.len() - i,
    {
        out.push(cp1252_to_char(stripped[i]));
        i = i + 1;
        assert(stripped@.take(i as int).map_values(|x: u8| cp1252_spec(x)) =~= stripped@.take(
            i - 1 as int,
        ).map_values(|x: u8| cp1252_spec(x)).push(cp1252_spec(stripped@[i - 1])));
    }
    assert(stripped@.take(stripped@.len() as int) =~= stripped@);
    string_of(&out)
}


// ─── Line splitting ──────────────────────────────────────────────────

/// `s` without trailing carriage returns.
pub open spec fn trim_end_cr(s: Seq<char>) -> Seq<char>
    decreases s.len(),
{
    if s.len() > 0 && s.last() == '\r' {
        trim_end_cr(s.drop_last())
    } else {
        s
    }
}

fn trim_end_cr_chars(s: &Vec<char>) -> (r: Vec<char>)
    ensures
        r@ == trim_end_cr(s@),
{
    let mut n: usize = s.len();
    assert(s@.take(n as int) =~= s@);
    while n > 0 && s[n - 1] == '\r'
        invariant
            n <= s.len(),
            trim_end_cr(s@) == trim_end_cr(s@.take(n as int)),
        decreases n,
    {
        assert(s@.take(n as int).drop_last() =~= s@.take(n - 1));
        n = n - 1;
    }
    subvec(s, 0, n)
}

/// What a descriptor line holds once its line ending and its leading
/// whitespace are gone.
pub open spec fn line_content(piece: Seq<char>) -> Seq<char> {
    trim_start(trim_end_cr(piece))
}

// ─── Scan state ──────────────────────────────────────────────────────

pub open spec fn lit_title() -> Seq<char> {
    seq!['T', 'I', 'T', 'L', 'E']
}

pub open spec fn lit_artist() -> Seq<char> {
    seq!['A', 'R', 'T', 'I', 'S', 'T']
}

pub open spec fn lit_audio() -> Seq<char> {
    seq!['A', 'U', 'D', 'I', 'O']
}

pub open spec fn lit_mp3() -> Seq<char> {
    seq!['M', 'P', '3']
}

pub open spec fn lit_vocals() -> Seq<char> {
    seq!['V', 'O', 'C', 'A', 'L', 'S']
}

pub open spec fn lit_instrumental() -> Seq<char> {
    seq!['I', 'N', 'S', 'T', 'R', 'U', 'M', 'E', 'N', 'T', 'A', 'L']
}

pub open spec fn lit_video() -> Seq<char> {
    seq!['V', 'I', 'D', 'E', 'O']
}

pub open spec fn lit_cover() -> Seq<char> {
    seq!['C', 'O', 'V', 'E', 'R']
}

pub open spec fn lit_language() -> Seq<char> {
    seq!['L', 'A', 'N', 'G', 'U', 'A', 'G', 'E']
}

pub open spec fn lit_edition() -> Seq<char> {
    seq!['E', 'D', 'I', 'T', 'I', 'O', 'N']
}

pub open spec fn lit_bpm() -> Seq<char> {
    seq!['B', 'P', 'M']
}

pub open spec fn lit_gap() -> Seq<char> {
    seq!['G', 'A', 'P']
}

pub open spec fn lit_end() -> Seq<char> {
    seq!['E', 'N', 'D']
}

pub open spec fn lit_relative() -> Seq<char> {
    seq!['R', 'E', 'L', 'A', 'T', 'I', 'V', 'E']
}

pub open spec fn lit_yes() -> Seq<char> {
    seq!['y', 'e', 's']
}

/// First comma-separated item of a tag value, trimmed, unless empty.
pub open spec fn first_item(value: Seq<char>) -> Option<Seq<char>> {
    non_empty_spec(trim(value.take(index_of(value, ',') as int)))
}

/// A numeric tag value, trimmed, with decimal commas turned into points.
pub open spec fn numeric_text(value: Seq<char>) -> Seq<char> {
    trim(value).map_values(|c: char| if c == ',' { '.' } else { c })
}

/// Everything gathered so far while reading a descriptor line by line.
pub struct ScanView {
    pub title: Option<Seq<char>>,
    pub artist: Option<Seq<char>>,
    pub audio: Option<Seq<char>>,
    pub vocals: Option<Seq<char>>,
    pub instrumental: Option<Seq<char>>,
    pub video: Option<Seq<char>>,
    pub cover: Option<Seq<char>>,
    pub language: Option<Seq<char>>,
    pub edition: Option<Seq<char>>,
    pub end: Option<Seq<char>>,
    pub bpm: Option<Seq<char>>,
    pub gap: Option<Seq<char>>,
    pub relative: bool,
    pub in_notes: bool,
    pub done: bool,
    pub line_offset: i64,
    pub phrases: Seq<Seq<NoteView>>,
    pub current: Seq<NoteView>,
}

pub open spec fn scan_start() -> ScanView {
    ScanView {
        title: None,
        artist: None,
        audio: None,
        vocals: None,
        instrumental: None,
        video: None,
        cover: None,
        language: None,
        edition: None,
        end: None,
        bpm: None,
        gap: None,
        relative: false,
        in_notes: false,
        done: false,
        line_offset: 0,
        phrases: seq![],
        current: seq![],
    }
}

/// Effect of one header tag. `#AUDIO` (the v1.1.0 successor to `#MP3`) wins
/// over `#MP3` whichever comes first; every other tag keeps its last value.
pub open spec fn apply_tag(st: ScanView, key: Seq<char>, value: Seq<char>) -> ScanView {
    let k = upper_seq(key);
    if k == lit_title() {
        ScanView { title: non_empty_spec(value), ..st }
    } else if k == lit_artist() {
        ScanView { artist: non_empty_spec(value), ..st }
    } else if k == lit_audio() {
        ScanView { audio: non_empty_spec(value), ..st }
    } else if k == lit_mp3() && st.audio is None {
        ScanView { audio: non_empty_spec(value), ..st }
    } else if k == lit_vocals() {
        ScanView { vocals: non_empty_spec(value), ..st }
    } else if k == lit_instrumental() {
        ScanView { instrumental: non_empty_spec(value), ..st }
    } else if k == lit_video() {
        ScanView { video: non_empty_spec(value), ..st }
    } else if k == lit_cover() {
        ScanView { cover: non_empty_spec(value), ..st }
    } else if k == lit_language() {
        ScanView { language: first_item(value), ..st }
    } else if k == lit_edition() {
        ScanView { edition: first_item(value), ..st }
    } else if k == lit_bpm() {
        ScanView { bpm: Some(numeric_text(value)), ..st }
    } else if k == lit_gap() {
        ScanView { gap: Some(numeric_text(value)), ..st }
    } else if k == lit_end() {
        ScanView { end: Some(numeric_text(value)), ..st }
    } else if k == lit_relative() {
        ScanView { relative: eq_ignore_case(trim(value), lit_yes()), ..st }
    } else {
        st
    }
}

pub open spec fn is_note_kind(c: char) -> bool {
    c == ':' || c == '*' || c == 'F' || c == 'R' || c == 'G'
}

/// Effect of one line of the note body (`t` is non-empty).
pub open spec fn body_step(st: ScanView, t: Seq<char>) -> ScanView {
    let first = t[0];
    let rest = t.drop_first();
    if is_note_kind(first) {
        match note_spec(rest, st.line_offset, st.relative) {
            Some(n) => ScanView { current: st.current.push(n), ..st },
            None => st,
        }
    } else if first == '-' {
        let closed = if st.current.len() > 0 {
            ScanView { phrases: st.phrases.push(st.current), current: seq![], ..st }
        } else {
            st
        };
        if st.relative {
            match consume_int_spec(rest) {
                Some((delta, _)) => ScanView {
                    line_offset: closed.line_offset.wrapping_add(delta),
                    ..closed
                },
                None => closed,
            }
        } else {
            closed
        }
    } else if first == 'E' {
        ScanView { done: true, ..st }
    } else {
        st
    }
}

/// Effect of one line of the file. Blank lines are skipped; `#` lines are
/// header tags until the first other line, which starts the note body; an
/// `E` line ends the song.
pub open spec fn scan_step(st: ScanView, piece: Seq<char>) -> ScanView {
    let t = line_content(piece);
    if st.done || t.len() == 0 {
        st
    } else if !st.in_notes && t[0] == '#' {
        match parse_tag_spec(t) {
            Some((k, v)) => apply_tag(st, k, v),
            None => st,
        }
    } else {
        body_step(ScanView { in_notes: true, ..st }, t)
    }
}

pub open spec fn scan_lines(lines: Seq<Seq<char>>) -> ScanView
    decreases lines.len(),
{
    if lines.len() == 0 {
        scan_start()
    } else {
        scan_step(scan_lines(lines.drop_last()), lines.last())
    }
}

pub struct FileView {
    pub title: Seq<char>,
    pub artist: Seq<char>,
    pub audio_filename: Seq<char>,
    pub vocals_filename: Option<Seq<char>>,
    pub instrumental_filename: Option<Seq<char>>,
    pub video_filename: Option<Seq<char>>,
    pub cover_filename: Option<Seq<char>>,
    pub language: Option<Seq<char>>,
    pub edition: Option<Seq<char>>,
    pub end_text: Option<Seq<char>>,
    pub bpm_text: Seq<char>,
    pub gap_text: Option<Seq<char>>,
    pub phrases: Seq<Seq<NoteView>>,
}

impl View for UsdxFile {
    type V = FileView;

    open spec fn view(&self) -> FileView {
        FileView {
            title: self.title@,
            artist: self.artist@,
            audio_filename: self.audio_filename@,
            vocals_filename: opt_view(self.vocals_filename),
            instrumental_filename: opt_view(self.instrumental_filename),
            video_filename: opt_view(self.video_filename),
            cover_filename: opt_view(self.cover_filename),
            language: opt_view(self.language),
            edition: opt_view(self.edition),
            end_text: opt_view(self.end_text),
            bpm_text: self.bpm_text@,
            gap_text: opt_view(self.gap_text),
            phrases: phrases_view(self.phrases@),
        }
    }
}

/// The descriptor once every line has been read: the open phrase is
/// closed, and the required tags are checked in the order title, artist,
/// audio, BPM.
pub open spec fn finish_scan(st: ScanView) -> Result<FileView, UsdxError> {
    if st.title is None {
        Err(UsdxError::MissingTitle)
    } else if st.artist is None {
        Err(UsdxError::MissingArtist)
    } else if st.audio is None {
        Err(UsdxError::MissingAudio)
    } else if st.bpm is None {
        Err(UsdxError::MissingBpm)
    } else {
        Ok(
            FileView {
                title: st.title->0,
                artist: st.artist->0,
                audio_filename: st.audio->0,
                vocals_filename: st.vocals,
                instrumental_filename: st.instrumental,
                video_filename: st.video,
                cover_filename: st.cover,
                language: st.language,
                edition: st.edition,
                end_text: st.end,
                bpm_text: st.bpm->0,
                gap_text: st.gap,
                phrases: if st.current.len() > 0 {
                    st.phrases.push(st.current)
                } else {
                    st.phrases
                },
            },
        )
    }
}

/// Meaning of a descriptor's text.
pub open spec fn parse_usdx_spec(content: Seq<char>) -> Result<FileView, UsdxError> {
    finish_scan(scan_lines(split_lines(content)))
}

struct Scan {
    title: Option<String>,
    artist: Option<String>,
    audio: Option<String>,
    vocals: Option<String>,
    instrumental: Option<String>,
    video: Option<String>,
    cover: Option<String>,
    language: Option<String>,
    edition: Option<String>,
    end: Option<String>,
    bpm: Option<String>,
    gap: Option<String>,
    relative: bool,
    in_notes: bool,
    done: bool,
    line_offset: i64,
    phrases: Vec<Vec<UsdxNote>>,
    current: Vec<UsdxNote>,
}

impl View for Scan {
    type V = ScanView;

    closed spec fn view(&self) -> ScanView {
        ScanView {
            title: opt_view(self.title),
            artist: opt_view(self.artist),
            audio: opt_view(self.audio),
            vocals: opt_view(self.vocals),
            instrumental: opt_view(self.instrumental),
            video: opt_view(self.video),
            cover: opt_view(self.cover),
            language: opt_view(self.language),
            edition: opt_view(self.edition),
            end: opt_view(self.end),
            bpm: opt_view(self.bpm),
            gap: opt_view(self.gap),
            relative: self.relative,
            in_notes: self.in_notes,
            done: self.done,
            line_offset: self.line_offset,
            phrases: phrases_view(self.phrases@),
            current: phrase_view(self.current@),
        }
    }
}

fn opt_string(v: &Vec<char>) -> (r: Option<String>)
    ensures
        opt_view(r) == non_empty_spec(v@),
{
    if v.len() == 0 {
        None
    } else {
        Some(string_of(v))
    }
}

fn first_item_chars(value: &Vec<char>) -> (r: Option<String>)
    ensures
        opt_view(r) == first_item(value@),
{
    let cut = find_char_from(value, ',', 0);
    assert(value@.skip(0) =~= value@);
    let head = subvec(value, 0, cut);
    let t = trim_chars(&head);
    opt_string(&t)
}

fn numeric_text_chars(value: &Vec<char>) -> (r: String)
    ensures
        r@ == numeric_text(value@),
{
    let t = trim_chars(value);
    let mut out: Vec<char> = Vec::new();
    let mut i: usize = 0;
    while i < t.len()
        invariant
            i <= t.len(),
            out@ == t@.take(i as int).map_values(|c: char| if c == ',' { '.' } else { c }),
        decreases t.len() - i,
    {
        let c = t[i];
        out.push(if c == ',' { '.' } else { c });
        i = i + 1;
        assert(t@.take(i as int).map_values(|c: char| if c == ',' { '.' } else { c })
            =~= t@.take(i - 1 as int).map_values(|c: char| if c == ',' { '.' } else { c }).push(
            if t@[i - 1] == ',' { '.' } else { t@[i - 1] },
        ));
    }
    assert(t@.take(t.len() as int) =~= t@);
    string_of(&out)
}

impl Scan {
    fn new() -> (r: Scan)
        ensures
            r@ == scan_start(),
    {
        let r = Scan {
            title: None,
            artist: None,
            audio: None,
            vocals: None,
            instrumental: None,
            video: None,
            cover: None,
            language: None,
            edition: None,
            end: None,
            bpm: None,
            gap: None,
            relative: false,
            in_notes: false,
            done: false,
            line_offset: 0,
            phrases: Vec::new(),
            current: Vec::new(),
        };
        assert(phrases_view(r.phrases@) =~= Seq::<Seq<NoteView>>::empty());
        assert(phrase_view(r.current@) =~= Seq::<NoteView>::empty());
        r
    }

    fn apply_tag(&mut self, key: &Vec<char>, value: &Vec<char>)
        ensures
            final(self)@ == apply_tag(old(self)@, key@, value@),
    {
        let k = upper_chars(key);
        if chars_eq(&k, &vec!['T', 'I', 'T', 'L', 'E']) {
            self.title = opt_string(value);
        } else if chars_eq(&k, &vec!['A', 'R', 'T', 'I', 'S', 'T']) {
            self.artist = opt_string(value);
        } else if chars_eq(&k, &vec!['A', 'U', 'D', 'I', 'O']) {
            self.audio = opt_string(value);
        } else if chars_eq(&k, &vec!['M', 'P', '3']) && self.audio.is_none() {
            self.audio = opt_string(value);
        } else if chars_eq(&k, &vec!['V', 'O', 'C', 'A', 'L', 'S']) {
            self.vocals = opt_string(value);
        } else if chars_eq(
            &k,
            &vec!['I', 'N', 'S', 'T', 'R', 'U', 'M', 'E', 'N', 'T', 'A', 'L'],
        ) {
            self.instrumental = opt_string(value);
        } else if chars_eq(&k, &vec!['V', 'I', 'D', 'E', 'O']) {
            self.video = opt_string(value);
        } else if chars_eq(&k, &vec!['C', 'O', 'V', 'E', 'R']) {
            self.cover = opt_string(value);
        } else if chars_eq(&k, &vec!['L', 'A', 'N', 'G', 'U', 'A', 'G', 'E']) {
            self.language = first_item_chars(value);
        } else if chars_eq(&k, &vec!['E', 'D', 'I', 'T', 'I', 'O', 'N']) {
            self.edition = first_item_chars(value);
        } else if chars_eq(&k, &vec!['B', 'P', 'M']) {
            self.bpm = Some(numeric_text_chars(value));
        } else if chars_eq(&k, &vec!['G', 'A', 'P']) {
            self.gap = Some(numeric_text_chars(value));
        } else if chars_eq(&k, &vec!['E', 'N', 'D']) {
            self.end = Some(numeric_text_chars(value));
        } else if chars_eq(&k, &vec!['R', 'E', 'L', 'A', 'T', 'I', 'V', 'E']) {
            let t = trim_chars(value);
            self.relative = eq_ignore_ascii_case(&t, &vec!['y', 'e', 's']);
        }
    }

    fn body_step(&mut self, t: &Vec<char>)
        requires
            t.len() > 0,
        ensures
            final(self)@ == body_step(old(self)@, t@),
    {
        let first = t[0];
        let rest = subvec(t, 1, t.len());
        assert(rest@ == t@.drop_first());
        if first == ':' || first == '*' || first == 'F' || first == 'R' || first == 'G' {
            if let Some(note) = parse_note_chars(&rest, self.line_offset, self.relative) {
                self.current.push(note);
                assert(phrase_view(self.current@) =~= phrase_view(old(self).current@).push(note@));
            }
        } else if first == '-' {
            if self.current.len() > 0 {
                let mut phrase: Vec<UsdxNote> = Vec::new();
                std::mem::swap(&mut phrase, &mut self.current);
                self.phrases.push(phrase);
                assert(phrases_view(self.phrases@) =~= phrases_view(old(self).phrases@).push(
                    phrase_view(old(self).current@),
                ));
                assert(phrase_view(self.current@) =~= Seq::<NoteView>::empty());
            }
            if self.relative {
                if let Some((delta, _)) = consume_int_chars(&rest) {
                    self.line_offset = self.line_offset.wrapping_add(delta);
                }
            }
        } else if first == 'E' {
            self.done = true;
        }
    }

    fn step(&mut self, piece: &Vec<char>)
        ensures
            final(self)@ == scan_step(old(self)@, piece@),
    {
        let line = trim_end_cr_chars(piece);
        let t = trim_start_chars(&line);
        if self.done || t.len() == 0 {
            return ;
        }
        if !self.in_notes && t[0] == '#' {
            if let Some((k, v)) = parse_tag_chars(&t) {
                self.apply_tag(&k, &v);
            }
            return ;
        }
        self.in_notes = true;
        self.body_step(&t);
    }

    fn finish(self) -> (r: Result<UsdxFile, UsdxError>)
        ensures
            match r {
                Ok(f) => finish_scan(self@) == Ok::<FileView, UsdxError>(f@),
                Err(e) => finish_scan(self@) == Err::<FileView, UsdxError>(e),
            },
    {
        let Scan {
            title,
            artist,
            audio,
            vocals,
            instrumental,
            video,
            cover,
            language,
            edition,
            end,
            bpm,
            gap,
            relative: _,
            in_notes: _,
            done: _,
            line_offset: _,
            mut phrases,
            current,
        } = self;
        let title = match title {
            Some(t) => t,
            None => return Err(UsdxError::MissingTitle),
        };
        let artist = match artist {
            Some(t) => t,
            None => return Err(UsdxError::MissingArtist),
        };
        let audio = match audio {
            Some(t) => t,
            None => return Err(UsdxError::MissingAudio),
        };
        let bpm = match bpm {
            Some(t) => t,
            None => return Err(UsdxError::MissingBpm),
        };
        let ghost cur = current@;
        let ghost before = phrases@;
        if current.len() > 0 {
            phrases.push(current);
            assert(phrases_view(phrases@) =~= phrases_view(before).push(phrase_view(cur)));
        }
        Ok(
            UsdxFile {
                title,
                artist,
                audio_filename: audio,
                vocals_filename: vocals,
                instrumental_filename: instrumental,
                video_filename: video,
                cover_filename: cover,
                language,
                edition,
                end_text: end,
                bpm_text: bpm,
                gap_text: gap,
                phrases,
            },
        )
    }
}

proof fn lemma_scan_done(a: Seq<Seq<char>>, b: Seq<Seq<char>>)
    requires
        scan_lines(a).done,
    ensures
        scan_lines(a + b) == scan_lines(a),
    decreases b.len(),
{
    if b.len() > 0 {
        lemma_scan_done(a, b.drop_last());
        assert((a + b).drop_last() =~= a + b.drop_last());
    } else {
        assert(a + b =~= a);
    }
}

/// Parses the text of a USDX descriptor.
pub fn parse_usdx_str(content: &str) -> (r: Result<UsdxFile, UsdxError>)
    ensures
        match r {
            Ok(f) => parse_usdx_spec(content@) == Ok::<FileView, UsdxError>(f@),
            Err(e) => parse_usdx_spec(content@) == Err::<FileView, UsdxError>(e),
        },
{
    let chars = chars_of(content);
    let mut st = Scan::new();
    let mut pos: usize = 0;
    let ghost mut done_lines: Seq<Seq<char>> = seq![];
    assert(chars@.skip(0) =~= chars@);
    assert(done_lines + split_lines(chars@.skip(0)) =~= split_lines(chars@));
    while pos < chars.len() && !st.done
        invariant
            pos <= chars.len(),
            split_lines(chars@) == done_lines + split_lines(chars@.skip(pos as int)),
            st@ == scan_lines(done_lines),
        decreases chars.len() - pos,
    {
        let end = find_char_from(&chars, '\n', pos);
        let piece = subvec(&chars, pos, end);
        proof {
            lemma_split_lines_step(chars@, pos as int, end as int);
        }
        st.step(&piece);
        proof {
            let next = done_lines.push(piece@);
            assert(next.drop_last() =~= done_lines);
            if end < chars.len() {
                assert(done_lines + split_lines(chars@.skip(pos as int)) =~= next + split_lines(
                    chars@.skip(end + 1),
                ));
            } else {
                assert(chars@.skip(end as int) =~= Seq::<char>::empty());
                assert(split_lines(Seq::<char>::empty()) =~= Seq::<Seq<char>>::empty());
                assert(done_lines + split_lines(chars@.skip(pos as int)) =~= next + split_lines(
                    chars@.skip(end as int),
                ));
            }
            done_lines = next;
        }
        pos = if end < chars.len() {
            end + 1
        } else {
            end
        };
    }
    proof {
        if st.done {
            lemma_scan_done(done_lines, split_lines(chars@.skip(pos as int)));
        } else {
            assert(chars@.skip(pos as int) =~= Seq::<char>::empty());
            assert(split_lines(Seq::<char>::empty()) =~= Seq::<Seq<char>>::empty());
            assert(done_lines + Seq::<Seq<char>>::empty() =~= done_lines);
        }
    }
    st.finish()
}


// ─── Sibling media ───────────────────────────────────────────────────

/// A media file name taken from a tag, trimmed; `None` when absent or blank.
pub open spec fn sibling_name_spec(name: Option<Seq<char>>) -> Option<Seq<char>> {
    match name {
        Some(n) => non_empty_spec(trim(n)),
        None => None,
    }
}

/// The file name a sibling tag points at, trimmed, unless it is blank.
pub fn sibling_name(name: Option<&str>) -> (r: Option<String>)
    ensures
        opt_view(r) == sibling_name_spec(
            match name {
                Some(n) => Some(n@),
                None => None,
            },
        ),
{
    match name {
        Some(n) => {
            let chars = chars_of(n);
            let t = trim_chars(&chars);
            opt_string(&t)
        },
        None => None,
    }
}

/// Sibling media file names a descriptor claims, relative to its folder:
/// the scanner uses them so the same audio or video is not listed twice.
pub struct UsdxSiblingNames {
    pub audio: String,
    pub vocals: Option<String>,
    pub instrumental: Option<String>,
    pub video: Option<String>,
}

pub open spec fn trim_opt(o: Option<Seq<char>>) -> Option<Seq<char>> {
    match o {
        Some(s) => Some(trim(s)),
        None => None,
    }
}

fn trim_opt_string(o: &Option<String>) -> (r: Option<String>)
    ensures
        opt_view(r) == trim_opt(opt_view(*o)),
{
    match o {
        Some(s) => {
            let chars = chars_of(s.as_str());
            Some(string_of(&trim_chars(&chars)))
        },
        None => None,
    }
}

impl UsdxFile {
    /// The audio, vocals, instrumental and video names, each trimmed.
    pub fn sibling_names(&self) -> (r: UsdxSiblingNames)
        ensures
            r.audio@ == trim(self.audio_filename@),
            opt_view(r.vocals) == trim_opt(opt_view(self.vocals_filename)),
            opt_view(r.instrumental) == trim_opt(opt_view(self.instrumental_filename)),
            opt_view(r.video) == trim_opt(opt_view(self.video_filename)),
    {
        let audio = chars_of(self.audio_filename.as_str());
        UsdxSiblingNames {
            audio: string_of(&trim_chars(&audio)),
            vocals: trim_opt_string(&self.vocals_filename),
            instrumental: trim_opt_string(&self.instrumental_filename),
            video: trim_opt_string(&self.video_filename),
        }
    }
}

/// Sibling-file paths referenced by a USDX song, resolved against the
/// descriptor's folder. Playback uses them in place of the stem cache.
pub struct UsdxBundle {
    pub txt_path: String,
    pub audio: String,
    pub vocals: Option<String>,
    pub instrumental: Option<String>,
    pub video: Option<String>,
}

// ─── Detection sniff ─────────────────────────────────────────────────

pub open spec fn lit_hash_title() -> Seq<char> {
    seq!['#', 'T', 'I', 'T', 'L', 'E']
}

pub open spec fn lit_hash_mp3() -> Seq<char> {
    seq!['#', 'M', 'P', '3']
}

pub open spec fn lit_hash_audio() -> Seq<char> {
    seq!['#', 'A', 'U', 'D', 'I', 'O']
}

/// Whether the first bytes of a `.txt` file look like a USDX descriptor:
/// they mention `#TITLE` and `#MP3` or `#AUDIO`, in any ASCII case.
pub open spec fn looks_like_usdx_spec(head: Seq<u8>) -> bool {
    let upper = upper_seq(decode_text_spec(head));
    contains_seq(upper, lit_hash_title()) && (contains_seq(upper, lit_hash_mp3())
        || contains_seq(upper, lit_hash_audio()))
}

pub fn looks_like_usdx(head: &[u8]) -> (r: bool)
    ensures
        r == looks_like_usdx_spec(head@),
{
    let text = decode_text(head);
    let chars = chars_of(text.as_str());
    let upper = upper_chars(&chars);
    contains_chars(&upper, &vec!['#', 'T', 'I', 'T', 'L', 'E']) && (contains_chars(
        &upper,
        &vec!['#', 'M', 'P', '3'],
    ) || contains_chars(&upper, &vec!['#', 'A', 'U', 'D', 'I', 'O']))
}

// ─── Transcript layout ───────────────────────────────────────────────

/// One word of a transcript segment, timed in note beats.
pub struct WordBeats {
    pub word: String,
    pub start_beat: i64,
    pub end_beat: i64,
    pub pitch: i32,
}

/// One transcript segment (a phrase), timed in note beats.
pub struct SegmentBeats {
    pub text: String,
    pub start_beat: i64,
    pub end_beat: i64,
    pub words: Vec<WordBeats>,
}

pub struct WordView {
    pub word: Seq<char>,
    pub start_beat: i64,
    pub end_beat: i64,
    pub pitch: i32,
}

pub struct SegmentView {
    pub text: Seq<char>,
    pub start_beat: i64,
    pub end_beat: i64,
    pub words: Seq<WordView>,
}

impl View for WordBeats {
    type V = WordView;

    open spec fn view(&self) -> WordView {
        WordView {
            word: self.word@,
            start_beat: self.start_beat,
            end_beat: self.end_beat,
            pitch: self.pitch,
        }
    }
}

impl View for SegmentBeats {
    type V = SegmentView;

    open spec fn view(&self) -> SegmentView {
        SegmentView {
            text: self.text@,
            start_beat: self.start_beat,
            end_beat: self.end_beat,
            words: self.words@.map_values(|w: WordBeats| w@),
        }
    }
}

/// Beat at which a note ends (two's-complement wrapping on overflow).
pub open spec fn note_end(n: NoteView) -> i64 {
    n.beat.wrapping_add(n.length)
}

pub open spec fn word_of(n: NoteView) -> WordView {
    WordView { word: trim(n.text), start_beat: n.beat, end_beat: note_end(n), pitch: n.pitch }
}

/// Text of a phrase: the trimmed note texts joined, with one space before a
/// note whose text starts with whitespace (USDX's word-break marker) unless
/// nothing has been written yet.
pub open spec fn phrase_text(notes: Seq<NoteView>) -> Seq<char>
    decreases notes.len(),
{
    if notes.len() == 0 {
        seq![]
    } else {
        let prev = phrase_text(notes.drop_last());
        let n = notes.last();
        let sep: Seq<char> = if prev.len() > 0 && n.text.len() > 0 && is_ws(n.text[0]) {
            seq![' ']
        } else {
            seq![]
        };
        prev + sep + trim(n.text)
    }
}

/// Segment for a non-empty phrase: from its first note's start to its last
/// note's end.
pub open spec fn segment_of(p: Seq<NoteView>) -> SegmentView {
    SegmentView {
        text: phrase_text(p),
        start_beat: p[0].beat,
        end_beat: note_end(p.last()),
        words: p.map_values(|n: NoteView| word_of(n)),
    }
}

/// Segments for the phrases, empty phrases left out.
pub open spec fn segments_spec(phrases: Seq<Seq<NoteView>>) -> Seq<SegmentView>
    decreases phrases.len(),
{
    if phrases.len() == 0 {
        seq![]
    } else {
        let prev = segments_spec(phrases.drop_last());
        if phrases.last().len() == 0 {
            prev
        } else {
            prev.push(segment_of(phrases.last()))
        }
    }
}

fn segment_for(p: &Vec<UsdxNote>) -> (r: SegmentBeats)
    requires
        p.len() > 0,
    ensures
        r@ == segment_of(phrase_view(p@)),
{
    let ghost pv = phrase_view(p@);
    let mut words: Vec<WordBeats> = Vec::new();
    let mut text: Vec<char> = Vec::new();
    let mut i: usize = 0;
    while i < p.len()
        invariant
            i <= p.len(),
            pv == phrase_view(p@),
            text@ == phrase_text(pv.take(i as int)),
            words@.map_values(|w: WordBeats| w@) == pv.take(i as int).map_values(
                |n: NoteView| word_of(n),
            ),
        decreases p.len() - i,
    {
        let note = &p[i];
        let raw = chars_of(note.text.as_str());
        let trimmed = trim_chars(&raw);
        let ghost before = text@;
        if text.len() > 0 && raw.len() > 0 && is_whitespace(raw[0]) {
            text.push(' ');
        }
        text = concat(&text, &trimmed);
        let w = WordBeats {
            word: string_of(&trimmed),
            start_beat: note.beat,
            end_beat: note.beat.wrapping_add(note.length),
            pitch: note.pitch,
        };
        let ghost words_before = words@;
        words.push(w);
        proof {
            let t1 = pv.take(i + 1);
            assert(t1.drop_last() =~= pv.take(i as int));
            assert(t1.last() == p@[i as int]@);
            assert(words@.map_values(|w: WordBeats| w@) =~= words_before.map_values(
                |w: WordBeats| w@,
            ).push(w@));
            assert(t1.map_values(|n: NoteView| word_of(n)) =~= pv.take(i as int).map_values(
                |n: NoteView| word_of(n),
            ).push(word_of(p@[i as int]@)));
        }
        i = i + 1;
    }
    assert(pv.take(p.len() as int) =~= pv);
    SegmentBeats {
        text: string_of(&text),
        start_beat: p[0].beat,
        end_beat: p[p.len() - 1].beat.wrapping_add(p[p.len() - 1].length),
        words,
    }
}

/// Lays the phrases out as transcript segments, one per non-empty phrase.
pub fn synthesize_segments(file: &UsdxFile) -> (r: Vec<SegmentBeats>)
    ensures
        r@.map_values(|s: SegmentBeats| s@) == segments_spec(phrases_view(file.phrases@)),
{
    let ghost ps = phrases_view(file.phrases@);
    let mut out: Vec<SegmentBeats> = Vec::new();
    let mut i: usize = 0;
    while i < file.phrases.len()
        invariant
            i <= file.phrases.len(),
            ps == phrases_view(file.phrases@),
            out@.map_values(|s: SegmentBeats| s@) == segments_spec(ps.take(i as int)),
        decreases file.phrases.len() - i,
    {
        let phrase = &file.phrases[i];
        proof {
            let t1 = ps.take(i + 1);
            assert(t1.drop_last() =~= ps.take(i as int));
            assert(t1.last() == phrase_view(phrase@));
        }
        if phrase.len() > 0 {
            let seg = segment_for(phrase);
            let ghost before = out@;
            out.push(seg);
            assert(out@.map_values(|s: SegmentBeats| s@) =~= before.map_values(
                |s: SegmentBeats| s@,
            ).push(seg@));
        }
        i = i + 1;
    }
    assert(ps.take(file.phrases.len() as int) =~= ps);
    out
}


// ─── The song record of a descriptor ─────────────────────────────────

/// What a USDX song's library row takes from its descriptor: its names, an
/// album that is the descriptor's edition or `USDX`, its language; it is
/// analyzed from the start, from its own notes.
pub struct UsdxSongFields {
    pub title: String,
    pub artist: String,
    pub album: String,
    pub language: Option<String>,
    pub is_analyzed: bool,
    pub transcript_source: crate::song::TranscriptSource,
}

pub fn usdx_song_fields(file: &UsdxFile) -> (r: UsdxSongFields)
    ensures
        r.title@ == file.title@,
        r.artist@ == file.artist@,
        r.album@ == match file.edition {
            Some(e) => e@,
            None => "USDX"@,
        },
        opt_view(r.language) == opt_view(file.language),
        r.is_analyzed,
        r.transcript_source == crate::song::TranscriptSource::Usdx,
{
    UsdxSongFields {
        title: file.title.clone(),
        artist: file.artist.clone(),
        album: match &file.edition {
            Some(e) => e.clone(),
            None => String::from_str("USDX"),
        },
        language: match &file.language {
            Some(l) => Some(l.clone()),
            None => None,
        },
        is_analyzed: true,
        transcript_source: crate::song::TranscriptSource::Usdx,
    }
}


// ─── Laws of the descriptor reading ──────────────────────────────────

/// USDX marks the start of a new word by a note text that begins with
/// whitespace. Appending such a note to a phrase whose text is not empty
/// adds one space and then the note's trimmed text; appending a note
/// without the marker joins its trimmed text on directly.
pub proof fn lemma_word_break(p: Seq<NoteView>, n: NoteView)
    requires
        p.len() > 0,
    ensures
        segments_spec(seq![p]).len() == 1,
        segments_spec(seq![p.push(n)]).len() == 1,
        segments_spec(seq![p])[0].text.len() > 0 && n.text.len() > 0 && is_ws(n.text[0])
            ==> segments_spec(seq![p.push(n)])[0].text == segments_spec(seq![p])[0].text + seq![' ']
            + trim(n.text),
        !(n.text.len() > 0 && is_ws(n.text[0])) ==> segments_spec(seq![p.push(n)])[0].text
            == segments_spec(seq![p])[0].text + trim(n.text),
{
    let none = Seq::<Seq<NoteView>>::empty();
    assert(segments_spec(none) == Seq::<SegmentView>::empty());
    assert(seq![p].drop_last() =~= none);
    assert(seq![p].last() == p);
    assert(segments_spec(seq![p]) =~= Seq::<SegmentView>::empty().push(segment_of(p)));
    let q = p.push(n);
    assert(seq![q].drop_last() =~= none);
    assert(seq![q].last() == q);
    assert(seq![q].last().len() > 0);
    assert(segments_spec(seq![q]) =~= Seq::<SegmentView>::empty().push(segment_of(q)));
    assert(p.push(n).drop_last() =~= p);
    assert(p.push(n).last() == n);
}

/// A phrase of two notes, the second marked as a new word, reads as the
/// first word, a space and the second word.
pub proof fn lemma_two_words(n1: NoteView, n2: NoteView)
    requires
        trim(n1.text).len() > 0,
        n2.text.len() > 0,
        is_ws(n2.text[0]),
    ensures
        segments_spec(seq![seq![n1, n2]]).len() == 1,
        segments_spec(seq![seq![n1, n2]])[0].text == trim(n1.text) + seq![' '] + trim(n2.text),
{
    let one = seq![n1];
    assert(one.drop_last() =~= Seq::<NoteView>::empty());
    assert(phrase_text(Seq::<NoteView>::empty()) == Seq::<char>::empty());
    assert(one.last() == n1);
    assert(phrase_text(one) =~= Seq::<char>::empty() + Seq::<char>::empty() + trim(n1.text));
    assert(phrase_text(one) =~= trim(n1.text));
    assert(one.push(n2) =~= seq![n1, n2]);
    lemma_word_break(one, n2);
    assert(seq![one].drop_last() =~= Seq::<Seq<NoteView>>::empty());
}

/// Every note kind — normal `:`, golden `*`, freestyle `F`, rap `R` and
/// golden rap `G` — adds its note to the open phrase, and they all read a
/// note line the same way.
pub proof fn lemma_note_kinds(st: ScanView, c: char, rest: Seq<char>)
    requires
        c == ':' || c == '*' || c == 'F' || c == 'R' || c == 'G',
    ensures
        note_spec(rest, st.line_offset, st.relative) matches Some(n) ==> body_step(
            st,
            seq![c] + rest,
        ) == (ScanView { current: st.current.push(n), ..st }),
        note_spec(rest, st.line_offset, st.relative) is None ==> body_step(st, seq![c] + rest)
            == st,
        body_step(st, seq![c] + rest) == body_step(st, seq![':'] + rest),
{
    assert((seq![c] + rest)[0] == c);
    assert((seq![c] + rest).drop_first() =~= rest);
    assert((seq![':'] + rest)[0] == ':');
    assert((seq![':'] + rest).drop_first() =~= rest);
}

/// A phrase becomes one segment running from its first note's beat to the
/// end of its last note, with one word per note, in order: the note's
/// trimmed text, its beat, the beat its length ends at, and its pitch. An
/// empty phrase adds no segment.
pub proof fn lemma_segment_words(ps: Seq<Seq<NoteView>>, p: Seq<NoteView>, k: int)
    requires
        p.len() > 0,
        0 <= k < p.len(),
    ensures
        segments_spec(ps.push(p)).len() == segments_spec(ps).len() + 1,
        segments_spec(ps.push(p)).last().start_beat == p[0].beat,
        segments_spec(ps.push(p)).last().end_beat == p.last().beat.wrapping_add(p.last().length),
        segments_spec(ps.push(p)).last().words.len() == p.len(),
        segments_spec(ps.push(p)).last().words[k].word == trim(p[k].text),
        segments_spec(ps.push(p)).last().words[k].start_beat == p[k].beat,
        segments_spec(ps.push(p)).last().words[k].end_beat == p[k].beat.wrapping_add(p[k].length),
        segments_spec(ps.push(p)).last().words[k].pitch == p[k].pitch,
        segments_spec(ps.push(Seq::<NoteView>::empty())) == segments_spec(ps),
{
    assert(ps.push(p).drop_last() =~= ps);
    assert(ps.push(Seq::<NoteView>::empty()).drop_last() =~= ps);
}

/// A `-` line closes the open phrase (when it has notes) and starts a new
/// one; an `E` line ends the song.
pub proof fn lemma_phrase_lines(st: ScanView, rest: Seq<char>)
    ensures
        st.current.len() > 0 ==> body_step(st, seq!['-'] + rest).phrases == st.phrases.push(
            st.current,
        ),
        body_step(st, seq!['-'] + rest).current.len() == 0 || st.current.len() == 0,
        st.current.len() == 0 ==> body_step(st, seq!['-'] + rest).phrases == st.phrases,
        body_step(st, seq!['E'] + rest).done,
        body_step(st, seq!['E'] + rest).phrases == st.phrases,
        body_step(st, seq!['E'] + rest).current == st.current,
{
    assert((seq!['-'] + rest)[0] == '-');
    assert((seq!['-'] + rest).drop_first() =~= rest);
    assert((seq!['E'] + rest)[0] == 'E');
}

/// Windows-1252 reading: bytes below 0x80 and from 0xA0 up, and the five
/// bytes the code page leaves undefined (0x81, 0x8D, 0x8F, 0x90, 0x9D), are
/// the code point of the same number; every defined byte of 0x80–0x9F is a
/// character above U+00FF — never a C1 control character — and the quote
/// marks are the typographic ones.
pub proof fn lemma_cp1252_characters(b: u8)
    ensures
        (b < 0x80 || b >= 0xA0 || b == 0x81 || b == 0x8D || b == 0x8F || b == 0x90 || b == 0x9D)
            ==> cp1252_spec(b) as int == b as int,
        (0x80 <= b < 0xA0 && !(b == 0x81 || b == 0x8D || b == 0x8F || b == 0x90 || b == 0x9D))
            ==> cp1252_spec(b) as int > 0xFF,
        cp1252_spec(0x91) == '\u{2018}',
        cp1252_spec(0x92) == '\u{2019}',
        cp1252_spec(0x93) == '\u{201C}',
        cp1252_spec(0x94) == '\u{201D}',
        cp1252_spec(0x80) == '\u{20AC}',
{
}

/// Text that is not UTF-8 holds a C1 control character (U+0080–U+009F)
/// only where the file has one of the five bytes Windows-1252 leaves
/// undefined.
pub proof fn lemma_fallback_has_no_c1(bytes: Seq<u8>, i: int)
    requires
        !valid_utf8(strip_bom(bytes)),
        0 <= i < decode_text_spec(bytes).len(),
        0x80 <= decode_text_spec(bytes)[i] as int <= 0x9F,
    ensures
        strip_bom(bytes)[i] == 0x81 || strip_bom(bytes)[i] == 0x8D || strip_bom(bytes)[i] == 0x8F
            || strip_bom(bytes)[i] == 0x90 || strip_bom(bytes)[i] == 0x9D,
{
    lemma_cp1252_characters(strip_bom(bytes)[i]);
}
} // verus!
