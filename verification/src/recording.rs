//! Naming and checking of saved performance recordings: which browser
//! media types are accepted, how song/album/profile names become a safe file
//! name, and what the encoder is asked to do.

use vstd::prelude::*;
use vstd::string::StringSliceAdditionalSpecFns;

use crate::text::{
    chars_of, concat, has_prefix, is_whitespace, is_ws, lower_chars, lower_seq, starts_with, string_of, subvec, trim_start,
};

verus! {

/// Largest recording (both tracks together) that is accepted, in bytes.
pub const MAX_RECORDING_BYTES: usize = 67108864;

/// Most characters a sanitized name part keeps.
pub const MAX_FILE_PART_CHARS: usize = 40;

// ─── Media types ─────────────────────────────────────────────────────

pub open spec fn lit_audio_webm() -> Seq<char> {
    seq!['a', 'u', 'd', 'i', 'o', '/', 'w', 'e', 'b', 'm']
}

pub open spec fn lit_audio_mp4() -> Seq<char> {
    seq!['a', 'u', 'd', 'i', 'o', '/', 'm', 'p', '4']
}

pub open spec fn lit_audio_ogg() -> Seq<char> {
    seq!['a', 'u', 'd', 'i', 'o', '/', 'o', 'g', 'g']
}

/// File extension for a recorded media type (compared in ASCII lower case,
/// parameters such as `;codecs=opus` allowed after it).
pub open spec fn input_extension_spec(media_type: Seq<char>) -> Option<Seq<char>> {
    let m = lower_seq(media_type);
    if has_prefix(m, lit_audio_webm()) {
        Some(seq!['w', 'e', 'b', 'm'])
    } else if has_prefix(m, lit_audio_mp4()) {
        Some(seq!['m', '4', 'a'])
    } else if has_prefix(m, lit_audio_ogg()) {
        Some(seq!['o', 'g', 'g'])
    } else {
        None
    }
}

pub fn input_extension(media_type: &str) -> (r: Option<String>)
    ensures
        match r {
            Some(e) => input_extension_spec(media_type@) == Some(e@),
            None => input_extension_spec(media_type@) is None,
        },
{
    let m = lower_chars(&chars_of(media_type));
    if starts_with(&m, &vec!['a', 'u', 'd', 'i', 'o', '/', 'w', 'e', 'b', 'm']) {
        Some(string_of(&vec!['w', 'e', 'b', 'm']))
    } else if starts_with(&m, &vec!['a', 'u', 'd', 'i', 'o', '/', 'm', 'p', '4']) {
        Some(string_of(&vec!['m', '4', 'a']))
    } else if starts_with(&m, &vec!['a', 'u', 'd', 'i', 'o', '/', 'o', 'g', 'g']) {
        Some(string_of(&vec!['o', 'g', 'g']))
    } else {
        None
    }
}

// ─── File-name parts ─────────────────────────────────────────────────

/// Unicode general category Cc (`char::is_control`).
pub open spec fn is_control(c: char) -> bool {
    c <= '\u{1F}' || ('\u{7F}' <= c && c <= '\u{9F}')
}

/// Characters that file systems refuse in a name.
pub open spec fn is_reserved(c: char) -> bool {
    c == '<' || c == '>' || c == ':' || c == '"' || c == '/' || c == '\\' || c == '|' || c
        == '?' || c == '*'
}

/// Control and reserved characters become spaces.
pub open spec fn clean_char(c: char) -> char {
    if is_control(c) || is_reserved(c) {
        ' '
    } else {
        c
    }
}

/// Number of characters before the first whitespace character.
pub open spec fn ws_index(s: Seq<char>) -> nat
    decreases s.len(),
{
    if s.len() == 0 || is_ws(s[0]) {
        0
    } else {
        1 + ws_index(s.drop_first())
    }
}

pub proof fn lemma_ws_index(s: Seq<char>)
    ensures
        ws_index(s) <= s.len(),
        forall|j: int| 0 <= j < ws_index(s) ==> !is_ws(s[j]),
        ws_index(s) < s.len() ==> is_ws(s[ws_index(s) as int]),
    decreases s.len(),
{
    if s.len() > 0 && !is_ws(s[0]) {
        lemma_ws_index(s.drop_first());
        assert forall|j: int| 0 <= j < ws_index(s) implies !is_ws(s[j]) by {
            if j > 0 {
                assert(s[j] == s.drop_first()[j - 1]);
            }
        }
    }
}

proof fn lemma_ws_index_at(s: Seq<char>, i: int)
    requires
        0 <= i <= s.len(),
        forall|j: int| 0 <= j < i ==> !is_ws(s[j]),
        i == s.len() || is_ws(s[i]),
    ensures
        ws_index(s) == i,
    decreases i,
{
    if i > 0 {
        lemma_ws_index_at(s.drop_first(), i - 1);
    }
}

pub proof fn lemma_trim_start_len(s: Seq<char>)
    ensures
        trim_start(s).len() <= s.len(),
        trim_start(s).len() > 0 ==> !is_ws(trim_start(s)[0]),
    decreases s.len(),
{
    if s.len() > 0 && is_ws(s[0]) {
        lemma_trim_start_len(s.drop_first());
    }
}

/// The maximal runs of non-whitespace characters (`str::split_whitespace`).
pub open spec fn words(s: Seq<char>) -> Seq<Seq<char>>
    decreases s.len(),
{
    let t = trim_start(s);
    if t.len() == 0 {
        seq![]
    } else {
        proof {
            lemma_trim_start_len(s);
            lemma_ws_index(t);
            assert(ws_index(t) >= 1);
        }
        seq![t.take(ws_index(t) as int)] + words(t.skip(ws_index(t) as int))
    }
}

/// The pieces joined by single spaces.
pub open spec fn join_spaces(parts: Seq<Seq<char>>) -> Seq<char>
    decreases parts.len(),
{
    if parts.len() == 0 {
        seq![]
    } else if parts.len() == 1 {
        parts[0]
    } else {
        join_spaces(parts.drop_last()) + seq![' '] + parts.last()
    }
}

pub open spec fn is_dot_or_space(c: char) -> bool {
    c == '.' || c == ' '
}

pub open spec fn trim_dots_start(s: Seq<char>) -> Seq<char>
    decreases s.len(),
{
    if s.len() > 0 && is_dot_or_space(s[0]) {
        trim_dots_start(s.drop_first())
    } else {
        s
    }
}

pub open spec fn trim_dots_end(s: Seq<char>) -> Seq<char>
    decreases s.len(),
{
    if s.len() > 0 && is_dot_or_space(s.last()) {
        trim_dots_end(s.drop_last())
    } else {
        s
    }
}

/// At most the first `n` characters.
pub open spec fn take_chars(s: Seq<char>, n: nat) -> Seq<char> {
    if s.len() <= n {
        s
    } else {
        s.take(n as int)
    }
}

/// A name part made safe for a file name: control and reserved characters
/// become spaces, whitespace runs collapse to one space, leading and trailing
/// dots and spaces go, and at most 40 characters remain.
pub open spec fn sanitize_spec(value: Seq<char>) -> Seq<char> {
    let cleaned = value.map_values(|c: char| clean_char(c));
    take_chars(
        trim_dots_end(trim_dots_start(join_spaces(words(cleaned)))),
        MAX_FILE_PART_CHARS as nat,
    )
}

/// No control character and no character that file systems refuse.
pub open spec fn file_safe(s: Seq<char>) -> bool {
    forall|i: int| 0 <= i < s.len() ==> !is_control(#[trigger] s[i]) && !is_reserved(s[i])
}

proof fn lemma_safe_drop_first(s: Seq<char>)
    requires
        file_safe(s),
        s.len() > 0,
    ensures
        file_safe(s.drop_first()),
{
    assert forall|j: int| 0 <= j < s.drop_first().len() implies !is_control(
        #[trigger] s.drop_first()[j],
    ) && !is_reserved(s.drop_first()[j]) by {
        assert(s.drop_first()[j] == s[j + 1]);
    }
}

proof fn lemma_safe_trim_start(s: Seq<char>)
    requires
        file_safe(s),
    ensures
        file_safe(trim_start(s)),
    decreases s.len(),
{
    if s.len() > 0 && is_ws(s[0]) {
        lemma_safe_drop_first(s);
        lemma_safe_trim_start(s.drop_first());
    }
}

proof fn lemma_safe_words(s: Seq<char>)
    requires
        file_safe(s),
    ensures
        forall|k: int| 0 <= k < words(s).len() ==> file_safe(#[trigger] words(s)[k]),
    decreases s.len(),
{
    let t = trim_start(s);
    lemma_safe_trim_start(s);
    if t.len() > 0 {
        lemma_trim_start_len(s);
        lemma_ws_index(t);
        let n = ws_index(t) as int;
        let word = t.take(n);
        let rest = t.skip(n);
        assert(file_safe(word)) by {
            assert forall|j: int| 0 <= j < word.len() implies !is_control(#[trigger] word[j])
                && !is_reserved(word[j]) by {
                assert(word[j] == t[j]);
            }
        }
        assert(file_safe(rest)) by {
            assert forall|j: int| 0 <= j < rest.len() implies !is_control(#[trigger] rest[j])
                && !is_reserved(rest[j]) by {
                assert(rest[j] == t[j + n]);
            }
        }
        lemma_safe_words(rest);
        assert(words(s) == seq![word] + words(rest));
        assert forall|k: int| 0 <= k < words(s).len() implies file_safe(#[trigger] words(s)[k]) by {
            if k > 0 {
                assert(words(s)[k] == words(rest)[k - 1]);
            }
        }
    }
}

proof fn lemma_safe_join(parts: Seq<Seq<char>>)
    requires
        forall|k: int| 0 <= k < parts.len() ==> file_safe(#[trigger] parts[k]),
    ensures
        file_safe(join_spaces(parts)),
    decreases parts.len(),
{
    if parts.len() > 1 {
        assert forall|k: int| 0 <= k < parts.drop_last().len() implies file_safe(
            #[trigger] parts.drop_last()[k],
        ) by {
            assert(parts.drop_last()[k] == parts[k]);
        }
        lemma_safe_join(parts.drop_last());
        let a = join_spaces(parts.drop_last());
        let b = parts.last();
        assert(file_safe(parts[parts.len() - 1]));
        let j = a + seq![' '] + b;
        assert forall|i: int| 0 <= i < j.len() implies !is_control(#[trigger] j[i]) && !is_reserved(
            j[i],
        ) by {
            if i < a.len() {
                assert(j[i] == a[i]);
            } else if i > a.len() {
                assert(j[i] == b[i - a.len() - 1]);
            }
        }
    }
}

proof fn lemma_safe_trim_dots(s: Seq<char>)
    requires
        file_safe(s),
    ensures
        file_safe(trim_dots_start(s)),
        file_safe(trim_dots_end(s)),
    decreases s.len(),
{
    if s.len() > 0 {
        if is_dot_or_space(s[0]) {
            lemma_safe_drop_first(s);
            lemma_safe_trim_dots(s.drop_first());
        }
        if is_dot_or_space(s.last()) {
            assert(file_safe(s.drop_last())) by {
                assert forall|j: int| 0 <= j < s.drop_last().len() implies !is_control(
                    #[trigger] s.drop_last()[j],
                ) && !is_reserved(s.drop_last()[j]) by {
                    assert(s.drop_last()[j] == s[j]);
                }
            }
            lemma_safe_trim_dots(s.drop_last());
        }
    }
}

/// A sanitized name part is fit for a file name: no control or reserved
/// character, and at most 40 characters.
pub proof fn lemma_sanitized_is_file_safe(value: Seq<char>)
    ensures
        file_safe(sanitize_spec(value)),
        sanitize_spec(value).len() <= MAX_FILE_PART_CHARS,
{
    let cleaned = value.map_values(|c: char| clean_char(c));
    assert(file_safe(cleaned)) by {
        assert forall|i: int| 0 <= i < cleaned.len() implies !is_control(#[trigger] cleaned[i])
            && !is_reserved(cleaned[i]) by {
            assert(cleaned[i] == clean_char(value[i]));
        }
    }
    lemma_safe_words(cleaned);
    lemma_safe_join(words(cleaned));
    let joined = join_spaces(words(cleaned));
    lemma_safe_trim_dots(joined);
    lemma_safe_trim_dots(trim_dots_start(joined));
    let trimmed = trim_dots_end(trim_dots_start(joined));
    if trimmed.len() > MAX_FILE_PART_CHARS {
        let t = trimmed.take(MAX_FILE_PART_CHARS as int);
        assert forall|i: int| 0 <= i < t.len() implies !is_control(#[trigger] t[i]) && !is_reserved(
            t[i],
        ) by {
            assert(t[i] == trimmed[i]);
        }
    }
}

fn is_control_char(c: char) -> (r: bool)
    ensures
        r == is_control(c),
{
    c <= '\u{1F}' || ('\u{7F}' <= c && c <= '\u{9F}')
}

fn clean(c: char) -> (r: char)
    ensures
        r == clean_char(c),
{
    if is_control_char(c) || c == '<' || c == '>' || c == ':' || c == '"' || c == '/' || c == '\\'
        || c == '|' || c == '?' || c == '*' {
        ' '
    } else {
        c
    }
}

fn words_of(s: &Vec<char>) -> (r: Vec<Vec<char>>)
    ensures
        r@.map_values(|w: Vec<char>| w@) == words(s@),
{
    let mut out: Vec<Vec<char>> = Vec::new();
    let mut pos: usize = 0;
    assert(s@.skip(0) =~= s@);
    while pos < s.len()
        invariant
            pos <= s.len(),
            words(s@) == out@.map_values(|w: Vec<char>| w@) + words(s@.skip(pos as int)),
        decreases s.len() - pos,
    {
        let ghost rest = s@.skip(pos as int);
        let mut start = pos;
        while start < s.len() && is_whitespace(s[start])
            invariant
                pos <= start <= s.len(),
                trim_start(rest) == trim_start(s@.skip(start as int)),
            decreases s.len() - start,
        {
            assert(s@.skip(start as int).drop_first() =~= s@.skip(start + 1));
            start = start + 1;
        }
        proof {
            if start < s.len() {
                assert(s@.skip(start as int)[0] == s@[start as int]);
            }
            assert(trim_start(s@.skip(start as int)) == s@.skip(start as int));
        }
        if start == s.len() {
            assert(s@.skip(start as int) =~= Seq::<char>::empty());
            assert(words(rest) =~= Seq::<Seq<char>>::empty());
            assert(words(s@.skip(s.len() as int)) =~= Seq::<Seq<char>>::empty());
            pos = start;
        } else {
            let mut end = start;
            while end < s.len() && !is_whitespace(s[end])
                invariant
                    start <= end <= s.len(),
                    forall|j: int| start <= j < end ==> !is_ws(s@[j]),
                decreases s.len() - end,
            {
                end = end + 1;
            }
            let word = subvec(s, start, end);
            proof {
                let t = s@.skip(start as int);
                assert forall|j: int| 0 <= j < end - start implies !is_ws(t[j]) by {
                    assert(t[j] == s@[j + start]);
                }
                if end < s.len() {
                    assert(t[end - start] == s@[end as int]);
                }
                lemma_ws_index_at(t, end - start);
                assert(t.take(end - start) =~= word@);
                assert(t.skip(end - start) =~= s@.skip(end as int));
                assert(words(rest) == seq![word@] + words(s@.skip(end as int)));
            }
            let ghost before = out@.map_values(|w: Vec<char>| w@);
            out.push(word);
            assert(out@.map_values(|w: Vec<char>| w@) =~= before.push(word@));
            assert(before + words(rest) =~= out@.map_values(|w: Vec<char>| w@) + words(
                s@.skip(end as int),
            ));
            pos = end;
        }
    }
    assert(s@.skip(s.len() as int) =~= Seq::<char>::empty());
    assert(words(Seq::<char>::empty()) =~= Seq::<Seq<char>>::empty());
    assert(out@.map_values(|w: Vec<char>| w@) + Seq::<Seq<char>>::empty() =~= out@.map_values(
        |w: Vec<char>| w@,
    ));
    out
}

fn join_with_spaces(parts: &Vec<Vec<char>>) -> (r: Vec<char>)
    ensures
        r@ == join_spaces(parts@.map_values(|w: Vec<char>| w@)),
{
    let ghost pv = parts@.map_values(|w: Vec<char>| w@);
    let mut out: Vec<char> = Vec::new();
    let mut i: usize = 0;
    while i < parts.len()
        invariant
            i <= parts.len(),
            pv == parts@.map_values(|w: Vec<char>| w@),
            out@ == join_spaces(pv.take(i as int)),
        decreases parts.len() - i,
    {
        proof {
            let t1 = pv.take(i + 1);
            assert(t1.drop_last() =~= pv.take(i as int));
            assert(t1.last() == parts@[i as int]@);
            if i == 0 {
                assert(t1.len() == 1);
            }
        }
        if i > 0 {
            out.push(' ');
        }
        out = concat(&out, &parts[i]);
        proof {
            if i == 0 {
                assert(out@ =~= parts@[0]@);
            }
        }
        i = i + 1;
    }
    assert(pv.take(parts.len() as int) =~= pv);
    out
}

fn trim_dots(s: &Vec<char>) -> (r: Vec<char>)
    ensures
        r@ == trim_dots_end(trim_dots_start(s@)),
{
    let mut i: usize = 0;
    assert(s@.skip(0) =~= s@);
    while i < s.len() && (s[i] == '.' || s[i] == ' ')
        invariant
            i <= s.len(),
            trim_dots_start(s@) == trim_dots_start(s@.skip(i as int)),
        decreases s.len() - i,
    {
        assert(s@.skip(i as int).drop_first() =~= s@.skip(i + 1));
        i = i + 1;
    }
    let t = subvec(s, i, s.len());
    assert(t@ == s@.skip(i as int));
    let mut n: usize = t.len();
    assert(t@.take(n as int) =~= t@);
    while n > 0 && (t[n - 1] == '.' || t[n - 1] == ' ')
        invariant
            n <= t.len(),
            trim_dots_end(t@) == trim_dots_end(t@.take(n as int)),
        decreases n,
    {
        assert(t@.take(n as int).drop_last() =~= t@.take(n - 1));
        n = n - 1;
    }
    subvec(&t, 0, n)
}

/// A name part made safe for use in a file name.
pub fn sanitize_file_part(value: &str) -> (r: String)
    ensures
        r@ == sanitize_spec(value@),
{
    let chars = chars_of(value);
    let mut cleaned: Vec<char> = Vec::new();
    let mut i: usize = 0;
    while i < chars.len()
        invariant
            i <= chars.len(),
            cleaned@ == chars@.take(i as int).map_values(|c: char| clean_char(c)),
        decreases chars.len() - i,
    {
        cleaned.push(clean(chars[i]));
        i = i + 1;
        assert(chars@.take(i as int).map_values(|c: char| clean_char(c)) =~= chars@.take(
            i - 1 as int,
        ).map_values(|c: char| clean_char(c)).push(clean_char(chars@[i - 1])));
    }
    assert(chars@.take(chars.len() as int) =~= chars@);
    let parts = words_of(&cleaned);
    let joined = join_with_spaces(&parts);
    let trimmed = trim_dots(&joined);
    if trimmed.len() <= MAX_FILE_PART_CHARS {
        string_of(&trimmed)
    } else {
        string_of(&subvec(&trimmed, 0, MAX_FILE_PART_CHARS))
    }
}

// ─── Timestamps and stems ────────────────────────────────────────────

/// `dd-mm-yy HH-MM-SS`-shaped: 17 bytes, `-` at 2, 5, 11 and 14, a space at
/// 8, ASCII digits elsewhere.
pub open spec fn safe_timestamp_spec(bytes: Seq<u8>) -> bool {
    &&& bytes.len() == 17
    &&& bytes[2] == 0x2D && bytes[5] == 0x2D && bytes[8] == 0x20 && bytes[11] == 0x2D
        && bytes[14] == 0x2D
    &&& forall|i: int|
        0 <= i < 17 && i != 2 && i != 5 && i != 8 && i != 11 && i != 14 ==> 0x30 <= #[trigger] bytes[i]
            <= 0x39
}

/// `value` itself when it is a well-formed recording timestamp.
pub fn safe_timestamp(value: &str) -> (r: Option<&str>)
    ensures
        safe_timestamp_spec(value.spec_bytes()) ==> r == Some(value),
        !safe_timestamp_spec(value.spec_bytes()) ==> r is None,
{
    let bytes = value.as_bytes();
    let separators_valid = bytes.len() == 17 && bytes[2] == 0x2D && bytes[5] == 0x2D && bytes[8]
        == 0x20 && bytes[11] == 0x2D && bytes[14] == 0x2D;
    let mut digits_valid = true;
    let mut i: usize = 0;
    while i < bytes.len()
        invariant
            i <= bytes@.len(),
            digits_valid == forall|j: int|
                0 <= j < i && j != 2 && j != 5 && j != 8 && j != 11 && j != 14 ==> 0x30
                    <= #[trigger] bytes@[j] <= 0x39,
        decreases bytes@.len() - i,
    {
        if !(i == 2 || i == 5 || i == 8 || i == 11 || i == 14) && !(0x30 <= bytes[i] && bytes[i]
            <= 0x39) {
            digits_valid = false;
        }
        i = i + 1;
    }
    if separators_valid && digits_valid {
        Some(value)
    } else {
        None
    }
}

pub open spec fn or_default(s: Seq<char>, default: Seq<char>) -> Seq<char> {
    if s.len() == 0 {
        default
    } else {
        s
    }
}

pub open spec fn lit_untitled() -> Seq<char> {
    seq!['U', 'n', 't', 'i', 't', 'l', 'e', 'd']
}

pub open spec fn lit_unknown_album() -> Seq<char> {
    seq!['U', 'n', 'k', 'n', 'o', 'w', 'n', ' ', 'a', 'l', 'b', 'u', 'm']
}

pub open spec fn lit_no_profile() -> Seq<char> {
    seq!['N', 'o', ' ', 'p', 'r', 'o', 'f', 'i', 'l', 'e']
}

pub open spec fn lit_sep() -> Seq<char> {
    seq![' ', '-', ' ']
}

/// `title - album - profile - timestamp`, each name part sanitized and
/// defaulted when empty; only a well-formed timestamp is accepted.
pub open spec fn recording_stem_spec(
    title: Seq<char>,
    album: Seq<char>,
    profile: Seq<char>,
    saved_at: &str,
) -> Result<Seq<char>, Seq<char>> {
    if safe_timestamp_spec(saved_at.spec_bytes()) {
        Ok(
            or_default(sanitize_spec(title), lit_untitled()) + lit_sep() + or_default(
                sanitize_spec(album),
                lit_unknown_album(),
            ) + lit_sep() + or_default(sanitize_spec(profile), lit_no_profile()) + lit_sep()
                + saved_at@,
        )
    } else {
        Err("The recording timestamp is invalid"@)
    }
}

fn defaulted(s: String, default: Vec<char>) -> (r: Vec<char>)
    ensures
        r@ == or_default(s@, default@),
{
    let c = chars_of(s.as_str());
    if c.len() == 0 {
        default
    } else {
        c
    }
}

/// File-name stem of a recording.
pub fn recording_stem(title: &str, album: &str, profile: &str, saved_at: &str) -> (r: Result<
    String,
    String,
>)
    ensures
        match r {
            Ok(s) => recording_stem_spec(title@, album@, profile@, saved_at) == Ok::<
                Seq<char>,
                Seq<char>,
            >(s@),
            Err(e) => recording_stem_spec(title@, album@, profile@, saved_at) == Err::<
                Seq<char>,
                Seq<char>,
            >(e@),
        },
{
    let title = sanitize_file_part(title);
    let album = sanitize_file_part(album);
    let profile = sanitize_file_part(profile);
    let saved = match safe_timestamp(saved_at) {
        Some(v) => v,
        None => return Err(String::from_str("The recording timestamp is invalid")),
    };
    let sep = vec![' ', '-', ' '];
    let t = defaulted(title, vec!['U', 'n', 't', 'i', 't', 'l', 'e', 'd']);
    let a = defaulted(album, vec!['U', 'n', 'k', 'n', 'o', 'w', 'n', ' ', 'a', 'l', 'b', 'u', 'm']);
    let p = defaulted(profile, vec!['N', 'o', ' ', 'p', 'r', 'o', 'f', 'i', 'l', 'e']);
    let mut out = concat(&t, &sep);
    out = concat(&out, &a);
    out = concat(&out, &sep);
    out = concat(&out, &p);
    out = concat(&out, &sep);
    out = concat(&out, &chars_of(saved));
    Ok(string_of(&out))
}

// ─── Save checks and plan ────────────────────────────────────────────

/// What a save request is refused for before anything is written: an empty
/// recording, one over the size limit, or an unsupported media type.
/// Otherwise the extension of the browser's recording.
pub open spec fn check_recording_spec(
    audio_len: nat,
    microphone_len: nat,
    media_type: Seq<char>,
) -> Result<Seq<char>, Seq<char>> {
    if audio_len == 0 {
        Err("The recording is empty"@)
    } else if audio_len + microphone_len > MAX_RECORDING_BYTES {
        Err("The recording is too large to save"@)
    } else {
        match input_extension_spec(media_type) {
            Some(e) => Ok(e),
            None => Err("This recording format is not supported"@),
        }
    }
}

pub fn check_recording(audio_len: usize, microphone_len: Option<usize>, media_type: &str) -> (r:
    Result<String, String>)
    ensures
        match r {
            Ok(e) => check_recording_spec(
                audio_len as nat,
                match microphone_len {
                    Some(n) => n as nat,
                    None => 0,
                },
                media_type@,
            ) == Ok::<Seq<char>, Seq<char>>(e@),
            Err(e) => check_recording_spec(
                audio_len as nat,
                match microphone_len {
                    Some(n) => n as nat,
                    None => 0,
                },
                media_type@,
            ) == Err::<Seq<char>, Seq<char>>(e@),
        },
{
    if audio_len == 0 {
        return Err(String::from_str("The recording is empty"));
    }
    let microphone_bytes: usize = match microphone_len {
        Some(n) => n,
        None => 0,
    };
    match audio_len.checked_add(microphone_bytes) {
        Some(size) => {
            if size > MAX_RECORDING_BYTES {
                return Err(String::from_str("The recording is too large to save"));
            }
        },
        None => return Err(String::from_str("The recording is too large to save")),
    }
    match input_extension(media_type) {
        Some(e) => Ok(e),
        None => Err(String::from_str("This recording format is not supported")),
    }
}

/// Names of the files a save goes through, all in the recordings folder:
/// the browser's track, the microphone track, the encoder's output and the
/// final name.
pub struct RecordingFiles {
    pub input: String,
    pub microphone: String,
    pub encoded: String,
    pub target: String,
}

pub open spec fn lit_prefix() -> Seq<char> {
    seq!['.', 'n', 'i', 'g', 'h', 't', 'i', 'n', 'g', 'a', 'l', 'e', '-']
}

pub open spec fn lit_mp3_ext() -> Seq<char> {
    seq!['.', 'm', 'p', '3']
}

pub open spec fn lit_mic_suffix() -> Seq<char> {
    seq!['-', 'm', 'i', 'c', 'r', 'o', 'p', 'h', 'o', 'n', 'e', '.', 'w', 'a', 'v']
}

/// Hidden working names `.nightingale-<unique>.<ext>`,
/// `.nightingale-<unique>-microphone.wav` and `.nightingale-<unique>.mp3`,
/// and the final `<stem>.mp3`.
pub fn recording_files(unique: &str, extension: &str, stem: &str) -> (r: RecordingFiles)
    ensures
        r.input@ == lit_prefix() + unique@ + seq!['.'] + extension@,
        r.microphone@ == lit_prefix() + unique@ + lit_mic_suffix(),
        r.encoded@ == lit_prefix() + unique@ + lit_mp3_ext(),
        r.target@ == stem@ + lit_mp3_ext(),
{
    let base = concat(
        &vec!['.', 'n', 'i', 'g', 'h', 't', 'i', 'n', 'g', 'a', 'l', 'e', '-'],
        &chars_of(unique),
    );
    let input = concat(&concat(&base, &vec!['.']), &chars_of(extension));
    let microphone = concat(
        &base,
        &vec!['-', 'm', 'i', 'c', 'r', 'o', 'p', 'h', 'o', 'n', 'e', '.', 'w', 'a', 'v'],
    );
    let encoded = concat(&base, &vec!['.', 'm', 'p', '3']);
    let target = concat(&chars_of(stem), &vec!['.', 'm', 'p', '3']);
    RecordingFiles {
        input: string_of(&input),
        microphone: string_of(&microphone),
        encoded: string_of(&encoded),
        target: string_of(&target),
    }
}

/// Whether the microphone track is mixed in: only when one was sent and it
/// holds data.
pub open spec fn mixes_microphone(microphone_len: Option<usize>) -> bool {
    match microphone_len {
        Some(n) => n > 0,
        None => false,
    }
}

pub fn should_mix_microphone(microphone_len: Option<usize>) -> (r: bool)
    ensures
        r == mixes_microphone(microphone_len),
{
    match microphone_len {
        Some(n) => n > 0,
        None => false,
    }
}

/// The ffmpeg arguments that encode a recording to 256 kbit/s stereo MP3
/// at 48 kHz: the browser's track, and when a microphone track is given it
/// too, mixed with the first as the length and limited to avoid clipping.
pub open spec fn transcode_args_spec(input: Seq<char>, microphone: Option<Seq<char>>, output: Seq<
    char,
>) -> Seq<Seq<char>> {
    let head = seq!["-y"@, "-v"@, "error"@, "-i"@, input];
    let mix = match microphone {
        Some(m) => seq![
            "-i"@,
            m,
            "-filter_complex"@,
            "[0:a][1:a]amix=inputs=2:duration=first:dropout_transition=0:normalize=0,alimiter=limit=0.95[aout]"@,
            "-map"@,
            "[aout]"@,
        ],
        None => seq![],
    };
    head + mix + seq![
        "-vn"@,
        "-codec:a"@,
        "libmp3lame"@,
        "-b:a"@,
        "256k"@,
        "-ar"@,
        "48000"@,
        "-ac"@,
        "2"@,
        output,
    ]
}

pub open spec fn strings_view(v: Seq<String>) -> Seq<Seq<char>> {
    v.map_values(|s: String| s@)
}

fn push_str(v: &mut Vec<String>, s: &str)
    ensures
        strings_view(final(v)@) == strings_view(old(v)@).push(s@),
{
    v.push(String::from_str(s));
    assert(strings_view(v@) =~= strings_view(old(v)@).push(s@));
}

pub fn transcode_args(input: &str, microphone: Option<&str>, output: &str) -> (r: Vec<String>)
    ensures
        strings_view(r@) == transcode_args_spec(
            input@,
            match microphone {
                Some(m) => Some(m@),
                None => None,
            },
            output@,
        ),
{
    let mut v: Vec<String> = Vec::new();
    push_str(&mut v, "-y");
    push_str(&mut v, "-v");
    push_str(&mut v, "error");
    push_str(&mut v, "-i");
    push_str(&mut v, input);
    let ghost head = strings_view(v@);
    if let Some(m) = microphone {
        push_str(&mut v, "-i");
        push_str(&mut v, m);
        push_str(&mut v, "-filter_complex");
        push_str(
            &mut v,
            "[0:a][1:a]amix=inputs=2:duration=first:dropout_transition=0:normalize=0,alimiter=limit=0.95[aout]",
        );
        push_str(&mut v, "-map");
        push_str(&mut v, "[aout]");
    }
    let ghost mid = strings_view(v@);
    push_str(&mut v, "-vn");
    push_str(&mut v, "-codec:a");
    push_str(&mut v, "libmp3lame");
    push_str(&mut v, "-b:a");
    push_str(&mut v, "256k");
    push_str(&mut v, "-ar");
    push_str(&mut v, "48000");
    push_str(&mut v, "-ac");
    push_str(&mut v, "2");
    push_str(&mut v, output);
    assert(strings_view(v@) =~= transcode_args_spec(
        input@,
        match microphone {
            Some(m) => Some(m@),
            None => None,
        },
        output@,
    ));
    v
}

} // verus!
