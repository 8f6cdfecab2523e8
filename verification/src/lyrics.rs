//! Lyrics: the plain-lyrics file, sidecar `.lrc` / `.elrc` files next to a
//! song's audio, edited lyric lines, and the LRCLIB search (its URL, which
//! results are kept, in which order, and what of each is shown).

use vstd::prelude::*;

use vstd::utf8::encode_utf8;

use crate::text::{
    chars_eq, chars_of, concat, eq_ignore_ascii_case, eq_ignore_case, is_ws,
    lemma_trim_end_shape, lemma_trim_start_shape, lower_chars, lower_seq, split_lines,
    split_lines_chars, string_of, subvec, trim, trim_chars, trim_end, trim_start,
};
use crate::usdx::{decode_text, decode_text_spec, opt_view};

verus! {

// ─── Types ───────────────────────────────────────────────────────────

/// The plain lyric lines stored for a song.
pub struct LyricsFile {
    pub lines: Vec<String>,
}

/// Flavour of a sidecar lyrics file.
#[derive(PartialEq, Eq, Structural, Clone, Copy, Debug)]
pub enum SidecarLrcKind {
    Lrc,
    Elrc,
}

pub open spec fn kind_rank(k: SidecarLrcKind) -> u8 {
    match k {
        SidecarLrcKind::Lrc => 0,
        SidecarLrcKind::Elrc => 1,
    }
}

pub open spec fn kind_extension(k: SidecarLrcKind) -> Seq<char> {
    match k {
        SidecarLrcKind::Lrc => seq!['l', 'r', 'c'],
        SidecarLrcKind::Elrc => seq!['e', 'l', 'r', 'c'],
    }
}

impl SidecarLrcKind {
    /// Preference among sidecars of equal name: `.lrc` before `.elrc`.
    pub fn rank(self) -> (r: u8)
        ensures
            r == kind_rank(self),
    {
        match self {
            SidecarLrcKind::Lrc => 0,
            SidecarLrcKind::Elrc => 1,
        }
    }

    /// The canonical (lower-case) file extension.
    pub fn extension(self) -> (r: &'static str)
        ensures
            r@ == kind_extension(self),
    {
        proof {
            reveal_strlit("lrc");
            reveal_strlit("elrc");
        }
        match self {
            SidecarLrcKind::Lrc => "lrc",
            SidecarLrcKind::Elrc => "elrc",
        }
    }
}

/// A sidecar lyrics file found next to a local song's audio. `file_name` is
/// the bare file name, never a directory.
pub struct SidecarLrc {
    pub text: String,
    pub file_name: String,
    pub kind: SidecarLrcKind,
}

/// Sidecar files larger than this are not read.
pub const SIDECAR_LRC_MAX_BYTES: u64 = 1048576;

// ─── Newlines ────────────────────────────────────────────────────────

/// The text with each CRLF pair and each lone CR turned into LF.
pub open spec fn normalize_newlines_spec(s: Seq<char>) -> Seq<char>
    decreases s.len(),
{
    if s.len() == 0 {
        s
    } else if s[0] == '\r' && s.len() >= 2 && s[1] == '\n' {
        seq!['\n'] + normalize_newlines_spec(s.skip(2))
    } else if s[0] == '\r' {
        seq!['\n'] + normalize_newlines_spec(s.skip(1))
    } else {
        seq![s[0]] + normalize_newlines_spec(s.skip(1))
    }
}

pub fn normalize_newlines(text: &str) -> (r: String)
    ensures
        r@ == normalize_newlines_spec(text@),
{
    let s = chars_of(text);
    let mut out: Vec<char> = Vec::new();
    let mut i: usize = 0;
    assert(s@.skip(0) =~= s@);
    while i < s.len()
        invariant
            i <= s.len(),
            normalize_newlines_spec(s@) == out@ + normalize_newlines_spec(s@.skip(i as int)),
        decreases s.len() - i,
    {
        let ghost rest = s@.skip(i as int);
        if s[i] == '\r' && i + 1 < s.len() && s[i + 1] == '\n' {
            out.push('\n');
            assert(rest.skip(2) =~= s@.skip(i + 2));
            i = i + 2;
        } else if s[i] == '\r' {
            out.push('\n');
            assert(rest.skip(1) =~= s@.skip(i + 1));
            i = i + 1;
        } else {
            out.push(s[i]);
            assert(rest.skip(1) =~= s@.skip(i + 1));
            i = i + 1;
        }
    }
    assert(s@.skip(i as int) =~= Seq::<char>::empty());
    assert(out@ + Seq::<char>::empty() =~= out@);
    string_of(&out)
}

/// Normalized text holds no carriage return.
pub proof fn lemma_normalized_has_no_cr(s: Seq<char>)
    ensures
        !normalize_newlines_spec(s).contains('\r'),
    decreases s.len(),
{
    if s.len() > 0 {
        let r = normalize_newlines_spec(s);
        if s[0] == '\r' && s.len() >= 2 && s[1] == '\n' {
            lemma_normalized_has_no_cr(s.skip(2));
            let rest = normalize_newlines_spec(s.skip(2));
            assert forall|i: int| 0 <= i < r.len() implies r[i] != '\r' by {
                if i > 0 {
                    assert(r[i] == rest[i - 1]);
                }
            }
        } else {
            lemma_normalized_has_no_cr(s.skip(1));
            let rest = normalize_newlines_spec(s.skip(1));
            assert forall|i: int| 0 <= i < r.len() implies r[i] != '\r' by {
                if i > 0 {
                    assert(r[i] == rest[i - 1]);
                }
            }
        }
    }
}

// ─── Sidecar names ───────────────────────────────────────────────────

/// Index of the last `c` in `s`, -1 when there is none.
pub open spec fn last_index_of(s: Seq<char>, c: char) -> int
    decreases s.len(),
{
    if s.len() == 0 {
        -1
    } else if s.last() == c {
        s.len() - 1
    } else {
        last_index_of(s.drop_last(), c)
    }
}

proof fn lemma_last_index_of(s: Seq<char>, c: char)
    ensures
        -1 <= last_index_of(s, c) < s.len(),
        last_index_of(s, c) >= 0 ==> s[last_index_of(s, c)] == c,
        forall|j: int| last_index_of(s, c) < j < s.len() ==> s[j] != c,
    decreases s.len(),
{
    if s.len() > 0 && s.last() != c {
        lemma_last_index_of(s.drop_last(), c);
        assert forall|j: int| last_index_of(s, c) < j < s.len() implies s[j] != c by {
            if j < s.len() - 1 {
                assert(s.drop_last()[j] == s[j]);
            }
        }
    }
}

/// `Path::file_stem` and `Path::extension` of a bare file name: the parts
/// around its last `.`, where a leading `.` starts no extension. `None` for
/// the names that are no file name (empty, `.`, `..`).
pub open spec fn name_parts(name: Seq<char>) -> Option<(Seq<char>, Option<Seq<char>>)> {
    if name.len() == 0 || name == seq!['.'] || name == seq!['.', '.'] {
        None
    } else {
        let k = last_index_of(name, '.');
        if k <= 0 {
            Some((name, None))
        } else {
            Some((name.take(k), Some(name.skip(k + 1))))
        }
    }
}

/// Kind of a sidecar named `name` for a song whose file stem is `stem`, and
/// whether it matches exactly (same case, canonical extension). Extension
/// and stem are compared ignoring ASCII case.
pub open spec fn sidecar_match(name: Seq<char>, stem: Seq<char>) -> Option<(SidecarLrcKind, bool)> {
    match name_parts(name) {
        Some((file_stem, Some(ext))) => {
            let kind = if eq_ignore_case(ext, seq!['l', 'r', 'c']) {
                Some(SidecarLrcKind::Lrc)
            } else if eq_ignore_case(ext, seq!['e', 'l', 'r', 'c']) {
                Some(SidecarLrcKind::Elrc)
            } else {
                None
            };
            match kind {
                Some(k) => if eq_ignore_case(file_stem, stem) {
                    Some((k, file_stem == stem && ext == kind_extension(k)))
                } else {
                    None
                },
                None => None,
            }
        },
        _ => None,
    }
}

fn last_dot(s: &Vec<char>) -> (r: usize)
    ensures
        r as int == last_index_of(s@, '.') + 1,
{
    let mut n: usize = s.len();
    assert(s@.take(n as int) =~= s@);
    while n > 0 && s[n - 1] != '.'
        invariant
            n <= s.len(),
            last_index_of(s@, '.') == last_index_of(s@.take(n as int), '.'),
        decreases n,
    {
        assert(s@.take(n as int).drop_last() =~= s@.take(n - 1));
        n = n - 1;
    }
    n
}

fn name_parts_chars(name: &Vec<char>) -> (r: Option<(Vec<char>, Option<Vec<char>>)>)
    ensures
        match r {
            Some((a, Some(b))) => name_parts(name@) == Some((a@, Some(b@))),
            Some((a, None)) => name_parts(name@) == Some((a@, None::<Seq<char>>)),
            None => name_parts(name@) is None,
        },
{
    if name.len() == 0 {
        return None;
    }
    if name.len() == 1 && name[0] == '.' {
        assert(name@ =~= seq!['.']);
        return None;
    }
    if name.len() == 2 && name[0] == '.' && name[1] == '.' {
        assert(name@ =~= seq!['.', '.']);
        return None;
    }
    assert(name@ != seq!['.']) by {
        if name@ == seq!['.'] {
            assert(name@[0] == '.');
        }
    }
    assert(name@ != seq!['.', '.']) by {
        if name@ == seq!['.', '.'] {
            assert(name@[0] == '.' && name@[1] == '.');
        }
    }
    let d = last_dot(name);
    proof {
        lemma_last_index_of(name@, '.');
    }
    if d <= 1 {
        Some((name.clone(), None))
    } else {
        let k = d - 1;
        Some((subvec(name, 0, k), Some(subvec(name, k + 1, name.len()))))
    }
}

/// Kind and exactness of a directory entry named `name` as a sidecar of the
/// song whose file stem is `stem`; `None` when it is none. `name` is a bare
/// file name, as a directory listing gives it.
pub fn match_sidecar_name(name: &str, stem: &str) -> (r: Option<(SidecarLrcKind, bool)>)
    requires
        !name@.contains('/'),
    ensures
        r == sidecar_match(name@, stem@),
{
    let n = chars_of(name);
    let st = chars_of(stem);
    let lrc = chars_of(SidecarLrcKind::Lrc.extension());
    let elrc = chars_of(SidecarLrcKind::Elrc.extension());
    match name_parts_chars(&n) {
        Some((file_stem, Some(ext))) => {
            let kind = if eq_ignore_ascii_case(&ext, &lrc) {
                SidecarLrcKind::Lrc
            } else if eq_ignore_ascii_case(&ext, &elrc) {
                SidecarLrcKind::Elrc
            } else {
                return None;
            };
            if !eq_ignore_ascii_case(&file_stem, &st) {
                return None;
            }
            let canonical = chars_of(kind.extension());
            let exact = chars_eq(&file_stem, &st) && chars_eq(&ext, &canonical);
            Some((kind, exact))
        },
        _ => None,
    }
}

// ─── Choosing a sidecar ──────────────────────────────────────────────

/// `String`'s order: lexicographic by code point.
pub open spec fn text_lt(a: Seq<char>, b: Seq<char>) -> bool
    decreases a.len(),
{
    if a.len() == 0 {
        b.len() > 0
    } else if b.len() == 0 {
        false
    } else if a[0] != b[0] {
        (a[0] as int) < (b[0] as int)
    } else {
        text_lt(a.drop_first(), b.drop_first())
    }
}

pub proof fn lemma_text_lt_irreflexive(a: Seq<char>)
    ensures
        !text_lt(a, a),
    decreases a.len(),
{
    if a.len() > 0 {
        lemma_text_lt_irreflexive(a.drop_first());
    }
}

pub proof fn lemma_text_lt_transitive(a: Seq<char>, b: Seq<char>, c: Seq<char>)
    requires
        text_lt(a, b),
        text_lt(b, c),
    ensures
        text_lt(a, c),
    decreases a.len(),
{
    if a.len() > 0 && b.len() > 0 && c.len() > 0 && a[0] == b[0] && b[0] == c[0] {
        lemma_text_lt_transitive(a.drop_first(), b.drop_first(), c.drop_first());
    }
}

pub proof fn lemma_text_lt_total(a: Seq<char>, b: Seq<char>)
    ensures
        text_lt(a, b) || text_lt(b, a) || a == b,
    decreases a.len(),
{
    if a.len() > 0 && b.len() > 0 && a[0] == b[0] {
        lemma_text_lt_total(a.drop_first(), b.drop_first());
        if a.drop_first() == b.drop_first() {
            assert(a =~= seq![a[0]] + a.drop_first());
            assert(b =~= seq![b[0]] + b.drop_first());
        }
    } else if a.len() > 0 && b.len() > 0 {
        assert((a[0] as int) != (b[0] as int));
    } else if a.len() == 0 && b.len() == 0 {
        assert(a =~= b);
    }
}

fn text_less(a: &Vec<char>, b: &Vec<char>) -> (r: bool)
    ensures
        r == text_lt(a@, b@),
{
    let mut i: usize = 0;
    assert(a@.skip(0) =~= a@);
    assert(b@.skip(0) =~= b@);
    while i < a.len() && i < b.len() && a[i] == b[i]
        invariant
            i <= a.len(),
            i <= b.len(),
            text_lt(a@, b@) == text_lt(a@.skip(i as int), b@.skip(i as int)),
        decreases a.len() - i,
    {
        assert(a@.skip(i as int).drop_first() =~= a@.skip(i + 1));
        assert(b@.skip(i as int).drop_first() =~= b@.skip(i + 1));
        i = i + 1;
    }
    if i == a.len() {
        i < b.len()
    } else if i == b.len() {
        false
    } else {
        a[i] < b[i]
    }
}

/// The preference order of sidecar candidates: exact-case names first, then
/// `.lrc` before `.elrc`, then by file name.
pub open spec fn key_lt(a: (bool, SidecarLrcKind, Seq<char>), b: (bool, SidecarLrcKind, Seq<char>)) -> bool {
    ||| (a.0 && !b.0)
    ||| (a.0 == b.0 && kind_rank(a.1) < kind_rank(b.1))
    ||| (a.0 == b.0 && kind_rank(a.1) == kind_rank(b.1) && text_lt(a.2, b.2))
}

/// A directory entry: its name and whether it is a regular file (links
/// followed).
pub struct DirEntry {
    pub name: String,
    pub is_file: bool,
}

pub open spec fn entry_match(e: DirEntry, stem: Seq<char>) -> Option<(SidecarLrcKind, bool)> {
    if e.is_file {
        sidecar_match(e.name@, stem)
    } else {
        None
    }
}

/// Preference key of a matching entry.
pub open spec fn entry_key(e: DirEntry, stem: Seq<char>) -> (bool, SidecarLrcKind, Seq<char>) {
    let m = entry_match(e, stem)->0;
    (m.1, m.0, e.name@)
}

pub open spec fn is_candidate(entries: Seq<DirEntry>, stem: Seq<char>, i: int) -> bool {
    0 <= i < entries.len() && entry_match(entries[i], stem) is Some
}

pub open spec fn names_plain(entries: Seq<DirEntry>) -> bool {
    forall|i: int| 0 <= i < entries.len() ==> !(#[trigger] entries[i].name@).contains('/')
}

proof fn lemma_key_lt_order(a: (bool, SidecarLrcKind, Seq<char>), b: (bool, SidecarLrcKind, Seq<char>), c: (
    bool,
    SidecarLrcKind,
    Seq<char>,
))
    ensures
        !key_lt(a, a),
        key_lt(a, b) && key_lt(b, c) ==> key_lt(a, c),
        !key_lt(a, b) && a.2 != b.2 ==> key_lt(b, a),
{
    lemma_text_lt_irreflexive(a.2);
    if key_lt(a, b) && key_lt(b, c) && a.0 == b.0 && b.0 == c.0 && kind_rank(a.1) == kind_rank(b.1)
        && kind_rank(b.1) == kind_rank(c.1) {
        lemma_text_lt_transitive(a.2, b.2, c.2);
    }
    lemma_text_lt_total(a.2, b.2);
}

/// Which entry of a directory listing is the sidecar of the song with file
/// stem `stem`: among the regular files whose name matches, the one with
/// the least preference key, the first of them when keys tie. The result is
/// its index and kind; `None` when no entry matches.
pub fn pick_sidecar(entries: &Vec<DirEntry>, stem: &str) -> (r: Option<(usize, SidecarLrcKind)>)
    requires
        names_plain(entries@),
    ensures
        r is None <==> (forall|j: int| !is_candidate(entries@, stem@, j)),
        r matches Some((i, k)) ==> {
            &&& is_candidate(entries@, stem@, i as int)
            &&& k == (entry_match(entries@[i as int], stem@)->0).0
            &&& forall|j: int|
                is_candidate(entries@, stem@, j) ==> !key_lt(
                    entry_key(entries@[j], stem@),
                    entry_key(entries@[i as int], stem@),
                )
            &&& forall|j: int|
                0 <= j < i && is_candidate(entries@, stem@, j) ==> key_lt(
                    entry_key(entries@[i as int], stem@),
                    entry_key(entries@[j], stem@),
                )
        },
{
    let mut best: Option<(usize, SidecarLrcKind, bool)> = None;
    let mut i: usize = 0;
    while i < entries.len()
        invariant
            i <= entries.len(),
            names_plain(entries@),
            best is None <==> (forall|j: int| 0 <= j < i ==> !is_candidate(entries@, stem@, j)),
            best matches Some((b, k, e)) ==> {
                &&& b < i
                &&& is_candidate(entries@, stem@, b as int)
                &&& entry_match(entries@[b as int], stem@) == Some((k, e))
                &&& forall|j: int|
                    0 <= j < i && is_candidate(entries@, stem@, j) ==> !key_lt(
                        entry_key(entries@[j], stem@),
                        entry_key(entries@[b as int], stem@),
                    )
                &&& forall|j: int|
                    0 <= j < b && is_candidate(entries@, stem@, j) ==> key_lt(
                        entry_key(entries@[b as int], stem@),
                        entry_key(entries@[j], stem@),
                    )
            },
        decreases entries.len() - i,
    {
        let e = &entries[i];
        assert(!e.name@.contains('/'));
        let m = if e.is_file {
            match_sidecar_name(e.name.as_str(), stem)
        } else {
            None
        };
        assert(m == entry_match(entries@[i as int], stem@));
        if let Some((kind, exact)) = m {
            assert(is_candidate(entries@, stem@, i as int));
            let take = match &best {
                None => true,
                Some((b, bk, be)) => {
                    let bn = chars_of(entries[*b].name.as_str());
                    let n = chars_of(e.name.as_str());
                    if exact != *be {
                        exact
                    } else if kind.rank() != bk.rank() {
                        kind.rank() < bk.rank()
                    } else {
                        text_less(&n, &bn)
                    }
                },
            };
            proof {
                let ki = entry_key(entries@[i as int], stem@);
                lemma_key_lt_order(ki, ki, ki);
                if let Some((b, bk, be)) = best {
                    let kb = entry_key(entries@[b as int], stem@);
                    assert(take == key_lt(ki, kb));
                    if take {
                        assert forall|j: int|
                            0 <= j < b && is_candidate(entries@, stem@, j) implies key_lt(
                            ki,
                            entry_key(entries@[j], stem@),
                        ) by {
                            lemma_key_lt_order(ki, kb, entry_key(entries@[j], stem@));
                        }
                        assert forall|j: int|
                            b <= j < i && is_candidate(entries@, stem@, j) implies key_lt(
                            ki,
                            entry_key(entries@[j], stem@),
                        ) by {
                            let kj = entry_key(entries@[j], stem@);
                            if entries@[j].name@ == entries@[b as int].name@ {
                                assert(kj == kb);
                            } else {
                                lemma_key_lt_order(kj, kb, ki);
                                lemma_key_lt_order(ki, kb, kj);
                            }
                        }
                        assert forall|j: int|
                            0 <= j < i + 1 && is_candidate(entries@, stem@, j) implies !key_lt(
                            entry_key(entries@[j], stem@),
                            ki,
                        ) by {
                            let kj = entry_key(entries@[j], stem@);
                            lemma_key_lt_order(kj, ki, kb);
                        }
                    }
                }
            }
            if take {
                best = Some((i, kind, exact));
            }
        }
        i = i + 1;
    }
    match best {
        Some((b, k, _)) => Some((b, k)),
        None => None,
    }
}

// ─── Reading a sidecar ───────────────────────────────────────────────

/// The sidecar from the bytes of the file named `file_name`: its text
/// decoded (UTF-8, else Windows-1252) with newlines normalized; `None`
/// when that text is blank.
pub fn sidecar_lrc(bytes: &[u8], file_name: String, kind: SidecarLrcKind) -> (r: Option<SidecarLrc>)
    ensures
        trim(normalize_newlines_spec(decode_text_spec(bytes@))).len() == 0 <==> r is None,
        r matches Some(s) ==> s.text@ == normalize_newlines_spec(decode_text_spec(bytes@))
            && s.file_name == file_name && s.kind == kind,
{
    let decoded = decode_text(bytes);
    let text = normalize_newlines(decoded.as_str());
    let t = trim_chars(&chars_of(text.as_str()));
    if t.len() == 0 {
        None
    } else {
        Some(SidecarLrc { text, file_name, kind })
    }
}

/// Whether a song's sidecar lyrics are looked for at all: only for a song
/// from a local folder that is not a USDX song.
pub fn sidecar_applies(origin: &crate::song::SongOrigin, is_usdx: bool) -> (r: bool)
    ensures
        r == (*origin is LocalFile && !is_usdx),
{
    match origin {
        crate::song::SongOrigin::LocalFile => !is_usdx,
        _ => false,
    }
}

/// Whether a sidecar found next to the audio is read: it lies in the
/// song's own folder once links are followed, it is a file, and it holds at
/// most `SIDECAR_LRC_MAX_BYTES` bytes.
pub fn sidecar_readable(same_folder: bool, is_file: bool, len: u64) -> (r: bool)
    ensures
        r == (same_folder && is_file && len <= SIDECAR_LRC_MAX_BYTES),
{
    same_folder && is_file && len <= SIDECAR_LRC_MAX_BYTES
}

// ─── Edited lyric lines ──────────────────────────────────────────────

/// The lines trimmed, blank ones dropped.
pub open spec fn kept_lines(lines: Seq<Seq<char>>) -> Seq<Seq<char>>
    decreases lines.len(),
{
    if lines.len() == 0 {
        seq![]
    } else {
        let rest = kept_lines(lines.drop_last());
        let t = trim(lines.last());
        if t.len() > 0 {
            rest.push(t)
        } else {
            rest
        }
    }
}

/// Every kept line is non-blank and starts and ends with a character that
/// is not whitespace.
pub proof fn lemma_kept_lines_clean(lines: Seq<Seq<char>>)
    ensures
        forall|k: int|
            0 <= k < kept_lines(lines).len() ==> {
                let l = #[trigger] kept_lines(lines)[k];
                &&& l.len() > 0
                &&& !is_ws(l[0])
                &&& !is_ws(l.last())
            },
    decreases lines.len(),
{
    if lines.len() > 0 {
        lemma_kept_lines_clean(lines.drop_last());
        let rest = kept_lines(lines.drop_last());
        let t = trim(lines.last());
        if t.len() > 0 {
            let u = trim_start(lines.last());
            lemma_trim_start_shape(lines.last());
            lemma_trim_end_shape(u);
            let k = choose|k: int| 0 <= k <= u.len() && trim_end(u) == u.take(k) && (forall|j: int|
                k <= j < u.len() ==> is_ws(#[trigger] u[j]));
            assert(t[0] == u[0]);
            assert forall|x: int| 0 <= x < kept_lines(lines).len() implies {
                let l = #[trigger] kept_lines(lines)[x];
                &&& l.len() > 0
                &&& !is_ws(l[0])
                &&& !is_ws(l.last())
            } by {
                if x < rest.len() {
                    assert(kept_lines(lines)[x] == rest[x]);
                }
            }
        }
    }
}

pub open spec fn strings_view(v: Seq<String>) -> Seq<Seq<char>> {
    v.map_values(|s: String| s@)
}

fn keep_trimmed(pieces: &Vec<Vec<char>>) -> (r: Vec<String>)
    ensures
        strings_view(r@) == kept_lines(pieces@.map_values(|p: Vec<char>| p@)),
{
    let ghost all = pieces@.map_values(|p: Vec<char>| p@);
    let mut out: Vec<String> = Vec::new();
    let mut i: usize = 0;
    while i < pieces.len()
        invariant
            i <= pieces.len(),
            all == pieces@.map_values(|p: Vec<char>| p@),
            strings_view(out@) == kept_lines(all.take(i as int)),
        decreases pieces.len() - i,
    {
        let t = trim_chars(&pieces[i]);
        assert(all.take(i + 1).drop_last() =~= all.take(i as int));
        assert(all.take(i + 1).last() == pieces@[i as int]@);
        if t.len() > 0 {
            let ghost before = strings_view(out@);
            out.push(string_of(&t));
            assert(strings_view(out@) =~= before.push(t@));
        }
        i = i + 1;
    }
    assert(all.take(pieces.len() as int) =~= all);
    out
}

/// Lyric lines as saved: each trimmed, blank ones dropped.
pub fn normalize_lyric_lines(lines: &Vec<String>) -> (r: Vec<String>)
    ensures
        strings_view(r@) == kept_lines(strings_view(lines@)),
{
    let mut pieces: Vec<Vec<char>> = Vec::new();
    let mut i: usize = 0;
    while i < lines.len()
        invariant
            i <= lines.len(),
            pieces@.map_values(|p: Vec<char>| p@) == strings_view(lines@).take(i as int),
        decreases lines.len() - i,
    {
        let ghost before = pieces@.map_values(|p: Vec<char>| p@);
        pieces.push(chars_of(lines[i].as_str()));
        assert(pieces@.map_values(|p: Vec<char>| p@) =~= before.push(lines@[i as int]@));
        assert(strings_view(lines@).take(i + 1) =~= strings_view(lines@).take(i as int).push(
            lines@[i as int]@,
        ));
        i = i + 1;
    }
    assert(strings_view(lines@).take(lines.len() as int) =~= strings_view(lines@));
    keep_trimmed(&pieces)
}

/// The plain lyrics a finished transcript yields: its segments' texts,
/// each trimmed, blank ones dropped; `None` when no line is left.
pub fn lyrics_from_segments(texts: &Vec<String>) -> (r: Option<Vec<String>>)
    ensures
        r is None <==> kept_lines(strings_view(texts@)).len() == 0,
        r matches Some(v) ==> strings_view(v@) == kept_lines(strings_view(texts@)),
{
    let lines = normalize_lyric_lines(texts);
    if lines.len() == 0 {
        None
    } else {
        Some(lines)
    }
}

/// Which lyrics the analysis aligns to.
pub enum LyricsChoice {
    /// The plain-lyrics file already stored for the song.
    Existing,
    /// Write these lines, from the best LRCLIB result, and use them.
    Write(Vec<String>),
    /// Nothing to align to.
    NotFound,
}

/// A stored lyrics file wins; otherwise the best-ranked LRCLIB result, if
/// any.
pub fn choose_lrclib_lyrics(existing: bool, ranked: Vec<LrclibShown>) -> (r: LyricsChoice)
    ensures
        existing ==> r is Existing,
        !existing && ranked@.len() == 0 ==> r is NotFound,
        !existing && ranked@.len() > 0 ==> (r matches LyricsChoice::Write(l) && l@
            == ranked@[0].lines@),
{
    if existing {
        return LyricsChoice::Existing;
    }
    let mut ranked = ranked;
    if ranked.len() == 0 {
        return LyricsChoice::NotFound;
    }
    let first = ranked.remove(0);
    LyricsChoice::Write(first.lines)
}

// ─── Lyrics operations ───────────────────────────────────────────────

/// What a song's row holds that the LRC operations read.
pub struct LrcSong {
    pub language: Option<String>,
    pub key: Option<String>,
    pub no_stems: bool,
}

/// One step of a lyrics operation, carried out in order.
pub enum LyricsEffect {
    /// Write the plain lyrics file with these lines.
    WriteLyricsFile(Vec<String>),
    /// Remove the song's transcript.
    RemoveTranscript,
    /// Remove the tempo-shifted copies of the transcript.
    DeleteTranscriptVariants,
    /// Remove the plain lyrics file.
    RemoveLyricsFile,
    /// Write the transcript built from the parsed LRC, at tempo 1, with
    /// this language and key, and whether the song plays without stems.
    WriteLrcTranscript { language: Option<String>, key: Option<String>, no_stems: bool },
    /// Mark the song unanalyzed, keeping this language.
    MarkUnanalyzed(Option<String>),
    /// Have the next analysis separate stems only.
    MarkStemsOnly,
    /// Queue the song for analysis.
    Enqueue,
    /// Get the song ready to play over its original mix.
    PrepareWithoutStems,
    /// Mark the song analyzed from LRC, with this key at its base tempo and
    /// offset.
    MarkLrcReady { key: Option<String>, no_stems: bool },
}

pub enum LyricsEffectView {
    WriteLyricsFile(Seq<Seq<char>>),
    RemoveTranscript,
    DeleteTranscriptVariants,
    RemoveLyricsFile,
    WriteLrcTranscript { language: Option<Seq<char>>, key: Option<Seq<char>>, no_stems: bool },
    MarkUnanalyzed(Option<Seq<char>>),
    MarkStemsOnly,
    Enqueue,
    PrepareWithoutStems,
    MarkLrcReady { key: Option<Seq<char>>, no_stems: bool },
}

impl View for LyricsEffect {
    type V = LyricsEffectView;

    open spec fn view(&self) -> LyricsEffectView {
        match self {
            LyricsEffect::WriteLyricsFile(l) => LyricsEffectView::WriteLyricsFile(strings_view(l@)),
            LyricsEffect::RemoveTranscript => LyricsEffectView::RemoveTranscript,
            LyricsEffect::DeleteTranscriptVariants => LyricsEffectView::DeleteTranscriptVariants,
            LyricsEffect::RemoveLyricsFile => LyricsEffectView::RemoveLyricsFile,
            LyricsEffect::WriteLrcTranscript { language, key, no_stems } =>
                LyricsEffectView::WriteLrcTranscript {
                language: opt_view(*language),
                key: opt_view(*key),
                no_stems: *no_stems,
            },
            LyricsEffect::MarkUnanalyzed(l) => LyricsEffectView::MarkUnanalyzed(opt_view(*l)),
            LyricsEffect::MarkStemsOnly => LyricsEffectView::MarkStemsOnly,
            LyricsEffect::Enqueue => LyricsEffectView::Enqueue,
            LyricsEffect::PrepareWithoutStems => LyricsEffectView::PrepareWithoutStems,
            LyricsEffect::MarkLrcReady { key, no_stems } => LyricsEffectView::MarkLrcReady {
                key: opt_view(*key),
                no_stems: *no_stems,
            },
        }
    }
}

pub open spec fn lyrics_effects_view(v: Seq<LyricsEffect>) -> Seq<LyricsEffectView> {
    v.map_values(|e: LyricsEffect| e@)
}

fn clone_opt(o: &Option<String>) -> (r: Option<String>)
    ensures
        opt_view(r) == opt_view(*o),
{
    match o {
        Some(s) => Some(s.clone()),
        None => None,
    }
}

/// Saving edited plain lyrics and realigning: refused for USDX songs and
/// when no line is left; otherwise the trimmed non-blank lines are written,
/// the transcript and its tempo variants dropped, the song marked
/// unanalyzed with the language it had, and queued again.
pub fn save_lyrics_plan(is_usdx: bool, lines: &Vec<String>, previous_language: Option<String>) -> (r:
    Result<Vec<LyricsEffect>, String>)
    ensures
        is_usdx ==> (r matches Err(e) && e@ == "Cannot edit lyrics for USDX songs"@),
        !is_usdx && kept_lines(strings_view(lines@)).len() == 0 ==> (r matches Err(e) && e@
            == "Lyrics cannot be empty"@),
        !is_usdx && kept_lines(strings_view(lines@)).len() > 0 ==> (r matches Ok(v)
            && lyrics_effects_view(v@) == seq![
            LyricsEffectView::WriteLyricsFile(kept_lines(strings_view(lines@))),
            LyricsEffectView::RemoveTranscript,
            LyricsEffectView::DeleteTranscriptVariants,
            LyricsEffectView::MarkUnanalyzed(opt_view(previous_language)),
            LyricsEffectView::Enqueue,
        ]),
{
    let kept = match prepare_lyrics_edit(is_usdx, lines) {
        Ok(k) => k,
        Err(e) => return Err(e),
    };
    let ghost lang = opt_view(previous_language);
    let effects = vec![
        LyricsEffect::WriteLyricsFile(kept),
        LyricsEffect::RemoveTranscript,
        LyricsEffect::DeleteTranscriptVariants,
        LyricsEffect::MarkUnanalyzed(previous_language),
        LyricsEffect::Enqueue,
    ];
    assert(lyrics_effects_view(effects@) =~= seq![
        LyricsEffectView::WriteLyricsFile(kept_lines(strings_view(lines@))),
        LyricsEffectView::RemoveTranscript,
        LyricsEffectView::DeleteTranscriptVariants,
        LyricsEffectView::MarkUnanalyzed(lang),
        LyricsEffectView::Enqueue,
    ]);
    Ok(effects)
}

/// Providing LRC for a song not analyzed yet: refused for USDX songs, on
/// LRC that does not parse (with the parser's error) and for a song the
/// library lacks. Otherwise the tempo variants and the lyrics file go, the
/// transcript is written from the LRC with the song's language and no key;
/// with stem separation the song is marked unanalyzed, for a stems-only
/// pass, and queued; without, it plays over its original mix.
pub fn provide_lrc_plan(
    is_usdx: bool,
    parsed: Result<(), String>,
    song: &Option<LrcSong>,
    separate_stems: bool,
) -> (r: Result<Vec<LyricsEffect>, String>)
    ensures
        is_usdx ==> (r matches Err(e) && e@ == "Cannot provide lyrics for USDX songs"@),
        !is_usdx && parsed is Err ==> (r matches Err(e) && parsed matches Err(p) && e == p),
        !is_usdx && parsed is Ok ==> match *song {
            None => (r matches Err(e) && e@ == "Song not found"@),
            Some(s) => (r matches Ok(v) && lyrics_effects_view(v@) == seq![
            LyricsEffectView::DeleteTranscriptVariants,
            LyricsEffectView::RemoveLyricsFile,
            LyricsEffectView::WriteLrcTranscript {
                language: opt_view(s.language),
                key: None,
                no_stems: !separate_stems,
            },
        ] + if separate_stems {
            seq![
                LyricsEffectView::MarkUnanalyzed(opt_view(s.language)),
                LyricsEffectView::MarkStemsOnly,
                LyricsEffectView::Enqueue,
            ]
        } else {
            seq![LyricsEffectView::PrepareWithoutStems]
        }),
        },
{
    if is_usdx {
        return Err(String::from_str("Cannot provide lyrics for USDX songs"));
    }
    if let Err(e) = parsed {
        return Err(e);
    }
    let s = match song {
        Some(s) => s,
        None => return Err(String::from_str("Song not found")),
    };
    let mut effects = vec![
        LyricsEffect::DeleteTranscriptVariants,
        LyricsEffect::RemoveLyricsFile,
        LyricsEffect::WriteLrcTranscript {
            language: clone_opt(&s.language),
            key: None,
            no_stems: !separate_stems,
        },
    ];
    if separate_stems {
        effects.push(LyricsEffect::MarkUnanalyzed(clone_opt(&s.language)));
        effects.push(LyricsEffect::MarkStemsOnly);
        effects.push(LyricsEffect::Enqueue);
    } else {
        effects.push(LyricsEffect::PrepareWithoutStems);
    }
    let ghost lang = opt_view(s.language);
    let ghost head = seq![
        LyricsEffectView::DeleteTranscriptVariants,
        LyricsEffectView::RemoveLyricsFile,
        LyricsEffectView::WriteLrcTranscript { language: lang, key: None, no_stems: !separate_stems },
    ];
    if separate_stems {
        assert(lyrics_effects_view(effects@) =~= head + seq![
            LyricsEffectView::MarkUnanalyzed(lang),
            LyricsEffectView::MarkStemsOnly,
            LyricsEffectView::Enqueue,
        ]);
    } else {
        assert(lyrics_effects_view(effects@) =~= head + seq![LyricsEffectView::PrepareWithoutStems]);
    }
    Ok(effects)
}

/// Applying timed LRC to an analyzed song: refused for USDX songs, on LRC
/// that does not parse and for a song the library lacks. Otherwise the
/// tempo variants and the lyrics file go, the transcript is rebuilt from
/// the LRC with the song's language, its key (else the key the old
/// transcript recorded) and its stems setting, and the song is marked ready
/// from LRC at that key.
pub fn apply_timed_lyrics_plan(
    is_usdx: bool,
    parsed: Result<(), String>,
    song: &Option<LrcSong>,
    transcript_key: Option<String>,
) -> (r: Result<Vec<LyricsEffect>, String>)
    ensures
        is_usdx ==> (r matches Err(e) && e@ == "Cannot edit lyrics for USDX songs"@),
        !is_usdx && parsed is Err ==> (r matches Err(e) && parsed matches Err(p) && e == p),
        !is_usdx && parsed is Ok ==> match *song {
            None => (r matches Err(e) && e@ == "Song not found"@),
            Some(s) => (r matches Ok(v) && {
            let key = match opt_view(s.key) {
                Some(k) => Some(k),
                None => opt_view(transcript_key),
            };
            lyrics_effects_view(v@) == seq![
                LyricsEffectView::DeleteTranscriptVariants,
                LyricsEffectView::RemoveLyricsFile,
                LyricsEffectView::WriteLrcTranscript {
                    language: opt_view(s.language),
                    key: key,
                    no_stems: s.no_stems,
                },
                LyricsEffectView::MarkLrcReady { key: key, no_stems: s.no_stems },
            ]
        }),
        },
{
    if is_usdx {
        return Err(String::from_str("Cannot edit lyrics for USDX songs"));
    }
    if let Err(e) = parsed {
        return Err(e);
    }
    let s = match song {
        Some(s) => s,
        None => return Err(String::from_str("Song not found")),
    };
    let key = match &s.key {
        Some(k) => Some(k.clone()),
        None => transcript_key,
    };
    let ghost kv = opt_view(key);
    let effects = vec![
        LyricsEffect::DeleteTranscriptVariants,
        LyricsEffect::RemoveLyricsFile,
        LyricsEffect::WriteLrcTranscript {
            language: clone_opt(&s.language),
            key: clone_opt(&key),
            no_stems: s.no_stems,
        },
        LyricsEffect::MarkLrcReady { key, no_stems: s.no_stems },
    ];
    assert(lyrics_effects_view(effects@) =~= seq![
        LyricsEffectView::DeleteTranscriptVariants,
        LyricsEffectView::RemoveLyricsFile,
        LyricsEffectView::WriteLrcTranscript {
            language: opt_view(s.language),
            key: kv,
            no_stems: s.no_stems,
        },
        LyricsEffectView::MarkLrcReady { key: kv, no_stems: s.no_stems },
    ]);
    Ok(effects)
}

/// Checks an edit of a song's lyrics before it is saved: USDX songs keep
/// their own lyrics, and at least one non-blank line is needed. On success,
/// the lines to save.
pub fn prepare_lyrics_edit(is_usdx: bool, lines: &Vec<String>) -> (r: Result<Vec<String>, String>)
    ensures
        is_usdx ==> (r matches Err(e) && e@ == "Cannot edit lyrics for USDX songs"@),
        !is_usdx && kept_lines(strings_view(lines@)).len() == 0 ==> (r matches Err(e) && e@
            == "Lyrics cannot be empty"@),
        !is_usdx && kept_lines(strings_view(lines@)).len() > 0 ==> (r matches Ok(v) && strings_view(
            v@,
        ) == kept_lines(strings_view(lines@))),
{
    if is_usdx {
        return Err(String::from_str("Cannot edit lyrics for USDX songs"));
    }
    let kept = normalize_lyric_lines(lines);
    if kept.len() == 0 {
        return Err(String::from_str("Lyrics cannot be empty"));
    }
    Ok(kept)
}

// ─── LRCLIB search ───────────────────────────────────────────────────

/// Bytes that URL encoding leaves as they are: ASCII letters and digits and
/// `-`, `.`, `_`, `~`.
pub open spec fn is_unreserved(b: u8) -> bool {
    ||| (48 <= b && b <= 57)
    ||| (65 <= b && b <= 90)
    ||| (97 <= b && b <= 122)
    ||| b == 45
    ||| b == 46
    ||| b == 95
    ||| b == 126
}

/// Upper-case hexadecimal digit of `d < 16`.
pub open spec fn hex_digit_upper(d: u8) -> char {
    if d < 10 {
        (d + 48) as char
    } else {
        (d + 55) as char
    }
}

/// Percent-encoding of a byte string: unreserved bytes stay, every other
/// byte becomes `%` and two upper-case hex digits.
pub open spec fn percent_encode_spec(bytes: Seq<u8>) -> Seq<char>
    decreases bytes.len(),
{
    if bytes.len() == 0 {
        seq![]
    } else {
        let b = bytes[0];
        let head = if is_unreserved(b) {
            seq![b as char]
        } else {
            seq!['%', hex_digit_upper(b / 16), hex_digit_upper(b % 16)]
        };
        head + percent_encode_spec(bytes.drop_first())
    }
}

/// `urlencoding::encode`: the UTF-8 bytes of `s`, percent-encoded with every
/// byte but ASCII alphanumerics and `-`, `.`, `_`, `~` escaped as `%XX`
/// (upper-case hex).
#[verifier::external_body]
fn url_encode(s: &str) -> (r: String)
    ensures
        r@ == percent_encode_spec(encode_utf8(s@)),
{
    urlencoding::encode(s).into_owned()
}

pub open spec fn lit_unknown_artist() -> Seq<char> {
    "Unknown Artist"@
}

/// The LRCLIB search URL for a song; no search is made for a song without a
/// title or whose artist is unknown.
pub open spec fn lrclib_search_url_spec(title: Seq<char>, artist: Seq<char>) -> Option<Seq<char>> {
    if title.len() == 0 || artist == lit_unknown_artist() {
        None
    } else {
        Some(
            "https://lrclib.net/api/search?track_name="@ + percent_encode_spec(encode_utf8(title))
                + "&artist_name="@ + percent_encode_spec(encode_utf8(artist)),
        )
    }
}

pub fn lrclib_search_url(title: &str, artist: &str) -> (r: Option<String>)
    ensures
        r matches Some(u) ==> lrclib_search_url_spec(title@, artist@) == Some(u@),
        r is None ==> lrclib_search_url_spec(title@, artist@) is None,
{
    let t = chars_of(title);
    let a = chars_of(artist);
    if t.len() == 0 || chars_eq(&a, &chars_of("Unknown Artist")) {
        return None;
    }
    let url = concat(
        &concat(
            &concat(&chars_of("https://lrclib.net/api/search?track_name="), &chars_of(url_encode(title).as_str())),
            &chars_of("&artist_name="),
        ),
        &chars_of(url_encode(artist).as_str()),
    );
    Some(string_of(&url))
}

// ─── LRCLIB results ──────────────────────────────────────────────────

/// The lyrics of one LRCLIB search result.
pub struct LrclibLyrics {
    pub plain_lyrics: String,
    pub synced_lyrics: Option<String>,
}

pub open spec fn lyrics_view(l: LrclibLyrics) -> (Seq<char>, Option<Seq<char>>) {
    (l.plain_lyrics@, match l.synced_lyrics {
        Some(s) => Some(s@),
        None => None,
    })
}

/// What is shown of a kept result: its position in the search results, its
/// plain lyric lines, and its synced lyrics.
pub struct LrclibShown {
    pub index: usize,
    pub lines: Vec<String>,
    pub synced_lyrics: Option<String>,
}

pub open spec fn shown_view(s: LrclibShown) -> (int, Seq<Seq<char>>, Option<Seq<char>>) {
    (s.index as int, strings_view(s.lines@), match s.synced_lyrics {
        Some(t) => Some(t@),
        None => None,
    })
}

/// A result has lyrics when its plain lyrics are not empty or its synced
/// lyrics are not blank.
pub open spec fn has_lyrics(h: (Seq<char>, Option<Seq<char>>)) -> bool {
    h.0.len() > 0 || (h.1 matches Some(s) && trim(s).len() > 0)
}

/// Indices below `n` of the results with lyrics, in order.
pub open spec fn with_lyrics(hs: Seq<(Seq<char>, Option<Seq<char>>)>, n: nat) -> Seq<int>
    decreases n,
{
    if n == 0 {
        seq![]
    } else {
        let prev = with_lyrics(hs, (n - 1) as nat);
        if has_lyrics(hs[n - 1]) {
            prev.push(n - 1)
        } else {
            prev
        }
    }
}

/// How many leading entries of `s` have a key of at most `k`.
pub open spec fn prefix_le(s: Seq<int>, k: i64, keys: Seq<i64>) -> nat
    decreases s.len(),
{
    if s.len() == 0 {
        0
    } else if keys[s[0]] <= k {
        1 + prefix_le(s.drop_first(), k, keys)
    } else {
        0
    }
}

/// `i` placed after the leading entries whose key is at most its own.
pub open spec fn insert_stable(s: Seq<int>, i: int, keys: Seq<i64>) -> Seq<int> {
    s.insert(prefix_le(s, keys[i], keys) as int, i)
}

/// Stable sort by key (`slice::sort_by_key`): entries ordered by key, equal
/// keys kept in their order.
pub open spec fn stable_sort(idx: Seq<int>, keys: Seq<i64>) -> Seq<int>
    decreases idx.len(),
{
    if idx.len() == 0 {
        seq![]
    } else {
        insert_stable(stable_sort(idx.drop_last(), keys), idx.last(), keys)
    }
}

/// Synced lyrics with a blank text count as absent.
pub open spec fn synced_view(o: Option<Seq<char>>) -> Option<Seq<char>> {
    match o {
        Some(s) => if trim(s).len() == 0 {
            None
        } else {
            Some(s)
        },
        None => None,
    }
}

/// What is shown of the results at `order`: each one's plain lyrics as
/// trimmed non-blank lines and its non-blank synced lyrics; results left
/// with neither are dropped.
pub open spec fn shown_results(order: Seq<int>, hs: Seq<(Seq<char>, Option<Seq<char>>)>) -> Seq<
    (int, Seq<Seq<char>>, Option<Seq<char>>),
>
    decreases order.len(),
{
    if order.len() == 0 {
        seq![]
    } else {
        let rest = shown_results(order.drop_last(), hs);
        let i = order.last();
        let lines = kept_lines(split_lines(hs[i].0));
        let synced = synced_view(hs[i].1);
        if lines.len() > 0 || synced is Some {
            rest.push((i, lines, synced))
        } else {
            rest
        }
    }
}

pub open spec fn lyrics_views(hits: Seq<LrclibLyrics>) -> Seq<(Seq<char>, Option<Seq<char>>)> {
    hits.map_values(|h: LrclibLyrics| lyrics_view(h))
}

pub open spec fn index_view(v: Seq<usize>) -> Seq<int> {
    v.map_values(|x: usize| x as int)
}

proof fn lemma_prefix_le(s: Seq<int>, k: i64, keys: Seq<i64>)
    ensures
        prefix_le(s, k, keys) <= s.len(),
        forall|a: int| 0 <= a < prefix_le(s, k, keys) ==> keys[s[a]] <= k,
        prefix_le(s, k, keys) < s.len() ==> keys[s[prefix_le(s, k, keys) as int]] > k,
    decreases s.len(),
{
    if s.len() > 0 && keys[s[0]] <= k {
        lemma_prefix_le(s.drop_first(), k, keys);
        assert forall|a: int| 0 <= a < prefix_le(s, k, keys) implies keys[s[a]] <= k by {
            if a > 0 {
                assert(s[a] == s.drop_first()[a - 1]);
            }
        }
    }
}

fn prefix_le_exec(order: &Vec<usize>, k: i64, keys: &Vec<i64>) -> (p: usize)
    requires
        forall|j: int| 0 <= j < order.len() ==> order@[j] < keys.len(),
    ensures
        p == prefix_le(index_view(order@), k, keys@),
{
    let ghost ov = index_view(order@);
    let mut j: usize = 0;
    assert(ov.skip(0) =~= ov);
    while j < order.len() && keys[order[j]] <= k
        invariant
            j <= order.len(),
            ov == index_view(order@),
            forall|a: int| 0 <= a < order.len() ==> order@[a] < keys.len(),
            prefix_le(ov, k, keys@) == j + prefix_le(ov.skip(j as int), k, keys@),
        decreases order.len() - j,
    {
        assert(ov.skip(j as int).drop_first() =~= ov.skip(j + 1));
        assert(ov.skip(j as int)[0] == order@[j as int] as int);
        j = j + 1;
    }
    if j < order.len() {
        assert(ov.skip(j as int)[0] == order@[j as int] as int);
    } else {
        assert(ov.skip(j as int) =~= Seq::<int>::empty());
    }
    j
}

/// Whether each entry of `s` is below `n`.
pub open spec fn all_below(s: Seq<int>, n: int) -> bool {
    forall|a: int| 0 <= a < s.len() ==> 0 <= #[trigger] s[a] < n
}

/// Sorting keeps the entries: same length, same members.
pub proof fn lemma_stable_sort_members(idx: Seq<int>, keys: Seq<i64>)
    ensures
        stable_sort(idx, keys).len() == idx.len(),
        forall|x: int| stable_sort(idx, keys).contains(x) <==> idx.contains(x),
    decreases idx.len(),
{
    if idx.len() > 0 {
        let prev = stable_sort(idx.drop_last(), keys);
        lemma_stable_sort_members(idx.drop_last(), keys);
        let i = idx.last();
        let p = prefix_le(prev, keys[i], keys);
        lemma_prefix_le(prev, keys[i], keys);
        prev.insert_ensures(p as int, i);
        let r = stable_sort(idx, keys);
        assert(r == prev.insert(p as int, i));
        assert forall|x: int| r.contains(x) <==> idx.contains(x) by {
            if r.contains(x) {
                let a = choose|a: int| 0 <= a < r.len() && r[a] == x;
                if a < p {
                    assert(prev[a] == x);
                    assert(prev.contains(x));
                    assert(idx.drop_last().contains(x));
                    let b = choose|b: int| 0 <= b < idx.drop_last().len() && idx.drop_last()[b] == x;
                    assert(idx[b] == x);
                } else if a > p {
                    assert(prev[a - 1] == x);
                    assert(prev.contains(x));
                    assert(idx.drop_last().contains(x));
                    let b = choose|b: int| 0 <= b < idx.drop_last().len() && idx.drop_last()[b] == x;
                    assert(idx[b] == x);
                } else {
                    assert(idx[idx.len() - 1] == x);
                }
            }
            if idx.contains(x) {
                let b = choose|b: int| 0 <= b < idx.len() && idx[b] == x;
                if b == idx.len() - 1 {
                    assert(r[p as int] == x);
                } else {
                    assert(idx.drop_last()[b] == x);
                    assert(idx.drop_last().contains(x));
                    assert(prev.contains(x));
                    let a = choose|a: int| 0 <= a < prev.len() && prev[a] == x;
                    if a < p {
                        assert(r[a] == x);
                    } else {
                        assert(r[a + 1] == x);
                    }
                }
            }
        }
    }
}

/// Sorting orders the entries by key.
pub proof fn lemma_stable_sort_sorted(idx: Seq<int>, keys: Seq<i64>)
    requires
        all_below(idx, keys.len() as int),
    ensures
        forall|a: int, b: int|
            0 <= a <= b < stable_sort(idx, keys).len() ==> keys[stable_sort(idx, keys)[a]]
                <= keys[stable_sort(idx, keys)[b]],
    decreases idx.len(),
{
    if idx.len() > 0 {
        let prev = stable_sort(idx.drop_last(), keys);
        lemma_stable_sort_sorted(idx.drop_last(), keys);
        let i = idx.last();
        let k = keys[i];
        let p = prefix_le(prev, k, keys);
        lemma_prefix_le(prev, k, keys);
        prev.insert_ensures(p as int, i);
        let r = stable_sort(idx, keys);
        assert(r == prev.insert(p as int, i));
        assert forall|a: int, b: int| 0 <= a <= b < r.len() implies keys[r[a]] <= keys[r[b]] by {
            if a < p && b < p {
            } else if a < p && b == p {
            } else if a < p && b > p {
                assert(keys[prev[a]] <= keys[prev[b - 1]]);
            } else if a == p && b == p {
            } else if a == p && b > p {
                assert(keys[prev[p as int]] <= keys[prev[b - 1]]);
            } else {
                assert(keys[prev[a - 1]] <= keys[prev[b - 1]]);
            }
        }
    }
}

/// Sorting keeps entries of equal key in their order: when the entries come
/// in increasing order, those of equal key stay increasing.
pub proof fn lemma_stable_sort_stable(idx: Seq<int>, keys: Seq<i64>)
    requires
        all_below(idx, keys.len() as int),
        forall|a: int, b: int| 0 <= a < b < idx.len() ==> idx[a] < idx[b],
    ensures
        forall|a: int, b: int|
            0 <= a < b < stable_sort(idx, keys).len() && keys[stable_sort(idx, keys)[a]]
                == keys[stable_sort(idx, keys)[b]] ==> stable_sort(idx, keys)[a] < stable_sort(
                idx,
                keys,
            )[b],
    decreases idx.len(),
{
    if idx.len() > 0 {
        let prev = stable_sort(idx.drop_last(), keys);
        lemma_stable_sort_stable(idx.drop_last(), keys);
        lemma_stable_sort_sorted(idx.drop_last(), keys);
        lemma_stable_sort_members(idx.drop_last(), keys);
        let i = idx.last();
        let k = keys[i];
        let p = prefix_le(prev, k, keys);
        lemma_prefix_le(prev, k, keys);
        prev.insert_ensures(p as int, i);
        let r = stable_sort(idx, keys);
        assert(r == prev.insert(p as int, i));
        assert forall|a: int| 0 <= a < prev.len() implies prev[a] < i by {
            assert(prev.contains(prev[a]));
            assert(idx.drop_last().contains(prev[a]));
            let b = choose|b: int| 0 <= b < idx.drop_last().len() && idx.drop_last()[b] == prev[a];
            assert(idx[b] < idx[idx.len() - 1]);
        }
        assert forall|a: int, b: int|
            0 <= a < b < r.len() && keys[r[a]] == keys[r[b]] implies r[a] < r[b] by {
            if a < p && b < p {
            } else if a < p && b == p {
                assert(prev[a] < i);
            } else if a < p && b > p {
                assert(keys[prev[p as int]] <= keys[prev[b - 1]]);
            } else if a == p {
                assert(keys[prev[p as int]] <= keys[prev[b - 1]]);
            } else {
            }
        }
    }
}

proof fn lemma_with_lyrics(hs: Seq<(Seq<char>, Option<Seq<char>>)>, n: nat)
    requires
        n <= hs.len(),
    ensures
        all_below(with_lyrics(hs, n), n as int),
        forall|a: int, b: int|
            0 <= a < b < with_lyrics(hs, n).len() ==> with_lyrics(hs, n)[a] < with_lyrics(hs, n)[b],
        forall|x: int| with_lyrics(hs, n).contains(x) <==> (0 <= x < n && has_lyrics(hs[x])),
    decreases n,
{
    if n > 0 {
        lemma_with_lyrics(hs, (n - 1) as nat);
        let prev = with_lyrics(hs, (n - 1) as nat);
        let cur = with_lyrics(hs, n);
        if has_lyrics(hs[n - 1]) {
            assert(cur == prev.push(n - 1));
            assert forall|x: int| cur.contains(x) implies (0 <= x < n && has_lyrics(hs[x])) by {
                let a = choose|a: int| 0 <= a < cur.len() && cur[a] == x;
                if a < prev.len() {
                    assert(prev[a] == x);
                    assert(prev.contains(x));
                }
            }
            assert forall|x: int| (0 <= x < n && has_lyrics(hs[x])) implies cur.contains(x) by {
                if x == n - 1 {
                    assert(cur[prev.len() as int] == x);
                } else {
                    assert(prev.contains(x));
                    let a = choose|a: int| 0 <= a < prev.len() && prev[a] == x;
                    assert(cur[a] == x);
                }
            }
        } else {
            assert(cur == prev);
        }
    }
}

/// LRCLIB results are offered ordered by key (closest first), results of
/// equal key in the order the search returned them, and exactly the results
/// with lyrics take part.
pub proof fn lemma_lrclib_order(hs: Seq<(Seq<char>, Option<Seq<char>>)>, keys: Seq<i64>)
    requires
        hs.len() == keys.len(),
    ensures
        ({
            let order = stable_sort(with_lyrics(hs, hs.len()), keys);
            &&& forall|x: int| order.contains(x) <==> (0 <= x < hs.len() && has_lyrics(hs[x]))
            &&& forall|a: int, b: int|
                0 <= a <= b < order.len() ==> keys[order[a]] <= keys[order[b]]
            &&& forall|a: int, b: int|
                0 <= a < b < order.len() && keys[order[a]] == keys[order[b]] ==> order[a] < order[b]
        }),
{
    let w = with_lyrics(hs, hs.len());
    lemma_with_lyrics(hs, hs.len());
    lemma_stable_sort_members(w, keys);
    lemma_stable_sort_sorted(w, keys);
    lemma_stable_sort_stable(w, keys);
    let order = stable_sort(w, keys);
    assert forall|x: int| order.contains(x) <==> (0 <= x < hs.len() && has_lyrics(hs[x])) by {
        assert(order.contains(x) <==> w.contains(x));
        assert(w.contains(x) <==> (0 <= x < hs.len() && has_lyrics(hs[x])));
    }
}

fn has_lyrics_exec(h: &LrclibLyrics) -> (r: bool)
    ensures
        r == has_lyrics(lyrics_view(*h)),
{
    if chars_of(h.plain_lyrics.as_str()).len() > 0 {
        return true;
    }
    match &h.synced_lyrics {
        Some(s) => trim_chars(&chars_of(s.as_str())).len() > 0,
        None => false,
    }
}

fn shown_of(index: usize, h: &LrclibLyrics) -> (r: Option<LrclibShown>)
    ensures
        ({
            let lines = kept_lines(split_lines(lyrics_view(*h).0));
            let synced = synced_view(lyrics_view(*h).1);
            if lines.len() > 0 || synced is Some {
                r matches Some(s) && shown_view(s) == (index as int, lines, synced)
            } else {
                r is None
            }
        }),
{
    let pieces = split_lines_chars(&chars_of(h.plain_lyrics.as_str()));
    let lines = keep_trimmed(&pieces);
    let synced = match &h.synced_lyrics {
        Some(s) => if trim_chars(&chars_of(s.as_str())).len() == 0 {
            None
        } else {
            Some(s.clone())
        },
        None => None,
    };
    if lines.len() > 0 || synced.is_some() {
        Some(LrclibShown { index, lines, synced_lyrics: synced })
    } else {
        None
    }
}

/// The LRCLIB results to offer for a song, best first. `keys[i]` ranks
/// result `i` (lower is closer to the song). Results without lyrics are
/// dropped, the rest stably sorted by key, and each shown with its trimmed
/// non-blank plain lines and its synced lyrics unless blank; a result left
/// with neither is dropped.
pub fn rank_lrclib_results(hits: &Vec<LrclibLyrics>, keys: &Vec<i64>) -> (r: Vec<LrclibShown>)
    requires
        hits.len() == keys.len(),
    ensures
        r@.map_values(|s: LrclibShown| shown_view(s)) == shown_results(
            stable_sort(with_lyrics(lyrics_views(hits@), hits.len() as nat), keys@),
            lyrics_views(hits@),
        ),
{
    let ghost hv = lyrics_views(hits@);
    let mut order: Vec<usize> = Vec::new();
    let mut i: usize = 0;
    while i < hits.len()
        invariant
            i <= hits.len(),
            hits.len() == keys.len(),
            hv == lyrics_views(hits@),
            index_view(order@) == stable_sort(with_lyrics(hv, i as nat), keys@),
            forall|j: int| 0 <= j < order.len() ==> order@[j] < i,
        decreases hits.len() - i,
    {
        if has_lyrics_exec(&hits[i]) {
            let ghost prev = with_lyrics(hv, i as nat);
            assert(with_lyrics(hv, (i + 1) as nat) == prev.push(i as int));
            assert(prev.push(i as int).drop_last() =~= prev);
            let p = prefix_le_exec(&order, keys[i], keys);
            proof {
                lemma_prefix_le(index_view(order@), keys@[i as int], keys@);
            }
            let ghost before = index_view(order@);
            order.insert(p, i);
            assert(index_view(order@) =~= before.insert(p as int, i as int));
        } else {
            assert(with_lyrics(hv, (i + 1) as nat) == with_lyrics(hv, i as nat));
        }
        i = i + 1;
    }
    let ghost ov = index_view(order@);
    let mut out: Vec<LrclibShown> = Vec::new();
    let mut j: usize = 0;
    while j < order.len()
        invariant
            j <= order.len(),
            hv == lyrics_views(hits@),
            ov == index_view(order@),
            forall|a: int| 0 <= a < order.len() ==> order@[a] < hits.len(),
            out@.map_values(|s: LrclibShown| shown_view(s)) == shown_results(ov.take(j as int), hv),
        decreases order.len() - j,
    {
        let idx = order[j];
        let shown = shown_of(idx, &hits[idx]);
        assert(ov.take(j + 1).drop_last() =~= ov.take(j as int));
        assert(ov.take(j + 1).last() == idx as int);
        let ghost before = out@.map_values(|s: LrclibShown| shown_view(s));
        if let Some(s) = shown {
            out.push(s);
            assert(out@.map_values(|s: LrclibShown| shown_view(s)) =~= before.push(shown_view(s)));
        }
        j = j + 1;
    }
    assert(ov.take(order.len() as int) =~= ov);
    out
}

// ─── Applying synced LRCLIB lyrics in bulk ───────────────────────────

/// An answer to "Apply this LRC?".
#[derive(PartialEq, Eq, Structural, Clone, Copy, Debug)]
pub enum Confirmation {
    Yes,
    No,
    Always,
    Quit,
}

/// The answer a line typed at the prompt gives (`None` for the end of
/// input): `y`/`yes`, `n`/`no`/nothing, `a`/`always`, `q`/`quit` in any
/// ASCII case around blanks; `None` when the line is none of them and the
/// question is asked again.
pub open spec fn confirmation_spec(line: Option<Seq<char>>) -> Option<Confirmation> {
    match line {
        None => Some(Confirmation::Quit),
        Some(l) => {
            let w = lower_seq(trim(l));
            if w == seq!['y'] || w == seq!['y', 'e', 's'] {
                Some(Confirmation::Yes)
            } else if w == seq!['n'] || w == seq!['n', 'o'] || w.len() == 0 {
                Some(Confirmation::No)
            } else if w == seq!['a'] || w == seq!['a', 'l', 'w', 'a', 'y', 's'] {
                Some(Confirmation::Always)
            } else if w == seq!['q'] || w == seq!['q', 'u', 'i', 't'] {
                Some(Confirmation::Quit)
            } else {
                None
            }
        },
    }
}

pub fn parse_confirmation(line: Option<&str>) -> (r: Option<Confirmation>)
    ensures
        r == confirmation_spec(
            match line {
                Some(l) => Some(l@),
                None => None,
            },
        ),
{
    let l = match line {
        None => return Some(Confirmation::Quit),
        Some(l) => l,
    };
    let w = lower_chars(&trim_chars(&chars_of(l)));
    proof {
        reveal_strlit("y");
        reveal_strlit("yes");
        reveal_strlit("n");
        reveal_strlit("no");
        reveal_strlit("a");
        reveal_strlit("always");
        reveal_strlit("q");
        reveal_strlit("quit");
        assert("y"@ =~= seq!['y']);
        assert("yes"@ =~= seq!['y', 'e', 's']);
        assert("n"@ =~= seq!['n']);
        assert("no"@ =~= seq!['n', 'o']);
        assert("a"@ =~= seq!['a']);
        assert("always"@ =~= seq!['a', 'l', 'w', 'a', 'y', 's']);
        assert("q"@ =~= seq!['q']);
        assert("quit"@ =~= seq!['q', 'u', 'i', 't']);
    }
    if chars_eq(&w, &chars_of("y")) || chars_eq(&w, &chars_of("yes")) {
        Some(Confirmation::Yes)
    } else if chars_eq(&w, &chars_of("n")) || chars_eq(&w, &chars_of("no")) || w.len() == 0 {
        Some(Confirmation::No)
    } else if chars_eq(&w, &chars_of("a")) || chars_eq(&w, &chars_of("always")) {
        Some(Confirmation::Always)
    } else if chars_eq(&w, &chars_of("q")) || chars_eq(&w, &chars_of("quit")) {
        Some(Confirmation::Quit)
    } else {
        None
    }
}

/// What to do with the offered lyrics of one song.
#[derive(PartialEq, Eq, Structural, Clone, Copy, Debug)]
pub enum ApplyStep {
    /// Leave the song as it is and go on.
    Skip,
    /// Stop the run.
    Stop,
    /// Apply the lyrics.
    Apply,
}

/// The step for a song and whether later songs are applied without asking:
/// `always` set earlier applies without asking; `Always` applies and sets
/// it; `Yes` applies; `No` skips; `Quit` stops.
pub fn after_confirmation(always: bool, answer: Confirmation) -> (r: (ApplyStep, bool))
    ensures
        always ==> r == (ApplyStep::Apply, true),
        !always ==> r == match answer {
            Confirmation::Yes => (ApplyStep::Apply, false),
            Confirmation::No => (ApplyStep::Skip, false),
            Confirmation::Always => (ApplyStep::Apply, true),
            Confirmation::Quit => (ApplyStep::Stop, false),
        },
{
    if always {
        return (ApplyStep::Apply, true);
    }
    match answer {
        Confirmation::Yes => (ApplyStep::Apply, false),
        Confirmation::No => (ApplyStep::Skip, false),
        Confirmation::Always => (ApplyStep::Apply, true),
        Confirmation::Quit => (ApplyStep::Stop, false),
    }
}

/// What became of one inspected song.
#[derive(PartialEq, Eq, Structural, Clone, Copy, Debug)]
pub enum ApplyOutcome {
    /// LRCLIB had no synced lyrics for it.
    NoLrc,
    /// The user declined.
    Skipped,
    /// The run stopped at this song.
    Stopped,
    /// The synced lyrics were applied.
    Updated,
    /// Applying them failed.
    Failed,
}

/// Counts of a bulk run.
#[derive(PartialEq, Eq, Structural, Clone, Copy, Debug)]
pub struct ApplySummary {
    pub inspected: usize,
    pub updated: usize,
    pub skipped: usize,
    pub no_lrc: usize,
    pub failed: usize,
}

pub open spec fn count_apply(os: Seq<ApplyOutcome>, o: ApplyOutcome) -> nat
    decreases os.len(),
{
    if os.len() == 0 {
        0
    } else {
        count_apply(os.drop_last(), o) + if os.last() == o {
            1nat
        } else {
            0nat
        }
    }
}

proof fn lemma_count_apply_le(os: Seq<ApplyOutcome>, o: ApplyOutcome)
    ensures
        count_apply(os, o) <= os.len(),
    decreases os.len(),
{
    if os.len() > 0 {
        lemma_count_apply_le(os.drop_last(), o);
    }
}

/// The counts of a run from the outcomes of the songs it inspected.
pub fn apply_summary(outcomes: &Vec<ApplyOutcome>) -> (r: ApplySummary)
    ensures
        r.inspected == outcomes.len(),
        r.updated == count_apply(outcomes@, ApplyOutcome::Updated),
        r.skipped == count_apply(outcomes@, ApplyOutcome::Skipped),
        r.no_lrc == count_apply(outcomes@, ApplyOutcome::NoLrc),
        r.failed == count_apply(outcomes@, ApplyOutcome::Failed),
{
    let mut s = ApplySummary { inspected: 0, updated: 0, skipped: 0, no_lrc: 0, failed: 0 };
    let mut i: usize = 0;
    while i < outcomes.len()
        invariant
            i <= outcomes.len(),
            s.inspected == i,
            s.updated == count_apply(outcomes@.take(i as int), ApplyOutcome::Updated),
            s.skipped == count_apply(outcomes@.take(i as int), ApplyOutcome::Skipped),
            s.no_lrc == count_apply(outcomes@.take(i as int), ApplyOutcome::NoLrc),
            s.failed == count_apply(outcomes@.take(i as int), ApplyOutcome::Failed),
        decreases outcomes.len() - i,
    {
        assert(outcomes@.take(i + 1).drop_last() =~= outcomes@.take(i as int));
        proof {
            lemma_count_apply_le(outcomes@.take(i as int), ApplyOutcome::Updated);
            lemma_count_apply_le(outcomes@.take(i as int), ApplyOutcome::Skipped);
            lemma_count_apply_le(outcomes@.take(i as int), ApplyOutcome::NoLrc);
            lemma_count_apply_le(outcomes@.take(i as int), ApplyOutcome::Failed);
        }
        s.inspected = s.inspected + 1;
        match outcomes[i] {
            ApplyOutcome::NoLrc => {
                s.no_lrc = s.no_lrc + 1;
            },
            ApplyOutcome::Skipped => {
                s.skipped = s.skipped + 1;
            },
            ApplyOutcome::Stopped => {},
            ApplyOutcome::Updated => {
                s.updated = s.updated + 1;
            },
            ApplyOutcome::Failed => {
                s.failed = s.failed + 1;
            },
        }
        i = i + 1;
    }
    assert(outcomes@.take(outcomes.len() as int) =~= outcomes@);
    s
}

} // verus!
