//! Songs: where a song's bytes live, where its transcript came from, its
//! content hash, and the names read from its media file (tags, or an
//! ffmpeg probe for videos) with their defaults.

use vstd::prelude::*;

use crate::scanner::is_song_hash_spec;

use crate::text::{
    all_hex, chars_eq, chars_of, contains_chars, contains_seq, eq_ignore_ascii_case, eq_ignore_case, find_char, has_prefix, index_of, is_hex, split_lines, split_lines_chars, starts_with, string_of, subvec, trim, trim_chars, trim_start, trim_start_chars,
};

verus! {

// ─── Transcript source ───────────────────────────────────────────────

/// Where a song's timed lyrics came from.
#[derive(PartialEq, Eq, Structural, Clone, Copy, Debug)]
pub enum TranscriptSource {
    Lyrics,
    Generated,
    Usdx,
    /// Timing taken from a provided LRC / Enhanced LRC file.
    Lrc,
}

pub open spec fn source_from_name_spec(name: Option<Seq<char>>) -> TranscriptSource {
    match name {
        Some(n) => if n == "lyrics"@ {
            TranscriptSource::Lyrics
        } else if n == "usdx"@ {
            TranscriptSource::Usdx
        } else if n == "lrc"@ {
            TranscriptSource::Lrc
        } else {
            TranscriptSource::Generated
        },
        None => TranscriptSource::Generated,
    }
}

/// The source named by a transcript's `source` field; anything else, or no
/// field, means a generated transcript.
pub fn transcript_source_from_name(name: Option<&str>) -> (r: TranscriptSource)
    ensures
        r == source_from_name_spec(
            match name {
                Some(n) => Some(n@),
                None => None,
            },
        ),
{
    match name {
        Some(n) => {
            let c = chars_of(n);
            if chars_eq(&c, &chars_of("lyrics")) {
                TranscriptSource::Lyrics
            } else if chars_eq(&c, &chars_of("usdx")) {
                TranscriptSource::Usdx
            } else if chars_eq(&c, &chars_of("lrc")) {
                TranscriptSource::Lrc
            } else {
                TranscriptSource::Generated
            }
        },
        None => TranscriptSource::Generated,
    }
}

// ─── Origin ──────────────────────────────────────────────────────────

/// Where the bytes of a song live. For a local file the song's path is the
/// file itself; for the remote sources it is a placeholder in the cache
/// that the source fills on demand.
pub enum SongOrigin {
    LocalFile,
    Jellyfin { item_id: String, container: Option<String>, cover_tag: Option<String> },
    Navidrome { item_id: String, container: Option<String>, cover_tag: Option<String> },
    Plex {
        item_id: String,
        part_key: String,
        container: Option<String>,
        cover_tag: Option<String>,
    },
}

/// The cover tag of a remote origin; `None` for a local file.
pub open spec fn origin_cover_tag(o: SongOrigin) -> Option<Option<String>> {
    match o {
        SongOrigin::LocalFile => None,
        SongOrigin::Jellyfin { cover_tag, .. } => Some(cover_tag),
        SongOrigin::Navidrome { cover_tag, .. } => Some(cover_tag),
        SongOrigin::Plex { cover_tag, .. } => Some(cover_tag),
    }
}

/// The origin with its cover tag replaced (a local file has none).
pub open spec fn with_cover_tag(o: SongOrigin, t: Option<String>) -> SongOrigin {
    match o {
        SongOrigin::LocalFile => SongOrigin::LocalFile,
        SongOrigin::Jellyfin { item_id, container, .. } => SongOrigin::Jellyfin {
            item_id,
            container,
            cover_tag: t,
        },
        SongOrigin::Navidrome { item_id, container, .. } => SongOrigin::Navidrome {
            item_id,
            container,
            cover_tag: t,
        },
        SongOrigin::Plex { item_id, part_key, container, .. } => SongOrigin::Plex {
            item_id,
            part_key,
            container,
            cover_tag: t,
        },
    }
}

impl SongOrigin {
    /// The cover-tag slot of a remote origin, to clear or replace it without
    /// knowing which source the song comes from; `None` for a local file.
    pub fn cover_tag_mut(&mut self) -> (r: Option<&mut Option<String>>)
        ensures
            match r {
                Some(t) => origin_cover_tag(*old(self)) == Some(*t) && *final(self)
                    == with_cover_tag(*old(self), *final(t)),
                None => *old(self) is LocalFile && *final(self) is LocalFile,
            },
    {
        match self {
            SongOrigin::LocalFile => None,
            SongOrigin::Jellyfin { cover_tag, .. } => Some(cover_tag),
            SongOrigin::Navidrome { cover_tag, .. } => Some(cover_tag),
            SongOrigin::Plex { cover_tag, .. } => Some(cover_tag),
        }
    }
}

// ─── Content hash ────────────────────────────────────────────────────

/// The BLAKE3 digest (32 bytes) of `input`.
pub uninterp spec fn blake3_digest(input: Seq<u8>) -> Seq<u8>;

/// `blake3::hash`: the 32-byte BLAKE3 digest of the bytes, named by
/// `blake3_digest`.
#[verifier::external_body]
fn blake3_hash(bytes: &[u8]) -> (r: [u8; 32])
    ensures
        r@ == blake3_digest(bytes@),
{
    *blake3::hash(bytes).as_bytes()
}

/// Lower-case hexadecimal digit of `d < 16`.
pub open spec fn hex_digit_lower(d: u8) -> char {
    if d < 10 {
        (d + 48) as char
    } else {
        (d + 87) as char
    }
}

/// Lower-case hexadecimal text of bytes, two digits per byte, high nibble
/// first (`blake3::Hash::to_hex`).
pub open spec fn hex_lower(bytes: Seq<u8>) -> Seq<char>
    decreases bytes.len(),
{
    if bytes.len() == 0 {
        seq![]
    } else {
        hex_lower(bytes.drop_last()) + seq![
            hex_digit_lower(bytes.last() / 16),
            hex_digit_lower(bytes.last() % 16),
        ]
    }
}

fn hex_digit(d: u8) -> (c: char)
    requires
        d < 16,
    ensures
        c == hex_digit_lower(d),
        is_hex(c),
{
    if d < 10 {
        (d + 48) as char
    } else {
        (d + 87) as char
    }
}

/// A song's content hash: the first 32 hex digits of the BLAKE3 digest of
/// its bytes.
pub open spec fn content_hash_spec(bytes: Seq<u8>) -> Seq<char> {
    hex_lower(blake3_digest(bytes).take(16))
}

pub fn content_hash(bytes: &[u8]) -> (r: String)
    ensures
        r@ == content_hash_spec(bytes@),
        r@.len() == 32,
        all_hex(r@),
        is_song_hash_spec(r@),
{
    let digest = blake3_hash(bytes);
    let mut out: Vec<char> = Vec::new();
    let mut i: usize = 0;
    while i < 16
        invariant
            i <= 16,
            digest@ == blake3_digest(bytes@),
            digest@.len() == 32,
            out@ == hex_lower(digest@.take(i as int)),
            out@.len() == 2 * i,
            all_hex(out@),
        decreases 16 - i,
    {
        let b = digest[i];
        let hi = hex_digit(b / 16);
        let lo = hex_digit(b % 16);
        assert(digest@.take(i + 1).drop_last() =~= digest@.take(i as int));
        out.push(hi);
        out.push(lo);
        i = i + 1;
    }
    string_of(&out)
}

// ─── Names from the media file ───────────────────────────────────────

/// Title, artist and album of a song.
pub struct MediaNames {
    pub title: String,
    pub artist: String,
    pub album: String,
}

/// A name read from the file, or its default when empty.
pub open spec fn or_else(value: Seq<char>, default: Seq<char>) -> Seq<char> {
    if value.len() == 0 {
        default
    } else {
        value
    }
}

pub open spec fn stem_or_unknown(file_stem: Option<Seq<char>>) -> Seq<char> {
    match file_stem {
        Some(s) => s,
        None => "Unknown"@,
    }
}

/// The names of a song from what its file says: an empty title becomes the
/// file's stem (`Unknown` when it has none), an empty artist `Unknown
/// Artist`, an empty album `Unknown Album`.
pub fn media_names(title: String, artist: String, album: String, file_stem: Option<&str>) -> (r:
    MediaNames)
    ensures
        r.title@ == or_else(
            title@,
            stem_or_unknown(
                match file_stem {
                    Some(s) => Some(s@),
                    None => None,
                },
            ),
        ),
        r.artist@ == or_else(artist@, "Unknown Artist"@),
        r.album@ == or_else(album@, "Unknown Album"@),
{
    let title = if chars_of(title.as_str()).len() == 0 {
        match file_stem {
            Some(s) => String::from_str(s),
            None => String::from_str("Unknown"),
        }
    } else {
        title
    };
    let artist = if chars_of(artist.as_str()).len() == 0 {
        String::from_str("Unknown Artist")
    } else {
        artist
    };
    let album = if chars_of(album.as_str()).len() == 0 {
        String::from_str("Unknown Album")
    } else {
        album
    };
    MediaNames { title, artist, album }
}

// ─── Video probe ─────────────────────────────────────────────────────

/// The value of a `tag: value` metadata line of an ffmpeg probe: the line
/// starts with the tag (any case), then optional whitespace, `:`, and a
/// value that is not blank.
pub open spec fn meta_tag_value(line: Seq<char>, tag: Seq<char>) -> Option<Seq<char>> {
    if line.len() >= tag.len() && eq_ignore_case(line.take(tag.len() as int), tag) {
        let after = trim_start(line.skip(tag.len() as int));
        if after.len() > 0 && after[0] == ':' && trim(after.skip(1)).len() > 0 {
            Some(trim(after.skip(1)))
        } else {
            None
        }
    } else {
        None
    }
}

/// The value of a `tag: value` line. For the tags read here (`title`,
/// `artist`, `album`), a line whose lower-cased text starts with the tag is
/// exactly one whose first characters are the tag in any ASCII case.
fn strip_meta_tag(line: &Vec<char>, tag: &str) -> (r: Option<String>)
    requires
        tag@ == "title"@ || tag@ == "artist"@ || tag@ == "album"@,
    ensures
        match r {
            Some(v) => meta_tag_value(line@, tag@) == Some(v@),
            None => meta_tag_value(line@, tag@) is None,
        },
{
    let t = chars_of(tag);
    if line.len() < t.len() {
        return None;
    }
    let head = subvec(line, 0, t.len());
    if !eq_ignore_ascii_case(&head, &t) {
        return None;
    }
    let after = trim_start_chars(&subvec(line, t.len(), line.len()));
    assert(line@.skip(t@.len() as int) =~= line@.subrange(t@.len() as int, line@.len() as int));
    if after.len() > 0 && after[0] == ':' {
        let v = trim_chars(&subvec(&after, 1, after.len()));
        assert(after@.skip(1) =~= after@.subrange(1, after@.len() as int));
        if v.len() > 0 {
            return Some(string_of(&v));
        }
    }
    None
}

/// What an ffmpeg probe tells of a video: title (from its audio stream's
/// metadata), artist, album, and the text of its duration.
pub struct VideoProbe {
    pub title: String,
    pub artist: String,
    pub album: String,
    pub duration_text: String,
}

/// The state of a probe read: names so far, the last duration text, and
/// whether the current stream is an audio stream.
pub struct ProbeView {
    pub title: Seq<char>,
    pub artist: Seq<char>,
    pub album: Seq<char>,
    pub duration: Option<Seq<char>>,
    pub audio: bool,
}

pub open spec fn probe_start() -> ProbeView {
    ProbeView { title: seq![], artist: seq![], album: seq![], duration: None, audio: false }
}

/// One line of the probe, trimmed: a `Stream #` line says whether an audio
/// stream starts; a `Duration:` line gives the duration (its text up to the
/// first `,`); the first `title` inside an audio stream is the title; the
/// last `artist` and `album` lines win.
pub open spec fn probe_step(st: ProbeView, line: Seq<char>) -> ProbeView {
    let t = trim(line);
    let audio = if has_prefix(t, "Stream #"@) {
        contains_seq(t, " Audio:"@)
    } else {
        st.audio
    };
    let duration = if has_prefix(t, "Duration:"@) {
        let rest = t.skip(9);
        Some(trim(rest.take(index_of(rest, ',') as int)))
    } else {
        st.duration
    };
    let title = if audio && st.title.len() == 0 && meta_tag_value(t, "title"@) is Some {
        meta_tag_value(t, "title"@)->0
    } else {
        st.title
    };
    let artist = match meta_tag_value(t, "artist"@) {
        Some(v) => v,
        None => st.artist,
    };
    let album = match meta_tag_value(t, "album"@) {
        Some(v) => v,
        None => st.album,
    };
    ProbeView { title, artist, album, duration, audio }
}

pub open spec fn probe_lines(lines: Seq<Seq<char>>) -> ProbeView
    decreases lines.len(),
{
    if lines.len() == 0 {
        probe_start()
    } else {
        probe_step(probe_lines(lines.drop_last()), lines.last())
    }
}

/// What the ffmpeg probe output says of a video; `None` when it gives no
/// duration (the file could not be read).
pub open spec fn video_probe_spec(stderr: Seq<char>) -> Option<(Seq<char>, Seq<char>, Seq<char>, Seq<char>)> {
    let st = probe_lines(split_lines(stderr));
    match st.duration {
        Some(d) => Some((st.title, st.artist, st.album, d)),
        None => None,
    }
}

pub fn parse_video_probe(stderr: &str) -> (r: Option<VideoProbe>)
    ensures
        match r {
            Some(p) => video_probe_spec(stderr@) == Some(
                (p.title@, p.artist@, p.album@, p.duration_text@),
            ),
            None => video_probe_spec(stderr@) is None,
        },
{
    let lines = split_lines_chars(&chars_of(stderr));
    let ghost all = lines@.map_values(|p: Vec<char>| p@);
    let stream = chars_of("Stream #");
    let audio_mark = chars_of(" Audio:");
    let duration_mark = chars_of("Duration:");
    proof {
        reveal_strlit("Duration:");
    }
    let mut title: Vec<char> = Vec::new();
    let mut artist: Vec<char> = Vec::new();
    let mut album: Vec<char> = Vec::new();
    let mut duration: Option<Vec<char>> = None;
    let mut audio = false;
    let mut i: usize = 0;
    while i < lines.len()
        invariant
            i <= lines.len(),
            all == lines@.map_values(|p: Vec<char>| p@),
            stream@ == "Stream #"@,
            audio_mark@ == " Audio:"@,
            duration_mark@ == "Duration:"@,
            duration_mark@.len() == 9,
            ({
                let st = probe_lines(all.take(i as int));
                &&& st.title == title@
                &&& st.artist == artist@
                &&& st.album == album@
                &&& st.audio == audio
                &&& st.duration == match duration {
                    Some(d) => Some(d@),
                    None => None::<Seq<char>>,
                }
            }),
        decreases lines.len() - i,
    {
        let t = trim_chars(&lines[i]);
        assert(all.take(i + 1).drop_last() =~= all.take(i as int));
        assert(all.take(i + 1).last() == lines@[i as int]@);
        if starts_with(&t, &stream) {
            audio = contains_chars(&t, &audio_mark);
        }
        if starts_with(&t, &duration_mark) {
            let rest = subvec(&t, 9, t.len());
            assert(rest@ =~= t@.skip(9));
            let cut = match find_char(&rest, ',') {
                Some(k) => k,
                None => rest.len(),
            };
            proof {
                crate::text::lemma_index_of(rest@, ',');
            }
            let piece = subvec(&rest, 0, cut);
            assert(piece@ =~= rest@.take(index_of(rest@, ',') as int));
            duration = Some(trim_chars(&piece));
        }
        if audio && title.len() == 0 {
            if let Some(v) = strip_meta_tag(&t, "title") {
                title = chars_of(v.as_str());
            }
        }
        if let Some(v) = strip_meta_tag(&t, "artist") {
            artist = chars_of(v.as_str());
        }
        if let Some(v) = strip_meta_tag(&t, "album") {
            album = chars_of(v.as_str());
        }
        i = i + 1;
    }
    assert(all.take(lines.len() as int) =~= all);
    match duration {
        Some(d) => Some(
            VideoProbe {
                title: string_of(&title),
                artist: string_of(&artist),
                album: string_of(&album),
                duration_text: string_of(&d),
            },
        ),
        None => None,
    }
}

} // verus!
