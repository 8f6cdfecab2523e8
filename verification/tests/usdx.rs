use app_core::usdx::{
    consume_int, consume_text_remainder, cp1252_to_char, decode_text, leading_int,
    looks_like_usdx, non_empty, parse_note, parse_tag, parse_usdx_str, sibling_name,
    synthesize_segments, usdx_song_fields, UsdxError,
};
use app_core::song::TranscriptSource;

const SONG: &str = "#TITLE:Hello\r\n#ARTIST: Someone \n#MP3:song.mp3\n#BPM:300,5\n#GAP:1000\n#LANGUAGE:English, German\n: 0 4 5 Hel\n: 4 4 7 lo\n- 10\n* 12 2 3  world\nE\n: 99 1 1 ignored\n";

#[test]
fn parses_header_and_notes() {
    let f = parse_usdx_str(SONG).expect("valid song");
    assert_eq!(f.title, "Hello");
    assert_eq!(f.artist, "Someone");
    assert_eq!(f.audio_filename, "song.mp3");
    assert_eq!(f.bpm_text, "300.5");
    assert_eq!(f.gap_text, Some("1000".to_string()));
    assert_eq!(f.language, Some("English".to_string()));
    assert_eq!(f.phrases.len(), 2);
    assert_eq!(f.phrases[0].len(), 2);
    assert_eq!(f.phrases[0][0].beat, 0);
    assert_eq!(f.phrases[0][0].length, 4);
    assert_eq!(f.phrases[0][0].pitch, 5);
    assert_eq!(f.phrases[0][0].text, "Hel");
    assert_eq!(f.phrases[1][0].beat, 12);
    assert_eq!(f.phrases[1][0].text, " world");
}

#[test]
fn audio_tag_wins_over_mp3() {
    let f = parse_usdx_str("#TITLE:t\n#ARTIST:a\n#AUDIO:a.ogg\n#MP3:b.mp3\n#BPM:100\n").unwrap();
    assert_eq!(f.audio_filename, "a.ogg");
    let g = parse_usdx_str("#TITLE:t\n#ARTIST:a\n#MP3:b.mp3\n#AUDIO:a.ogg\n#BPM:100\n").unwrap();
    assert_eq!(g.audio_filename, "a.ogg");
}

#[test]
fn relative_timing_adds_line_offsets() {
    let f = parse_usdx_str(
        "#TITLE:t\n#ARTIST:a\n#MP3:m\n#BPM:100\n#RELATIVE:YES\n: 1 2 0 a\n- 5 10\n: 1 2 0 b\n",
    )
    .unwrap();
    assert_eq!(f.phrases.len(), 2);
    assert_eq!(f.phrases[0][0].beat, 1);
    assert_eq!(f.phrases[1][0].beat, 6);
}

#[test]
fn missing_tags_are_errors() {
    assert!(matches!(parse_usdx_str("#ARTIST:a\n#MP3:m\n#BPM:1\n"), Err(UsdxError::MissingTitle)));
    assert!(matches!(parse_usdx_str("#TITLE:t\n#MP3:m\n#BPM:1\n"), Err(UsdxError::MissingArtist)));
    assert!(matches!(parse_usdx_str("#TITLE:t\n#ARTIST:a\n#BPM:1\n"), Err(UsdxError::MissingAudio)));
    assert!(matches!(parse_usdx_str("#TITLE:t\n#ARTIST:a\n#MP3:m\n"), Err(UsdxError::MissingBpm)));
    assert_eq!(UsdxError::MissingAudio.message(), "Missing #AUDIO/#MP3 tag");
    assert_eq!(UsdxError::MissingBpm.message(), "Missing or invalid #BPM tag");
    assert!(matches!(parse_usdx_str("#TITLE:\n#ARTIST:a\n#MP3:m\n#BPM:1\n"), Err(UsdxError::MissingTitle)));
}

#[test]
fn tags_and_numbers() {
    assert_eq!(parse_tag("#TITLE: My Song "), Some(("TITLE".to_string(), "My Song".to_string())));
    assert_eq!(parse_tag("TITLE:x"), None);
    assert_eq!(parse_tag("#TITLE"), None);
    assert_eq!(non_empty(String::new()), None);
    assert_eq!(non_empty("x".to_string()), Some("x".to_string()));
    assert_eq!(leading_int("  -12 rest"), Some(-12));
    assert_eq!(leading_int("x"), None);
    let mut s = String::from(" \t+7 tail");
    assert_eq!(consume_int(&mut s), Some(7));
    assert_eq!(s, " tail");
    assert_eq!(consume_text_remainder("\t word"), " word");
    assert_eq!(consume_text_remainder("word"), "word");
}

#[test]
fn notes_parse_and_clamp_length() {
    let n = parse_note(" 10 -3 2 la", 5, true).unwrap();
    assert_eq!(n.beat, 15);
    assert_eq!(n.length, 0);
    assert_eq!(n.pitch, 2);
    assert_eq!(n.text, "la");
    assert!(parse_note(" 10 3", 0, false).is_none());
}

#[test]
fn text_decoding() {
    assert_eq!(decode_text(&[0xEF, 0xBB, 0xBF, b'h', b'i']), "hi");
    assert_eq!(decode_text("héllo".as_bytes()), "héllo");
    assert_eq!(decode_text(&[b'c', 0xE9, 0x80]), "cé€");
    assert_eq!(cp1252_to_char(0x9F), '\u{0178}');
    assert_eq!(cp1252_to_char(0x41), 'A');
}

#[test]
fn sniffing_and_siblings() {
    assert!(looks_like_usdx(b"#title:x\n#mp3:y"));
    assert!(looks_like_usdx(b"#TITLE:x\n#AUDIO:y"));
    assert!(!looks_like_usdx(b"#TITLE:x only"));
    assert_eq!(sibling_name(Some("  v.mp4 ")), Some("v.mp4".to_string()));
    assert_eq!(sibling_name(Some("   ")), None);
    assert_eq!(sibling_name(None), None);
    let f = parse_usdx_str("#TITLE:t\n#ARTIST:a\n#MP3: m.mp3\n#VIDEO: v.mp4 \n#BPM:1\n").unwrap();
    let names = f.sibling_names();
    assert_eq!(names.audio, "m.mp3");
    assert_eq!(names.video, Some("v.mp4".to_string()));
    assert_eq!(names.vocals, None);
}

#[test]
fn segments_follow_phrases() {
    let f = parse_usdx_str(SONG).unwrap();
    let segs = synthesize_segments(&f);
    assert_eq!(segs.len(), 2);
    assert_eq!(segs[0].start_beat, 0);
    assert_eq!(segs[0].end_beat, 8);
    assert_eq!(segs[0].words.len(), 2);
    assert_eq!(segs[0].text, "Hello");
    assert_eq!(segs[1].text, "world");
    assert_eq!(segs[1].start_beat, 12);
    assert_eq!(segs[1].end_beat, 14);
}

#[test]
fn consume_int_consumes_blanks_even_when_it_fails() {
    let mut s = String::from("\t -42abc");
    assert_eq!(consume_int(&mut s), Some(-42));
    assert_eq!(s, "abc");
    let mut s2 = String::from(" -x");
    assert_eq!(consume_int(&mut s2), None);
    assert_eq!(s2, "-x");
    let mut s3 = String::from("99999999999999999999");
    assert_eq!(consume_int(&mut s3), None);
    assert_eq!(s3, "99999999999999999999");
    let mut s4 = String::from("  \t");
    assert_eq!(consume_int(&mut s4), None);
    assert_eq!(s4, "");
}

#[test]
fn usdx_songs_are_analyzed_from_their_notes() {
    let file = parse_usdx_str(SONG).unwrap();
    let fields = usdx_song_fields(&file);
    assert_eq!(fields.title, file.title);
    assert_eq!(fields.artist, file.artist);
    assert_eq!(fields.album, file.edition.clone().unwrap_or_else(|| "USDX".to_string()));
    assert!(fields.is_analyzed);
    assert_eq!(fields.transcript_source, TranscriptSource::Usdx);
    let mut other = parse_usdx_str(SONG).unwrap();
    other.edition = Some("SingStar".to_string());
    assert_eq!(usdx_song_fields(&other).album, "SingStar");
    other.edition = None;
    assert_eq!(usdx_song_fields(&other).album, "USDX");
}
