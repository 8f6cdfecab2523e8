use app_core::scanner::is_song_hash;
use app_core::song::{
    content_hash, media_names, parse_video_probe, transcript_source_from_name, SongOrigin,
    TranscriptSource,
};

fn s(x: &str) -> String {
    x.to_string()
}

#[test]
fn transcript_sources_by_name() {
    assert_eq!(transcript_source_from_name(Some("lyrics")), TranscriptSource::Lyrics);
    assert_eq!(transcript_source_from_name(Some("usdx")), TranscriptSource::Usdx);
    assert_eq!(transcript_source_from_name(Some("lrc")), TranscriptSource::Lrc);
    assert_eq!(transcript_source_from_name(Some("whisper")), TranscriptSource::Generated);
    assert_eq!(transcript_source_from_name(None), TranscriptSource::Generated);
}

#[test]
fn cover_tag_slot_of_remote_origins() {
    let mut local = SongOrigin::LocalFile;
    assert!(local.cover_tag_mut().is_none());
    let mut jf = SongOrigin::Jellyfin { item_id: s("i"), container: None, cover_tag: Some(s("t1")) };
    if let Some(tag) = jf.cover_tag_mut() {
        assert_eq!(tag.as_deref(), Some("t1"));
        *tag = None;
    } else {
        panic!("remote origins have a cover tag");
    }
    match jf {
        SongOrigin::Jellyfin { item_id, cover_tag, .. } => {
            assert_eq!(item_id, "i");
            assert_eq!(cover_tag, None);
        }
        _ => panic!("origin kind changed"),
    }
    let mut plex = SongOrigin::Plex { item_id: s("p"), part_key: s("/k"), container: None, cover_tag: None };
    *plex.cover_tag_mut().unwrap() = Some(s("/thumb"));
    assert!(matches!(plex, SongOrigin::Plex { cover_tag: Some(ref t), .. } if t == "/thumb"));
}

#[test]
fn content_hash_is_blake3_prefix() {
    let h = content_hash(b"abc");
    assert_eq!(h, blake3::hash(b"abc").to_hex()[..32].to_string());
    assert_eq!(h, "6437b3ac38465133ffb63b75273a8db5");
    assert!(is_song_hash(&h));
    assert_ne!(content_hash(b"abd"), h);
}

#[test]
fn names_fall_back_to_defaults() {
    let n = media_names(String::new(), String::new(), String::new(), Some("track01"));
    assert_eq!(n.title, "track01");
    assert_eq!(n.artist, "Unknown Artist");
    assert_eq!(n.album, "Unknown Album");
    let m = media_names(String::new(), s("A"), s("B"), None);
    assert_eq!(m.title, "Unknown");
    assert_eq!(m.artist, "A");
    assert_eq!(m.album, "B");
}

#[test]
fn video_probe_output() {
    let out = "Input #0, matroska,webm, from 'v.mkv':\n  Metadata:\n    title           : Container Title\n    ARTIST          : Band\n  Duration: 00:03:25.50, start: 0.000000, bitrate: 1000 kb/s\n  Stream #0:0: Video: h264\n    Metadata:\n      title           : Video Title\n  Stream #0:1(eng): Audio: aac\n    Metadata:\n      title           : Song Title\n      album           : Record\r\n  Stream #0:2: Audio: aac\n    Metadata:\n      title           : Later\n";
    let p = parse_video_probe(out).unwrap();
    assert_eq!(p.title, "Song Title");
    assert_eq!(p.artist, "Band");
    assert_eq!(p.album, "Record");
    assert_eq!(p.duration_text, "00:03:25.50");
    assert!(parse_video_probe("no such file").is_none());
}
