use app_core::song::SongOrigin;
use app_core::lyrics::{
    after_confirmation, apply_summary, apply_timed_lyrics_plan, choose_lrclib_lyrics,
    sidecar_applies, sidecar_readable, LrclibShown, LyricsChoice, lrclib_search_url,
    lyrics_from_segments, provide_lrc_plan, save_lyrics_plan, LrcSong, LyricsEffect, match_sidecar_name, normalize_lyric_lines,
    normalize_newlines, parse_confirmation, pick_sidecar, prepare_lyrics_edit, rank_lrclib_results,
    sidecar_lrc, ApplyOutcome, ApplyStep, Confirmation, DirEntry, LrclibLyrics, SidecarLrcKind,
    SIDECAR_LRC_MAX_BYTES,
};

fn s(x: &str) -> String {
    x.to_string()
}

fn entry(name: &str, is_file: bool) -> DirEntry {
    DirEntry { name: s(name), is_file }
}

#[test]
fn newlines_become_lf() {
    assert_eq!(normalize_newlines("a\r\nb\rc\n\r\r\n"), "a\nb\nc\n\n\n");
    assert_eq!(normalize_newlines("plain"), "plain");
}

#[test]
fn sidecar_kinds() {
    assert_eq!(SidecarLrcKind::Lrc.rank(), 0);
    assert_eq!(SidecarLrcKind::Elrc.rank(), 1);
    assert_eq!(SidecarLrcKind::Elrc.extension(), "elrc");
    assert_eq!(SIDECAR_LRC_MAX_BYTES, 1024 * 1024);
}

#[test]
fn sidecar_names_match_ignoring_case() {
    assert_eq!(match_sidecar_name("Song.lrc", "Song"), Some((SidecarLrcKind::Lrc, true)));
    assert_eq!(match_sidecar_name("song.LRC", "Song"), Some((SidecarLrcKind::Lrc, false)));
    assert_eq!(match_sidecar_name("Song.elrc", "Song"), Some((SidecarLrcKind::Elrc, true)));
    assert_eq!(match_sidecar_name("Song.txt", "Song"), None);
    assert_eq!(match_sidecar_name("Other.lrc", "Song"), None);
    assert_eq!(match_sidecar_name("my.song.lrc", "my.song"), Some((SidecarLrcKind::Lrc, true)));
    assert_eq!(match_sidecar_name(".lrc", ""), None);
    assert_eq!(match_sidecar_name("..", "."), None);
}

#[test]
fn best_sidecar_is_exact_then_lrc_then_name() {
    let entries = vec![
        entry("song.ELRC", true),
        entry("SONG.lrc", true),
        entry("Song.elrc", true),
        entry("Song.lrc", false),
        entry("cover.jpg", true),
    ];
    assert_eq!(pick_sidecar(&entries, "Song"), Some((2, SidecarLrcKind::Elrc)));
    let inexact = vec![entry("song.ELRC", true), entry("song.LRC", true), entry("SONG.lrc", true)];
    assert_eq!(pick_sidecar(&inexact, "Song"), Some((2, SidecarLrcKind::Lrc)));
    assert_eq!(pick_sidecar(&vec![entry("x.mp3", true)], "Song"), None);
    assert_eq!(pick_sidecar(&vec![], "Song"), None);
}

#[test]
fn sidecar_text_is_decoded_and_normalized() {
    let sc = sidecar_lrc(b"[00:01.00]Hi\r\n", s("Song.lrc"), SidecarLrcKind::Lrc).unwrap();
    assert_eq!(sc.text, "[00:01.00]Hi\n");
    assert_eq!(sc.file_name, "Song.lrc");
    assert!(sidecar_lrc(b" \r\n\t", s("Song.lrc"), SidecarLrcKind::Lrc).is_none());
    let latin = sidecar_lrc(&[b'c', 0xE9], s("a.lrc"), SidecarLrcKind::Lrc).unwrap();
    assert_eq!(latin.text, "cé");
}

#[test]
fn lyric_edits() {
    assert_eq!(
        normalize_lyric_lines(&vec![s("  one "), s(""), s("\t"), s("two")]),
        vec![s("one"), s("two")]
    );
    assert_eq!(
        prepare_lyrics_edit(true, &vec![s("a")]),
        Err(s("Cannot edit lyrics for USDX songs"))
    );
    assert_eq!(prepare_lyrics_edit(false, &vec![s("  ")]), Err(s("Lyrics cannot be empty")));
    assert_eq!(prepare_lyrics_edit(false, &vec![s(" a ")]), Ok(vec![s("a")]));
}

#[test]
fn lrclib_search_urls() {
    assert_eq!(
        lrclib_search_url("Hello World!", "AC/DC"),
        Some(s("https://lrclib.net/api/search?track_name=Hello%20World%21&artist_name=AC%2FDC"))
    );
    assert_eq!(
        lrclib_search_url("Café", "a-b_c.d~e"),
        Some(s("https://lrclib.net/api/search?track_name=Caf%C3%A9&artist_name=a-b_c.d~e"))
    );
    assert_eq!(lrclib_search_url("", "Someone"), None);
    assert_eq!(lrclib_search_url("Song", "Unknown Artist"), None);
}

#[test]
fn lrclib_results_are_filtered_and_stably_sorted() {
    let hits = vec![
        LrclibLyrics { plain_lyrics: s("a1\n\n  a2  \r\n"), synced_lyrics: None },
        LrclibLyrics { plain_lyrics: s(""), synced_lyrics: Some(s("  ")) },
        LrclibLyrics { plain_lyrics: s("c"), synced_lyrics: Some(s("[00:01]c")) },
        LrclibLyrics { plain_lyrics: s("   "), synced_lyrics: None },
        LrclibLyrics { plain_lyrics: s("e"), synced_lyrics: Some(s(" ")) },
    ];
    let keys = vec![5000, 0, 12, 1, 12];
    let shown = rank_lrclib_results(&hits, &keys);
    let order: Vec<usize> = shown.iter().map(|r| r.index).collect();
    assert_eq!(order, vec![2, 4, 0]);
    assert_eq!(shown[0].lines, vec![s("c")]);
    assert_eq!(shown[0].synced_lyrics, Some(s("[00:01]c")));
    assert_eq!(shown[1].synced_lyrics, None);
    assert_eq!(shown[2].lines, vec![s("a1"), s("a2")]);
}

#[test]
fn confirmations() {
    assert_eq!(parse_confirmation(Some(" YES\n")), Some(Confirmation::Yes));
    assert_eq!(parse_confirmation(Some("\n")), Some(Confirmation::No));
    assert_eq!(parse_confirmation(Some("a")), Some(Confirmation::Always));
    assert_eq!(parse_confirmation(Some("Quit")), Some(Confirmation::Quit));
    assert_eq!(parse_confirmation(Some("maybe")), None);
    assert_eq!(parse_confirmation(None), Some(Confirmation::Quit));
    assert_eq!(after_confirmation(false, Confirmation::No), (ApplyStep::Skip, false));
    assert_eq!(after_confirmation(false, Confirmation::Always), (ApplyStep::Apply, true));
    assert_eq!(after_confirmation(true, Confirmation::Quit), (ApplyStep::Apply, true));
    assert_eq!(after_confirmation(false, Confirmation::Quit), (ApplyStep::Stop, false));
}

#[test]
fn bulk_apply_summary() {
    let s = apply_summary(&vec![
        ApplyOutcome::NoLrc,
        ApplyOutcome::Updated,
        ApplyOutcome::Skipped,
        ApplyOutcome::Failed,
        ApplyOutcome::Updated,
        ApplyOutcome::Stopped,
    ]);
    assert_eq!(s.inspected, 6);
    assert_eq!(s.updated, 2);
    assert_eq!(s.skipped, 1);
    assert_eq!(s.no_lrc, 1);
    assert_eq!(s.failed, 1);
}

#[test]
fn transcript_segments_become_lyrics() {
    let texts = vec![s("  Hello world "), s(""), s("   "), s("\tSecond line")];
    assert_eq!(lyrics_from_segments(&texts), Some(vec![s("Hello world"), s("Second line")]));
    assert_eq!(lyrics_from_segments(&vec![s(" "), s("")]), None);
    assert_eq!(lyrics_from_segments(&vec![]), None);
}

fn lrc_song(language: Option<&str>, key: Option<&str>, no_stems: bool) -> Option<LrcSong> {
    Some(LrcSong { language: language.map(s), key: key.map(s), no_stems })
}

#[test]
fn saving_plain_lyrics_requeues_the_song() {
    assert!(matches!(save_lyrics_plan(true, &vec![s("a")], None), Err(ref e) if e == "Cannot edit lyrics for USDX songs"));
    assert!(matches!(save_lyrics_plan(false, &vec![s("  ")], None), Err(ref e) if e == "Lyrics cannot be empty"));
    let plan = save_lyrics_plan(false, &vec![s(" one "), s(""), s("two")], Some(s("de"))).unwrap();
    assert_eq!(plan.len(), 5);
    assert!(matches!(&plan[0], LyricsEffect::WriteLyricsFile(l) if *l == vec![s("one"), s("two")]));
    assert!(matches!(plan[1], LyricsEffect::RemoveTranscript));
    assert!(matches!(plan[2], LyricsEffect::DeleteTranscriptVariants));
    assert!(matches!(&plan[3], LyricsEffect::MarkUnanalyzed(Some(l)) if l == "de"));
    assert!(matches!(plan[4], LyricsEffect::Enqueue));
}

#[test]
fn providing_lrc_with_and_without_stems() {
    assert!(matches!(provide_lrc_plan(true, Ok(()), &lrc_song(None, None, false), true), Err(ref e) if e == "Cannot provide lyrics for USDX songs"));
    assert!(matches!(provide_lrc_plan(false, Err(s("no timestamps")), &None, true), Err(ref e) if e == "no timestamps"));
    assert!(matches!(provide_lrc_plan(false, Ok(()), &None, true), Err(ref e) if e == "Song not found"));
    let stems = provide_lrc_plan(false, Ok(()), &lrc_song(Some("en"), Some("C"), false), true).unwrap();
    assert_eq!(stems.len(), 6);
    assert!(matches!(&stems[2], LyricsEffect::WriteLrcTranscript { language: Some(l), key: None, no_stems: false } if l == "en"));
    assert!(matches!(stems[4], LyricsEffect::MarkStemsOnly));
    assert!(matches!(stems[5], LyricsEffect::Enqueue));
    let mix = provide_lrc_plan(false, Ok(()), &lrc_song(None, None, false), false).unwrap();
    assert_eq!(mix.len(), 4);
    assert!(matches!(mix[2], LyricsEffect::WriteLrcTranscript { language: None, key: None, no_stems: true }));
    assert!(matches!(mix[3], LyricsEffect::PrepareWithoutStems));
}

#[test]
fn timed_lyrics_keep_the_song_key() {
    assert!(matches!(apply_timed_lyrics_plan(true, Ok(()), &None, None), Err(ref e) if e == "Cannot edit lyrics for USDX songs"));
    let own = apply_timed_lyrics_plan(false, Ok(()), &lrc_song(Some("fr"), Some("Am"), true), Some(s("G"))).unwrap();
    assert!(matches!(&own[2], LyricsEffect::WriteLrcTranscript { key: Some(k), no_stems: true, .. } if k == "Am"));
    assert!(matches!(&own[3], LyricsEffect::MarkLrcReady { key: Some(k), no_stems: true } if k == "Am"));
    let meta = apply_timed_lyrics_plan(false, Ok(()), &lrc_song(None, None, false), Some(s("G"))).unwrap();
    assert!(matches!(&meta[3], LyricsEffect::MarkLrcReady { key: Some(k), no_stems: false } if k == "G"));
}

#[test]
fn sidecars_are_read_only_for_local_files_in_their_folder() {
    assert!(sidecar_applies(&SongOrigin::LocalFile, false));
    assert!(!sidecar_applies(&SongOrigin::LocalFile, true));
    let remote = SongOrigin::Jellyfin { item_id: s("1"), container: None, cover_tag: None };
    assert!(!sidecar_applies(&remote, false));
    assert!(sidecar_readable(true, true, SIDECAR_LRC_MAX_BYTES));
    assert!(!sidecar_readable(true, true, SIDECAR_LRC_MAX_BYTES + 1));
    assert!(!sidecar_readable(false, true, 10));
    assert!(!sidecar_readable(true, false, 10));
}

#[test]
fn stored_lyrics_win_over_lrclib_and_the_best_result_is_taken() {
    let shown = |i: usize, l: &str| LrclibShown { index: i, lines: vec![s(l)], synced_lyrics: None };
    assert!(matches!(choose_lrclib_lyrics(true, vec![shown(0, "a")]), LyricsChoice::Existing));
    assert!(matches!(choose_lrclib_lyrics(false, vec![]), LyricsChoice::NotFound));
    assert!(matches!(choose_lrclib_lyrics(false, vec![shown(2, "best"), shown(0, "next")]), LyricsChoice::Write(ref l) if *l == vec![s("best")]));
}
