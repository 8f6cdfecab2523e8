use app_core::analyzer::{mark_unanalyzed, run_bulk_action, AnalysisFields, BulkAction, SongPlan};
use app_core::song::TranscriptSource;
use app_core::analyzer::{
    after_attempt, after_key_attempt, batch_result, classify_event, delete_cache, language_hint,
    realign, reanalyze_force_transcribe, reanalyze_full, reanalyze_transcript, refresh_metadata,
    refresh_metadata_all,
    resolve_target, status_from_row, status_row, AnalysisQueue, AnalyzerState, Attempt,
    Candidate, EnqueueTarget, EventAction, KeyPassStep, NextStep, QueuedStatus, ServerEvent,
    SongEffect, SongOutcome, SongResult, StoredRow, TargetSong,
};

fn s(x: &str) -> String {
    x.to_string()
}

fn cand(h: &str, usdx: bool) -> Candidate {
    Candidate { hash: s(h), is_usdx: usdx }
}

fn song(h: &str, found: bool, usdx: bool, lang: Option<&str>) -> TargetSong {
    TargetSong { hash: s(h), found, is_usdx: usdx, language: lang.map(s) }
}

#[test]
fn status_rows_round_trip() {
    for st in [QueuedStatus::Queued, QueuedStatus::Analyzing(42), QueuedStatus::Failed(s("boom"))] {
        let row = status_row(&st);
        let back = status_from_row(&row.state, row.percent, row.message.clone());
        match (&st, &back) {
            (QueuedStatus::Queued, QueuedStatus::Queued) => {}
            (QueuedStatus::Analyzing(a), QueuedStatus::Analyzing(b)) => assert_eq!(a, b),
            (QueuedStatus::Failed(a), QueuedStatus::Failed(b)) => assert_eq!(a, b),
            _ => panic!("status changed on the way through a row"),
        }
    }
    let row = status_row(&QueuedStatus::Analyzing(7));
    assert_eq!(row.state, "analyzing");
    assert_eq!(row.percent, Some(7));
    assert!(matches!(status_from_row("weird", None, None), QueuedStatus::Queued));
    assert!(matches!(status_from_row("analyzing", None, None), QueuedStatus::Analyzing(0)));
    match status_from_row("failed", None, None) {
        QueuedStatus::Failed(m) => assert_eq!(m, ""),
        _ => panic!("failed row"),
    }
}

#[test]
fn persisted_queue_keeps_one_status_per_song() {
    let mut q = AnalysisQueue::new();
    q.set(s("a"), QueuedStatus::Queued);
    q.set(s("b"), QueuedStatus::Failed(s("x")));
    q.set(s("a"), QueuedStatus::Analyzing(10));
    assert!(q.contains_key(&s("a")));
    assert!(!q.contains_key(&s("c")));
    assert!(matches!(q.get(&s("a")), Some(QueuedStatus::Analyzing(10))));
    assert!(q.has_analyzing());
    assert_eq!(q.busy_count(), 1);
    let rows = q.rows();
    assert_eq!(rows.len(), 2);
    let again = AnalysisQueue::from_rows(rows);
    assert!(matches!(again.get(&s("a")), Some(QueuedStatus::Analyzing(10))));
    assert!(matches!(again.get(&s("b")), Some(QueuedStatus::Failed(_))));
    let later = AnalysisQueue::from_rows(vec![
        StoredRow { hash: s("h"), state: s("queued"), percent: None, message: None },
        StoredRow { hash: s("h"), state: s("failed"), percent: None, message: Some(s("m")) },
    ]);
    assert!(matches!(later.get(&s("h")), Some(QueuedStatus::Failed(_))));
}

#[test]
fn enqueue_skips_usdx_and_duplicates_and_is_idempotent() {
    let mut st = AnalyzerState::new();
    let persisted = AnalysisQueue::new();
    let out = st.enqueue(
        EnqueueTarget::Hashes(vec![cand("a", false), cand("b", true), cand("a", false), cand("c", false)]),
        &persisted,
    );
    assert_eq!(out.newly_queued, vec![s("a"), s("c")]);
    assert!(out.start_worker);
    let again = st.enqueue(EnqueueTarget::Hashes(vec![cand("a", false), cand("c", false)]), &persisted);
    assert!(again.newly_queued.is_empty());
    assert!(!again.start_worker);
}

#[test]
fn filter_targets_skip_persisted_songs() {
    let mut st = AnalyzerState::new();
    let mut persisted = AnalysisQueue::new();
    persisted.set(s("a"), QueuedStatus::Failed(s("x")));
    let out = st.enqueue(EnqueueTarget::Filtered(vec![cand("a", false), cand("b", false)]), &persisted);
    assert_eq!(out.newly_queued, vec![s("b")]);
    let direct = st.enqueue(EnqueueTarget::Hashes(vec![cand("a", false)]), &persisted);
    assert_eq!(direct.newly_queued, vec![s("a")]);
}

#[test]
fn jobs_run_in_order_and_cancel_removes_them() {
    let mut st = AnalyzerState::new();
    let persisted = AnalysisQueue::new();
    st.enqueue(EnqueueTarget::Hashes(vec![cand("a", false), cand("b", false), cand("c", false)]), &persisted);
    assert_eq!(st.next_job(), Some(s("a")));
    let out = st.cancel(&vec![s("c"), s("zzz")], &persisted);
    assert_eq!(out.affected, vec![s("c")]);
    assert!(!out.interrupt);
    st.finish_job();
    assert_eq!(st.next_job(), Some(s("b")));
    st.finish_job();
    assert_eq!(st.next_job(), None);
}

#[test]
fn cancelling_the_running_job_marks_and_interrupts() {
    let mut st = AnalyzerState::new();
    let mut persisted = AnalysisQueue::new();
    st.enqueue(EnqueueTarget::Hashes(vec![cand("a", false)]), &persisted);
    assert_eq!(st.next_job(), Some(s("a")));
    persisted.set(s("a"), QueuedStatus::Analyzing(3));
    let out = st.cancel(&vec![s("a")], &persisted);
    assert_eq!(out.affected, vec![s("a")]);
    assert!(out.interrupt);
    assert!(st.is_cancelled(&s("a"), &s("a")));
    assert!(st.take_cancelled(&s("a"), &s("a")));
    assert!(!st.is_cancelled(&s("a"), &s("a")));
    assert!(!st.take_cancelled(&s("a"), &s("a")));
}

#[test]
fn targets_are_deduplicated() {
    assert_eq!(resolve_target(vec![s("b"), s("a"), s("b"), s("c"), s("a")]), vec![s("b"), s("a"), s("c")]);
}

#[test]
fn per_song_plans() {
    let usdx = song("u", true, true, None);
    assert!(!delete_cache(&usdx).affected);
    assert!(!reanalyze_full(&usdx).affected);
    let plain = song("p", true, false, Some("en"));
    let d = delete_cache(&plain);
    assert!(d.affected);
    assert!(matches!(d.effects[..], [SongEffect::DeleteSongCache, SongEffect::MarkUnanalyzed(None)]));
    let t = reanalyze_transcript(&plain, &Some(s("de")));
    assert!(matches!(t.effects[0], SongEffect::SetLanguageOverride(ref l) if l == "de"));
    assert_eq!(t.effects.len(), 6);
    let t2 = reanalyze_transcript(&plain, &Some(s("")));
    assert_eq!(t2.effects.len(), 5);
    let full = reanalyze_full(&plain);
    assert!(matches!(full.effects[..], [SongEffect::DeleteSongCache, SongEffect::MarkUnanalyzed(None), SongEffect::Enqueue]));
    let r = realign(&plain, &None);
    assert!(matches!(r.effects[3], SongEffect::MarkUnanalyzed(Some(ref l)) if l == "en"));
    let f = reanalyze_force_transcribe(&plain);
    assert!(f.affected);
    assert!(f.effects.iter().any(|e| matches!(e, SongEffect::ForceTranscribe)));
    assert!(!refresh_metadata(&song("m", false, false, None)).affected);
    assert!(refresh_metadata(&song("m", true, false, None)).affected);
}

#[test]
fn batch_results() {
    let ok = vec![
        SongOutcome { hash: s("a"), result: Ok(true) },
        SongOutcome { hash: s("b"), result: Ok(false) },
    ];
    assert_eq!(batch_result(&ok), Ok(1));
    let bad = vec![
        SongOutcome { hash: s("a"), result: Ok(true) },
        SongOutcome { hash: s("b"), result: Err(s("disk")) },
        SongOutcome { hash: s("c"), result: Err(s("gone")) },
    ];
    assert_eq!(batch_result(&bad), Err(s("Updated 1 song(s); 2 failed: b: disk; c: gone")));
}

#[test]
fn analyzer_events() {
    assert!(matches!(classify_event(ServerEvent::Progress { pct: 40, msg: s("x") }, true), EventAction::Progress(40)));
    assert!(matches!(classify_event(ServerEvent::Progress { pct: 40, msg: s("x") }, false), EventAction::Continue));
    assert!(matches!(classify_event(ServerEvent::Done, false), EventAction::Finish(SongResult::Done)));
    assert!(matches!(
        classify_event(ServerEvent::Error { kind: Some(s("oom")), msg: s("x") }, true),
        EventAction::Finish(SongResult::Oom)
    ));
    match classify_event(ServerEvent::Error { kind: None, msg: s("") }, true) {
        EventAction::Finish(SongResult::Error(m)) => assert_eq!(m, "Unknown error"),
        _ => panic!("error event"),
    }
    assert!(matches!(classify_event(ServerEvent::Unknown, true), EventAction::Continue));
}

#[test]
fn retries_happen_once() {
    let d = after_attempt(Attempt::Oom, false);
    assert!(matches!(d.next, NextStep::Retry));
    assert!(d.kill_server);
    match after_attempt(Attempt::Oom, true).next {
        NextStep::Fail(m) => assert_eq!(m, "CUDA out of memory"),
        _ => panic!("second out-of-memory fails"),
    }
    match after_attempt(Attempt::Crashed { cancelled: false, message: s("eof") }, true).next {
        NextStep::Fail(m) => assert_eq!(m, "Server crashed: eof"),
        _ => panic!("second crash fails"),
    }
    assert!(matches!(after_attempt(Attempt::Done { cancelled: true }, false).next, NextStep::Discard));
    assert!(matches!(after_attempt(Attempt::Done { cancelled: false }, false).next, NextStep::Finalize));
    let e = after_attempt(Attempt::Error(s("bad")), false);
    assert!(!e.kill_server);
    assert!(matches!(after_key_attempt(None, false), KeyPassStep::Retry));
    match after_key_attempt(None, true) {
        KeyPassStep::Fail(m) => assert_eq!(m, "key detection failed"),
        _ => panic!("key pass fails after a retry"),
    }
    assert!(matches!(after_key_attempt(Some(SongResult::Done), true), KeyPassStep::Done));
}

#[test]
fn language_hints() {
    assert_eq!(language_hint(Some("de"), false, &None), Some(s("de")));
    assert_eq!(language_hint(None, true, &Some(s("fr"))), Some(s("fr")));
    assert_eq!(language_hint(None, false, &Some(s("fr"))), None);
    assert_eq!(language_hint(Some(" Unknown "), true, &Some(s("fr"))), None);
    assert_eq!(language_hint(None, true, &Some(s("und"))), None);
}

#[test]
fn status_copies_keep_their_payload() {
    assert!(matches!(QueuedStatus::Queued.clone_status(), QueuedStatus::Queued));
    assert!(matches!(QueuedStatus::Analyzing(42).clone_status(), QueuedStatus::Analyzing(42)));
    assert!(matches!(QueuedStatus::Failed(s("boom")).clone_status(), QueuedStatus::Failed(ref m) if m == "boom"));
}

fn song_row(hash: &str) -> Result<TargetSong, String> {
    match hash {
        "gone" => Ok(TargetSong { hash: s(hash), found: false, is_usdx: false, language: None }),
        "usdx" => Ok(TargetSong { hash: s(hash), found: true, is_usdx: true, language: None }),
        "broken" => Err(s("db locked")),
        _ => Ok(TargetSong { hash: s(hash), found: true, is_usdx: false, language: None }),
    }
}

#[test]
fn refresh_is_refused_without_a_source() {
    let touched = std::cell::Cell::new(0usize);
    let r = refresh_metadata_all(Ok(false), vec![s("a")], |h: &str| {
        touched.set(touched.get() + 1);
        song_row(h)
    }, |_: &TargetSong| Ok(()));
    assert_eq!(r, Err(s("no active library source")));
    let r = refresh_metadata_all(Err(s("bad config")), vec![s("a")], |h: &str| {
        touched.set(touched.get() + 1);
        song_row(h)
    }, |_: &TargetSong| Ok(()));
    assert_eq!(r, Err(s("bad config")));
    assert_eq!(touched.get(), 0);
}

#[test]
fn refresh_counts_songs_and_lists_failures() {
    let refreshed = std::cell::RefCell::new(Vec::new());
    let r = refresh_metadata_all(
        Ok(true),
        vec![s("a"), s("gone"), s("a"), s("usdx"), s("b")],
        song_row,
        |song: &TargetSong| {
            refreshed.borrow_mut().push(song.hash.clone());
            Ok(())
        },
    );
    assert_eq!(r, Ok(2));
    assert_eq!(*refreshed.borrow(), vec![s("a"), s("b")]);
    let r = refresh_metadata_all(Ok(true), vec![s("a"), s("broken"), s("c")], song_row, |song: &TargetSong| {
        if song.hash == "c" { Err(s("no cover")) } else { Ok(()) }
    });
    assert_eq!(r, Err(s("Updated 1 song(s); 2 failed: broken: db locked; c: no cover")));
}

#[test]
fn bulk_actions_count_the_songs_they_touch() {
    let applied = std::cell::RefCell::new(Vec::new());
    let lookup = |h: &str| TargetSong {
        hash: s(h),
        found: h != "gone",
        is_usdx: h == "usdx",
        language: Some(s("en")),
    };
    let r = run_bulk_action(
        BulkAction::DeleteCache,
        vec![s("a"), s("usdx"), s("a"), s("gone"), s("b")],
        lookup,
        |p: &SongPlan| applied.borrow_mut().push((p.hash.clone(), p.effects.len())),
    );
    assert_eq!(r, Ok(3));
    assert_eq!(*applied.borrow(), vec![(s("a"), 2), (s("gone"), 2), (s("b"), 2)]);
    let realigned = std::cell::RefCell::new(Vec::new());
    let r = run_bulk_action(BulkAction::Realign(None), vec![s("a")], lookup, |p: &SongPlan| {
        for e in &p.effects {
            if let SongEffect::MarkUnanalyzed(l) = e {
                realigned.borrow_mut().push(l.clone());
            }
        }
    });
    assert_eq!(r, Ok(1));
    assert_eq!(*realigned.borrow(), vec![Some(s("en"))]);
}

#[test]
fn marking_unanalyzed_resets_the_analysis_fields() {
    let mut row = AnalysisFields {
        is_analyzed: true,
        language: Some(s("en")),
        transcript_source: Some(TranscriptSource::Lrc),
        key: Some(s("C")),
        override_key: Some(s("D")),
        base_tempo: false,
        key_offset: 3,
        no_stems: true,
    };
    mark_unanalyzed(&mut row, Some(s("fr")));
    assert!(!row.is_analyzed);
    assert_eq!(row.language.as_deref(), Some("fr"));
    assert_eq!(row.transcript_source, None);
    assert_eq!((row.key, row.override_key), (None, None));
    assert!(row.base_tempo);
    assert_eq!(row.key_offset, 0);
    assert!(!row.no_stems);
}
