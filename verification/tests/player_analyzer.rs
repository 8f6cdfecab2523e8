use app_core::player_analyzer::{
    after_player_attempt, finished_status, job_end, lyrics_searched, parse_progress_line,
    player_command, searching_progress, AnalysisQueue, JobEnd, PlayerOutcome, SongStatus,
    TranscriptRead,
};
use app_core::song::TranscriptSource;

#[test]
fn queue_by_index() {
    let mut q = AnalysisQueue::new();
    q.enqueue(3);
    q.enqueue(5);
    q.enqueue(3);
    assert_eq!(q.queue, vec![3, 5]);
    assert_eq!(q.start_next(), Some(3));
    assert_eq!(q.start_next(), None);
    q.enqueue(3);
    assert_eq!(q.queue, vec![5]);
    let p = q.active_progress(3).expect("running job");
    assert_eq!(p.percent, 0);
    assert_eq!(p.finished, None);
    assert!(q.active_progress(5).is_none());
}

#[test]
fn progress_lines() {
    assert_eq!(
        parse_progress_line("log [nightingale:PROGRESS:42] Separating stems "),
        Some((42, "Separating stems".to_string()))
    );
    assert_eq!(parse_progress_line("[nightingale:PROGRESS:x] nope"), None);
    assert_eq!(parse_progress_line("[nightingale:PROGRESS:42 no bracket"), None);
    assert_eq!(parse_progress_line("plain output"), None);
}

#[test]
fn job_end_markers() {
    assert!(matches!(job_end("[nightingale:DONE]"), Some(JobEnd::Done)));
    assert!(matches!(job_end("x [nightingale:OOM] y"), Some(JobEnd::Oom)));
    match job_end("[nightingale:ERROR]  model missing ") {
        Some(JobEnd::Error(m)) => assert_eq!(m, "model missing"),
        _ => panic!("error marker"),
    }
    match job_end("[nightingale:ERROR] a [nightingale:ERROR] b") {
        Some(JobEnd::Error(m)) => assert_eq!(m, "a"),
        _ => panic!("error marker"),
    }
    assert!(matches!(job_end("[nightingale:DONE] [nightingale:ERROR] x"), Some(JobEnd::Done)));
    assert!(job_end("progress").is_none());
}

#[test]
fn finished_jobs() {
    let ready = finished_status(
        true,
        TranscriptRead::Loaded { source: "lyrics".to_string(), language: "en".to_string() },
        "ok".to_string(),
        None,
    );
    assert!(matches!(
        ready,
        SongStatus::Ready { source: TranscriptSource::Lyrics, language: Some(ref l) } if l == "en"
    ));
    let generated = finished_status(
        true,
        TranscriptRead::Loaded { source: "whisper".to_string(), language: String::new() },
        "ok".to_string(),
        Some("de".to_string()),
    );
    assert!(matches!(generated, SongStatus::Ready { source: TranscriptSource::Generated, language: None }));
    let unreadable = finished_status(true, TranscriptRead::Unreadable, "ok".to_string(), Some("de".to_string()));
    assert!(matches!(unreadable, SongStatus::Ready { source: TranscriptSource::Generated, language: Some(ref l) } if l == "de"));
    let failed = finished_status(true, TranscriptRead::Missing, "boom".to_string(), None);
    assert!(matches!(failed, SongStatus::Failed(ref m) if m == "boom"));
    let failed2 = finished_status(
        false,
        TranscriptRead::Loaded { source: "lyrics".to_string(), language: "en".to_string() },
        "crash".to_string(),
        None,
    );
    assert!(matches!(failed2, SongStatus::Failed(ref m) if m == "crash"));
}

#[test]
fn a_player_job_reports_its_progress_and_retries_once() {
    let mut p = searching_progress();
    assert_eq!((p.percent, p.message.as_str(), p.finished), (0, "Searching for lyrics...", None));
    lyrics_searched(&mut p);
    assert_eq!(p.message, "Starting analyzer...");
    p.percent = 40;
    let d = after_player_attempt(&mut p, PlayerOutcome::Crashed("eof".to_string()), false);
    assert!(d.retry && d.kill_server);
    assert_eq!((p.percent, p.message.as_str(), p.finished), (0, "Server crashed — retrying...", None));
    let d = after_player_attempt(&mut p, PlayerOutcome::Crashed("eof".to_string()), true);
    assert!(!d.retry && d.kill_server);
    assert_eq!((p.message.as_str(), p.finished), ("Server crashed: eof", Some(false)));

    let mut q = searching_progress();
    let d = after_player_attempt(&mut q, PlayerOutcome::Ended(JobEnd::Oom), false);
    assert!(d.retry);
    assert_eq!(q.message, "CUDA OOM — retrying with fresh GPU...");
    let d = after_player_attempt(&mut q, PlayerOutcome::Ended(JobEnd::Oom), true);
    assert!(!d.retry);
    assert_eq!((q.message.as_str(), q.finished), ("CUDA out of memory", Some(false)));
    let d = after_player_attempt(&mut q, PlayerOutcome::Ended(JobEnd::Done), false);
    assert!(!d.retry && !d.kill_server);
    assert_eq!(q.finished, Some(true));
    let d = after_player_attempt(&mut q, PlayerOutcome::ServerFailed("no python".to_string()), false);
    assert!(!d.retry && !d.kill_server);
    assert_eq!((q.message.as_str(), q.finished), ("no python", Some(false)));
    let d = after_player_attempt(&mut q, PlayerOutcome::Ended(JobEnd::Error("bad audio".to_string())), false);
    assert!(!d.retry && !d.kill_server);
    assert_eq!(q.message, "bad audio");
}

#[test]
fn the_player_command_carries_lyrics_and_override() {
    let c = player_command(
        "/a.mp3".to_string(), "/cache".to_string(), "h".to_string(), "large-v3".to_string(), 8, 16,
        "karaoke".to_string(), Some("/cache/h_lyrics.json".to_string()), None,
    );
    assert_eq!(c.lyrics.as_deref(), Some("/cache/h_lyrics.json"));
    assert_eq!(c.language, None);
    assert_eq!(c.batch_size, 16);
}
