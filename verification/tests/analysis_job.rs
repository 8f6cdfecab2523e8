use app_core::analysis_job::{
    analysis_step, analyze_command, analyzer_config, AnalyzerConfig, JobAction, JobEffect,
    JobEvent, JobState, Phase, Prep, Request,
};
use app_core::analyzer::{Attempt, QueuedStatus};
use app_core::config::AppConfig;

fn s(x: &str) -> String {
    x.to_string()
}

fn cfg() -> AnalyzerConfig {
    AnalyzerConfig {
        model: s("large-v3"),
        beam_size: 8,
        batch_size: 8,
        separator: s("karaoke"),
        engine: s("whisper"),
        align_backend: s("whisperx"),
    }
}

fn ready(file: &str, stems_only: bool, lang: Option<&str>, over: Option<&str>) -> Prep {
    Prep::Ready {
        file_hash: s(file),
        audio_path: s("/audio/song.mp3"),
        cache_path: s("/cache"),
        stems_only,
        song_language: lang.map(s),
        config: cfg(),
        language_override: over.map(s),
    }
}

fn step(job: JobState, e: JobEvent) -> (JobState, JobAction) {
    analysis_step(job, e)
}

#[test]
fn command_fields_follow_the_song() {
    let c = analyze_command(false, false, Some(s("/l.json")), None, Some(s("de")), s("/a"), s("/c"), s("h"), &cfg());
    assert_eq!(c.lyrics.as_deref(), Some("/l.json"));
    assert_eq!(c.language.as_deref(), Some("de"));
    assert!(!c.skip_transcription);
    let forced = analyze_command(false, true, Some(s("/l.json")), None, Some(s("de")), s("/a"), s("/c"), s("h"), &cfg());
    assert_eq!(forced.lyrics, None);
    assert_eq!(forced.language, None);
    let stems = analyze_command(true, false, Some(s("/l.json")), Some(s("fr")), None, s("/a"), s("/c"), s("h"), &cfg());
    assert!(stems.skip_transcription);
    assert_eq!(stems.lyrics, None);
    assert_eq!(stems.language.as_deref(), Some("fr"));
    let unknown = analyze_command(false, false, None, Some(s(" Unknown ")), None, s("/a"), s("/c"), s("h"), &cfg());
    assert_eq!(unknown.language, None);
}

#[test]
fn settings_have_their_defaults() {
    let config = AppConfig {
        data_path: None,
        last_folder: None,
        library_source: None,
        recordings_path: None,
        whisper_model: None,
        beam_size: Some(4),
        batch_size: None,
        separator: None,
        asr_engine: Some(s("parakeet")),
        align_backend: None,
        auto_analyze: None,
        language_overrides: None,
    };
    let c = analyzer_config(&config);
    assert_eq!(c.model, "large-v3");
    assert_eq!(c.beam_size, 4);
    assert_eq!(c.batch_size, 8);
    assert_eq!(c.separator, "karaoke");
    assert_eq!(c.engine, "parakeet");
    assert_eq!(c.align_backend, "whisperx");
}

#[test]
fn lrclib_is_asked_first_and_the_song_finalized() {
    let (job, act) = step(JobState::new(s("h")), JobEvent::Prepared { prep: ready("h", false, Some("en"), None), cancelled: false });
    assert!(matches!(&act.effects[..], [JobEffect::SetStatus(h, QueuedStatus::Analyzing(0))] if h == "h"));
    assert!(matches!(act.request, Request::TakeForceMark));
    let (job, act) = step(job, JobEvent::ForceMark(false));
    assert!(matches!(act.request, Request::FetchLyrics));
    let (job, act) = step(job, JobEvent::LyricsFetched(Some(s("/cache/h_lyrics.json"))));
    match &act.request {
        Request::Run(c) => {
            assert_eq!(c.lyrics.as_deref(), Some("/cache/h_lyrics.json"));
            assert_eq!(c.language.as_deref(), Some("en"));
            assert_eq!(c.hash, "h");
        }
        _ => panic!("the command runs"),
    }
    let (job, act) = step(job, JobEvent::Attempted(Attempt::Done { cancelled: false }));
    assert!(matches!(&act.effects[..], [JobEffect::Finalize(h)] if h == "h"));
    assert!(matches!(act.request, Request::Stop));
    assert_eq!(job.phase, Phase::Finished);
}

#[test]
fn stems_only_and_forced_runs_skip_lrclib() {
    let (_, act) = step(JobState::new(s("old")), JobEvent::Prepared { prep: ready("new", true, Some("en"), None), cancelled: false });
    assert_eq!(act.effects.len(), 2);
    assert!(matches!(&act.effects[1], JobEffect::MoveTranscript { from, to } if from == "old" && to == "new"));
    assert!(matches!(&act.request, Request::Run(c) if c.skip_transcription && c.lyrics.is_none() && c.hash == "new"));
    let (job, _) = step(JobState::new(s("h")), JobEvent::Prepared { prep: ready("h", false, Some("en"), None), cancelled: false });
    let (_, act) = step(job, JobEvent::ForceMark(true));
    assert!(matches!(&act.request, Request::Run(c) if c.lyrics.is_none() && c.language.is_none()));
}

#[test]
fn crashes_are_retried_once() {
    let (job, _) = step(JobState::new(s("h")), JobEvent::Prepared { prep: ready("h", true, None, None), cancelled: false });
    let (job, act) = step(job, JobEvent::Attempted(Attempt::Crashed { cancelled: false, message: s("eof") }));
    assert!(matches!(&act.effects[..], [JobEffect::KillServer, JobEffect::SetStatus(_, QueuedStatus::Analyzing(0))]));
    assert!(matches!(act.request, Request::Run(_)));
    let (job, act) = step(job, JobEvent::Attempted(Attempt::Crashed { cancelled: false, message: s("eof") }));
    assert!(matches!(&act.effects[..], [JobEffect::KillServer, JobEffect::SetStatus(h, QueuedStatus::Failed(m))] if h == "h" && m == "Server crashed: eof"));
    assert!(matches!(act.request, Request::Stop));
    assert_eq!(job.phase, Phase::Finished);
}

#[test]
fn missing_failed_and_cancelled_songs_stop() {
    let (_, act) = step(JobState::new(s("h")), JobEvent::Prepared { prep: Prep::Missing, cancelled: false });
    assert!(act.effects.is_empty());
    let (_, act) = step(JobState::new(s("h")), JobEvent::Prepared { prep: Prep::Failed(s("no network")), cancelled: false });
    assert!(matches!(&act.effects[..], [JobEffect::SetStatus(h, QueuedStatus::Failed(m))] if h == "h" && m == "audio prep failed: no network"));
    let (_, act) = step(JobState::new(s("h")), JobEvent::Prepared { prep: ready("h2", false, None, None), cancelled: true });
    assert!(matches!(&act.effects[..], [JobEffect::Discard { initial_hash, file_hash }] if initial_hash == "h" && file_hash == "h2"));
    let (job, _) = step(JobState::new(s("h")), JobEvent::Prepared { prep: ready("h", true, None, None), cancelled: false });
    let (_, act) = step(job, JobEvent::ServerFailed { error: s("no python"), cancelled: false });
    assert!(matches!(&act.effects[..], [JobEffect::SetStatus(_, QueuedStatus::Failed(m))] if m == "no python"));
    let (_, act) = step(JobState::new(s("h")), JobEvent::ForceMark(true));
    assert!(act.effects.is_empty() && matches!(act.request, Request::Stop));
}
