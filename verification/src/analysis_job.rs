//! One song's analysis, step by step: which command the analyzer gets, and
//! what follows each thing that happens while the song is prepared, its
//! lyrics are looked up and the analyzer runs.

use vstd::prelude::*;

use crate::analyzer::{
    language_hint, language_hint_spec, opt_chars, Attempt, QueuedStatus, StatusView,
};
use crate::config::{text_or, AppConfig};
use crate::text::{chars_of, concat, string_of};

verus! {

// ─── The analyze command ─────────────────────────────────────────────

/// The analysis settings the command carries (the vocal threshold, a
/// floating-point setting, is added by the caller).
pub struct AnalyzerConfig {
    pub model: String,
    pub beam_size: u32,
    pub batch_size: u32,
    pub separator: String,
    pub engine: String,
    pub align_backend: String,
}

pub struct ConfigView {
    pub model: Seq<char>,
    pub beam_size: u32,
    pub batch_size: u32,
    pub separator: Seq<char>,
    pub engine: Seq<char>,
    pub align_backend: Seq<char>,
}

impl View for AnalyzerConfig {
    type V = ConfigView;

    open spec fn view(&self) -> ConfigView {
        ConfigView {
            model: self.model@,
            beam_size: self.beam_size,
            batch_size: self.batch_size,
            separator: self.separator@,
            engine: self.engine@,
            align_backend: self.align_backend@,
        }
    }
}

/// The analysis settings of a config, each with its default.
pub fn analyzer_config(cfg: &AppConfig) -> (r: AnalyzerConfig)
    ensures
        r@ == (ConfigView {
            model: text_or(cfg.whisper_model, "large-v3"@),
            beam_size: match cfg.beam_size {
                Some(v) => v,
                None => 8,
            },
            batch_size: match cfg.batch_size {
                Some(v) => v,
                None => 8,
            },
            separator: text_or(cfg.separator, "karaoke"@),
            engine: text_or(cfg.asr_engine, "whisper"@),
            align_backend: text_or(cfg.align_backend, "whisperx"@),
        }),
{
    AnalyzerConfig {
        model: String::from_str(cfg.whisper_model()),
        beam_size: cfg.beam_size(),
        batch_size: cfg.batch_size(),
        separator: String::from_str(cfg.separator()),
        engine: String::from_str(cfg.asr_engine()),
        align_backend: String::from_str(cfg.align_backend()),
    }
}

fn clone_config(c: &AnalyzerConfig) -> (r: AnalyzerConfig)
    ensures
        r@ == c@,
{
    AnalyzerConfig {
        model: c.model.clone(),
        beam_size: c.beam_size,
        batch_size: c.batch_size,
        separator: c.separator.clone(),
        engine: c.engine.clone(),
        align_backend: c.align_backend.clone(),
    }
}

/// The `analyze` command sent to the analyzer for one song.
pub struct AnalyzeCommand {
    pub audio_path: String,
    pub cache_path: String,
    pub hash: String,
    pub config: AnalyzerConfig,
    /// Keep the transcript already written and only separate stems.
    pub skip_transcription: bool,
    /// A lyrics file to align instead of transcribing.
    pub lyrics: Option<String>,
    /// The language to align or transcribe in.
    pub language: Option<String>,
}

pub struct CommandView {
    pub audio_path: Seq<char>,
    pub cache_path: Seq<char>,
    pub hash: Seq<char>,
    pub config: ConfigView,
    pub skip_transcription: bool,
    pub lyrics: Option<Seq<char>>,
    pub language: Option<Seq<char>>,
}

impl View for AnalyzeCommand {
    type V = CommandView;

    open spec fn view(&self) -> CommandView {
        CommandView {
            audio_path: self.audio_path@,
            cache_path: self.cache_path@,
            hash: self.hash@,
            config: self.config@,
            skip_transcription: self.skip_transcription,
            lyrics: opt_chars(self.lyrics),
            language: opt_chars(self.language),
        }
    }
}

/// The command: stems-only passes keep the written transcript; stems-only
/// and forced transcriptions take no lyrics; the language is the song's
/// override, or — when lyrics were found — the song's own language, and
/// only a real language.
pub open spec fn command_spec(
    stems_only: bool,
    force_transcribe: bool,
    lyrics_path: Option<Seq<char>>,
    language_override: Option<Seq<char>>,
    song_language: Option<Seq<char>>,
    audio_path: Seq<char>,
    cache_path: Seq<char>,
    hash: Seq<char>,
    cfg: ConfigView,
) -> CommandView {
    let lyrics = if stems_only || force_transcribe {
        None
    } else {
        lyrics_path
    };
    CommandView {
        audio_path,
        cache_path,
        hash,
        config: cfg,
        skip_transcription: stems_only,
        lyrics,
        language: language_hint_spec(language_override, lyrics is Some, song_language),
    }
}

fn clone_opt(o: &Option<String>) -> (r: Option<String>)
    ensures
        opt_chars(r) == opt_chars(*o),
{
    match o {
        Some(s) => Some(s.clone()),
        None => None,
    }
}

pub fn analyze_command(
    stems_only: bool,
    force_transcribe: bool,
    lyrics_path: Option<String>,
    language_override: Option<String>,
    song_language: Option<String>,
    audio_path: String,
    cache_path: String,
    hash: String,
    cfg: &AnalyzerConfig,
) -> (r: AnalyzeCommand)
    ensures
        r@ == command_spec(
            stems_only,
            force_transcribe,
            opt_chars(lyrics_path),
            opt_chars(language_override),
            opt_chars(song_language),
            audio_path@,
            cache_path@,
            hash@,
            cfg@,
        ),
{
    let lyrics = if stems_only || force_transcribe {
        None
    } else {
        lyrics_path
    };
    let found = lyrics.is_some();
    let language = match &language_override {
        Some(l) => language_hint(Some(l.as_str()), found, &song_language),
        None => language_hint(None, found, &song_language),
    };
    AnalyzeCommand {
        audio_path,
        cache_path,
        hash,
        config: clone_config(cfg),
        skip_transcription: stems_only,
        lyrics,
        language,
    }
}

fn clone_command(c: &AnalyzeCommand) -> (r: AnalyzeCommand)
    ensures
        r@ == c@,
{
    AnalyzeCommand {
        audio_path: c.audio_path.clone(),
        cache_path: c.cache_path.clone(),
        hash: c.hash.clone(),
        config: clone_config(&c.config),
        skip_transcription: c.skip_transcription,
        lyrics: clone_opt(&c.lyrics),
        language: clone_opt(&c.language),
    }
}


// ─── The job, step by step ───────────────────────────────────────────

/// Where one song's analysis stands.
#[derive(PartialEq, Eq, Structural, Clone, Copy, Debug)]
pub enum Phase {
    /// Waiting for the song's row and its audio on disk.
    Preparing,
    /// Waiting to learn whether a transcription was forced.
    CheckingForce,
    /// Waiting for the LRCLIB lookup.
    FetchingLyrics,
    /// The command is out; waiting for how the attempt ended.
    Running,
    /// Nothing more to do.
    Finished,
}

/// One song's analysis: the hash it was queued under and the hash of its
/// audio, what preparing it gave, whether it was already retried, and the
/// command once built.
pub struct JobState {
    pub phase: Phase,
    pub initial_hash: String,
    pub file_hash: String,
    pub audio_path: String,
    pub cache_path: String,
    pub stems_only: bool,
    pub song_language: Option<String>,
    pub config: AnalyzerConfig,
    pub language_override: Option<String>,
    pub retried: bool,
    pub command: Option<AnalyzeCommand>,
}

pub struct JobView {
    pub phase: Phase,
    pub initial_hash: Seq<char>,
    pub file_hash: Seq<char>,
    pub audio_path: Seq<char>,
    pub cache_path: Seq<char>,
    pub stems_only: bool,
    pub song_language: Option<Seq<char>>,
    pub config: ConfigView,
    pub language_override: Option<Seq<char>>,
    pub retried: bool,
    pub command: Option<CommandView>,
}

pub open spec fn opt_command(c: Option<AnalyzeCommand>) -> Option<CommandView> {
    match c {
        Some(c) => Some(c@),
        None => None,
    }
}

impl View for JobState {
    type V = JobView;

    open spec fn view(&self) -> JobView {
        JobView {
            phase: self.phase,
            initial_hash: self.initial_hash@,
            file_hash: self.file_hash@,
            audio_path: self.audio_path@,
            cache_path: self.cache_path@,
            stems_only: self.stems_only,
            song_language: opt_chars(self.song_language),
            config: self.config@,
            language_override: opt_chars(self.language_override),
            retried: self.retried,
            command: opt_command(self.command),
        }
    }
}

/// What preparing the song gave.
pub enum Prep {
    /// The library has no such song.
    Missing,
    /// Its audio could not be made ready.
    Failed(String),
    /// Ready: the hash of its audio (which may differ from the queued one
    /// for remote songs), where the audio and the cache are, whether a
    /// stems-only pass was asked for, the song's language, the analysis
    /// settings and the song's language override.
    Ready {
        file_hash: String,
        audio_path: String,
        cache_path: String,
        stems_only: bool,
        song_language: Option<String>,
        config: AnalyzerConfig,
        language_override: Option<String>,
    },
}

/// What happened. `cancelled` is whether the song's cancellation mark was
/// there, and taken, at that point.
pub enum JobEvent {
    Prepared { prep: Prep, cancelled: bool },
    /// Whether a transcription was forced (its mark taken).
    ForceMark(bool),
    /// The lyrics file LRCLIB gave, if any.
    LyricsFetched(Option<String>),
    /// The analyzer server could not be started.
    ServerFailed { error: String, cancelled: bool },
    /// The song was cancelled before the command went out; whether the
    /// server had been started by then.
    CancelledBeforeRun { server_started: bool },
    /// How the exchange with the server ended.
    Attempted(Attempt),
}

/// Something to do.
pub enum JobEffect {
    /// Drop the queue rows of both hashes and their force / stems-only marks.
    Discard { initial_hash: String, file_hash: String },
    /// Set a song's queue status.
    SetStatus(String, QueuedStatus),
    /// Move the written transcript to the audio's hash.
    MoveTranscript { from: String, to: String },
    /// Kill the analyzer server.
    KillServer,
    /// Record the finished analysis of the song.
    Finalize(String),
}

/// What to find out next.
pub enum Request {
    TakeForceMark,
    FetchLyrics,
    /// Send this command to the (started) server and report how it ended.
    Run(AnalyzeCommand),
    Stop,
}

pub struct JobAction {
    pub effects: Vec<JobEffect>,
    pub request: Request,
}

pub enum PrepView {
    Missing,
    Failed(Seq<char>),
    Ready {
        file_hash: Seq<char>,
        audio_path: Seq<char>,
        cache_path: Seq<char>,
        stems_only: bool,
        song_language: Option<Seq<char>>,
        config: ConfigView,
        language_override: Option<Seq<char>>,
    },
}

pub enum AttemptView {
    Done { cancelled: bool },
    Cancelled,
    Oom,
    Error(Seq<char>),
    Crashed { cancelled: bool, message: Seq<char> },
}

pub enum EventView {
    Prepared { prep: PrepView, cancelled: bool },
    ForceMark(bool),
    LyricsFetched(Option<Seq<char>>),
    ServerFailed { error: Seq<char>, cancelled: bool },
    CancelledBeforeRun { server_started: bool },
    Attempted(AttemptView),
}

pub enum JobEffectView {
    Discard { initial_hash: Seq<char>, file_hash: Seq<char> },
    SetStatus(Seq<char>, StatusView),
    MoveTranscript { from: Seq<char>, to: Seq<char> },
    KillServer,
    Finalize(Seq<char>),
}

pub enum RequestView {
    TakeForceMark,
    FetchLyrics,
    Run(CommandView),
    Stop,
}

pub struct ActionView {
    pub effects: Seq<JobEffectView>,
    pub request: RequestView,
}

impl View for Prep {
    type V = PrepView;

    open spec fn view(&self) -> PrepView {
        match self {
            Prep::Missing => PrepView::Missing,
            Prep::Failed(m) => PrepView::Failed(m@),
            Prep::Ready {
                file_hash,
                audio_path,
                cache_path,
                stems_only,
                song_language,
                config,
                language_override,
            } => PrepView::Ready {
                file_hash: file_hash@,
                audio_path: audio_path@,
                cache_path: cache_path@,
                stems_only: *stems_only,
                song_language: opt_chars(*song_language),
                config: config@,
                language_override: opt_chars(*language_override),
            },
        }
    }
}

pub open spec fn attempt_view(a: Attempt) -> AttemptView {
    match a {
        Attempt::Done { cancelled } => AttemptView::Done { cancelled },
        Attempt::Cancelled => AttemptView::Cancelled,
        Attempt::Oom => AttemptView::Oom,
        Attempt::Error(m) => AttemptView::Error(m@),
        Attempt::Crashed { cancelled, message } => AttemptView::Crashed {
            cancelled,
            message: message@,
        },
    }
}

impl View for JobEvent {
    type V = EventView;

    open spec fn view(&self) -> EventView {
        match self {
            JobEvent::Prepared { prep, cancelled } => EventView::Prepared {
                prep: prep@,
                cancelled: *cancelled,
            },
            JobEvent::ForceMark(f) => EventView::ForceMark(*f),
            JobEvent::LyricsFetched(l) => EventView::LyricsFetched(opt_chars(*l)),
            JobEvent::ServerFailed { error, cancelled } => EventView::ServerFailed {
                error: error@,
                cancelled: *cancelled,
            },
            JobEvent::CancelledBeforeRun { server_started } => EventView::CancelledBeforeRun {
                server_started: *server_started,
            },
            JobEvent::Attempted(a) => EventView::Attempted(attempt_view(*a)),
        }
    }
}

impl View for JobEffect {
    type V = JobEffectView;

    open spec fn view(&self) -> JobEffectView {
        match self {
            JobEffect::Discard { initial_hash, file_hash } => JobEffectView::Discard {
                initial_hash: initial_hash@,
                file_hash: file_hash@,
            },
            JobEffect::SetStatus(h, st) => JobEffectView::SetStatus(h@, st@),
            JobEffect::MoveTranscript { from, to } => JobEffectView::MoveTranscript {
                from: from@,
                to: to@,
            },
            JobEffect::KillServer => JobEffectView::KillServer,
            JobEffect::Finalize(h) => JobEffectView::Finalize(h@),
        }
    }
}

impl View for Request {
    type V = RequestView;

    open spec fn view(&self) -> RequestView {
        match self {
            Request::TakeForceMark => RequestView::TakeForceMark,
            Request::FetchLyrics => RequestView::FetchLyrics,
            Request::Run(c) => RequestView::Run(c@),
            Request::Stop => RequestView::Stop,
        }
    }
}

impl View for JobAction {
    type V = ActionView;

    open spec fn view(&self) -> ActionView {
        ActionView {
            effects: self.effects@.map_values(|e: JobEffect| e@),
            request: self.request@,
        }
    }
}

/// `s` in phase `p`.
pub open spec fn in_phase(s: JobView, p: Phase) -> JobView {
    JobView { phase: p, ..s }
}

/// `s` running `c`.
pub open spec fn running(s: JobView, c: CommandView, retried: bool) -> JobView {
    JobView { phase: Phase::Running, command: Some(c), retried, ..s }
}

pub open spec fn discard(s: JobView) -> JobEffectView {
    JobEffectView::Discard { initial_hash: s.initial_hash, file_hash: s.file_hash }
}

pub open spec fn set_failed(h: Seq<char>, m: Seq<char>) -> JobEffectView {
    JobEffectView::SetStatus(h, StatusView::Failed(m))
}

pub open spec fn stop(effects: Seq<JobEffectView>) -> ActionView {
    ActionView { effects, request: RequestView::Stop }
}

/// The command for the job's song, from what preparing it gave.
pub open spec fn job_command(s: JobView, force: bool, lyrics: Option<Seq<char>>) -> CommandView {
    command_spec(
        s.stems_only,
        force,
        lyrics,
        s.language_override,
        s.song_language,
        s.audio_path,
        s.cache_path,
        s.file_hash,
        s.config,
    )
}

/// After the attempt `a`: a finished song is finalized; a cancelled one is
/// discarded and its server killed; out of memory and a crash kill the
/// server and are retried once with the same command (status back to 0%),
/// then fail; an analyzer error fails the song.
pub open spec fn after_attempt_step(s: JobView, a: AttemptView) -> (JobView, ActionView) {
    let done = in_phase(s, Phase::Finished);
    let retry = (
        running(s, s.command->Some_0, true),
        ActionView {
            effects: seq![
                JobEffectView::KillServer,
                JobEffectView::SetStatus(s.file_hash, StatusView::Analyzing(0)),
            ],
            request: RequestView::Run(s.command->Some_0),
        },
    );
    match a {
        AttemptView::Done { cancelled } => if cancelled {
            (done, stop(seq![discard(s), JobEffectView::KillServer]))
        } else {
            (done, stop(seq![JobEffectView::Finalize(s.file_hash)]))
        },
        AttemptView::Cancelled => (done, stop(seq![discard(s), JobEffectView::KillServer])),
        AttemptView::Oom => if s.retried {
            (
                done,
                stop(
                    seq![JobEffectView::KillServer, set_failed(s.file_hash, "CUDA out of memory"@)],
                ),
            )
        } else {
            retry
        },
        AttemptView::Error(m) => (done, stop(seq![set_failed(s.file_hash, m)])),
        AttemptView::Crashed { cancelled, message } => if cancelled {
            (done, stop(seq![discard(s), JobEffectView::KillServer]))
        } else if s.retried {
            (
                done,
                stop(
                    seq![
                        JobEffectView::KillServer,
                        set_failed(s.file_hash, "Server crashed: "@ + message),
                    ],
                ),
            )
        } else {
            retry
        },
    }
}

/// One step of a song's analysis. A missing song stops (discarded if it
/// was cancelled); audio that could not be prepared fails the song under
/// its queued hash. A prepared song is discarded if cancelled; otherwise it
/// is marked analyzing at 0%, a stems-only pass moves the written
/// transcript to the audio's hash and runs at once without lyrics; any
/// other song asks whether transcription was forced: if so it runs without
/// lyrics, else LRCLIB is asked first and the song runs with what it gave.
/// A server that cannot start fails the song (or discards it, cancelled);
/// a cancellation before sending discards it, killing a started server.
/// Any event the phase does not wait for changes nothing and stops.
pub open spec fn step_spec(s: JobView, e: EventView) -> (JobView, ActionView) {
    match (s.phase, e) {
        (Phase::Preparing, EventView::Prepared { prep, cancelled }) => match prep {
            PrepView::Missing => {
                let t = in_phase(JobView { file_hash: s.initial_hash, ..s }, Phase::Finished);
                (t, stop(if cancelled { seq![discard(t)] } else { seq![] }))
            },
            PrepView::Failed(m) => {
                let t = in_phase(JobView { file_hash: s.initial_hash, ..s }, Phase::Finished);
                (
                    t,
                    stop(
                        if cancelled {
                            seq![discard(t)]
                        } else {
                            seq![set_failed(s.initial_hash, "audio prep failed: "@ + m)]
                        },
                    ),
                )
            },
            PrepView::Ready {
                file_hash,
                audio_path,
                cache_path,
                stems_only,
                song_language,
                config,
                language_override,
            } => {
                let t = JobView {
                    file_hash,
                    audio_path,
                    cache_path,
                    stems_only,
                    song_language,
                    config,
                    language_override,
                    ..s
                };
                if cancelled {
                    (in_phase(t, Phase::Finished), stop(seq![discard(t)]))
                } else {
                    let start = seq![JobEffectView::SetStatus(file_hash, StatusView::Analyzing(0))];
                    if stems_only {
                        let c = job_command(t, false, None);
                        let effects = if file_hash != s.initial_hash {
                            start.push(
                                JobEffectView::MoveTranscript { from: s.initial_hash, to: file_hash },
                            )
                        } else {
                            start
                        };
                        (running(t, c, false), ActionView { effects, request: RequestView::Run(c) })
                    } else {
                        (
                            in_phase(t, Phase::CheckingForce),
                            ActionView { effects: start, request: RequestView::TakeForceMark },
                        )
                    }
                }
            },
        },
        (Phase::CheckingForce, EventView::ForceMark(force)) => if force {
            let c = job_command(s, true, None);
            (running(s, c, false), ActionView { effects: seq![], request: RequestView::Run(c) })
        } else {
            (
                in_phase(s, Phase::FetchingLyrics),
                ActionView { effects: seq![], request: RequestView::FetchLyrics },
            )
        },
        (Phase::FetchingLyrics, EventView::LyricsFetched(lyrics)) => {
            let c = job_command(s, false, lyrics);
            (running(s, c, false), ActionView { effects: seq![], request: RequestView::Run(c) })
        },
        (Phase::Running, EventView::ServerFailed { error, cancelled }) => (
            in_phase(s, Phase::Finished),
            stop(
                if cancelled {
                    seq![discard(s)]
                } else {
                    seq![set_failed(s.file_hash, error)]
                },
            ),
        ),
        (Phase::Running, EventView::CancelledBeforeRun { server_started }) => (
            in_phase(s, Phase::Finished),
            stop(
                if server_started {
                    seq![discard(s), JobEffectView::KillServer]
                } else {
                    seq![discard(s)]
                },
            ),
        ),
        (Phase::Running, EventView::Attempted(a)) => if s.command is Some {
            after_attempt_step(s, a)
        } else {
            (s, stop(seq![]))
        },
        _ => (s, stop(seq![])),
    }
}

impl JobState {
    /// A job for the song queued under `initial_hash`, about to be prepared.
    pub fn new(initial_hash: String) -> (r: JobState)
        ensures
            r@.phase == Phase::Preparing,
            job_inv(r@),
            r@.initial_hash == initial_hash@,
            r@.file_hash == initial_hash@,
            !r@.retried,
            r@.command is None,
    {
        let file_hash = initial_hash.clone();
        JobState {
            phase: Phase::Preparing,
            initial_hash,
            file_hash,
            audio_path: String::new(),
            cache_path: String::new(),
            stems_only: false,
            song_language: None,
            config: AnalyzerConfig {
                model: String::new(),
                beam_size: 0,
                batch_size: 0,
                separator: String::new(),
                engine: String::new(),
                align_backend: String::new(),
            },
            language_override: None,
            retried: false,
            command: None,
        }
    }
}


fn with_phase(s: JobState, p: Phase) -> (r: JobState)
    ensures
        r@ == in_phase(s@, p),
{
    JobState { phase: p, ..s }
}

fn discard_effect(s: &JobState) -> (r: JobEffect)
    ensures
        r@ == discard(s@),
{
    JobEffect::Discard { initial_hash: s.initial_hash.clone(), file_hash: s.file_hash.clone() }
}

fn failed_effect(h: &String, m: String) -> (r: JobEffect)
    ensures
        r@ == set_failed(h@, m@),
{
    JobEffect::SetStatus(h.clone(), QueuedStatus::Failed(m))
}

fn prefixed(prefix: &str, m: &String) -> (r: String)
    ensures
        r@ == prefix@ + m@,
{
    string_of(&concat(&chars_of(prefix), &chars_of(m.as_str())))
}

fn stop_with(effects: Vec<JobEffect>) -> (r: JobAction)
    ensures
        r@ == stop(effects@.map_values(|e: JobEffect| e@)),
{
    JobAction { effects, request: Request::Stop }
}

/// Runs `c`: the job moves to `Running` with it.
fn run_with(s: JobState, c: AnalyzeCommand, retried: bool, effects: Vec<JobEffect>) -> (r: (
    JobState,
    JobAction,
))
    ensures
        r.0@ == running(s@, c@, retried),
        r.1@ == (ActionView { effects: effects@.map_values(|e: JobEffect| e@), request: RequestView::Run(c@) }),
{
    let sent = clone_command(&c);
    (
        JobState { phase: Phase::Running, command: Some(c), retried, ..s },
        JobAction { effects, request: Request::Run(sent) },
    )
}

fn build_command(s: &JobState, force: bool, lyrics: Option<String>) -> (r: AnalyzeCommand)
    ensures
        r@ == job_command(s@, force, opt_chars(lyrics)),
{
    analyze_command(
        s.stems_only,
        force,
        lyrics,
        clone_opt(&s.language_override),
        clone_opt(&s.song_language),
        s.audio_path.clone(),
        s.cache_path.clone(),
        s.file_hash.clone(),
        &s.config,
    )
}

fn attempt_step(s: JobState, a: Attempt) -> (r: (JobState, JobAction))
    requires
        s@.phase == Phase::Running,
        s@.command is Some,
    ensures
        (r.0@, r.1@) == after_attempt_step(s@, attempt_view(a)),
{
    match a {
        Attempt::Done { cancelled } => if cancelled {
            let d = discard_effect(&s);
            let effects = vec![d, JobEffect::KillServer];
            let act = stop_with(effects);
            assert(act@.effects =~= seq![discard(s@), JobEffectView::KillServer]);
            (with_phase(s, Phase::Finished), act)
        } else {
            let effects = vec![JobEffect::Finalize(s.file_hash.clone())];
            let act = stop_with(effects);
            assert(act@.effects =~= seq![JobEffectView::Finalize(s@.file_hash)]);
            (with_phase(s, Phase::Finished), act)
        },
        Attempt::Cancelled => {
            let d = discard_effect(&s);
            let effects = vec![d, JobEffect::KillServer];
            let act = stop_with(effects);
            assert(act@.effects =~= seq![discard(s@), JobEffectView::KillServer]);
            (with_phase(s, Phase::Finished), act)
        },
        Attempt::Oom => if s.retried {
            let f = failed_effect(&s.file_hash, String::from_str("CUDA out of memory"));
            let effects = vec![JobEffect::KillServer, f];
            let act = stop_with(effects);
            assert(act@.effects =~= seq![
                JobEffectView::KillServer,
                set_failed(s@.file_hash, "CUDA out of memory"@),
            ]);
            (with_phase(s, Phase::Finished), act)
        } else {
            retry(s)
        },
        Attempt::Error(m) => {
            let f = failed_effect(&s.file_hash, m);
            let effects = vec![f];
            let act = stop_with(effects);
            assert(act@.effects =~= seq![set_failed(s@.file_hash, m@)]);
            (with_phase(s, Phase::Finished), act)
        },
        Attempt::Crashed { cancelled, message } => if cancelled {
            let d = discard_effect(&s);
            let effects = vec![d, JobEffect::KillServer];
            let act = stop_with(effects);
            assert(act@.effects =~= seq![discard(s@), JobEffectView::KillServer]);
            (with_phase(s, Phase::Finished), act)
        } else if s.retried {
            let f = failed_effect(&s.file_hash, prefixed("Server crashed: ", &message));
            let effects = vec![JobEffect::KillServer, f];
            let act = stop_with(effects);
            assert(act@.effects =~= seq![
                JobEffectView::KillServer,
                set_failed(s@.file_hash, "Server crashed: "@ + message@),
            ]);
            (with_phase(s, Phase::Finished), act)
        } else {
            retry(s)
        },
    }
}

fn retry(s: JobState) -> (r: (JobState, JobAction))
    requires
        s@.command is Some,
    ensures
        r.0@ == running(s@, s@.command->Some_0, true),
        r.1@ == (ActionView {
            effects: seq![
                JobEffectView::KillServer,
                JobEffectView::SetStatus(s@.file_hash, StatusView::Analyzing(0)),
            ],
            request: RequestView::Run(s@.command->Some_0),
        }),
{
    let c = match &s.command {
        Some(c) => clone_command(c),
        None => {
            assert(false);
            build_command(&s, false, None)
        },
    };
    let effects = vec![
        JobEffect::KillServer,
        JobEffect::SetStatus(s.file_hash.clone(), QueuedStatus::Analyzing(0)),
    ];
    let r = run_with(s, c, true, effects);
    assert(r.1@.effects =~= seq![
        JobEffectView::KillServer,
        JobEffectView::SetStatus(s@.file_hash, StatusView::Analyzing(0)),
    ]);
    r
}

/// One step of a song's analysis: the next state and what to do, exactly
/// as `step_spec` says.
pub fn analysis_step(s: JobState, e: JobEvent) -> (r: (JobState, JobAction))
    ensures
        (r.0@, r.1@) == step_spec(s@, e@),
{
    match (s.phase, e) {
        (Phase::Preparing, JobEvent::Prepared { prep, cancelled }) => match prep {
            Prep::Missing => {
                let file_hash = s.initial_hash.clone();
                let t = JobState { phase: Phase::Finished, file_hash, ..s };
                let effects = if cancelled {
                    vec![discard_effect(&t)]
                } else {
                    Vec::new()
                };
                let act = stop_with(effects);
                assert(act@.effects =~= (if cancelled { seq![discard(t@)] } else { seq![] }));
                (t, act)
            },
            Prep::Failed(m) => {
                let file_hash = s.initial_hash.clone();
                let t = JobState { phase: Phase::Finished, file_hash, ..s };
                let effects = if cancelled {
                    vec![discard_effect(&t)]
                } else {
                    vec![failed_effect(&t.initial_hash, prefixed("audio prep failed: ", &m))]
                };
                let act = stop_with(effects);
                assert(act@.effects =~= (if cancelled {
                    seq![discard(t@)]
                } else {
                    seq![set_failed(s@.initial_hash, "audio prep failed: "@ + m@)]
                }));
                (t, act)
            },
            Prep::Ready {
                file_hash,
                audio_path,
                cache_path,
                stems_only,
                song_language,
                config,
                language_override,
            } => {
                let t = JobState {
                    file_hash,
                    audio_path,
                    cache_path,
                    stems_only,
                    song_language,
                    config,
                    language_override,
                    ..s
                };
                if cancelled {
                    let effects = vec![discard_effect(&t)];
                    let act = stop_with(effects);
                    assert(act@.effects =~= seq![discard(t@)]);
                    return (with_phase(t, Phase::Finished), act);
                }
                let mut effects = vec![
                    JobEffect::SetStatus(t.file_hash.clone(), QueuedStatus::Analyzing(0)),
                ];
                let ghost start = seq![JobEffectView::SetStatus(t@.file_hash, StatusView::Analyzing(0))];
                assert(effects@.map_values(|e: JobEffect| e@) =~= start);
                if t.stems_only {
                    let c = build_command(&t, false, None);
                    let moved = !crate::text::chars_eq(
                        &chars_of(t.file_hash.as_str()),
                        &chars_of(t.initial_hash.as_str()),
                    );
                    if moved {
                        effects.push(
                            JobEffect::MoveTranscript {
                                from: t.initial_hash.clone(),
                                to: t.file_hash.clone(),
                            },
                        );
                        assert(effects@.map_values(|e: JobEffect| e@) =~= start.push(
                            JobEffectView::MoveTranscript { from: t@.initial_hash, to: t@.file_hash },
                        ));
                    }
                    run_with(t, c, false, effects)
                } else {
                    (
                        with_phase(t, Phase::CheckingForce),
                        JobAction { effects, request: Request::TakeForceMark },
                    )
                }
            },
        },
        (Phase::CheckingForce, JobEvent::ForceMark(force)) => if force {
            let c = build_command(&s, true, None);
            let act_effects: Vec<JobEffect> = Vec::new();
            assert(act_effects@.map_values(|e: JobEffect| e@) =~= seq![]);
            run_with(s, c, false, act_effects)
        } else {
            let effects: Vec<JobEffect> = Vec::new();
            assert(effects@.map_values(|e: JobEffect| e@) =~= seq![]);
            (with_phase(s, Phase::FetchingLyrics), JobAction { effects, request: Request::FetchLyrics })
        },
        (Phase::FetchingLyrics, JobEvent::LyricsFetched(lyrics)) => {
            let c = build_command(&s, false, lyrics);
            let effects: Vec<JobEffect> = Vec::new();
            assert(effects@.map_values(|e: JobEffect| e@) =~= seq![]);
            run_with(s, c, false, effects)
        },
        (Phase::Running, JobEvent::ServerFailed { error, cancelled }) => {
            let effects = if cancelled {
                vec![discard_effect(&s)]
            } else {
                vec![failed_effect(&s.file_hash, error)]
            };
            let act = stop_with(effects);
            assert(act@.effects =~= (if cancelled {
                seq![discard(s@)]
            } else {
                seq![set_failed(s@.file_hash, error@)]
            }));
            (with_phase(s, Phase::Finished), act)
        },
        (Phase::Running, JobEvent::CancelledBeforeRun { server_started }) => {
            let effects = if server_started {
                vec![discard_effect(&s), JobEffect::KillServer]
            } else {
                vec![discard_effect(&s)]
            };
            let act = stop_with(effects);
            assert(act@.effects =~= (if server_started {
                seq![discard(s@), JobEffectView::KillServer]
            } else {
                seq![discard(s@)]
            }));
            (with_phase(s, Phase::Finished), act)
        },
        (Phase::Running, JobEvent::Attempted(a)) => if s.command.is_some() {
            attempt_step(s, a)
        } else {
            let act = stop_with(Vec::new());
            assert(act@.effects =~= seq![]);
            (s, act)
        },
        (_, _) => {
            let act = stop_with(Vec::new());
            assert(act@.effects =~= seq![]);
            (s, act)
        },
    }
}


/// What holds of every job reached from `JobState::new`: a stems-only job
/// never waits on the force mark or on LRCLIB, and a running job has its
/// command.
pub open spec fn job_inv(s: JobView) -> bool {
    &&& (s.phase == Phase::CheckingForce || s.phase == Phase::FetchingLyrics) ==> !s.stems_only
    &&& s.phase == Phase::Running ==> s.command is Some
    &&& s.phase == Phase::Preparing ==> s.command is None
    &&& s.stems_only ==> (s.command matches Some(c) ==> c.lyrics is None)
}

/// Every step keeps the job invariant.
pub proof fn lemma_step_keeps_inv(s: JobView, e: EventView)
    requires
        job_inv(s),
    ensures
        job_inv(step_spec(s, e).0),
{
}

/// LRCLIB is asked only for a song that is neither a stems-only pass nor a
/// forced transcription, and a stems-only or forced run carries no lyrics.
pub proof fn lemma_lrclib_first_unless_skipped(s: JobView, e: EventView)
    requires
        job_inv(s),
    ensures
        step_spec(s, e).1.request is FetchLyrics ==> s.phase == Phase::CheckingForce
            && e == EventView::ForceMark(false) && !step_spec(s, e).0.stems_only,
        (step_spec(s, e).0.stems_only || e == EventView::ForceMark(true)) ==> (step_spec(
            s,
            e,
        ).1.request matches RequestView::Run(c) ==> c.lyrics is None),
{
}

/// A job that was retried once is not retried again: the attempt after the
/// retry never leads to another run.
pub proof fn lemma_retry_once(s: JobView, a: AttemptView)
    requires
        s.phase == Phase::Running,
        s.retried,
    ensures
        !(step_spec(s, EventView::Attempted(a)).1.request is Run),
        step_spec(s, EventView::Attempted(a)).0.phase == Phase::Finished || s.command is None,
{
}
} // verus!
