//! The desktop player's analysis queue: songs waiting by library index, the
//! one being analyzed with its progress, the marker lines its analyzer
//! process prints, and what a finished job makes of a song.

use vstd::prelude::*;

use crate::song::TranscriptSource;
use crate::text::{
    chars_eq, chars_of, occurs_at, parse_u32, parse_u32_chars, string_of, subvec, trim,
    trim_chars,
};

verus! {

// ─── Queue ───────────────────────────────────────────────────────────

/// Progress of the running job as its analyzer reports it; `finished` is
/// set once it ends (true on success).
pub struct ProgressInfo {
    pub percent: u32,
    pub message: String,
    pub finished: Option<bool>,
}

/// The job being analyzed.
pub struct ActiveJob {
    pub song_index: usize,
    pub progress: ProgressInfo,
}

/// Songs waiting for analysis, by library index, and the running job.
pub struct AnalysisQueue {
    pub queue: Vec<usize>,
    pub active: Option<ActiveJob>,
}

pub open spec fn active_index(q: &AnalysisQueue) -> Option<usize> {
    match q.active {
        Some(j) => Some(j.song_index),
        None => None,
    }
}

impl AnalysisQueue {
    /// Nothing waiting, nothing running.
    pub fn new() -> (r: AnalysisQueue)
        ensures
            r.queue@.len() == 0,
            r.active is None,
    {
        AnalysisQueue { queue: Vec::new(), active: None }
    }

    /// Queues a song unless it is the running one or already waits.
    pub fn enqueue(&mut self, song_index: usize)
        ensures
            active_index(&*final(self)) == active_index(&*old(self)),
            (active_index(&*old(self)) == Some(song_index) || old(self).queue@.contains(song_index))
                ==> final(self).queue@ == old(self).queue@,
            !(active_index(&*old(self)) == Some(song_index) || old(self).queue@.contains(song_index))
                ==> final(self).queue@ == old(self).queue@.push(song_index),
    {
        let running = match &self.active {
            Some(a) => a.song_index == song_index,
            None => false,
        };
        if running {
            return;
        }
        let mut i: usize = 0;
        while i < self.queue.len()
            invariant
                i <= self.queue@.len(),
                forall|j: int| 0 <= j < i ==> self.queue@[j] != song_index,
            decreases self.queue@.len() - i,
        {
            if self.queue[i] == song_index {
                assert(self.queue@[i as int] == song_index);
                return;
            }
            i = i + 1;
        }
        self.queue.push(song_index);
    }

    /// A copy of the running job's progress when it is the song at
    /// `song_index`.
    pub fn active_progress(&self, song_index: usize) -> (r: Option<ProgressInfo>)
        ensures
            match self.active {
                Some(a) => if a.song_index == song_index {
                    r matches Some(p) && p.percent == a.progress.percent && p.message@
                        == a.progress.message@ && p.finished == a.progress.finished
                } else {
                    r is None
                },
                None => r is None,
            },
    {
        match &self.active {
            Some(a) => if a.song_index == song_index {
                Some(
                    ProgressInfo {
                        percent: a.progress.percent,
                        message: a.progress.message.clone(),
                        finished: a.progress.finished,
                    },
                )
            } else {
                None
            },
            None => None,
        }
    }

    /// The next song to analyze when nothing runs: it leaves the front of
    /// the queue and becomes the running job, with no progress yet.
    pub fn start_next(&mut self) -> (r: Option<usize>)
        ensures
            (old(self).active is Some || old(self).queue@.len() == 0) ==> r is None
                && final(self).queue@ == old(self).queue@ && active_index(&*final(self))
                == active_index(&*old(self)),
            (old(self).active is None && old(self).queue@.len() > 0) ==> r == Some(
                old(self).queue@[0],
            ) && final(self).queue@ == old(self).queue@.drop_first() && active_index(&*final(self))
                == Some(old(self).queue@[0]) && (final(self).active matches Some(j) && j.progress.percent
                == 0 && j.progress.message@.len() == 0 && j.progress.finished is None),
    {
        if self.active.is_some() || self.queue.len() == 0 {
            return None;
        }
        let song_index = self.queue.remove(0);
        self.active = Some(
            ActiveJob {
                song_index,
                progress: ProgressInfo { percent: 0, message: String::new(), finished: None },
            },
        );
        Some(song_index)
    }
}

// ─── Marker lines ────────────────────────────────────────────────────

/// Position of the first occurrence of `needle` in `s`.
pub open spec fn find_seq(s: Seq<char>, needle: Seq<char>) -> Option<int>
    decreases s.len(),
{
    if needle.len() > s.len() {
        None
    } else if s.take(needle.len() as int) == needle {
        Some(0int)
    } else if s.len() == 0 {
        None
    } else {
        match find_seq(s.drop_first(), needle) {
            Some(i) => Some(i + 1),
            None => None,
        }
    }
}

proof fn lemma_find_seq_step(s: Seq<char>, needle: Seq<char>, i: int)
    requires
        0 <= i,
        0 < needle.len(),
        i + needle.len() <= s.len(),
        s.skip(i).take(needle.len() as int) != needle,
    ensures
        find_seq(s.skip(i), needle) == match find_seq(s.skip(i + 1), needle) {
            Some(k) => Some(k + 1),
            None => None::<int>,
        },
{
    assert(s.skip(i).drop_first() =~= s.skip(i + 1));
}

proof fn lemma_find_seq_found(s: Seq<char>, needle: Seq<char>)
    ensures
        find_seq(s, needle) matches Some(k) ==> 0 <= k && k + needle.len() <= s.len() && s.subrange(
            k,
            k + needle.len(),
        ) == needle,
    decreases s.len(),
{
    if needle.len() <= s.len() && s.take(needle.len() as int) != needle && s.len() > 0 {
        lemma_find_seq_found(s.drop_first(), needle);
        if let Some(k) = find_seq(s.drop_first(), needle) {
            assert(0 <= k && k + needle.len() <= s.drop_first().len());
            assert(s.drop_first().subrange(k, k + needle.len()) =~= s.subrange(
                k + 1,
                k + 1 + needle.len(),
            ));
        }
    }
}

fn find_chars(s: &Vec<char>, needle: &Vec<char>) -> (r: Option<usize>)
    ensures
        match r {
            Some(k) => find_seq(s@, needle@) == Some(k as int),
            None => find_seq(s@, needle@) is None,
        },
{
    if needle.len() > s.len() {
        return None;
    }
    if needle.len() == 0 {
        assert(s@.take(0) =~= needle@);
        return Some(0);
    }
    let last = s.len() - needle.len();
    let mut i: usize = 0;
    assert(s@.skip(0) =~= s@);
    while i <= last
        invariant
            0 < needle.len() <= s.len(),
            last == s.len() - needle.len(),
            i <= last + 1,
            find_seq(s@, needle@) == match find_seq(s@.skip(i as int), needle@) {
                Some(k) => Some(k + i),
                None => None::<int>,
            },
        decreases last + 1 - i,
    {
        let window = subvec(s, i, i + needle.len());
        assert(window@ =~= s@.skip(i as int).take(needle.len() as int));
        if chars_eq(&window, needle) {
            return Some(i);
        }
        proof {
            lemma_find_seq_step(s@, needle@, i as int);
        }
        i = i + 1;
    }
    assert(i == last + 1);
    assert(s@.skip(i as int).len() == needle@.len() - 1);
    None
}

pub open spec fn lit_progress_marker() -> Seq<char> {
    "[nightingale:PROGRESS:"@
}

/// A progress line: after the first `[nightingale:PROGRESS:` comes a
/// percentage (a `u32` in decimal), `]`, and the message (trimmed).
pub open spec fn progress_line_spec(line: Seq<char>) -> Option<(u32, Seq<char>)> {
    match find_seq(line, lit_progress_marker()) {
        Some(start) => {
            let after = line.skip(start + lit_progress_marker().len());
            match find_seq(after, seq![']']) {
                Some(end) => match parse_u32(after.take(end as int)) {
                    Some(pct) => Some((pct, trim(after.skip(end + 1)))),
                    None => None,
                },
                None => None,
            }
        },
        None => None,
    }
}

pub fn parse_progress_line(line: &str) -> (r: Option<(u32, String)>)
    ensures
        match r {
            Some((pct, msg)) => progress_line_spec(line@) == Some((pct, msg@)),
            None => progress_line_spec(line@) is None,
        },
{
    let l = chars_of(line);
    let marker = chars_of("[nightingale:PROGRESS:");
    let start = match find_chars(&l, &marker) {
        Some(k) => k,
        None => return None,
    };
    proof {
        lemma_find_seq_found(l@, marker@);
    }
    let mlen = marker.len();
    assert(start + mlen <= l.len());
    let after = subvec(&l, start + mlen, l.len());
    assert(after@ =~= l@.skip(start + marker@.len()));
    let close = vec![']'];
    assert(close@ =~= seq![']']);
    let end = match find_chars(&after, &close) {
        Some(k) => k,
        None => return None,
    };
    proof {
        lemma_find_seq_found(after@, close@);
    }
    let digits = subvec(&after, 0, end);
    assert(digits@ =~= after@.take(end as int));
    let pct = match parse_u32_chars(&digits) {
        Some(p) => p,
        None => return None,
    };
    let rest = subvec(&after, end + 1, after.len());
    assert(rest@ =~= after@.skip(end + 1));
    Some((pct, string_of(&trim_chars(&rest))))
}

/// How an analysis ended, as the analyzer's marker lines say.
pub enum JobEnd {
    Done,
    Oom,
    Error(String),
}

pub open spec fn lit_done_marker() -> Seq<char> {
    "[nightingale:DONE]"@
}

pub open spec fn lit_oom_marker() -> Seq<char> {
    "[nightingale:OOM]"@
}

pub open spec fn lit_error_marker() -> Seq<char> {
    "[nightingale:ERROR]"@
}

/// What a line says of the job: a `DONE` marker ends it well, else an `OOM`
/// marker ends it out of memory, else an `ERROR` marker ends it with the
/// text after the marker (up to a repeated marker), trimmed; any other line
/// leaves it running.
pub open spec fn job_end_spec(line: Seq<char>) -> Option<Result<bool, Seq<char>>> {
    if find_seq(line, lit_done_marker()) is Some {
        Some(Ok(true))
    } else if find_seq(line, lit_oom_marker()) is Some {
        Some(Ok(false))
    } else {
        match find_seq(line, lit_error_marker()) {
            Some(k) => {
                let rest = line.skip(k + lit_error_marker().len());
                let piece = match find_seq(rest, lit_error_marker()) {
                    Some(j) => rest.take(j as int),
                    None => rest,
                };
                Some(Err(trim(piece)))
            },
            None => None,
        }
    }
}

pub open spec fn job_end_view(e: JobEnd) -> Result<bool, Seq<char>> {
    match e {
        JobEnd::Done => Ok(true),
        JobEnd::Oom => Ok(false),
        JobEnd::Error(m) => Err(m@),
    }
}

pub fn job_end(line: &str) -> (r: Option<JobEnd>)
    ensures
        match r {
            Some(e) => job_end_spec(line@) == Some(job_end_view(e)),
            None => job_end_spec(line@) is None,
        },
{
    let l = chars_of(line);
    if find_chars(&l, &chars_of("[nightingale:DONE]")).is_some() {
        return Some(JobEnd::Done);
    }
    if find_chars(&l, &chars_of("[nightingale:OOM]")).is_some() {
        return Some(JobEnd::Oom);
    }
    let marker = chars_of("[nightingale:ERROR]");
    let k = match find_chars(&l, &marker) {
        Some(k) => k,
        None => return None,
    };
    proof {
        lemma_find_seq_found(l@, marker@);
    }
    let mlen = marker.len();
    assert(k + mlen <= l.len());
    let rest = subvec(&l, k + mlen, l.len());
    assert(rest@ =~= l@.skip(k + marker@.len()));
    let piece = match find_chars(&rest, &marker) {
        Some(j) => {
            proof {
                lemma_find_seq_found(rest@, marker@);
            }
            subvec(&rest, 0, j)
        },
        None => rest,
    };
    Some(JobEnd::Error(string_of(&trim_chars(&piece))))
}

// ─── Finished jobs ───────────────────────────────────────────────────

/// The stored transcript of a finished job, as far as it could be read.
pub enum TranscriptRead {
    /// No transcript file.
    Missing,
    /// A transcript file that does not parse.
    Unreadable,
    /// Its `source` and `language` fields.
    Loaded { source: String, language: String },
}

/// What a finished job makes of its song.
pub enum SongStatus {
    Ready { source: TranscriptSource, language: Option<String> },
    Failed(String),
}

/// A job that succeeded and left a transcript makes the song ready, with
/// lyrics as its source when the transcript says `lyrics` and its language
/// unless empty (an unreadable transcript counts as generated, language
/// unchanged); otherwise the song failed with the job's message.
pub fn finished_status(success: bool, transcript: TranscriptRead, message: String, language: Option<
    String,
>) -> (r: SongStatus)
    ensures
        match transcript {
            TranscriptRead::Loaded { source, language: l } => if success {
                r matches SongStatus::Ready { source: s, language: lang } && s == (if source@
                    == "lyrics"@ {
                    TranscriptSource::Lyrics
                } else {
                    TranscriptSource::Generated
                }) && (if l@.len() == 0 {
                    lang is None
                } else {
                    lang matches Some(x) && x@ == l@
                })
            } else {
                r matches SongStatus::Failed(m) && m@ == message@
            },
            TranscriptRead::Unreadable => if success {
                r matches SongStatus::Ready { source: s, language: lang } && s
                    == TranscriptSource::Generated && lang == language
            } else {
                r matches SongStatus::Failed(m) && m@ == message@
            },
            TranscriptRead::Missing => r matches SongStatus::Failed(m) && m@ == message@,
        },
{
    match transcript {
        TranscriptRead::Loaded { source, language: l } => {
            if !success {
                return SongStatus::Failed(message);
            }
            let s = if chars_eq(&chars_of(source.as_str()), &chars_of("lyrics")) {
                TranscriptSource::Lyrics
            } else {
                TranscriptSource::Generated
            };
            let lang = if chars_of(l.as_str()).len() == 0 {
                None
            } else {
                Some(l)
            };
            SongStatus::Ready { source: s, language: lang }
        },
        TranscriptRead::Unreadable => {
            if !success {
                return SongStatus::Failed(message);
            }
            SongStatus::Ready { source: TranscriptSource::Generated, language }
        },
        TranscriptRead::Missing => SongStatus::Failed(message),
    }
}


// ─── Running one job ─────────────────────────────────────────────────

/// The progress of a job just started: its lyrics are being searched for.
pub fn searching_progress() -> (r: ProgressInfo)
    ensures
        r.percent == 0,
        r.message@ == "Searching for lyrics..."@,
        r.finished is None,
{
    ProgressInfo {
        percent: 0,
        message: String::from_str("Searching for lyrics..."),
        finished: None,
    }
}

/// Once the lyrics search is over, the analyzer is being started.
pub fn lyrics_searched(progress: &mut ProgressInfo)
    ensures
        final(progress).message@ == "Starting analyzer..."@,
        final(progress).percent == old(progress).percent,
        final(progress).finished == old(progress).finished,
{
    progress.message = String::from_str("Starting analyzer...");
}

/// The `analyze` command of the desktop player.
pub struct PlayerCommand {
    pub audio_path: String,
    pub cache_path: String,
    pub hash: String,
    pub model: String,
    pub beam_size: u32,
    pub batch_size: u32,
    pub separator: String,
    /// The lyrics file LRCLIB gave, to align instead of transcribing.
    pub lyrics: Option<String>,
    /// The song's language override.
    pub language: Option<String>,
}

/// The command for a song: its settings, the lyrics file found (if any)
/// and its language override (if any), each carried as given.
pub fn player_command(
    audio_path: String,
    cache_path: String,
    hash: String,
    model: String,
    beam_size: u32,
    batch_size: u32,
    separator: String,
    lyrics: Option<String>,
    language_override: Option<String>,
) -> (r: PlayerCommand)
    ensures
        r.audio_path == audio_path,
        r.cache_path == cache_path,
        r.hash == hash,
        r.model == model,
        r.beam_size == beam_size,
        r.batch_size == batch_size,
        r.separator == separator,
        r.lyrics == lyrics,
        r.language == language_override,
{
    PlayerCommand {
        audio_path,
        cache_path,
        hash,
        model,
        beam_size,
        batch_size,
        separator,
        lyrics,
        language: language_override,
    }
}

/// How one exchange with the analyzer ended.
pub enum PlayerOutcome {
    /// The analyzer could not be started.
    ServerFailed(String),
    /// It printed an end marker.
    Ended(JobEnd),
    /// Its output closed or failed.
    Crashed(String),
}

/// Whether to run the command again, and whether the analyzer process is
/// to be killed first.
pub struct PlayerDecision {
    pub retry: bool,
    pub kill_server: bool,
}

/// After an exchange: success and failures are written into the progress
/// the player shows; out of memory and a crash kill the analyzer and are
/// retried once (progress back to 0% with a note), then fail.
pub fn after_player_attempt(progress: &mut ProgressInfo, outcome: PlayerOutcome, retried: bool) -> (r:
    PlayerDecision)
    ensures
        r.retry ==> !retried && r.kill_server,
        r.retry ==> final(progress).percent == 0 && final(progress).finished
            == old(progress).finished,
        !r.retry ==> final(progress).percent == old(progress).percent,
        match outcome {
            PlayerOutcome::ServerFailed(e) => !r.retry && !r.kill_server && final(progress).finished
                == Some(false) && final(progress).message@ == e@,
            PlayerOutcome::Ended(JobEnd::Done) => !r.retry && !r.kill_server
                && final(progress).finished == Some(true) && final(progress).message@ == old(
                progress,
            ).message@,
            PlayerOutcome::Ended(JobEnd::Oom) => r.kill_server && if retried {
                !r.retry && final(progress).finished == Some(false) && final(progress).message@
                    == "CUDA out of memory"@
            } else {
                r.retry && final(progress).message@ == "CUDA OOM — retrying with fresh GPU..."@
            },
            PlayerOutcome::Ended(JobEnd::Error(m)) => !r.retry && !r.kill_server
                && final(progress).finished == Some(false) && final(progress).message@ == m@,
            PlayerOutcome::Crashed(e) => r.kill_server && if retried {
                !r.retry && final(progress).finished == Some(false) && final(progress).message@
                    == "Server crashed: "@ + e@
            } else {
                r.retry && final(progress).message@ == "Server crashed — retrying..."@
            },
        },
{
    match outcome {
        PlayerOutcome::ServerFailed(e) => {
            progress.finished = Some(false);
            progress.message = e;
            PlayerDecision { retry: false, kill_server: false }
        },
        PlayerOutcome::Ended(JobEnd::Done) => {
            progress.finished = Some(true);
            PlayerDecision { retry: false, kill_server: false }
        },
        PlayerOutcome::Ended(JobEnd::Oom) => if retried {
            progress.finished = Some(false);
            progress.message = String::from_str("CUDA out of memory");
            PlayerDecision { retry: false, kill_server: true }
        } else {
            progress.percent = 0;
            progress.message = String::from_str("CUDA OOM — retrying with fresh GPU...");
            PlayerDecision { retry: true, kill_server: true }
        },
        PlayerOutcome::Ended(JobEnd::Error(m)) => {
            progress.finished = Some(false);
            progress.message = m;
            PlayerDecision { retry: false, kill_server: false }
        },
        PlayerOutcome::Crashed(e) => if retried {
            progress.finished = Some(false);
            let m = crate::text::concat(&chars_of("Server crashed: "), &chars_of(e.as_str()));
            progress.message = string_of(&m);
            PlayerDecision { retry: false, kill_server: true }
        } else {
            progress.percent = 0;
            progress.message = String::from_str("Server crashed — retrying...");
            PlayerDecision { retry: true, kill_server: true }
        },
    }
}

} // verus!
