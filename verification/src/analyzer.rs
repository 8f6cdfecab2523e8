//! Bookkeeping of song analysis: the persisted status of queued songs, the
//! in-memory work queue and its cancellation marks, what each bulk action
//! does to a song, how a batch result is reported, how events from the
//! analyzer process are read, and when a failed attempt is retried.

use vstd::prelude::*;

use crate::text::{
    chars_of, concat, decimal, lower_chars, lower_seq, string_of, trim, trim_chars,
    u64_to_decimal,
};

verus! {

pub open spec fn strs(v: Seq<String>) -> Seq<Seq<char>> {
    v.map_values(|s: String| s@)
}

// ─── Persisted status ────────────────────────────────────────────────

/// Where a song stands in the analysis queue.
pub enum QueuedStatus {
    Queued,
    Analyzing(usize),
    Failed(String),
}

pub enum StatusView {
    Queued,
    Analyzing(usize),
    Failed(Seq<char>),
}

impl View for QueuedStatus {
    type V = StatusView;

    open spec fn view(&self) -> StatusView {
        match self {
            QueuedStatus::Queued => StatusView::Queued,
            QueuedStatus::Analyzing(p) => StatusView::Analyzing(*p),
            QueuedStatus::Failed(m) => StatusView::Failed(m@),
        }
    }
}

impl QueuedStatus {
    pub fn clone_status(&self) -> (r: QueuedStatus)
        ensures
            r@ == self@,
    {
        match self {
            QueuedStatus::Queued => QueuedStatus::Queued,
            QueuedStatus::Analyzing(p) => QueuedStatus::Analyzing(*p),
            QueuedStatus::Failed(m) => QueuedStatus::Failed(m.clone()),
        }
    }
}

pub open spec fn is_busy(s: StatusView) -> bool {
    s is Queued || s is Analyzing
}

/// How a status is stored: a state name, a percentage and a message.
pub struct QueueRow {
    pub state: String,
    pub percent: Option<i64>,
    pub message: Option<String>,
}

pub open spec fn lit_queued() -> Seq<char> {
    seq!['q', 'u', 'e', 'u', 'e', 'd']
}

pub open spec fn lit_analyzing() -> Seq<char> {
    seq!['a', 'n', 'a', 'l', 'y', 'z', 'i', 'n', 'g']
}

pub open spec fn lit_failed() -> Seq<char> {
    seq!['f', 'a', 'i', 'l', 'e', 'd']
}

/// The stored form of a status. The percentage is kept as `i64` (a
/// two's-complement reinterpretation of the `usize`).
pub fn status_row(status: &QueuedStatus) -> (r: QueueRow)
    ensures
        match status@ {
            StatusView::Queued => r.state@ == lit_queued() && r.percent is None
                && r.message is None,
            StatusView::Analyzing(p) => r.state@ == lit_analyzing() && r.percent == Some(
                p as i64,
            ) && r.message is None,
            StatusView::Failed(m) => r.state@ == lit_failed() && r.percent is None
                && opt_chars(r.message) == Some(m),
        },
{
    match status {
        QueuedStatus::Queued => QueueRow {
            state: string_of(&vec!['q', 'u', 'e', 'u', 'e', 'd']),
            percent: None,
            message: None,
        },
        QueuedStatus::Analyzing(p) => QueueRow {
            state: string_of(&vec!['a', 'n', 'a', 'l', 'y', 'z', 'i', 'n', 'g']),
            percent: Some(*p as i64),
            message: None,
        },
        QueuedStatus::Failed(s) => QueueRow {
            state: string_of(&vec!['f', 'a', 'i', 'l', 'e', 'd']),
            percent: None,
            message: Some(s.clone()),
        },
    }
}

/// The status a stored row stands for: `analyzing` takes its percentage
/// (0 when missing), `failed` its message (empty when missing), and any
/// other state name reads as queued.
pub open spec fn status_from_row_spec(
    state: Seq<char>,
    percent: Option<i64>,
    message: Option<Seq<char>>,
) -> StatusView {
    if state == lit_queued() {
        StatusView::Queued
    } else if state == lit_analyzing() {
        StatusView::Analyzing(
            match percent {
                Some(p) => p as usize,
                None => 0,
            },
        )
    } else if state == lit_failed() {
        StatusView::Failed(
            match message {
                Some(m) => m,
                None => seq![],
            },
        )
    } else {
        StatusView::Queued
    }
}

pub open spec fn opt_chars(o: Option<String>) -> Option<Seq<char>> {
    match o {
        Some(s) => Some(s@),
        None => None,
    }
}

pub fn status_from_row(state: &str, percent: Option<i64>, message: Option<String>) -> (r:
    QueuedStatus)
    ensures
        r@ == status_from_row_spec(state@, percent, opt_chars(message)),
{
    let s = chars_of(state);
    if crate::text::chars_eq(&s, &vec!['q', 'u', 'e', 'u', 'e', 'd']) {
        QueuedStatus::Queued
    } else if crate::text::chars_eq(&s, &vec!['a', 'n', 'a', 'l', 'y', 'z', 'i', 'n', 'g']) {
        QueuedStatus::Analyzing(
            match percent {
                Some(p) => p as usize,
                None => 0,
            },
        )
    } else if crate::text::chars_eq(&s, &vec!['f', 'a', 'i', 'l', 'e', 'd']) {
        QueuedStatus::Failed(
            match message {
                Some(m) => m,
                None => String::new(),
            },
        )
    } else {
        QueuedStatus::Queued
    }
}

/// Storing a status and reading it back gives the same status.
pub proof fn lemma_status_row_round_trip(s: StatusView)
    ensures
        status_from_row_spec(
            match s {
                StatusView::Queued => lit_queued(),
                StatusView::Analyzing(_) => lit_analyzing(),
                StatusView::Failed(_) => lit_failed(),
            },
            match s {
                StatusView::Analyzing(p) => Some(p as i64),
                _ => None,
            },
            match s {
                StatusView::Failed(m) => Some(m),
                _ => None,
            },
        ) == s,
{
    assert(lit_queued() != lit_analyzing());
    assert(lit_queued() != lit_failed());
    assert(lit_analyzing() != lit_failed());
    if let StatusView::Analyzing(p) = s {
        assert((p as i64) as usize == p) by (bit_vector);
    }
}

// ─── Persisted queue ─────────────────────────────────────────────────

pub struct Entry {
    pub hash: String,
    pub status: QueuedStatus,
}

pub open spec fn entries_map(e: Seq<Entry>) -> Map<Seq<char>, StatusView>
    decreases e.len(),
{
    if e.len() == 0 {
        Map::empty()
    } else {
        entries_map(e.drop_last()).insert(e.last().hash@, e.last().status@)
    }
}

pub open spec fn unique_hashes(e: Seq<Entry>) -> bool {
    forall|i: int, j: int| 0 <= i < j < e.len() ==> e[i].hash@ != e[j].hash@
}

/// The persisted analysis queue: the status of every queued, running or
/// failed song, one entry per song hash.
pub struct AnalysisQueue {
    entries: Vec<Entry>,
}

/// A stored row: song hash, state name, percentage, message.
pub struct StoredRow {
    pub hash: String,
    pub state: String,
    pub percent: Option<i64>,
    pub message: Option<String>,
}

/// Whether a stored row holds `s` in stored form (see `status_row`).
pub open spec fn stored_form(row: StoredRow, s: StatusView) -> bool {
    match s {
        StatusView::Queued => row.state@ == lit_queued() && row.percent is None
            && row.message is None,
        StatusView::Analyzing(p) => row.state@ == lit_analyzing() && row.percent == Some(
            p as i64,
        ) && row.message is None,
        StatusView::Failed(m) => row.state@ == lit_failed() && row.percent is None && opt_chars(
            row.message,
        ) == Some(m),
    }
}

/// The queue a list of stored rows describes (a later row for the same
/// hash replaces an earlier one).
pub open spec fn rows_map(rows: Seq<StoredRow>) -> Map<Seq<char>, StatusView>
    decreases rows.len(),
{
    if rows.len() == 0 {
        Map::empty()
    } else {
        rows_map(rows.drop_last()).insert(
            rows.last().hash@,
            status_from_row_spec(
                rows.last().state@,
                rows.last().percent,
                opt_chars(rows.last().message),
            ),
        )
    }
}

proof fn lemma_entries_map_has(e: Seq<Entry>, i: int)
    requires
        unique_hashes(e),
        0 <= i < e.len(),
    ensures
        entries_map(e).contains_key(e[i].hash@),
        entries_map(e)[e[i].hash@] == e[i].status@,
    decreases e.len(),
{
    if i < e.len() - 1 {
        lemma_entries_map_has(e.drop_last(), i);
    }
}

proof fn lemma_entries_map_dom(e: Seq<Entry>, h: Seq<char>)
    ensures
        entries_map(e).contains_key(h) <==> exists|i: int| 0 <= i < e.len() && e[i].hash@ == h,
    decreases e.len(),
{
    if e.len() > 0 {
        lemma_entries_map_dom(e.drop_last(), h);
        if entries_map(e.drop_last()).contains_key(h) {
            let i = choose|i: int| 0 <= i < e.drop_last().len() && e.drop_last()[i].hash@ == h;
            assert(e[i].hash@ == h);
        }
        if exists|i: int| 0 <= i < e.len() && e[i].hash@ == h {
            let i = choose|i: int| 0 <= i < e.len() && e[i].hash@ == h;
            if i < e.len() - 1 {
                assert(e.drop_last()[i].hash@ == h);
            }
        }
    }
}

fn position(entries: &Vec<Entry>, hash: &String) -> (r: Option<usize>)
    ensures
        match r {
            Some(i) => i < entries@.len() && entries@[i as int].hash@ == hash@,
            None => forall|i: int| 0 <= i < entries@.len() ==> entries@[i].hash@ != hash@,
        },
{
    let mut i: usize = 0;
    while i < entries.len()
        invariant
            i <= entries@.len(),
            forall|j: int| 0 <= j < i ==> entries@[j].hash@ != hash@,
        decreases entries@.len() - i,
    {
        if entries[i].hash == *hash {
            return Some(i);
        }
        i = i + 1;
    }
    None
}

impl AnalysisQueue {
    #[verifier::type_invariant]
    spec fn wf(self) -> bool {
        unique_hashes(self.entries@)
    }

    /// Song hash to status.
    pub closed spec fn view_map(&self) -> Map<Seq<char>, StatusView> {
        entries_map(self.entries@)
    }

    pub fn new() -> (r: AnalysisQueue)
        ensures
            r.view_map() == Map::<Seq<char>, StatusView>::empty(),
    {
        AnalysisQueue { entries: Vec::new() }
    }

    /// The status stored for `hash`, if any.
    pub fn get(&self, hash: &String) -> (r: Option<&QueuedStatus>)
        ensures
            match r {
                Some(s) => self.view_map().contains_key(hash@) && self.view_map()[hash@] == s@,
                None => !self.view_map().contains_key(hash@),
            },
    {
        proof {
            use_type_invariant(self);
            lemma_entries_map_dom(self.entries@, hash@);
        }
        match position(&self.entries, hash) {
            Some(i) => {
                proof {
                    lemma_entries_map_has(self.entries@, i as int);
                }
                Some(&self.entries[i].status)
            },
            None => None,
        }
    }

    pub fn contains_key(&self, hash: &String) -> (r: bool)
        ensures
            r == self.view_map().contains_key(hash@),
    {
        self.get(hash).is_some()
    }

    /// Whether some song is marked as being analyzed.
    pub fn has_analyzing(&self) -> (r: bool)
        ensures
            r == exists|h: Seq<char>|
                #[trigger] self.view_map().contains_key(h) && self.view_map()[h] is Analyzing,
    {
        proof {
            use_type_invariant(self);
        }
        let mut i: usize = 0;
        while i < self.entries.len()
            invariant
                unique_hashes(self.entries@),
                i <= self.entries@.len(),
                forall|j: int| 0 <= j < i ==> !(self.entries@[j].status@ is Analyzing),
            decreases self.entries@.len() - i,
        {
            if let QueuedStatus::Analyzing(_) = self.entries[i].status {
                proof {
                    lemma_entries_map_has(self.entries@, i as int);
                    assert(self.view_map().contains_key(self.entries@[i as int].hash@));
                }
                return true;
            }
            i = i + 1;
        }
        proof {
            assert forall|h: Seq<char>| #[trigger]
                self.view_map().contains_key(h) implies !(self.view_map()[h] is Analyzing) by {
                lemma_entries_map_dom(self.entries@, h);
                let k = choose|k: int| 0 <= k < self.entries@.len() && self.entries@[k].hash@ == h;
                lemma_entries_map_has(self.entries@, k);
            }
        }
        false
    }

    /// Sets the status of `hash`, adding it when absent.
    pub fn set(&mut self, hash: String, status: QueuedStatus)
        ensures
            final(self).view_map() == old(self).view_map().insert(hash@, status@),
    {
        proof {
            use_type_invariant(&*self);
        }
        let mut entries: Vec<Entry> = Vec::new();
        std::mem::swap(&mut entries, &mut self.entries);
        let ghost before = entries@;
        assert(unique_hashes(before));
        let pos = position(&entries, &hash);
        if let Some(i) = pos {
            let ghost old_e = entries@;
            entries.set(i, Entry { hash, status });
            proof {
                assert forall|a: int, b: int| 0 <= a < b < entries@.len() implies entries@[a].hash@
                    != entries@[b].hash@ by {
                    if a != i && b != i {
                        assert(old_e[a].hash@ != old_e[b].hash@);
                    } else if a == i {
                        assert(old_e[a].hash@ != old_e[b].hash@);
                    } else {
                        assert(old_e[a].hash@ != old_e[b].hash@);
                    }
                }
                assert forall|h: Seq<char>| #[trigger]
                    entries_map(entries@).contains_key(h) == entries_map(old_e).insert(
                        entries@[i as int].hash@,
                        entries@[i as int].status@,
                    ).contains_key(h) by {
                    lemma_entries_map_dom(entries@, h);
                    lemma_entries_map_dom(old_e, h);
                    if h != entries@[i as int].hash@ {
                        if exists|k: int| 0 <= k < old_e.len() && old_e[k].hash@ == h {
                            let k = choose|k: int| 0 <= k < old_e.len() && old_e[k].hash@ == h;
                            assert(entries@[k].hash@ == h);
                        }
                        if exists|k: int| 0 <= k < entries@.len() && entries@[k].hash@ == h {
                            let k = choose|k: int| 0 <= k < entries@.len() && entries@[k].hash@ == h;
                            assert(old_e[k].hash@ == h);
                        }
                    } else {
                        assert(entries@[i as int].hash@ == h);
                    }
                }
                assert forall|h: Seq<char>|
                    #[trigger] entries_map(entries@).contains_key(h) implies entries_map(entries@)[h]
                    == entries_map(old_e).insert(
                        entries@[i as int].hash@,
                        entries@[i as int].status@,
                    )[h] by {
                    lemma_entries_map_dom(entries@, h);
                    let k = choose|k: int| 0 <= k < entries@.len() && entries@[k].hash@ == h;
                    lemma_entries_map_has(entries@, k);
                    if k != i {
                        assert(old_e[k] == entries@[k]);
                        lemma_entries_map_has(old_e, k);
                    }
                }
                assert(entries_map(entries@) =~= entries_map(old_e).insert(hash@, status@));
            }
        } else {
            let ghost old_e = entries@;
            entries.push(Entry { hash, status });
            proof {
                assert(entries@.drop_last() =~= old_e);
                assert forall|a: int, b: int| 0 <= a < b < entries@.len() implies entries@[a].hash@
                    != entries@[b].hash@ by {
                    if b < old_e.len() {
                        assert(old_e[a].hash@ != old_e[b].hash@);
                    }
                }
            }
        }
        *self = AnalysisQueue { entries };
    }

    /// The queue described by stored rows.
    pub fn from_rows(rows: Vec<StoredRow>) -> (r: AnalysisQueue)
        ensures
            r.view_map() == rows_map(rows@),
    {
        let mut q = AnalysisQueue::new();
        let mut k: usize = 0;
        while k < rows.len()
            invariant
                k <= rows@.len(),
                q.view_map() == rows_map(rows@.take(k as int)),
            decreases rows@.len() - k,
        {
            let row = &rows[k];
            let message = match &row.message {
                Some(m) => Some(m.clone()),
                None => None,
            };
            let status = status_from_row(row.state.as_str(), row.percent, message);
            q.set(row.hash.clone(), status);
            proof {
                assert(rows@.take(k + 1).drop_last() =~= rows@.take(k as int));
            }
            k = k + 1;
        }
        assert(rows@.take(rows@.len() as int) =~= rows@);
        q
    }

    /// Every entry as a stored row, for writing back: one row per song, in
    /// the stored form of its status.
    pub fn rows(&self) -> (r: Vec<StoredRow>)
        ensures
            rows_map(r@) == self.view_map(),
            forall|i: int, j: int| 0 <= i < j < r@.len() ==> r@[i].hash@ != r@[j].hash@,
            forall|i: int|
                0 <= i < r@.len() ==> self.view_map().contains_key(#[trigger] r@[i].hash@)
                    && stored_form(r@[i], self.view_map()[r@[i].hash@]),
    {
        proof {
            use_type_invariant(self);
        }
        let mut out: Vec<StoredRow> = Vec::new();
        let mut i: usize = 0;
        while i < self.entries.len()
            invariant
                i <= self.entries@.len(),
                unique_hashes(self.entries@),
                rows_map(out@) == entries_map(self.entries@.take(i as int)),
                out@.len() == i,
                forall|k: int|
                    0 <= k < i ==> out@[k].hash@ == self.entries@[k].hash@ && stored_form(
                        #[trigger] out@[k],
                        self.entries@[k].status@,
                    ),
            decreases self.entries@.len() - i,
        {
            let e = &self.entries[i];
            let row = status_row(&e.status);
            let stored = StoredRow {
                hash: e.hash.clone(),
                state: row.state,
                percent: row.percent,
                message: row.message,
            };
            proof {
                lemma_status_row_round_trip(e.status@);
                assert(self.entries@.take(i + 1).drop_last() =~= self.entries@.take(i as int));
            }
            let ghost before = out@;
            out.push(stored);
            assert(out@.drop_last() =~= before);
            i = i + 1;
        }
        assert(self.entries@.take(self.entries@.len() as int) =~= self.entries@);
        assert forall|k: int| 0 <= k < out@.len() implies self.view_map().contains_key(
            #[trigger] out@[k].hash@,
        ) && stored_form(out@[k], self.view_map()[out@[k].hash@]) by {
            lemma_entries_map_has(self.entries@, k);
        }
        out
    }

    /// Number of songs waiting for or under analysis.
    pub fn busy_count(&self) -> (r: usize)
        ensures
            r as int == self.view_map().dom().filter(
                |h: Seq<char>| is_busy(self.view_map()[h]),
            ).len(),
    {
        proof {
            use_type_invariant(self);
        }
        let ghost m = self.view_map();
        let ghost pred = |h: Seq<char>| is_busy(m[h]);
        let mut count: usize = 0;
        let mut i: usize = 0;
        let ghost mut seen: Set<Seq<char>> = Set::empty();
        while i < self.entries.len()
            invariant
                unique_hashes(self.entries@),
                m == entries_map(self.entries@),
                pred == (|h: Seq<char>| is_busy(m[h])),
                i <= self.entries@.len(),
                seen == Set::new(
                    |h: Seq<char>|
                        exists|j: int|
                            0 <= j < i && self.entries@[j].hash@ == h && is_busy(
                                self.entries@[j].status@,
                            ),
                ),
                seen.finite(),
                count as int == seen.len(),
                count <= i,
            decreases self.entries@.len() - i,
        {
            let e = &self.entries[i];
            let busy = match e.status {
                QueuedStatus::Queued => true,
                QueuedStatus::Analyzing(_) => true,
                QueuedStatus::Failed(_) => false,
            };
            let ghost next = Set::new(
                |h: Seq<char>|
                    exists|j: int|
                        0 <= j < i + 1 && self.entries@[j].hash@ == h && is_busy(
                            self.entries@[j].status@,
                        ),
            );
            proof {
                if busy {
                    assert(!seen.contains(e.hash@)) by {
                        if seen.contains(e.hash@) {
                            let j = choose|j: int|
                                0 <= j < i && self.entries@[j].hash@ == e.hash@ && is_busy(
                                    self.entries@[j].status@,
                                );
                            assert(self.entries@[j].hash@ != self.entries@[i as int].hash@);
                        }
                    }
                    assert(next =~= seen.insert(e.hash@));
                } else {
                    assert forall|h: Seq<char>| next.contains(h) implies seen.contains(h) by {
                        let j = choose|j: int|
                            0 <= j < i + 1 && self.entries@[j].hash@ == h && is_busy(
                                self.entries@[j].status@,
                            );
                        assert(j != i);
                    }
                    assert(next =~= seen);
                }
            }
            if busy {
                count = count + 1;
            }
            proof {
                seen = next;
            }
            i = i + 1;
        }
        proof {
            assert forall|h: Seq<char>| seen.contains(h) <==> m.dom().filter(pred).contains(h) by {
                lemma_entries_map_dom(self.entries@, h);
                if seen.contains(h) {
                    let j = choose|j: int|
                        0 <= j < self.entries@.len() && self.entries@[j].hash@ == h && is_busy(
                            self.entries@[j].status@,
                        );
                    lemma_entries_map_has(self.entries@, j);
                }
                if m.dom().filter(pred).contains(h) {
                    let j = choose|j: int|
                        0 <= j < self.entries@.len() && self.entries@[j].hash@ == h;
                    lemma_entries_map_has(self.entries@, j);
                }
            }
            assert(seen =~= m.dom().filter(pred));
        }
        count
    }
}


// ─── Work queue ──────────────────────────────────────────────────────

pub open spec fn no_dup(s: Seq<Seq<char>>) -> bool {
    forall|i: int, j: int| 0 <= i < j < s.len() ==> s[i] != s[j]
}

/// The in-memory side of analysis: the hashes waiting in order, the one
/// being worked on, the hashes whose work was cancelled, and whether a
/// worker is running.
pub struct AnalyzerState {
    queue: Vec<String>,
    active: Option<String>,
    cancelled: Vec<String>,
    worker_running: bool,
}

pub struct AnalyzerView {
    pub queue: Seq<Seq<char>>,
    pub active: Option<Seq<char>>,
    pub cancelled: Set<Seq<char>>,
    pub worker_running: bool,
}

/// What holds of the work queue at every moment: no hash is queued twice,
/// the running hash is not queued, and without a worker nothing is queued
/// or running.
pub open spec fn queue_invariant(v: AnalyzerView) -> bool {
    &&& no_dup(v.queue)
    &&& v.active matches Some(a) ==> !v.queue.contains(a)
    &&& !v.worker_running ==> v.queue.len() == 0 && v.active is None
}

/// A song hash offered to the queue, with whether it is a USDX song (those
/// come with their own timing and are never analyzed).
pub struct Candidate {
    pub hash: String,
    pub is_usdx: bool,
}

/// What an enqueue did: the hashes newly queued, in order, and whether a
/// worker has to be started for them.
pub struct EnqueueOutcome {
    pub newly_queued: Vec<String>,
    pub start_worker: bool,
}

/// Songs to analyze: picked by hash, or matched by a library filter (whose
/// matches skip songs the persisted queue already lists).
pub enum EnqueueTarget {
    Hashes(Vec<Candidate>),
    Filtered(Vec<Candidate>),
}

/// Queue after offering one candidate.
pub open spec fn enqueue_step(
    q: Seq<Seq<char>>,
    active: Option<Seq<char>>,
    persisted: Option<Map<Seq<char>, StatusView>>,
    hash: Seq<char>,
    is_usdx: bool,
) -> Seq<Seq<char>> {
    if is_usdx || (persisted matches Some(m) && m.contains_key(hash)) || active == Some(hash)
        || q.contains(hash) {
        q
    } else {
        q.push(hash)
    }
}

/// Queue after offering the candidates in order.
pub open spec fn enqueue_all(
    q: Seq<Seq<char>>,
    active: Option<Seq<char>>,
    persisted: Option<Map<Seq<char>, StatusView>>,
    cs: Seq<Candidate>,
) -> Seq<Seq<char>>
    decreases cs.len(),
{
    if cs.len() == 0 {
        q
    } else {
        enqueue_step(
            enqueue_all(q, active, persisted, cs.drop_last()),
            active,
            persisted,
            cs.last().hash@,
            cs.last().is_usdx,
        )
    }
}

proof fn lemma_enqueue_all(
    q: Seq<Seq<char>>,
    active: Option<Seq<char>>,
    persisted: Option<Map<Seq<char>, StatusView>>,
    cs: Seq<Candidate>,
)
    requires
        no_dup(q),
        active matches Some(a) ==> !q.contains(a),
    ensures
        no_dup(enqueue_all(q, active, persisted, cs)),
        enqueue_all(q, active, persisted, cs).len() >= q.len(),
        enqueue_all(q, active, persisted, cs).take(q.len() as int) == q,
        active matches Some(a) ==> !enqueue_all(q, active, persisted, cs).contains(a),
        forall|i: int|
            0 <= i < cs.len() && !cs[i].is_usdx && !(persisted matches Some(m) && m.contains_key(
                cs[i].hash@,
            )) && active != Some(cs[i].hash@) ==> enqueue_all(
                q,
                active,
                persisted,
                cs,
            ).contains(#[trigger] cs[i].hash@),
        forall|h: Seq<char>|
            #[trigger] enqueue_all(q, active, persisted, cs).contains(h) ==> q.contains(h)
                || exists|i: int| 0 <= i < cs.len() && cs[i].hash@ == h && !cs[i].is_usdx,
    decreases cs.len(),
{
    if cs.len() > 0 {
        let prev = enqueue_all(q, active, persisted, cs.drop_last());
        lemma_enqueue_all(q, active, persisted, cs.drop_last());
        let c = cs.last();
        let next = enqueue_all(q, active, persisted, cs);
        assert(next == enqueue_step(prev, active, persisted, c.hash@, c.is_usdx));
        if next != prev {
            assert(next == prev.push(c.hash@));
            assert(no_dup(next)) by {
                assert forall|i: int, j: int| 0 <= i < j < next.len() implies next[i]
                    != next[j] by {
                    if j == next.len() - 1 {
                        assert(prev.contains(prev[i]));
                    }
                }
            }
            assert(next.take(q.len() as int) =~= prev.take(q.len() as int));
        }
        assert forall|i: int|
            0 <= i < cs.len() && !cs[i].is_usdx && !(persisted matches Some(m) && m.contains_key(
                cs[i].hash@,
            )) && active != Some(cs[i].hash@) implies next.contains(#[trigger] cs[i].hash@) by {
            if i < cs.len() - 1 {
                assert(cs.drop_last()[i] == cs[i]);
                assert(prev.contains(cs[i].hash@));
                let k = choose|k: int| 0 <= k < prev.len() && prev[k] == cs[i].hash@;
                if next != prev {
                    assert(next[k] == prev[k]);
                }
            } else {
                if next != prev {
                    assert(next[next.len() - 1] == c.hash@);
                }
            }
        }
        assert forall|h: Seq<char>| #[trigger] next.contains(h) implies q.contains(h) || exists|
            i: int,
        | 0 <= i < cs.len() && cs[i].hash@ == h && !cs[i].is_usdx by {
            let k = choose|k: int| 0 <= k < next.len() && next[k] == h;
            if k < prev.len() {
                assert(prev.contains(h));
                if !q.contains(h) {
                    let i = choose|i: int|
                        0 <= i < cs.drop_last().len() && cs.drop_last()[i].hash@ == h
                            && !cs.drop_last()[i].is_usdx;
                    assert(cs[i] == cs.drop_last()[i]);
                }
            } else {
                assert(cs[cs.len() - 1].hash@ == h);
            }
        }
    }
}

/// Offering candidates that the queue already holds (or that are skipped
/// anyway) changes nothing.
proof fn lemma_enqueue_all_settled(
    q: Seq<Seq<char>>,
    active: Option<Seq<char>>,
    persisted: Option<Map<Seq<char>, StatusView>>,
    cs: Seq<Candidate>,
)
    requires
        forall|i: int|
            0 <= i < cs.len() && !cs[i].is_usdx && !(persisted matches Some(m) && m.contains_key(
                cs[i].hash@,
            )) && active != Some(cs[i].hash@) ==> q.contains(#[trigger] cs[i].hash@),
    ensures
        enqueue_all(q, active, persisted, cs) == q,
    decreases cs.len(),
{
    if cs.len() > 0 {
        assert forall|i: int|
            0 <= i < cs.drop_last().len() && !cs.drop_last()[i].is_usdx && !(persisted matches Some(
                m,
            ) && m.contains_key(cs.drop_last()[i].hash@)) && active != Some(cs.drop_last()[i].hash@)
            implies q.contains(#[trigger] cs.drop_last()[i].hash@) by {
            assert(cs.drop_last()[i] == cs[i]);
        }
        lemma_enqueue_all_settled(q, active, persisted, cs.drop_last());
        let c = cs.last();
        if !c.is_usdx && !(persisted matches Some(m) && m.contains_key(c.hash@)) && active != Some(
            c.hash@,
        ) {
            assert(q.contains(cs[cs.len() - 1].hash@));
        }
    }
}

/// Enqueuing is idempotent: offering the same songs a second time, with
/// the same running job and persisted queue, queues nothing more.
pub proof fn lemma_enqueue_idempotent(
    q: Seq<Seq<char>>,
    active: Option<Seq<char>>,
    persisted: Option<Map<Seq<char>, StatusView>>,
    cs: Seq<Candidate>,
)
    requires
        no_dup(q),
        active matches Some(a) ==> !q.contains(a),
    ensures
        enqueue_all(enqueue_all(q, active, persisted, cs), active, persisted, cs) == enqueue_all(
            q,
            active,
            persisted,
            cs,
        ),
{
    lemma_enqueue_all(q, active, persisted, cs);
    lemma_enqueue_all_settled(enqueue_all(q, active, persisted, cs), active, persisted, cs);
}

/// Queue without any copy of `h`.
pub open spec fn remove_all(q: Seq<Seq<char>>, h: Seq<char>) -> Seq<Seq<char>>
    decreases q.len(),
{
    if q.len() == 0 {
        q
    } else if q.last() == h {
        remove_all(q.drop_last(), h)
    } else {
        remove_all(q.drop_last(), h).push(q.last())
    }
}

proof fn lemma_remove_all(q: Seq<Seq<char>>, h: Seq<char>)
    ensures
        !remove_all(q, h).contains(h),
        forall|x: Seq<char>| #[trigger] remove_all(q, h).contains(x) <==> (q.contains(x) && x != h),
        no_dup(q) ==> no_dup(remove_all(q, h)),
        remove_all(q, h).len() <= q.len(),
    decreases q.len(),
{
    if q.len() > 0 {
        lemma_remove_all(q.drop_last(), h);
        let p = remove_all(q.drop_last(), h);
        assert forall|x: Seq<char>| #[trigger] remove_all(q, h).contains(x) <==> (q.contains(x)
            && x != h) by {
            if q.contains(x) && x != h {
                let k = choose|k: int| 0 <= k < q.len() && q[k] == x;
                if k < q.len() - 1 {
                    assert(q.drop_last()[k] == x);
                    assert(q.drop_last().contains(x));
                    assert(p.contains(x));
                    if q.last() != h {
                        let j = choose|j: int| 0 <= j < p.len() && p[j] == x;
                        assert(p.push(q.last())[j] == x);
                    }
                } else {
                    assert(p.push(q.last())[p.len() as int] == x);
                }
            }
            if remove_all(q, h).contains(x) {
                let k = choose|k: int| 0 <= k < remove_all(q, h).len() && remove_all(q, h)[k] == x;
                if q.last() == h || k < p.len() {
                    assert(p.contains(x));
                    let j = choose|j: int| 0 <= j < q.drop_last().len() && q.drop_last()[j] == x;
                    assert(q[j] == x);
                } else {
                    assert(q[q.len() - 1] == x);
                }
            }
        }
        if no_dup(q) && q.last() != h {
            assert(no_dup(q.drop_last()));
            assert forall|i: int, j: int| 0 <= i < j < p.push(q.last()).len() implies p.push(
                q.last(),
            )[i] != p.push(q.last())[j] by {
                if j == p.len() {
                    assert(p.contains(p[i]));
                    if p[i] == q.last() {
                        let k = choose|k: int| 0 <= k < q.drop_last().len() && q.drop_last()[k]
                            == q.last();
                        assert(q[k] == q[q.len() - 1]);
                    }
                }
            }
        }
        if no_dup(q) && q.last() == h {
            assert(no_dup(q.drop_last()));
        }
    }
}

/// Bookkeeping while cancelling: queue, cancellation marks, the hashes
/// affected so far, and whether the running analysis must be interrupted.
pub struct CancelView {
    pub queue: Seq<Seq<char>>,
    pub cancelled: Set<Seq<char>>,
    pub affected: Seq<Seq<char>>,
    pub interrupt: bool,
}

/// Effect of cancelling one hash. A hash counts when the persisted queue
/// lists it as queued or analyzing, when it is the running job (and some
/// analysis is persisted as running or it is itself persisted busy), or
/// when it waits in the queue. It then leaves the queue; a running or
/// persisted-running one is marked cancelled; the running analysis is
/// interrupted when the hash is persisted as analyzing or is the running job
/// while some analysis is persisted as running.
pub open spec fn cancel_step(
    s: CancelView,
    persisted: Map<Seq<char>, StatusView>,
    has_active_row: bool,
    active: Option<Seq<char>>,
    h: Seq<char>,
) -> CancelView {
    let persisted_busy = persisted.contains_key(h) && is_busy(persisted[h]);
    let is_active = active == Some(h) && (persisted_busy || has_active_row);
    let queued = s.queue.contains(h);
    if !persisted_busy && !is_active && !queued {
        s
    } else {
        let persisted_analyzing = persisted.contains_key(h) && persisted[h] is Analyzing;
        CancelView {
            queue: remove_all(s.queue, h),
            cancelled: if is_active || persisted_analyzing {
                s.cancelled.insert(h)
            } else {
                s.cancelled
            },
            affected: s.affected.push(h),
            interrupt: s.interrupt || persisted_analyzing || (is_active && has_active_row),
        }
    }
}

pub open spec fn cancel_all(
    s: CancelView,
    persisted: Map<Seq<char>, StatusView>,
    has_active_row: bool,
    active: Option<Seq<char>>,
    hs: Seq<Seq<char>>,
) -> CancelView
    decreases hs.len(),
{
    if hs.len() == 0 {
        s
    } else {
        cancel_step(
            cancel_all(s, persisted, has_active_row, active, hs.drop_last()),
            persisted,
            has_active_row,
            active,
            hs.last(),
        )
    }
}

proof fn lemma_cancel_all(
    s: CancelView,
    persisted: Map<Seq<char>, StatusView>,
    has_active_row: bool,
    active: Option<Seq<char>>,
    hs: Seq<Seq<char>>,
)
    requires
        no_dup(s.queue),
        active matches Some(a) ==> !s.queue.contains(a),
    ensures
        no_dup(cancel_all(s, persisted, has_active_row, active, hs).queue),
        active matches Some(a) ==> !cancel_all(s, persisted, has_active_row, active, hs).queue.contains(a),
        cancel_all(s, persisted, has_active_row, active, hs).queue.len() <= s.queue.len(),
        forall|i: int|
            0 <= i < hs.len() ==> !cancel_all(
                s,
                persisted,
                has_active_row,
                active,
                hs,
            ).queue.contains(#[trigger] hs[i]),
        forall|x: Seq<char>|
            #[trigger] cancel_all(s, persisted, has_active_row, active, hs).queue.contains(x)
                ==> s.queue.contains(x),
    decreases hs.len(),
{
    if hs.len() > 0 {
        lemma_cancel_all(s, persisted, has_active_row, active, hs.drop_last());
        let prev = cancel_all(s, persisted, has_active_row, active, hs.drop_last());
        lemma_remove_all(prev.queue, hs.last());
        let next = cancel_all(s, persisted, has_active_row, active, hs);
        assert forall|i: int| 0 <= i < hs.len() implies !next.queue.contains(#[trigger] hs[i]) by {
            if i < hs.len() - 1 {
                assert(hs.drop_last()[i] == hs[i]);
                assert(!prev.queue.contains(hs[i]));
            }
        }
    }
}

/// What a cancellation did: the hashes affected and whether the running
/// analysis has to be interrupted.
pub struct CancelOutcome {
    pub affected: Vec<String>,
    pub interrupt: bool,
}

fn vec_contains(v: &Vec<String>, h: &String) -> (r: bool)
    ensures
        r == strs(v@).contains(h@),
{
    let mut i: usize = 0;
    while i < v.len()
        invariant
            i <= v@.len(),
            forall|j: int| 0 <= j < i ==> v@[j]@ != h@,
        decreases v@.len() - i,
    {
        if v[i] == *h {
            assert(strs(v@)[i as int] == h@);
            return true;
        }
        i = i + 1;
    }
    proof {
        if strs(v@).contains(h@) {
            let k = choose|k: int| 0 <= k < strs(v@).len() && strs(v@)[k] == h@;
            assert(v@[k]@ == h@);
        }
    }
    false
}

fn remove_all_vec(v: Vec<String>, h: &String) -> (r: Vec<String>)
    ensures
        strs(r@) == remove_all(strs(v@), h@),
{
    let mut out: Vec<String> = Vec::new();
    let mut i: usize = 0;
    while i < v.len()
        invariant
            i <= v@.len(),
            strs(out@) == remove_all(strs(v@).take(i as int), h@),
        decreases v@.len() - i,
    {
        proof {
            assert(strs(v@).take(i + 1).drop_last() =~= strs(v@).take(i as int));
            assert(strs(v@).take(i + 1).last() == v@[i as int]@);
        }
        if v[i] != *h {
            let ghost before = out@;
            out.push(v[i].clone());
            assert(strs(out@) =~= strs(before).push(v@[i as int]@));
        }
        i = i + 1;
    }
    assert(strs(v@).take(v@.len() as int) =~= strs(v@));
    out
}

impl AnalyzerState {
    #[verifier::type_invariant]
    spec fn wf(self) -> bool {
        &&& no_dup(strs(self.queue@))
        &&& self.active matches Some(a) ==> !strs(self.queue@).contains(a@)
        &&& !self.worker_running ==> self.queue@.len() == 0 && self.active is None
    }

    pub closed spec fn view(&self) -> AnalyzerView {
        AnalyzerView {
            queue: strs(self.queue@),
            active: opt_chars(self.active),
            cancelled: strs(self.cancelled@).to_set(),
            worker_running: self.worker_running,
        }
    }

    /// Nothing queued, nothing running, nothing cancelled.
    pub fn new() -> (r: AnalyzerState)
        ensures
            r.view().queue.len() == 0,
            r.view().active is None,
            r.view().cancelled == Set::<Seq<char>>::empty(),
            !r.view().worker_running,
            queue_invariant(r.view()),
    {
        let r = AnalyzerState {
            queue: Vec::new(),
            active: None,
            cancelled: Vec::new(),
            worker_running: false,
        };
        assert(strs(r.cancelled@).to_set() =~= Set::<Seq<char>>::empty());
        r
    }

    /// Offers songs to the queue. USDX songs, songs already queued or
    /// running, and (for filter targets) songs the persisted queue lists are
    /// left out; the rest are appended in order. A worker is started when
    /// none runs and something is queued.
    pub fn enqueue(&mut self, target: EnqueueTarget, persisted: &AnalysisQueue) -> (r:
        EnqueueOutcome)
        ensures
            queue_invariant(final(self).view()),
            ({
                let (cs, pm) = match target {
                    EnqueueTarget::Hashes(cs) => (cs@, None),
                    EnqueueTarget::Filtered(cs) => (cs@, Some(persisted.view_map())),
                };
                &&& final(self).view().queue == enqueue_all(
                    old(self).view().queue,
                    old(self).view().active,
                    pm,
                    cs,
                )
                &&& strs(r.newly_queued@) == final(self).view().queue.skip(
                    old(self).view().queue.len() as int,
                )
                &&& r.start_worker == (!old(self).view().worker_running
                    && final(self).view().queue.len() > 0)
                &&& final(self).view().worker_running == (old(self).view().worker_running
                    || r.start_worker)
                &&& final(self).view().active == old(self).view().active
                &&& final(self).view().cancelled == old(self).view().cancelled
                &&& forall|i: int|
                    0 <= i < cs.len() && !cs[i].is_usdx && !(pm matches Some(m) && m.contains_key(
                        cs[i].hash@,
                    )) ==> #[trigger] final(self).view().queue.contains(cs[i].hash@)
                        || final(self).view().active == Some(cs[i].hash@)
            }),
    {
        proof {
            use_type_invariant(&*self);
        }
        let (cs, skip_persisted) = match target {
            EnqueueTarget::Hashes(cs) => (cs, false),
            EnqueueTarget::Filtered(cs) => (cs, true),
        };
        let ghost pm = if skip_persisted {
            Some(persisted.view_map())
        } else {
            None
        };
        let mut cur = AnalyzerState::new();
        std::mem::swap(self, &mut cur);
        let AnalyzerState { mut queue, active, cancelled, worker_running } = cur;
        let ghost q0 = strs(queue@);
        let ghost a0 = opt_chars(active);
        let mut newly: Vec<String> = Vec::new();
        let mut i: usize = 0;
        while i < cs.len()
            invariant
                i <= cs@.len(),
                no_dup(q0),
                a0 matches Some(a) ==> !q0.contains(a),
                a0 == opt_chars(active),
                strs(queue@) == enqueue_all(q0, a0, pm, cs@.take(i as int)),
                strs(newly@) == strs(queue@).skip(q0.len() as int),
                pm == (if skip_persisted {
                    Some(persisted.view_map())
                } else {
                    None
                }),
            decreases cs@.len() - i,
        {
            let c = &cs[i];
            proof {
                lemma_enqueue_all(q0, a0, pm, cs@.take(i as int));
                assert(cs@.take(i + 1).drop_last() =~= cs@.take(i as int));
                assert(cs@.take(i + 1).last() == cs@[i as int]);
            }
            let skip = c.is_usdx || (skip_persisted && persisted.contains_key(&c.hash)) || (match &active {
                Some(a) => *a == c.hash,
                None => false,
            }) || vec_contains(&queue, &c.hash);
            if !skip {
                let ghost qb = strs(queue@);
                let ghost nb = strs(newly@);
                queue.push(c.hash.clone());
                newly.push(c.hash.clone());
                proof {
                    assert(strs(queue@) =~= qb.push(c.hash@));
                    assert(strs(newly@) =~= nb.push(c.hash@));
                    lemma_enqueue_all(q0, a0, pm, cs@.take(i as int));
                    assert(strs(queue@).skip(q0.len() as int) =~= qb.skip(q0.len() as int).push(
                        c.hash@,
                    ));
                }
            }
            i = i + 1;
        }
        proof {
            assert(cs@.take(cs@.len() as int) =~= cs@);
            lemma_enqueue_all(q0, a0, pm, cs@);
        }
        let start_worker = !worker_running && queue.len() > 0;
        let new_state = AnalyzerState {
            queue,
            active,
            cancelled,
            worker_running: worker_running || start_worker,
        };
        *self = new_state;
        EnqueueOutcome { newly_queued: newly, start_worker }
    }

    /// Cancels the analysis of `hashes` (see `cancel_step`).
    pub fn cancel(&mut self, hashes: &Vec<String>, persisted: &AnalysisQueue) -> (r: CancelOutcome)
        ensures
            queue_invariant(final(self).view()),
            ({
                let has_row = exists|h: Seq<char>|
                    #[trigger] persisted.view_map().contains_key(h) && persisted.view_map()[h] is Analyzing;
                let end = cancel_all(
                    CancelView {
                        queue: old(self).view().queue,
                        cancelled: old(self).view().cancelled,
                        affected: seq![],
                        interrupt: false,
                    },
                    persisted.view_map(),
                    has_row,
                    old(self).view().active,
                    strs(hashes@),
                );
                &&& final(self).view().queue == end.queue
                &&& final(self).view().cancelled == end.cancelled
                &&& strs(r.affected@) == end.affected
                &&& r.interrupt == end.interrupt
                &&& final(self).view().active == old(self).view().active
                &&& final(self).view().worker_running == old(self).view().worker_running
                &&& forall|i: int|
                    0 <= i < hashes@.len() ==> !final(self).view().queue.contains(
                        #[trigger] strs(hashes@)[i],
                    )
            }),
    {
        proof {
            use_type_invariant(&*self);
        }
        let has_active_row = persisted.has_analyzing();
        let mut cur = AnalyzerState::new();
        std::mem::swap(self, &mut cur);
        let AnalyzerState { mut queue, active, mut cancelled, worker_running } = cur;
        let ghost s0 = CancelView {
            queue: strs(queue@),
            cancelled: strs(cancelled@).to_set(),
            affected: seq![],
            interrupt: false,
        };
        let ghost a0 = opt_chars(active);
        let ghost hs = strs(hashes@);
        let mut affected: Vec<String> = Vec::new();
        let mut interrupt = false;
        let mut i: usize = 0;
        while i < hashes.len()
            invariant
                i <= hashes@.len(),
                hs == strs(hashes@),
                no_dup(s0.queue),
                a0 matches Some(a) ==> !s0.queue.contains(a),
                a0 == opt_chars(active),
                !worker_running ==> s0.queue.len() == 0 && a0 is None,
                ({
                    let c = cancel_all(s0, persisted.view_map(), has_active_row, a0, hs.take(i as int));
                    &&& strs(queue@) == c.queue
                    &&& strs(cancelled@).to_set() == c.cancelled
                    &&& strs(affected@) == c.affected
                    &&& interrupt == c.interrupt
                }),
            decreases hashes@.len() - i,
        {
            let h = &hashes[i];
            proof {
                assert(hs.take(i + 1).drop_last() =~= hs.take(i as int));
                assert(hs.take(i + 1).last() == h@);
            }
            let status = persisted.get(h);
            let persisted_busy = match status {
                Some(QueuedStatus::Queued) => true,
                Some(QueuedStatus::Analyzing(_)) => true,
                _ => false,
            };
            let is_active = (match &active {
                Some(a) => *a == *h,
                None => false,
            }) && (persisted_busy || has_active_row);
            let queued = vec_contains(&queue, h);
            if persisted_busy || is_active || queued {
                queue = remove_all_vec(queue, h);
                let persisted_analyzing = match status {
                    Some(QueuedStatus::Analyzing(_)) => true,
                    _ => false,
                };
                if is_active || persisted_analyzing {
                    let ghost cb = strs(cancelled@);
                    cancelled.push(h.clone());
                    assert(strs(cancelled@).to_set() =~= cb.to_set().insert(h@)) by {
                        assert(strs(cancelled@) =~= cb.push(h@));
                        assert forall|x: Seq<char>| strs(cancelled@).contains(x) <==> cb.to_set().insert(h@).contains(x) by {
                            if strs(cancelled@).contains(x) {
                                let k = choose|k: int| 0 <= k < strs(cancelled@).len() && strs(cancelled@)[k] == x;
                                if k < cb.len() {
                                    assert(cb[k] == x);
                                }
                            }
                            if cb.contains(x) {
                                let k = choose|k: int| 0 <= k < cb.len() && cb[k] == x;
                                assert(strs(cancelled@)[k] == x);
                            }
                            if x == h@ {
                                assert(strs(cancelled@)[cb.len() as int] == x);
                            }
                        }
                    }
                }
                if persisted_analyzing || (is_active && has_active_row) {
                    interrupt = true;
                }
                let ghost ab = strs(affected@);
                affected.push(h.clone());
                assert(strs(affected@) =~= ab.push(h@));
            }
            i = i + 1;
        }
        proof {
            assert(hs.take(hs.len() as int) =~= hs);
            lemma_cancel_all(s0, persisted.view_map(), has_active_row, a0, hs);
        }
        *self = AnalyzerState { queue, active, cancelled, worker_running };
        CancelOutcome { affected, interrupt }
    }

    /// The worker takes the next hash: it leaves the front of the queue and
    /// becomes the running one. With an empty queue the worker stops.
    pub fn next_job(&mut self) -> (r: Option<String>)
        ensures
            queue_invariant(final(self).view()),
            old(self).view().queue.len() > 0 ==> {
                &&& r matches Some(h) && h@ == old(self).view().queue[0]
                &&& final(self).view().queue == old(self).view().queue.drop_first()
                &&& final(self).view().active == Some(old(self).view().queue[0])
                &&& final(self).view().worker_running == old(self).view().worker_running
            },
            old(self).view().queue.len() == 0 ==> {
                &&& r is None
                &&& final(self).view().queue.len() == 0
                &&& final(self).view().active is None
                &&& !final(self).view().worker_running
            },
            final(self).view().cancelled == old(self).view().cancelled,
    {
        proof {
            use_type_invariant(&*self);
        }
        let mut cur = AnalyzerState::new();
        std::mem::swap(self, &mut cur);
        let AnalyzerState { mut queue, active: _, cancelled, worker_running } = cur;
        if queue.len() == 0 {
            *self = AnalyzerState { queue, active: None, cancelled, worker_running: false };
            return None;
        }
        let ghost q0 = strs(queue@);
        let h = queue.remove(0);
        proof {
            assert(strs(queue@) =~= q0.drop_first());
            assert(no_dup(strs(queue@)));
            if strs(queue@).contains(h@) {
                let k = choose|k: int| 0 <= k < strs(queue@).len() && strs(queue@)[k] == h@;
                assert(q0[k + 1] == q0[0]);
            }
        }
        let active = Some(h.clone());
        *self = AnalyzerState { queue, active, cancelled, worker_running };
        Some(h)
    }

    /// The running job is over.
    pub fn finish_job(&mut self)
        ensures
            queue_invariant(final(self).view()),
            final(self).view().active is None,
            final(self).view().queue == old(self).view().queue,
            final(self).view().cancelled == old(self).view().cancelled,
            final(self).view().worker_running == old(self).view().worker_running,
    {
        proof {
            use_type_invariant(&*self);
        }
        let mut cur = AnalyzerState::new();
        std::mem::swap(self, &mut cur);
        let AnalyzerState { queue, active: _, cancelled, worker_running } = cur;
        *self = AnalyzerState { queue, active: None, cancelled, worker_running };
    }

    /// Whether either hash is marked cancelled.
    pub fn is_cancelled(&self, file_hash: &String, initial_hash: &String) -> (r: bool)
        ensures
            r == (self.view().cancelled.contains(file_hash@) || self.view().cancelled.contains(
                initial_hash@,
            )),
    {
        vec_contains(&self.cancelled, file_hash) || vec_contains(&self.cancelled, initial_hash)
    }

    /// Clears the cancellation marks of both hashes; true when either was
    /// marked.
    pub fn take_cancelled(&mut self, initial_hash: &String, file_hash: &String) -> (r: bool)
        ensures
            queue_invariant(final(self).view()),
            r == (old(self).view().cancelled.contains(initial_hash@) || old(
                self,
            ).view().cancelled.contains(file_hash@)),
            final(self).view().cancelled == old(self).view().cancelled.remove(initial_hash@).remove(
                file_hash@,
            ),
            final(self).view().queue == old(self).view().queue,
            final(self).view().active == old(self).view().active,
            final(self).view().worker_running == old(self).view().worker_running,
    {
        proof {
            use_type_invariant(&*self);
        }
        let r = self.is_cancelled(initial_hash, file_hash);
        let mut cur = AnalyzerState::new();
        std::mem::swap(self, &mut cur);
        let AnalyzerState { queue, active, cancelled, worker_running } = cur;
        let ghost c0 = strs(cancelled@);
        let c1 = remove_all_vec(cancelled, initial_hash);
        let c2 = remove_all_vec(c1, file_hash);
        proof {
            lemma_remove_all(c0, initial_hash@);
            lemma_remove_all(remove_all(c0, initial_hash@), file_hash@);
            assert(strs(c2@).to_set() =~= c0.to_set().remove(initial_hash@).remove(file_hash@));
        }
        *self = AnalyzerState { queue, active, cancelled: c2, worker_running };
        r
    }
}


// ─── Targets ─────────────────────────────────────────────────────────

/// `hs` with every repeat of an earlier hash left out.
pub open spec fn dedup_spec(hs: Seq<Seq<char>>) -> Seq<Seq<char>>
    decreases hs.len(),
{
    if hs.len() == 0 {
        hs
    } else if dedup_spec(hs.drop_last()).contains(hs.last()) {
        dedup_spec(hs.drop_last())
    } else {
        dedup_spec(hs.drop_last()).push(hs.last())
    }
}

/// Deduplicating keeps exactly the hashes named, each once.
pub proof fn lemma_dedup(hs: Seq<Seq<char>>)
    ensures
        no_dup(dedup_spec(hs)),
        forall|h: Seq<char>| #[trigger] dedup_spec(hs).contains(h) <==> hs.contains(h),
    decreases hs.len(),
{
    if hs.len() > 0 {
        lemma_dedup(hs.drop_last());
        let p = dedup_spec(hs.drop_last());
        let d = dedup_spec(hs);
        assert forall|h: Seq<char>| #[trigger] d.contains(h) <==> hs.contains(h) by {
            if hs.contains(h) {
                let k = choose|k: int| 0 <= k < hs.len() && hs[k] == h;
                if k < hs.len() - 1 {
                    assert(hs.drop_last()[k] == h);
                    assert(hs.drop_last().contains(h));
                    assert(p.contains(h));
                    if !p.contains(hs.last()) {
                        let j = choose|j: int| 0 <= j < p.len() && p[j] == h;
                        assert(d[j] == h);
                    }
                } else if !p.contains(hs.last()) {
                    assert(d[p.len() as int] == h);
                }
            }
            if d.contains(h) {
                let j = choose|j: int| 0 <= j < d.len() && d[j] == h;
                if j < p.len() {
                    assert(p[j] == h);
                    assert(p.contains(h));
                    let k = choose|k: int| 0 <= k < hs.drop_last().len() && hs.drop_last()[k] == h;
                    assert(hs[k] == h);
                } else {
                    assert(hs[hs.len() - 1] == h);
                }
            }
        }
        if !p.contains(hs.last()) {
            assert forall|i: int, j: int| 0 <= i < j < d.len() implies d[i] != d[j] by {
                if j == p.len() {
                    assert(p.contains(p[i]));
                }
            }
        }
    }
}

/// The hashes a target names, each once, in first-seen order.
pub fn resolve_target(hashes: Vec<String>) -> (r: Vec<String>)
    ensures
        strs(r@) == dedup_spec(strs(hashes@)),
{
    let mut out: Vec<String> = Vec::new();
    let mut i: usize = 0;
    while i < hashes.len()
        invariant
            i <= hashes@.len(),
            strs(out@) == dedup_spec(strs(hashes@).take(i as int)),
        decreases hashes@.len() - i,
    {
        proof {
            assert(strs(hashes@).take(i + 1).drop_last() =~= strs(hashes@).take(i as int));
            assert(strs(hashes@).take(i + 1).last() == hashes@[i as int]@);
        }
        if !vec_contains(&out, &hashes[i]) {
            let ghost before = strs(out@);
            out.push(hashes[i].clone());
            assert(strs(out@) =~= before.push(hashes@[i as int]@));
        }
        i = i + 1;
    }
    assert(strs(hashes@).take(hashes@.len() as int) =~= strs(hashes@));
    out
}

// ─── Per-song actions ────────────────────────────────────────────────

/// One thing a bulk action does to a song's cache, library row or queue.
pub enum SongEffect {
    /// Remove every cached file of the song.
    DeleteSongCache,
    /// Remove the transcript.
    RemoveTranscript,
    /// Remove the tempo-shifted transcript variants.
    DeleteTranscriptVariants,
    /// Remove the plain-lyrics file.
    RemoveLyrics,
    /// Write the transcript's lines as the plain-lyrics file, unless one exists.
    MaterializeLyrics,
    /// Remember a language for the song's next analysis.
    SetLanguageOverride(String),
    /// Mark the song unanalyzed with this language.
    MarkUnanalyzed(Option<String>),
    /// Skip the lyrics lookup on the next analysis.
    ForceTranscribe,
    /// Queue the song for analysis.
    Enqueue,
    /// Re-read the song's tags and cover from its source.
    RefreshMetadata,
}

pub enum EffectView {
    DeleteSongCache,
    RemoveTranscript,
    DeleteTranscriptVariants,
    RemoveLyrics,
    MaterializeLyrics,
    SetLanguageOverride(Seq<char>),
    MarkUnanalyzed(Option<Seq<char>>),
    ForceTranscribe,
    Enqueue,
    RefreshMetadata,
}

impl View for SongEffect {
    type V = EffectView;

    open spec fn view(&self) -> EffectView {
        match self {
            SongEffect::DeleteSongCache => EffectView::DeleteSongCache,
            SongEffect::RemoveTranscript => EffectView::RemoveTranscript,
            SongEffect::DeleteTranscriptVariants => EffectView::DeleteTranscriptVariants,
            SongEffect::RemoveLyrics => EffectView::RemoveLyrics,
            SongEffect::MaterializeLyrics => EffectView::MaterializeLyrics,
            SongEffect::SetLanguageOverride(l) => EffectView::SetLanguageOverride(l@),
            SongEffect::MarkUnanalyzed(l) => EffectView::MarkUnanalyzed(opt_chars(*l)),
            SongEffect::ForceTranscribe => EffectView::ForceTranscribe,
            SongEffect::Enqueue => EffectView::Enqueue,
            SongEffect::RefreshMetadata => EffectView::RefreshMetadata,
        }
    }
}

pub open spec fn effects_view(v: Seq<SongEffect>) -> Seq<EffectView> {
    v.map_values(|e: SongEffect| e@)
}

/// Effects of re-analysing a song: a full one drops its whole cache, a
/// partial one only transcript, variants and lyrics; either way the song is
/// marked unanalyzed and queued.
pub open spec fn reanalyze_spec(full: bool) -> Seq<EffectView> {
    if full {
        seq![EffectView::DeleteSongCache, EffectView::MarkUnanalyzed(None), EffectView::Enqueue]
    } else {
        seq![
            EffectView::RemoveTranscript,
            EffectView::DeleteTranscriptVariants,
            EffectView::RemoveLyrics,
            EffectView::MarkUnanalyzed(None),
            EffectView::Enqueue,
        ]
    }
}

fn reanalyze_effects(full: bool) -> (r: Vec<SongEffect>)
    ensures
        effects_view(r@) == reanalyze_spec(full),
{
    let r = if full {
        vec![SongEffect::DeleteSongCache, SongEffect::MarkUnanalyzed(None), SongEffect::Enqueue]
    } else {
        vec![
            SongEffect::RemoveTranscript,
            SongEffect::DeleteTranscriptVariants,
            SongEffect::RemoveLyrics,
            SongEffect::MarkUnanalyzed(None),
            SongEffect::Enqueue,
        ]
    };
    assert(effects_view(r@) =~= reanalyze_spec(full));
    r
}

/// A song a bulk action runs on: its hash, whether the library has it,
/// whether it is a USDX song, and the language it currently has.
pub struct TargetSong {
    pub hash: String,
    pub found: bool,
    pub is_usdx: bool,
    pub language: Option<String>,
}

/// What a bulk action does to one song: whether the song counts as
/// affected, and the effects to carry out in order.
pub struct SongPlan {
    pub hash: String,
    pub affected: bool,
    pub effects: Vec<SongEffect>,
}

fn skip_plan(song: &TargetSong) -> (r: SongPlan)
    ensures
        r.hash == song.hash,
        !r.affected,
        r.effects@.len() == 0,
{
    SongPlan { hash: song.hash.clone(), affected: false, effects: Vec::new() }
}

fn non_empty_language(language: &Option<String>) -> (r: Option<String>)
    ensures
        opt_chars(r) == match opt_chars(*language) {
            Some(l) => if l.len() > 0 {
                Some(l)
            } else {
                None
            },
            None => None,
        },
{
    match language {
        Some(l) => {
            let c = chars_of(l.as_str());
            if c.len() > 0 {
                Some(l.clone())
            } else {
                None
            }
        },
        None => None,
    }
}

/// Deleting a song's analysis: not for USDX songs; drops the cache and
/// marks the song unanalyzed.
pub fn delete_cache(song: &TargetSong) -> (r: SongPlan)
    ensures
        r.hash == song.hash,
        song.is_usdx ==> !r.affected && r.effects@.len() == 0,
        !song.is_usdx ==> r.affected && effects_view(r.effects@) == seq![
            EffectView::DeleteSongCache,
            EffectView::MarkUnanalyzed(None),
        ],
{
    if song.is_usdx {
        return skip_plan(song);
    }
    let effects = vec![SongEffect::DeleteSongCache, SongEffect::MarkUnanalyzed(None)];
    assert(effects_view(effects@) =~= seq![
        EffectView::DeleteSongCache,
        EffectView::MarkUnanalyzed(None),
    ]);
    SongPlan { hash: song.hash.clone(), affected: true, effects }
}

/// Re-transcribing a song: not for USDX songs; a non-empty `language`
/// becomes the song's override, then a partial re-analysis.
pub fn reanalyze_transcript(song: &TargetSong, language: &Option<String>) -> (r: SongPlan)
    ensures
        r.hash == song.hash,
        song.is_usdx ==> !r.affected && r.effects@.len() == 0,
        !song.is_usdx ==> r.affected && effects_view(r.effects@) == (match opt_chars(*language) {
            Some(l) => if l.len() > 0 {
                seq![EffectView::SetLanguageOverride(l)]
            } else {
                seq![]
            },
            None => seq![],
        }) + reanalyze_spec(false),
{
    if song.is_usdx {
        return skip_plan(song);
    }
    let mut effects: Vec<SongEffect> = Vec::new();
    if let Some(l) = non_empty_language(language) {
        effects.push(SongEffect::SetLanguageOverride(l));
    }
    let ghost first = effects_view(effects@);
    let mut rest = reanalyze_effects(false);
    effects.append(&mut rest);
    assert(effects_view(effects@) =~= first + reanalyze_spec(false));
    SongPlan { hash: song.hash.clone(), affected: true, effects }
}

/// Full re-analysis: not for USDX songs.
pub fn reanalyze_full(song: &TargetSong) -> (r: SongPlan)
    ensures
        r.hash == song.hash,
        song.is_usdx ==> !r.affected && r.effects@.len() == 0,
        !song.is_usdx ==> r.affected && effects_view(r.effects@) == reanalyze_spec(true),
{
    if song.is_usdx {
        return skip_plan(song);
    }
    SongPlan { hash: song.hash.clone(), affected: true, effects: reanalyze_effects(true) }
}

/// Re-aligning lyrics: not for USDX songs. A non-empty `language` becomes
/// the override; the transcript's lines are kept as plain lyrics, the
/// transcript and its variants go, and the song is marked unanalyzed with
/// `language` (or, when none was given, the language it had) and queued.
pub fn realign(song: &TargetSong, language: &Option<String>) -> (r: SongPlan)
    ensures
        r.hash == song.hash,
        song.is_usdx ==> !r.affected && r.effects@.len() == 0,
        !song.is_usdx ==> r.affected && effects_view(r.effects@) == (match opt_chars(*language) {
            Some(l) => if l.len() > 0 {
                seq![EffectView::SetLanguageOverride(l)]
            } else {
                seq![]
            },
            None => seq![],
        }) + seq![
            EffectView::MaterializeLyrics,
            EffectView::RemoveTranscript,
            EffectView::DeleteTranscriptVariants,
            EffectView::MarkUnanalyzed(
                match opt_chars(*language) {
                    Some(l) => Some(l),
                    None => opt_chars(song.language),
                },
            ),
            EffectView::Enqueue,
        ],
{
    if song.is_usdx {
        return skip_plan(song);
    }
    let mut effects: Vec<SongEffect> = Vec::new();
    if let Some(l) = non_empty_language(language) {
        effects.push(SongEffect::SetLanguageOverride(l));
    }
    let ghost first = effects_view(effects@);
    let mark = match language {
        Some(l) => Some(l.clone()),
        None => match &song.language {
            Some(l) => Some(l.clone()),
            None => None,
        },
    };
    let mut rest = vec![
        SongEffect::MaterializeLyrics,
        SongEffect::RemoveTranscript,
        SongEffect::DeleteTranscriptVariants,
        SongEffect::MarkUnanalyzed(mark),
        SongEffect::Enqueue,
    ];
    effects.append(&mut rest);
    assert(effects_view(effects@) =~= first + seq![
        EffectView::MaterializeLyrics,
        EffectView::RemoveTranscript,
        EffectView::DeleteTranscriptVariants,
        EffectView::MarkUnanalyzed(
            match opt_chars(*language) {
                Some(l) => Some(l),
                None => opt_chars(song.language),
            },
        ),
        EffectView::Enqueue,
    ]);
    SongPlan { hash: song.hash.clone(), affected: true, effects }
}

/// Re-analysis that skips the lyrics lookup: not for USDX songs.
pub fn reanalyze_force_transcribe(song: &TargetSong) -> (r: SongPlan)
    ensures
        r.hash == song.hash,
        song.is_usdx ==> !r.affected && r.effects@.len() == 0,
        !song.is_usdx ==> r.affected && effects_view(r.effects@) == seq![
            EffectView::ForceTranscribe,
        ] + reanalyze_spec(false),
{
    if song.is_usdx {
        return skip_plan(song);
    }
    let mut effects = vec![SongEffect::ForceTranscribe];
    let mut rest = reanalyze_effects(false);
    effects.append(&mut rest);
    assert(effects_view(effects@) =~= seq![EffectView::ForceTranscribe] + reanalyze_spec(false));
    SongPlan { hash: song.hash.clone(), affected: true, effects }
}

/// Refreshing metadata: only for songs the library has and that are not
/// USDX songs (whether the refresh succeeds decides the count).
pub fn refresh_metadata(song: &TargetSong) -> (r: SongPlan)
    ensures
        r.hash == song.hash,
        (!song.found || song.is_usdx) ==> !r.affected && r.effects@.len() == 0,
        (song.found && !song.is_usdx) ==> r.affected && effects_view(r.effects@) == seq![
            EffectView::RefreshMetadata,
        ],
{
    if !song.found || song.is_usdx {
        return skip_plan(song);
    }
    let effects = vec![SongEffect::RefreshMetadata];
    assert(effects_view(effects@) =~= seq![EffectView::RefreshMetadata]);
    SongPlan { hash: song.hash.clone(), affected: true, effects }
}

// ─── Batch result ────────────────────────────────────────────────────

/// How one song of a batch went: counted, skipped, or failed with a message.
pub struct SongOutcome {
    pub hash: String,
    pub result: Result<bool, String>,
}

pub open spec fn affected_count(os: Seq<SongOutcome>) -> nat
    decreases os.len(),
{
    if os.len() == 0 {
        0
    } else {
        affected_count(os.drop_last()) + if os.last().result matches Ok(true) {
            1nat
        } else {
            0nat
        }
    }
}

/// `hash: message` for every failure, in order.
pub open spec fn failures(os: Seq<SongOutcome>) -> Seq<Seq<char>>
    decreases os.len(),
{
    if os.len() == 0 {
        seq![]
    } else {
        match os.last().result {
            Err(e) => failures(os.drop_last()).push(os.last().hash@ + seq![':', ' '] + e@),
            Ok(_) => failures(os.drop_last()),
        }
    }
}

/// The pieces joined by `"; "`.
pub open spec fn join_semicolons(parts: Seq<Seq<char>>) -> Seq<char>
    decreases parts.len(),
{
    if parts.len() == 0 {
        seq![]
    } else if parts.len() == 1 {
        parts[0]
    } else {
        join_semicolons(parts.drop_last()) + seq![';', ' '] + parts.last()
    }
}

/// A batch's result: the number of songs affected, or — when any failed —
/// `Updated N song(s); M failed: <hash: message; ...>`.
pub open spec fn batch_result_spec(os: Seq<SongOutcome>) -> Result<nat, Seq<char>> {
    let f = failures(os);
    if f.len() == 0 {
        Ok(affected_count(os))
    } else {
        Err(
            "Updated "@ + decimal(affected_count(os)) + " song(s); "@ + decimal(f.len())
                + " failed: "@ + join_semicolons(f),
        )
    }
}

proof fn lemma_affected_count_le(os: Seq<SongOutcome>)
    ensures
        affected_count(os) <= os.len(),
        failures(os).len() <= os.len(),
    decreases os.len(),
{
    if os.len() > 0 {
        lemma_affected_count_le(os.drop_last());
    }
}

pub fn batch_result(outcomes: &Vec<SongOutcome>) -> (r: Result<usize, String>)
    ensures
        match r {
            Ok(n) => batch_result_spec(outcomes@) == Ok::<nat, Seq<char>>(n as nat),
            Err(m) => batch_result_spec(outcomes@) == Err::<nat, Seq<char>>(m@),
        },
{
    let mut affected: usize = 0;
    let mut fails: Vec<Vec<char>> = Vec::new();
    let mut i: usize = 0;
    while i < outcomes.len()
        invariant
            i <= outcomes@.len(),
            affected == affected_count(outcomes@.take(i as int)),
            fails@.map_values(|v: Vec<char>| v@) == failures(outcomes@.take(i as int)),
        decreases outcomes@.len() - i,
    {
        proof {
            assert(outcomes@.take(i + 1).drop_last() =~= outcomes@.take(i as int));
            lemma_affected_count_le(outcomes@.take(i as int));
        }
        let o = &outcomes[i];
        match &o.result {
            Ok(true) => {
                affected = affected + 1;
            },
            Ok(false) => {},
            Err(e) => {
                let line = concat(
                    &concat(&chars_of(o.hash.as_str()), &vec![':', ' ']),
                    &chars_of(e.as_str()),
                );
                let ghost before = fails@.map_values(|v: Vec<char>| v@);
                fails.push(line);
                assert(fails@.map_values(|v: Vec<char>| v@) =~= before.push(line@));
            },
        }
        i = i + 1;
    }
    assert(outcomes@.take(outcomes@.len() as int) =~= outcomes@);
    if fails.len() == 0 {
        return Ok(affected);
    }
    let mut joined: Vec<char> = Vec::new();
    let mut k: usize = 0;
    let ghost fv = fails@.map_values(|v: Vec<char>| v@);
    while k < fails.len()
        invariant
            k <= fails@.len(),
            fv == fails@.map_values(|v: Vec<char>| v@),
            joined@ == join_semicolons(fv.take(k as int)),
        decreases fails@.len() - k,
    {
        proof {
            assert(fv.take(k + 1).drop_last() =~= fv.take(k as int));
            assert(fv.take(k + 1).last() == fails@[k as int]@);
        }
        if k > 0 {
            joined = concat(&joined, &vec![';', ' ']);
        }
        joined = concat(&joined, &fails[k]);
        proof {
            if k == 0 {
                assert(joined@ =~= fv.take(1)[0]);
            }
        }
        k = k + 1;
    }
    assert(fv.take(fails@.len() as int) =~= fv);
    let mut msg = chars_of("Updated ");
    msg = concat(&msg, &u64_to_decimal(affected as u64));
    msg = concat(&msg, &chars_of(" song(s); "));
    msg = concat(&msg, &u64_to_decimal(fails.len() as u64));
    msg = concat(&msg, &chars_of(" failed: "));
    msg = concat(&msg, &joined);
    Err(string_of(&msg))
}

// ─── Refreshing metadata over a batch ────────────────────────────────

/// How refreshing the song with hash `h` went: its row was looked up by
/// `lookup`; a failed lookup is the song's error; a song the library lacks,
/// or a USDX song, is skipped (`Ok(false)`); any other song was handed to
/// `refresh`, and counts (`Ok(true)`) or fails with the refresh's error.
pub open spec fn refreshed_one<L, F>(h: Seq<char>, lookup: L, refresh: F, res: Result<bool, String>) -> bool where
    L: Fn(&str) -> Result<TargetSong, String>,
    F: Fn(&TargetSong) -> Result<(), String>,
 {
    exists|arg: &str, looked: Result<TargetSong, String>|
        arg@ == h && #[trigger] lookup.ensures((arg,), looked) && match looked {
            Err(e) => res == Err::<bool, String>(e),
            Ok(song) => if !song.found || song.is_usdx {
                res == Ok::<bool, String>(false)
            } else {
                (res == Ok::<bool, String>(true) && refresh.ensures((&song,), Ok::<(), String>(())))
                    || (res matches Err(e) && refresh.ensures((&song,), Err::<(), String>(e)))
            },
        }
}

/// `outs` tells, in order, how each of `hashes` went.
pub open spec fn refreshed_all<L, F>(
    hashes: Seq<Seq<char>>,
    lookup: L,
    refresh: F,
    outs: Seq<SongOutcome>,
) -> bool where
    L: Fn(&str) -> Result<TargetSong, String>,
    F: Fn(&TargetSong) -> Result<(), String>,
 {
    &&& outs.len() == hashes.len()
    &&& forall|i: int|
        0 <= i < outs.len() ==> (#[trigger] outs[i]).hash@ == hashes[i] && refreshed_one(
            hashes[i],
            lookup,
            refresh,
            outs[i].result,
        )
}

pub open spec fn reports(outs: Seq<SongOutcome>, r: Result<usize, String>) -> bool {
    match r {
        Ok(n) => batch_result_spec(outs) == Ok::<nat, Seq<char>>(n as nat),
        Err(m) => batch_result_spec(outs) == Err::<nat, Seq<char>>(m@),
    }
}

/// Refreshes the metadata (artist, cover art, ...) of the target songs.
/// `source` is what looking up the active library source gave: its error,
/// or whether one is configured. Without a source the batch is refused
/// before any song is touched. Otherwise every distinct hash, in first-seen
/// order, is looked up and, unless missing or USDX, refreshed; the result
/// counts the refreshed songs, or lists every failure after all were tried.
pub fn refresh_metadata_all<L, F>(
    source: Result<bool, String>,
    targets: Vec<String>,
    lookup: L,
    refresh: F,
) -> (r: Result<usize, String>) where
    L: Fn(&str) -> Result<TargetSong, String>,
    F: Fn(&TargetSong) -> Result<(), String>,

    requires
        forall|h: &str| #[trigger] lookup.requires((h,)),
        forall|s: &TargetSong| #[trigger] refresh.requires((s,)),
    ensures
        source matches Err(e) ==> r == Err::<usize, String>(e),
        source == Ok::<bool, String>(false) ==> (r matches Err(m) && m@
            == "no active library source"@),
        source == Ok::<bool, String>(true) ==> exists|outs: Seq<SongOutcome>|
            #[trigger] refreshed_all(dedup_spec(strs(targets@)), lookup, refresh, outs) && reports(
                outs,
                r,
            ),
{
    match source {
        Err(e) => return Err(e),
        Ok(false) => return Err(String::from_str("no active library source")),
        Ok(true) => {},
    }
    let hashes = resolve_target(targets);
    let ghost hs = strs(hashes@);
    let mut outs: Vec<SongOutcome> = Vec::new();
    let mut i: usize = 0;
    while i < hashes.len()
        invariant
            i <= hashes@.len(),
            hs == strs(hashes@),
            forall|h: &str| #[trigger] lookup.requires((h,)),
            forall|s: &TargetSong| #[trigger] refresh.requires((s,)),
            refreshed_all(hs.take(i as int), lookup, refresh, outs@),
        decreases hashes@.len() - i,
    {
        let h = hashes[i].as_str();
        let looked = lookup(h);
        let result: Result<bool, String> = match looked {
            Err(e) => Err(e),
            Ok(song) => {
                if !song.found || song.is_usdx {
                    Ok(false)
                } else {
                    let done = refresh(&song);
                    match done {
                        Ok(()) => {
                            assert(done->Ok_0 == ());
                            Ok(true)
                        },
                        Err(e) => Err(e),
                    }
                }
            },
        };
        assert(refreshed_one(hs[i as int], lookup, refresh, result));
        let ghost before = outs@;
        outs.push(SongOutcome { hash: hashes[i].clone(), result });
        assert(hs.take(i + 1) =~= hs.take(i as int).push(hs[i as int]));
        assert forall|j: int| 0 <= j < outs@.len() implies (#[trigger] outs@[j]).hash@ == hs.take(
            i + 1,
        )[j] && refreshed_one(hs.take(i + 1)[j], lookup, refresh, outs@[j].result) by {
            if j < i {
                assert(outs@[j] == before[j]);
            }
        }
        i = i + 1;
    }
    assert(hs.take(hashes@.len() as int) =~= hs);
    let r = batch_result(&outs);
    assert(refreshed_all(dedup_spec(strs(targets@)), lookup, refresh, outs@));
    r
}

// ─── Bulk actions over the targets ───────────────────────────────────

/// The analysis fields of a song's library row. Its tempo, a
/// floating-point value, stays with the caller: `base_tempo` tells whether
/// it is the base tempo, 1.0.
pub struct AnalysisFields {
    pub is_analyzed: bool,
    pub language: Option<String>,
    pub transcript_source: Option<crate::song::TranscriptSource>,
    pub key: Option<String>,
    pub override_key: Option<String>,
    pub base_tempo: bool,
    pub key_offset: i32,
    pub no_stems: bool,
}

/// Marking a song unanalyzed: it keeps `language` and loses everything the
/// analysis gave it — transcript source, key, chosen key, tempo (back to
/// 1.0), key offset (0) and the no-stems flag.
pub fn mark_unanalyzed(row: &mut AnalysisFields, language: Option<String>)
    ensures
        !final(row).is_analyzed,
        final(row).language == language,
        final(row).transcript_source is None,
        final(row).key is None,
        final(row).override_key is None,
        final(row).base_tempo,
        final(row).key_offset == 0,
        !final(row).no_stems,
{
    row.is_analyzed = false;
    row.language = language;
    row.transcript_source = None;
    row.key = None;
    row.override_key = None;
    row.base_tempo = true;
    row.key_offset = 0;
    row.no_stems = false;
}

/// A bulk action on songs' analyses.
pub enum BulkAction {
    DeleteCache,
    ReanalyzeTranscript(Option<String>),
    ReanalyzeFull,
    Realign(Option<String>),
    ReanalyzeForceTranscribe,
}

/// The effects of `action` on a song that is not a USDX song.
pub open spec fn bulk_effects(action: BulkAction, song: TargetSong) -> Seq<EffectView> {
    let lang_override = |language: Option<String>| match opt_chars(language) {
        Some(l) => if l.len() > 0 {
            seq![EffectView::SetLanguageOverride(l)]
        } else {
            seq![]
        },
        None => seq![],
    };
    match action {
        BulkAction::DeleteCache => seq![EffectView::DeleteSongCache, EffectView::MarkUnanalyzed(None)],
        BulkAction::ReanalyzeTranscript(language) => lang_override(language) + reanalyze_spec(false),
        BulkAction::ReanalyzeFull => reanalyze_spec(true),
        BulkAction::Realign(language) => lang_override(language) + seq![
            EffectView::MaterializeLyrics,
            EffectView::RemoveTranscript,
            EffectView::DeleteTranscriptVariants,
            EffectView::MarkUnanalyzed(
                match opt_chars(language) {
                    Some(l) => Some(l),
                    None => opt_chars(song.language),
                },
            ),
            EffectView::Enqueue,
        ],
        BulkAction::ReanalyzeForceTranscribe => seq![EffectView::ForceTranscribe] + reanalyze_spec(
            false,
        ),
    }
}

/// The plan of `action` for one song: nothing for a USDX song, else the
/// action's effects.
pub fn bulk_plan(action: &BulkAction, song: &TargetSong) -> (r: SongPlan)
    ensures
        r.hash == song.hash,
        r.affected == !song.is_usdx,
        song.is_usdx ==> r.effects@.len() == 0,
        !song.is_usdx ==> effects_view(r.effects@) == bulk_effects(*action, *song),
{
    match action {
        BulkAction::DeleteCache => delete_cache(song),
        BulkAction::ReanalyzeTranscript(language) => reanalyze_transcript(song, language),
        BulkAction::ReanalyzeFull => reanalyze_full(song),
        BulkAction::Realign(language) => realign(song, language),
        BulkAction::ReanalyzeForceTranscribe => reanalyze_force_transcribe(song),
    }
}

/// The songs of `songs` that are not USDX songs.
pub open spec fn count_non_usdx(songs: Seq<TargetSong>) -> nat
    decreases songs.len(),
{
    if songs.len() == 0 {
        0
    } else {
        count_non_usdx(songs.drop_last()) + if songs.last().is_usdx {
            0nat
        } else {
            1nat
        }
    }
}

/// `song` is what `lookup` gave for the hash `h`.
pub open spec fn looked_up<L: Fn(&str) -> TargetSong>(lookup: L, h: Seq<char>, song: TargetSong) -> bool {
    exists|arg: &str| arg@ == h && #[trigger] lookup.ensures((arg,), song)
}

/// `apply` was handed the plan of `action` for `song`.
pub open spec fn plan_applied<A: Fn(&SongPlan)>(apply: A, action: BulkAction, song: TargetSong) -> bool {
    exists|p: SongPlan|
        #[trigger] apply.ensures((&p,), ()) && p.hash == song.hash && effects_view(p.effects@)
            == bulk_effects(action, song)
}

/// `songs` are what `lookup` gave for `hashes`, in order, and `apply` was
/// handed the plan of `action` for each one that is not a USDX song.
pub open spec fn bulk_ran<L, A>(
    action: BulkAction,
    hashes: Seq<Seq<char>>,
    lookup: L,
    apply: A,
    songs: Seq<TargetSong>,
) -> bool where L: Fn(&str) -> TargetSong, A: Fn(&SongPlan) {
    &&& songs.len() == hashes.len()
    &&& forall|i: int| 0 <= i < songs.len() ==> looked_up(lookup, hashes[i], #[trigger] songs[i])
    &&& forall|i: int|
        0 <= i < songs.len() && !(#[trigger] songs[i]).is_usdx ==> plan_applied(apply, action, songs[i])
}

/// Runs a bulk action over the target songs: every distinct hash, in
/// first-seen order, is looked up; each song that is not a USDX song gets
/// the action's plan carried out by `apply`. The result is the number of
/// such songs.
pub fn run_bulk_action<L, A>(action: BulkAction, targets: Vec<String>, lookup: L, apply: A) -> (r:
    Result<usize, String>) where L: Fn(&str) -> TargetSong, A: Fn(&SongPlan)
    requires
        forall|h: &str| #[trigger] lookup.requires((h,)),
        forall|p: &SongPlan| #[trigger] apply.requires((p,)),
    ensures
        exists|songs: Seq<TargetSong>|
            #[trigger] bulk_ran(action, dedup_spec(strs(targets@)), lookup, apply, songs) && r
                == Ok::<usize, String>(count_non_usdx(songs) as usize),
{
    let hashes = resolve_target(targets);
    let ghost hs = strs(hashes@);
    let ghost mut songs: Seq<TargetSong> = seq![];
    let mut count: usize = 0;
    let mut i: usize = 0;
    while i < hashes.len()
        invariant
            i <= hashes@.len(),
            hs == strs(hashes@),
            hs.len() == hashes@.len(),
            forall|h: &str| #[trigger] lookup.requires((h,)),
            forall|p: &SongPlan| #[trigger] apply.requires((p,)),
            bulk_ran(action, hs.take(i as int), lookup, apply, songs),
            count == count_non_usdx(songs),
            count <= i,
        decreases hashes@.len() - i,
    {
        let h = hashes[i].as_str();
        let song = lookup(h);
        let plan = bulk_plan(&action, &song);
        if plan.affected {
            apply(&plan);
            count = count + 1;
        }
        let ghost before = songs;
        proof {
            songs = songs.push(song);
            assert(songs.drop_last() =~= before);
            assert(hs.take(i + 1) =~= hs.take(i as int).push(hs[i as int]));
            assert forall|j: int| 0 <= j < songs.len() implies looked_up(
                lookup,
                hs.take(i + 1)[j],
                #[trigger] songs[j],
            ) by {
                if j < i {
                    assert(songs[j] == before[j]);
                } else {
                    assert(lookup.ensures((h,), songs[j]));
                }
            }
            assert forall|j: int|
                0 <= j < songs.len() && !(#[trigger] songs[j]).is_usdx implies plan_applied(
                apply,
                action,
                songs[j],
            ) by {
                if j < i {
                    assert(songs[j] == before[j]);
                } else {
                    assert(apply.ensures((&plan,), ()));
                }
            }
        }
        i = i + 1;
    }
    assert(hs.take(hashes@.len() as int) =~= hs);
    let r = Ok(count);
    assert(bulk_ran(action, dedup_spec(strs(targets@)), lookup, apply, songs));
    r
}

// ─── Analyzer events ─────────────────────────────────────────────────

/// One event line from the analyzer process.
pub enum ServerEvent {
    Progress { pct: u32, msg: String },
    Done,
    Error { kind: Option<String>, msg: String },
    Unknown,
}

/// How an analysis attempt ended.
pub enum SongResult {
    Done,
    Cancelled,
    Oom,
    Error(String),
}

/// What to do with an event: keep reading, record progress, or stop with
/// a result.
pub enum EventAction {
    Continue,
    Progress(usize),
    Finish(SongResult),
}

pub open spec fn lit_oom() -> Seq<char> {
    seq!['o', 'o', 'm']
}

/// Reading of an event. Progress is recorded only when the job reports to
/// the queue; an error of kind `oom` is an out-of-memory failure, any other
/// error carries its message (`Unknown error` when empty).
pub fn classify_event(event: ServerEvent, reports_progress: bool) -> (r: EventAction)
    ensures
        match event {
            ServerEvent::Progress { pct, .. } => if reports_progress {
                r matches EventAction::Progress(p) && p == pct as usize
            } else {
                r is Continue
            },
            ServerEvent::Done => r matches EventAction::Finish(SongResult::Done),
            ServerEvent::Error { kind, msg } => if opt_chars(kind) == Some(lit_oom()) {
                r matches EventAction::Finish(SongResult::Oom)
            } else if msg@.len() == 0 {
                r matches EventAction::Finish(SongResult::Error(m)) && m@ == "Unknown error"@
            } else {
                r matches EventAction::Finish(SongResult::Error(m)) && m@ == msg@
            },
            ServerEvent::Unknown => r is Continue,
        },
{
    match event {
        ServerEvent::Progress { pct, msg: _ } => if reports_progress {
            EventAction::Progress(pct as usize)
        } else {
            EventAction::Continue
        },
        ServerEvent::Done => EventAction::Finish(SongResult::Done),
        ServerEvent::Error { kind, msg } => {
            let is_oom = match &kind {
                Some(k) => crate::text::chars_eq(&chars_of(k.as_str()), &vec!['o', 'o', 'm']),
                None => false,
            };
            if is_oom {
                EventAction::Finish(SongResult::Oom)
            } else if chars_of(msg.as_str()).len() == 0 {
                EventAction::Finish(SongResult::Error(String::from_str("Unknown error")))
            } else {
                EventAction::Finish(SongResult::Error(msg))
            }
        },
        ServerEvent::Unknown => EventAction::Continue,
    }
}

// ─── Attempts and retries ────────────────────────────────────────────

/// How one exchange with the analyzer server ended.
pub enum Attempt {
    /// The server reported success; `cancelled` says whether the song was
    /// cancelled meanwhile.
    Done { cancelled: bool },
    Cancelled,
    Oom,
    Error(String),
    /// The connection failed; `cancelled` as above.
    Crashed { cancelled: bool, message: String },
}

/// What follows an attempt.
pub enum NextStep {
    /// Record the finished analysis.
    Finalize,
    /// Drop the job's queue rows and marks: it was cancelled.
    Discard,
    /// Try once more with a fresh server.
    Retry,
    /// Mark the song failed with this message.
    Fail(String),
}

/// The decision after an attempt, and whether the server process is to be
/// killed first.
pub struct AttemptDecision {
    pub next: NextStep,
    pub kill_server: bool,
}

/// After an attempt: a cancelled song is discarded (its server killed), a
/// finished one finalized; out-of-memory and crashes kill the server and are
/// retried once, then fail; analyzer errors fail at once.
pub fn after_attempt(attempt: Attempt, retried: bool) -> (r: AttemptDecision)
    ensures
        r.next is Retry ==> !retried && r.kill_server,
        match attempt {
            Attempt::Done { cancelled } => if cancelled {
                r.next is Discard && r.kill_server
            } else {
                r.next is Finalize && !r.kill_server
            },
            Attempt::Cancelled => r.next is Discard && r.kill_server,
            Attempt::Oom => r.kill_server && if retried {
                r.next matches NextStep::Fail(m) && m@ == "CUDA out of memory"@
            } else {
                r.next is Retry
            },
            Attempt::Error(msg) => !r.kill_server && (r.next matches NextStep::Fail(m) && m@
                == msg@),
            Attempt::Crashed { cancelled, message } => r.kill_server && if cancelled {
                r.next is Discard
            } else if retried {
                r.next matches NextStep::Fail(m) && m@ == "Server crashed: "@ + message@
            } else {
                r.next is Retry
            },
        },
{
    match attempt {
        Attempt::Done { cancelled } => if cancelled {
            AttemptDecision { next: NextStep::Discard, kill_server: true }
        } else {
            AttemptDecision { next: NextStep::Finalize, kill_server: false }
        },
        Attempt::Cancelled => AttemptDecision { next: NextStep::Discard, kill_server: true },
        Attempt::Oom => if retried {
            AttemptDecision {
                next: NextStep::Fail(String::from_str("CUDA out of memory")),
                kill_server: true,
            }
        } else {
            AttemptDecision { next: NextStep::Retry, kill_server: true }
        },
        Attempt::Error(msg) => AttemptDecision { next: NextStep::Fail(msg), kill_server: false },
        Attempt::Crashed { cancelled, message } => if cancelled {
            AttemptDecision { next: NextStep::Discard, kill_server: true }
        } else if retried {
            let m = concat(&chars_of("Server crashed: "), &chars_of(message.as_str()));
            AttemptDecision { next: NextStep::Fail(string_of(&m)), kill_server: true }
        } else {
            AttemptDecision { next: NextStep::Retry, kill_server: true }
        },
    }
}

/// Outcome of a key-only pass: `Ok` when done, a retry after an
/// out-of-memory failure or a crash (once), otherwise an error message.
pub enum KeyPassStep {
    Done,
    Retry,
    Fail(String),
}

pub fn after_key_attempt(result: Option<SongResult>, retried: bool) -> (r: KeyPassStep)
    ensures
        r is Retry ==> !retried,
        match result {
            Some(SongResult::Done) => r is Done,
            Some(SongResult::Cancelled) => r matches KeyPassStep::Fail(m) && m@
                == "key detection cancelled"@,
            Some(SongResult::Error(msg)) => r matches KeyPassStep::Fail(m) && m@ == msg@,
            Some(SongResult::Oom) | None => if retried {
                r matches KeyPassStep::Fail(m) && m@ == "key detection failed"@
            } else {
                r is Retry
            },
        },
{
    match result {
        Some(SongResult::Done) => KeyPassStep::Done,
        Some(SongResult::Cancelled) => KeyPassStep::Fail(
            String::from_str("key detection cancelled"),
        ),
        Some(SongResult::Error(msg)) => KeyPassStep::Fail(msg),
        Some(SongResult::Oom) | None => if retried {
            KeyPassStep::Fail(String::from_str("key detection failed"))
        } else {
            KeyPassStep::Retry
        },
    }
}

// ─── Language hint ───────────────────────────────────────────────────

/// Whether a language name means something: not blank and not `unknown` or
/// `und` (ASCII case ignored, surrounding whitespace ignored).
pub open spec fn is_real_language(lang: Seq<char>) -> bool {
    let n = lower_seq(trim(lang));
    n.len() > 0 && n != seq!['u', 'n', 'k', 'n', 'o', 'w', 'n'] && n != seq!['u', 'n', 'd']
}

/// Language passed to the analyzer: the song's override, or else — when
/// lyrics were found — the song's language; only a real language is passed.
pub open spec fn language_hint_spec(
    override_language: Option<Seq<char>>,
    lyrics_found: bool,
    song_language: Option<Seq<char>>,
) -> Option<Seq<char>> {
    let pick = match override_language {
        Some(l) => Some(l),
        None => if lyrics_found {
            song_language
        } else {
            None
        },
    };
    match pick {
        Some(l) => if is_real_language(l) {
            Some(l)
        } else {
            None
        },
        None => None,
    }
}

pub fn language_hint(
    override_language: Option<&str>,
    lyrics_found: bool,
    song_language: &Option<String>,
) -> (r: Option<String>)
    ensures
        opt_chars(r) == language_hint_spec(
            match override_language {
                Some(l) => Some(l@),
                None => None,
            },
            lyrics_found,
            opt_chars(*song_language),
        ),
{
    let pick: Option<String> = match override_language {
        Some(l) => Some(String::from_str(l)),
        None => if lyrics_found {
            match song_language {
                Some(l) => Some(l.clone()),
                None => None,
            }
        } else {
            None
        },
    };
    match pick {
        Some(l) => {
            let n = lower_chars(&trim_chars(&chars_of(l.as_str())));
            if n.len() > 0 && !crate::text::chars_eq(&n, &vec!['u', 'n', 'k', 'n', 'o', 'w', 'n'])
                && !crate::text::chars_eq(&n, &vec!['u', 'n', 'd']) {
                Some(l)
            } else {
                None
            }
        },
        None => None,
    }
}

} // verus!
