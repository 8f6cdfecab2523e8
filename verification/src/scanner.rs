//! Reconciling the library with a shared analysis cache: which cache file
//! names carry a song's base transcript, which library songs they concern,
//! and the summary of what was done for them.

use vstd::prelude::*;

use crate::text::{
    all_hex, chars_eq, chars_of, ends_with, has_suffix, is_ascii_hexdigit, is_hex, string_of,
    subvec,
};

verus! {

/// A song hash: 32 ASCII hex digits (the first 32 hex digits of a BLAKE3
/// digest). Variant transcripts (`<hash>_transcript_<tempo>.json`) never
/// have this shape.
pub open spec fn is_song_hash_spec(value: Seq<char>) -> bool {
    value.len() == 32 && all_hex(value)
}

pub fn is_song_hash(value: &str) -> (r: bool)
    ensures
        r == is_song_hash_spec(value@),
{
    let c = chars_of(value);
    if c.len() != 32 {
        return false;
    }
    let mut i: usize = 0;
    while i < c.len()
        invariant
            i <= c.len(),
            c@ == value@,
            forall|j: int| 0 <= j < i ==> is_hex(#[trigger] c@[j]),
        decreases c.len() - i,
    {
        if !is_ascii_hexdigit(c[i]) {
            return false;
        }
        i = i + 1;
    }
    true
}

pub open spec fn lit_transcript_suffix() -> Seq<char> {
    "_transcript.json"@
}

/// The song hash whose base transcript a cache file named `name` is:
/// `<hash>_transcript.json` with `<hash>` a song hash.
pub open spec fn transcript_hash_spec(name: Seq<char>) -> Option<Seq<char>> {
    if has_suffix(name, lit_transcript_suffix()) {
        let h = name.take(name.len() - lit_transcript_suffix().len());
        if is_song_hash_spec(h) {
            Some(h)
        } else {
            None
        }
    } else {
        None
    }
}

pub fn transcript_hash(name: &str) -> (r: Option<String>)
    ensures
        match r {
            Some(h) => transcript_hash_spec(name@) == Some(h@),
            None => transcript_hash_spec(name@) is None,
        },
{
    let n = chars_of(name);
    let suffix = chars_of("_transcript.json");
    if !ends_with(&n, &suffix) {
        return None;
    }
    let h = string_of(&subvec(&n, 0, n.len() - suffix.len()));
    if is_song_hash(h.as_str()) {
        Some(h)
    } else {
        None
    }
}

/// The song hashes of the files named `names`, in order.
pub open spec fn transcript_hashes_spec(names: Seq<Seq<char>>) -> Seq<Seq<char>>
    decreases names.len(),
{
    if names.len() == 0 {
        seq![]
    } else {
        let rest = transcript_hashes_spec(names.drop_last());
        match transcript_hash_spec(names.last()) {
            Some(h) => rest.push(h),
            None => rest,
        }
    }
}

pub open spec fn strings_of(v: Seq<String>) -> Seq<Seq<char>> {
    v.map_values(|s: String| s@)
}

/// Song hashes that have a base transcript in a cache folder listing.
pub fn transcript_hashes(names: &Vec<String>) -> (r: Vec<String>)
    ensures
        strings_of(r@) == transcript_hashes_spec(strings_of(names@)),
{
    let ghost all = strings_of(names@);
    let mut out: Vec<String> = Vec::new();
    let mut i: usize = 0;
    while i < names.len()
        invariant
            i <= names.len(),
            all == strings_of(names@),
            strings_of(out@) == transcript_hashes_spec(all.take(i as int)),
        decreases names.len() - i,
    {
        assert(all.take(i + 1).drop_last() =~= all.take(i as int));
        assert(all.take(i + 1).last() == names@[i as int]@);
        if let Some(h) = transcript_hash(names[i].as_str()) {
            let ghost before = strings_of(out@);
            out.push(h);
            assert(strings_of(out@) =~= before.push(out@.last()@));
        }
        i = i + 1;
    }
    assert(all.take(names.len() as int) =~= all);
    out
}

fn contains_string(v: &Vec<String>, s: &str) -> (r: bool)
    ensures
        r == strings_of(v@).contains(s@),
{
    let c = chars_of(s);
    let mut i: usize = 0;
    while i < v.len()
        invariant
            i <= v.len(),
            c@ == s@,
            forall|j: int| 0 <= j < i ==> v@[j]@ != s@,
        decreases v.len() - i,
    {
        if chars_eq(&chars_of(v[i].as_str()), &c) {
            assert(strings_of(v@)[i as int] == s@);
            return true;
        }
        i = i + 1;
    }
    assert forall|j: int| 0 <= j < strings_of(v@).len() implies strings_of(v@)[j] != s@ by {
        assert(strings_of(v@)[j] == v@[j]@);
    }
    false
}

/// The cached hashes that belong to library songs, in cache order.
pub open spec fn reconcile_targets_spec(cached: Seq<Seq<char>>, library: Seq<Seq<char>>) -> Seq<
    Seq<char>,
>
    decreases cached.len(),
{
    if cached.len() == 0 {
        seq![]
    } else {
        let rest = reconcile_targets_spec(cached.drop_last(), library);
        if library.contains(cached.last()) {
            rest.push(cached.last())
        } else {
            rest
        }
    }
}

/// Which cached transcripts concern songs of the library (`library` holds
/// the hashes of the songs that may be marked analyzed).
pub fn reconcile_targets(cached: &Vec<String>, library: &Vec<String>) -> (r: Vec<String>)
    ensures
        strings_of(r@) == reconcile_targets_spec(strings_of(cached@), strings_of(library@)),
{
    let ghost all = strings_of(cached@);
    let mut out: Vec<String> = Vec::new();
    let mut i: usize = 0;
    while i < cached.len()
        invariant
            i <= cached.len(),
            all == strings_of(cached@),
            strings_of(out@) == reconcile_targets_spec(all.take(i as int), strings_of(library@)),
        decreases cached.len() - i,
    {
        assert(all.take(i + 1).drop_last() =~= all.take(i as int));
        assert(all.take(i + 1).last() == cached@[i as int]@);
        if contains_string(library, cached[i].as_str()) {
            let ghost before = strings_of(out@);
            out.push(cached[i].clone());
            assert(strings_of(out@) =~= before.push(cached@[i as int]@));
        }
        i = i + 1;
    }
    assert(all.take(cached.len() as int) =~= all);
    out
}

/// What became of one library song whose transcript is in the cache.
#[derive(PartialEq, Eq, Structural, Clone, Copy, Debug)]
pub enum ReconcileOutcome {
    /// The cached analysis is incomplete (no stems, or a transcript that is
    /// not valid JSON yet); the song is left alone.
    Incomplete,
    /// The song was marked analyzed.
    Marked,
    /// The song's row could not be updated.
    Unchanged,
}

/// Outcome of a reconcile, for this library: `matched` songs had a
/// transcript in the cache, of which `updated` were marked analyzed and
/// `skipped` were left alone because the cached analysis is incomplete.
#[derive(PartialEq, Eq, Structural, Clone, Copy, Debug)]
pub struct CacheReconcileSummary {
    pub matched: usize,
    pub updated: usize,
    pub skipped: usize,
}

pub open spec fn count_outcome(os: Seq<ReconcileOutcome>, o: ReconcileOutcome) -> nat
    decreases os.len(),
{
    if os.len() == 0 {
        0
    } else {
        count_outcome(os.drop_last(), o) + if os.last() == o {
            1nat
        } else {
            0nat
        }
    }
}

proof fn lemma_count_outcome_le(os: Seq<ReconcileOutcome>, o: ReconcileOutcome)
    ensures
        count_outcome(os, o) <= os.len(),
    decreases os.len(),
{
    if os.len() > 0 {
        lemma_count_outcome_le(os.drop_last(), o);
    }
}

/// The summary of a reconcile from the outcomes of the songs it matched.
pub fn reconcile_cache(outcomes: &Vec<ReconcileOutcome>) -> (r: CacheReconcileSummary)
    ensures
        r.matched == outcomes.len(),
        r.updated == count_outcome(outcomes@, ReconcileOutcome::Marked),
        r.skipped == count_outcome(outcomes@, ReconcileOutcome::Incomplete),
{
    let mut summary = CacheReconcileSummary { matched: 0, updated: 0, skipped: 0 };
    let mut i: usize = 0;
    while i < outcomes.len()
        invariant
            i <= outcomes.len(),
            summary.matched == i,
            summary.updated == count_outcome(outcomes@.take(i as int), ReconcileOutcome::Marked),
            summary.skipped == count_outcome(outcomes@.take(i as int), ReconcileOutcome::Incomplete),
        decreases outcomes.len() - i,
    {
        assert(outcomes@.take(i + 1).drop_last() =~= outcomes@.take(i as int));
        proof {
            lemma_count_outcome_le(outcomes@.take(i as int), ReconcileOutcome::Marked);
            lemma_count_outcome_le(outcomes@.take(i as int), ReconcileOutcome::Incomplete);
        }
        summary.matched = summary.matched + 1;
        match outcomes[i] {
            ReconcileOutcome::Incomplete => {
                summary.skipped = summary.skipped + 1;
            },
            ReconcileOutcome::Marked => {
                summary.updated = summary.updated + 1;
            },
            ReconcileOutcome::Unchanged => {},
        }
        i = i + 1;
    }
    assert(outcomes@.take(outcomes.len() as int) =~= outcomes@);
    summary
}

/// A reconcile never counts more songs updated and skipped than matched.
pub proof fn lemma_reconcile_counts(os: Seq<ReconcileOutcome>)
    ensures
        count_outcome(os, ReconcileOutcome::Marked) + count_outcome(os, ReconcileOutcome::Incomplete)
            <= os.len(),
    decreases os.len(),
{
    if os.len() > 0 {
        lemma_reconcile_counts(os.drop_last());
    }
}

} // verus!
