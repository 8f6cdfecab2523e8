use app_core::startup::{startup, stops_startup, StartupTask};
use app_core::scanner::{
    is_song_hash, reconcile_cache, reconcile_targets, transcript_hash, transcript_hashes,
    ReconcileOutcome,
};

fn s(x: &str) -> String {
    x.to_string()
}

const H: &str = "0123456789abcdef0123456789ABCDEF";

#[test]
fn song_hash_shape() {
    assert!(is_song_hash(H));
    assert!(!is_song_hash("0123"));
    assert!(!is_song_hash("0123456789abcdef0123456789abcdeg"));
    assert!(!is_song_hash(&format!("{H}0")));
}

#[test]
fn transcript_file_names() {
    assert_eq!(transcript_hash(&format!("{H}_transcript.json")), Some(s(H)));
    assert_eq!(transcript_hash(&format!("{H}_transcript_1.25.json")), None);
    assert_eq!(transcript_hash("notes_transcript.json"), None);
    assert_eq!(transcript_hash(&format!("{H}.json")), None);
    let names = vec![
        s("readme.txt"),
        format!("{H}_transcript.json"),
        format!("{H}_transcript_0.9.json"),
        s("ffffffffffffffffffffffffffffffff_transcript.json"),
    ];
    assert_eq!(transcript_hashes(&names), vec![s(H), s("ffffffffffffffffffffffffffffffff")]);
}

#[test]
fn reconcile_targets_and_summary() {
    let cached = vec![s("a"), s("b"), s("c")];
    let library = vec![s("c"), s("a"), s("z")];
    assert_eq!(reconcile_targets(&cached, &library), vec![s("a"), s("c")]);
    let summary = reconcile_cache(&vec![
        ReconcileOutcome::Marked,
        ReconcileOutcome::Incomplete,
        ReconcileOutcome::Unchanged,
        ReconcileOutcome::Marked,
    ]);
    assert_eq!(summary.matched, 4);
    assert_eq!(summary.updated, 2);
    assert_eq!(summary.skipped, 1);
    let empty = reconcile_cache(&vec![]);
    assert_eq!((empty.matched, empty.updated, empty.skipped), (0, 0, 0));
}

#[test]
fn startup_order() {
    assert_eq!(
        startup(false),
        vec![
            StartupTask::InitLibrary,
            StartupTask::ClearAnalysisQueue,
            StartupTask::RewriteLegacyRemotePaths,
            StartupTask::RefreshAnalyzerScripts
        ]
    );
    assert_eq!(startup(true).last(), Some(&StartupTask::EnqueueUnanalyzed));
    assert!(stops_startup(StartupTask::InitLibrary));
    assert!(!stops_startup(StartupTask::RefreshAnalyzerScripts));
}
