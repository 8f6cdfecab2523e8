//! What happens when the application starts, in order.

use vstd::prelude::*;

verus! {

/// One startup task.
#[derive(PartialEq, Eq, Structural, Clone, Copy, Debug)]
pub enum StartupTask {
    /// Open (and create or migrate) the library database.
    InitLibrary,
    /// Forget the persisted analysis queue of the last run.
    ClearAnalysisQueue,
    /// Rewrite library paths of remote songs stored in the old layout.
    RewriteLegacyRemotePaths,
    /// Rewrite the analyzer scripts over a finished vendor install.
    RefreshAnalyzerScripts,
    /// Queue every song of the library that is not analyzed yet.
    EnqueueUnanalyzed,
}

pub open spec fn startup_spec(auto_analyze: bool) -> Seq<StartupTask> {
    seq![
        StartupTask::InitLibrary,
        StartupTask::ClearAnalysisQueue,
        StartupTask::RewriteLegacyRemotePaths,
        StartupTask::RefreshAnalyzerScripts,
    ] + if auto_analyze {
        seq![StartupTask::EnqueueUnanalyzed]
    } else {
        seq![]
    }
}

/// The startup tasks, in order; songs are queued for analysis only when
/// automatic analysis is on.
pub fn startup(auto_analyze: bool) -> (r: Vec<StartupTask>)
    ensures
        r@ == startup_spec(auto_analyze),
{
    let mut tasks = vec![
        StartupTask::InitLibrary,
        StartupTask::ClearAnalysisQueue,
        StartupTask::RewriteLegacyRemotePaths,
        StartupTask::RefreshAnalyzerScripts,
    ];
    if auto_analyze {
        tasks.push(StartupTask::EnqueueUnanalyzed);
    }
    assert(tasks@ =~= startup_spec(auto_analyze));
    tasks
}

/// Whether a failure of the task ends the startup with its error: only the
/// library must open; the other failures are logged and startup goes on.
pub fn stops_startup(task: StartupTask) -> (r: bool)
    ensures
        r == (task == StartupTask::InitLibrary),
{
    match task {
        StartupTask::InitLibrary => true,
        _ => false,
    }
}

} // verus!
