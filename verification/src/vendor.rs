//! Planning of the vendor setup that installs ffmpeg, uv, Python and the
//! analyzer's packages: the one-at-a-time setup lock, the order of steps and
//! the progress reported for each, download URLs per platform, archive
//! handling, GPU-dependent package choices and the command lines run.

use vstd::prelude::*;

use crate::text::{
    chars_eq, chars_of, concat, ends_with, has_suffix, index_of, parse_u32, parse_u32_chars,
    string_of, subvec, trim, trim_chars,
};

verus! {

// ─── Types ───────────────────────────────────────────────────────────

/// Phase of the setup, as reported to the user.
#[derive(PartialEq, Eq, Structural, Clone, Copy, Debug)]
pub enum SetupStep {
    MigrateData,
    ClearVendor,
    Ffmpeg,
    Uv,
    Python,
    Venv,
    Dependencies,
    ExtractScripts,
    Videos,
    Finish,
}

/// One progress report.
pub struct SetupProgress {
    pub step: SetupStep,
    pub percent: usize,
    pub action: String,
}

/// Separate cache folders chosen during setup (`None` keeps the default
/// under the data folder).
pub struct CachePaths {
    pub songs: Option<String>,
    pub videos: Option<String>,
    pub models: Option<String>,
    pub vendor: Option<String>,
}

/// Folders chosen in the setup dialog.
pub struct SetupFolders {
    pub data_path: Option<String>,
    pub cache_paths: Option<CachePaths>,
}

// ─── Setup lock ──────────────────────────────────────────────────────

/// At most one setup runs at a time.
pub struct SetupLock {
    running: bool,
}

impl SetupLock {
    pub closed spec fn held(&self) -> bool {
        self.running
    }

    /// A free lock.
    pub fn new() -> (r: SetupLock)
        ensures
            !r.held(),
    {
        SetupLock { running: false }
    }

    /// Frees the lock.
    pub fn release(&mut self)
        ensures
            !final(self).held(),
    {
        self.running = false;
    }
}

/// Whether a setup is running.
pub fn is_setup_running(lock: &SetupLock) -> (r: bool)
    ensures
        r == lock.held(),
{
    lock.running
}

/// Trying to begin a setup, from whether one runs: whether this one may
/// start, and whether one runs afterwards.
pub open spec fn begin_outcome(held: bool) -> (bool, bool) {
    (!held, true)
}

/// Takes the lock when it is free; false when a setup already runs.
pub fn try_begin_setup(lock: &mut SetupLock) -> (r: bool)
    ensures
        (r, final(lock).held()) == begin_outcome(old(lock).held()),
{
    let was = lock.running;
    lock.running = true;
    !was
}

/// The setup lock is exclusive until released: once a setup has begun, a
/// second one is refused, and after the release a setup may begin again.
pub proof fn lemma_setup_lock_exclusive(held: bool)
    ensures
        !begin_outcome(begin_outcome(held).1).0,
        begin_outcome(false).0,
        begin_outcome(false).1,
{
}

// ─── Step plan ───────────────────────────────────────────────────────

/// One task of a setup run, carried out in order; the first failing task
/// ends the run with its error.
pub enum SetupTask {
    /// Report progress.
    Report(SetupStep, usize, String),
    /// Empty the vendor folder.
    ClearVendorDir,
    /// Move the app data to the chosen folder, tell the caller, and report
    /// `Data migrated to <new folder>` at `MigrateData`, 18%.
    MigrateAppData,
    /// Move cache data to the chosen (or default) cache folders and rebase
    /// cover paths.
    MigrateCaches,
    /// Store the chosen cache folders in the config.
    SaveCachePaths,
    /// Remove staging folders left by interrupted downloads.
    CleanupStaging,
    DownloadFfmpeg,
    DownloadUv,
    InstallPython,
    CreateVenv,
    InstallPackages,
    ExtractScripts,
    /// Download one background video per flavour, reporting each at
    /// `Videos`, 90%.
    PrefetchVideos,
    MarkReady,
}

pub enum TaskView {
    Report(SetupStep, usize, Seq<char>),
    ClearVendorDir,
    MigrateAppData,
    MigrateCaches,
    SaveCachePaths,
    CleanupStaging,
    DownloadFfmpeg,
    DownloadUv,
    InstallPython,
    CreateVenv,
    InstallPackages,
    ExtractScripts,
    PrefetchVideos,
    MarkReady,
}

impl View for SetupTask {
    type V = TaskView;

    open spec fn view(&self) -> TaskView {
        match self {
            SetupTask::Report(s, p, m) => TaskView::Report(*s, *p, m@),
            SetupTask::ClearVendorDir => TaskView::ClearVendorDir,
            SetupTask::MigrateAppData => TaskView::MigrateAppData,
            SetupTask::MigrateCaches => TaskView::MigrateCaches,
            SetupTask::SaveCachePaths => TaskView::SaveCachePaths,
            SetupTask::CleanupStaging => TaskView::CleanupStaging,
            SetupTask::DownloadFfmpeg => TaskView::DownloadFfmpeg,
            SetupTask::DownloadUv => TaskView::DownloadUv,
            SetupTask::InstallPython => TaskView::InstallPython,
            SetupTask::CreateVenv => TaskView::CreateVenv,
            SetupTask::InstallPackages => TaskView::InstallPackages,
            SetupTask::ExtractScripts => TaskView::ExtractScripts,
            SetupTask::PrefetchVideos => TaskView::PrefetchVideos,
            SetupTask::MarkReady => TaskView::MarkReady,
        }
    }
}

/// The tasks of a setup run. When the data folder moves, the vendor folder
/// is emptied and the data migrated first; otherwise only stale staging
/// folders are cleaned. Then come the downloads and installs in order, the
/// scripts, the videos, the ready mark and the final report.
pub open spec fn setup_plan_spec(migrate_data: bool) -> Seq<TaskView> {
    let head: Seq<TaskView> = if migrate_data {
        seq![
            TaskView::Report(SetupStep::ClearVendor, 6, "Clearing vendor folder before migration..."@),
            TaskView::ClearVendorDir,
            TaskView::Report(SetupStep::MigrateData, 12, "Migrating app data..."@),
            TaskView::MigrateAppData,
        ]
    } else {
        seq![]
    };
    let caches = seq![
        TaskView::Report(SetupStep::MigrateData, 20, "Moving cache data to selected folders..."@),
        TaskView::MigrateCaches,
        TaskView::SaveCachePaths,
    ];
    let cleanup: Seq<TaskView> = if migrate_data {
        seq![]
    } else {
        seq![
            TaskView::Report(SetupStep::ClearVendor, 14, "Cleaning up vendor folder..."@),
            TaskView::CleanupStaging,
        ]
    };
    let installs = seq![
        TaskView::Report(SetupStep::Ffmpeg, 24, "Downloading ffmpeg..."@),
        TaskView::DownloadFfmpeg,
        TaskView::Report(SetupStep::Uv, 34, "Downloading uv..."@),
        TaskView::DownloadUv,
        TaskView::Report(SetupStep::Python, 46, "Installing python3.10 via uv..."@),
        TaskView::InstallPython,
        TaskView::Report(SetupStep::Venv, 58, "Setting up .venv..."@),
        TaskView::CreateVenv,
        TaskView::Report(SetupStep::Dependencies, 70, "Installing python dependencies..."@),
        TaskView::InstallPackages,
        TaskView::Report(SetupStep::ExtractScripts, 80, "Extracting analyzer scripts..."@),
        TaskView::ExtractScripts,
        TaskView::Report(SetupStep::Videos, 90, "Pre-downloading video backgrounds..."@),
        TaskView::PrefetchVideos,
        TaskView::MarkReady,
        TaskView::Report(SetupStep::Finish, 100, "Done"@),
    ];
    head + caches + cleanup + installs
}

fn report(step: SetupStep, percent: usize, msg: &str) -> (r: SetupTask)
    ensures
        r@ == TaskView::Report(step, percent, msg@),
{
    SetupTask::Report(step, percent, String::from_str(msg))
}

/// Tasks of a setup run; `migrate_data` tells whether a data folder other
/// than the current one was chosen.
pub fn setup_plan(migrate_data: bool) -> (r: Vec<SetupTask>)
    ensures
        r@.map_values(|t: SetupTask| t@) == setup_plan_spec(migrate_data),
{
    let mut tasks: Vec<SetupTask> = Vec::new();
    if migrate_data {
        tasks.push(report(SetupStep::ClearVendor, 6, "Clearing vendor folder before migration..."));
        tasks.push(SetupTask::ClearVendorDir);
        tasks.push(report(SetupStep::MigrateData, 12, "Migrating app data..."));
        tasks.push(SetupTask::MigrateAppData);
    }
    tasks.push(report(SetupStep::MigrateData, 20, "Moving cache data to selected folders..."));
    tasks.push(SetupTask::MigrateCaches);
    tasks.push(SetupTask::SaveCachePaths);
    if !migrate_data {
        tasks.push(report(SetupStep::ClearVendor, 14, "Cleaning up vendor folder..."));
        tasks.push(SetupTask::CleanupStaging);
    }
    tasks.push(report(SetupStep::Ffmpeg, 24, "Downloading ffmpeg..."));
    tasks.push(SetupTask::DownloadFfmpeg);
    tasks.push(report(SetupStep::Uv, 34, "Downloading uv..."));
    tasks.push(SetupTask::DownloadUv);
    tasks.push(report(SetupStep::Python, 46, "Installing python3.10 via uv..."));
    tasks.push(SetupTask::InstallPython);
    tasks.push(report(SetupStep::Venv, 58, "Setting up .venv..."));
    tasks.push(SetupTask::CreateVenv);
    tasks.push(report(SetupStep::Dependencies, 70, "Installing python dependencies..."));
    tasks.push(SetupTask::InstallPackages);
    tasks.push(report(SetupStep::ExtractScripts, 80, "Extracting analyzer scripts..."));
    tasks.push(SetupTask::ExtractScripts);
    tasks.push(report(SetupStep::Videos, 90, "Pre-downloading video backgrounds..."));
    tasks.push(SetupTask::PrefetchVideos);
    tasks.push(SetupTask::MarkReady);
    tasks.push(report(SetupStep::Finish, 100, "Done"));
    assert(tasks@.map_values(|t: SetupTask| t@) =~= setup_plan_spec(migrate_data));
    tasks
}

/// The data folder typed in the dialog, trimmed, unless blank.
pub open spec fn requested_data_path_spec(folders: SetupFolders) -> Option<Seq<char>> {
    match folders.data_path {
        Some(p) => if trim(p@).len() > 0 {
            Some(trim(p@))
        } else {
            None
        },
        None => None,
    }
}

/// `tasks`, which stand for `plan`, were run in order by `run_task`: the
/// first `k` succeeded, and the run ended with `r`, either after all of them
/// (`Ok`) or with the error of task `k`.
pub open spec fn ran_plan_with<F: Fn(&SetupTask) -> Result<(), String>>(
    plan: Seq<TaskView>,
    tasks: Seq<SetupTask>,
    k: int,
    run_task: F,
    r: Result<(), String>,
) -> bool {
    &&& tasks.map_values(|t: SetupTask| t@) == plan
    &&& 0 <= k <= tasks.len()
    &&& forall|j: int| 0 <= j < k ==> run_task.ensures((&tasks[j],), Ok::<(), String>(()))
    &&& k == tasks.len() ==> r is Ok
    &&& k < tasks.len() ==> r is Err && run_task.ensures((&tasks[k],), r)
}

/// `plan` was carried out by `run_task` in order, stopping at the first
/// failing task, and the run ended with `r`.
pub open spec fn ran_plan<F: Fn(&SetupTask) -> Result<(), String>>(
    plan: Seq<TaskView>,
    run_task: F,
    r: Result<(), String>,
) -> bool {
    exists|tasks: Seq<SetupTask>, k: int| #[trigger] ran_plan_with(plan, tasks, k, run_task, r)
}

/// Runs a setup: refused while another runs. Otherwise it takes the lock,
/// asks `data_path_differs` whether the requested data folder (if any) is
/// another one than the current, carries out the tasks of the plan one by
/// one through `run_task`, stops at the first failing one with its error,
/// and releases the lock however the run ends.
#[verifier::loop_isolation(false)]
pub fn run_vendor_setup<D, F>(
    lock: &mut SetupLock,
    folders: &SetupFolders,
    data_path_differs: D,
    run_task: F,
) -> (r: Result<(), String>) where
    D: Fn(&str) -> Result<bool, String>,
    F: Fn(&SetupTask) -> Result<(), String>,

    requires
        forall|s: &str| #[trigger] data_path_differs.requires((s,)),
        forall|t: &SetupTask| #[trigger] run_task.requires((t,)),
    ensures
        old(lock).held() ==> final(lock).held() && (r matches Err(e) && e@
            == "Setup is already running"@),
        !old(lock).held() ==> !final(lock).held(),
        !old(lock).held() ==> match requested_data_path_spec(*folders) {
            None => ran_plan(setup_plan_spec(false), run_task, r),
            Some(t) => exists|arg: &str, d: Result<bool, String>|
                arg@ == t && #[trigger] data_path_differs.ensures((arg,), d) && match d {
                    Ok(m) => ran_plan(setup_plan_spec(m), run_task, r),
                    Err(e) => r == Err::<(), String>(e),
                },
        },
{
    if !try_begin_setup(lock) {
        return Err(String::from_str("Setup is already running"));
    }
    let requested = requested_data_path(folders);
    let migrate_data = match requested {
        Some(req) => {
            let answer = data_path_differs(req.as_str());
            match answer {
                Ok(m) => m,
                Err(e) => {
                    lock.release();
                    return Err(e);
                },
            }
        },
        None => false,
    };
    let tasks = setup_plan(migrate_data);
    let ghost plan = setup_plan_spec(migrate_data);
    let mut i: usize = 0;
    while i < tasks.len()
        invariant
            i <= tasks@.len(),
            tasks@.map_values(|t: SetupTask| t@) == plan,
            forall|t: &SetupTask| #[trigger] run_task.requires((t,)),
            forall|j: int| 0 <= j < i ==> run_task.ensures((&tasks@[j],), Ok::<(), String>(())),
            lock.held(),
        decreases tasks@.len() - i,
    {
        let task = &tasks[i];
        assert(*task == tasks@[i as int]);
        let outcome = run_task(task);
        if outcome.is_err() {
            lock.release();
            assert(ran_plan_with(plan, tasks@, i as int, run_task, outcome));
            return outcome;
        }
        assert(outcome is Ok);
        assert(outcome->Ok_0 == ());
        assert(outcome == Ok::<(), String>(()));
        i = i + 1;
    }
    lock.release();
    let r = Ok(());
    assert(ran_plan_with(plan, tasks@, i as int, run_task, r));
    r
}

/// The progress message after the data folder moved.
pub fn migrated_message(new_path: &str) -> (r: String)
    ensures
        r@ == "Data migrated to "@ + new_path@,
{
    string_of(&concat(&chars_of("Data migrated to "), &chars_of(new_path)))
}

/// The data folder typed in the dialog, trimmed, unless blank.
pub fn requested_data_path(folders: &SetupFolders) -> (r: Option<String>)
    ensures
        match folders.data_path {
            Some(p) => if trim(p@).len() > 0 {
                r matches Some(t) && t@ == trim(p@)
            } else {
                r is None
            },
            None => r is None,
        },
{
    match &folders.data_path {
        Some(p) => {
            let t = trim_chars(&chars_of(p.as_str()));
            if t.len() > 0 {
                Some(string_of(&t))
            } else {
                None
            }
        },
        None => None,
    }
}

/// Whether the vendor install is complete: the ready mark, ffmpeg, the
/// venv's Python and the analyzer entry script are all present.
pub fn is_ready(marker: bool, ffmpeg: bool, python: bool, analyzer_script: bool) -> (r: bool)
    ensures
        r == (marker && ffmpeg && python && analyzer_script),
{
    marker && ffmpeg && python && analyzer_script
}

/// An error of `write`, under `prefix`.
pub open spec fn prefixed(out: Result<(), String>, prefix: Seq<char>) -> Result<(), Seq<char>> {
    match out {
        Ok(_) => Ok(()),
        Err(e) => Err(prefix + e@),
    }
}

pub open spec fn result_view(r: Result<(), String>) -> Result<(), Seq<char>> {
    match r {
        Ok(_) => Ok(()),
        Err(e) => Err(e@),
    }
}

fn prefix_error(out: Result<(), String>, prefix: &str) -> (r: Result<(), String>)
    ensures
        result_view(r) == prefixed(out, prefix@),
{
    match out {
        Ok(()) => Ok(()),
        Err(e) => Err(string_of(&concat(&chars_of(prefix), &chars_of(e.as_str())))),
    }
}

/// Writes the analyzer scripts with `write`, its error prefixed with
/// `Failed to write scripts: `.
pub fn step_extract_scripts<F: FnOnce() -> Result<(), String>>(write: F) -> (r: Result<(), String>)
    requires
        write.requires(()),
    ensures
        exists|out: Result<(), String>|
            write.ensures((), out) && result_view(r) == prefixed(out, "Failed to write scripts: "@),
{
    let out = write();
    prefix_error(out, "Failed to write scripts: ")
}

/// Rewrites the analyzer scripts over a finished install (`ready`), its
/// error prefixed with `Failed to refresh analyzer scripts: `; nothing to do
/// before the setup has completed.
pub fn refresh_analyzer_scripts_if_ready<F: FnOnce() -> Result<(), String>>(ready: bool, write: F) -> (r:
    Result<(), String>)
    requires
        ready ==> write.requires(()),
    ensures
        !ready ==> r is Ok,
        ready ==> exists|out: Result<(), String>|
            write.ensures((), out) && result_view(r) == prefixed(
                out,
                "Failed to refresh analyzer scripts: "@,
            ),
{
    if !ready {
        return Ok(());
    }
    let out = write();
    prefix_error(out, "Failed to refresh analyzer scripts: ")
}

// ─── Downloads ───────────────────────────────────────────────────────

pub open spec fn lit_linux() -> Seq<char> {
    seq!['l', 'i', 'n', 'u', 'x']
}

pub open spec fn lit_macos() -> Seq<char> {
    seq!['m', 'a', 'c', 'o', 's']
}

pub open spec fn lit_windows() -> Seq<char> {
    seq!['w', 'i', 'n', 'd', 'o', 'w', 's']
}

pub open spec fn lit_x86_64() -> Seq<char> {
    seq!['x', '8', '6', '_', '6', '4']
}

pub open spec fn lit_aarch64() -> Seq<char> {
    seq!['a', 'a', 'r', 'c', 'h', '6', '4']
}

/// Where ffmpeg is downloaded from for an OS and architecture (as
/// `std::env::consts` name them).
pub open spec fn ffmpeg_url_spec(os: Seq<char>, arch: Seq<char>) -> Result<Seq<char>, Seq<char>> {
    if os == lit_linux() && arch == lit_x86_64() {
        Ok("https://johnvansickle.com/ffmpeg/releases/ffmpeg-release-amd64-static.tar.xz"@)
    } else if os == lit_linux() && arch == lit_aarch64() {
        Ok("https://johnvansickle.com/ffmpeg/releases/ffmpeg-release-arm64-static.tar.xz"@)
    } else if os == lit_macos() && arch == lit_aarch64() {
        Ok("https://evermeet.cx/ffmpeg/ffmpeg-8.1.zip"@)
    } else if os == lit_macos() && arch == lit_x86_64() {
        Ok("https://evermeet.cx/ffmpeg/ffmpeg-8.1.zip"@)
    } else if os == lit_windows() && arch == lit_x86_64() {
        Ok(
            "https://github.com/BtbN/FFmpeg-Builds/releases/download/latest/ffmpeg-master-latest-win64-gpl.zip"@,
        )
    } else {
        Err("Unsupported platform for ffmpeg: "@ + os + seq!['-'] + arch)
    }
}

/// Where uv is downloaded from for an OS and architecture.
pub open spec fn uv_url_spec(os: Seq<char>, arch: Seq<char>) -> Result<Seq<char>, Seq<char>> {
    if os == lit_linux() && arch == lit_x86_64() {
        Ok(
            "https://github.com/astral-sh/uv/releases/latest/download/uv-x86_64-unknown-linux-gnu.tar.gz"@,
        )
    } else if os == lit_linux() && arch == lit_aarch64() {
        Ok(
            "https://github.com/astral-sh/uv/releases/latest/download/uv-aarch64-unknown-linux-gnu.tar.gz"@,
        )
    } else if os == lit_macos() && arch == lit_aarch64() {
        Ok(
            "https://github.com/astral-sh/uv/releases/latest/download/uv-aarch64-apple-darwin.tar.gz"@,
        )
    } else if os == lit_macos() && arch == lit_x86_64() {
        Ok(
            "https://github.com/astral-sh/uv/releases/latest/download/uv-x86_64-apple-darwin.tar.gz"@,
        )
    } else if os == lit_windows() && arch == lit_x86_64() {
        Ok(
            "https://github.com/astral-sh/uv/releases/latest/download/uv-x86_64-pc-windows-msvc.zip"@,
        )
    } else {
        Err("Unsupported platform for uv: "@ + os + seq!['-'] + arch)
    }
}

fn platform_is(os: &Vec<char>, arch: &Vec<char>, o: &str, a: &str) -> (r: bool)
    ensures
        r == (os@ == o@ && arch@ == a@),
{
    chars_eq(os, &chars_of(o)) && chars_eq(arch, &chars_of(a))
}

pub fn ffmpeg_download_url(os: &str, arch: &str) -> (r: Result<String, String>)
    ensures
        match r {
            Ok(u) => ffmpeg_url_spec(os@, arch@) == Ok::<Seq<char>, Seq<char>>(u@),
            Err(e) => ffmpeg_url_spec(os@, arch@) == Err::<Seq<char>, Seq<char>>(e@),
        },
{
    let o = chars_of(os);
    let a = chars_of(arch);
    proof {
        reveal_strlit("linux");
        reveal_strlit("macos");
        reveal_strlit("windows");
        reveal_strlit("x86_64");
        reveal_strlit("aarch64");
        assert("linux"@ =~= lit_linux());
        assert("macos"@ =~= lit_macos());
        assert("windows"@ =~= lit_windows());
        assert("x86_64"@ =~= lit_x86_64());
        assert("aarch64"@ =~= lit_aarch64());
    }
    if platform_is(&o, &a, "linux", "x86_64") {
        Ok(
            String::from_str(
                "https://johnvansickle.com/ffmpeg/releases/ffmpeg-release-amd64-static.tar.xz",
            ),
        )
    } else if platform_is(&o, &a, "linux", "aarch64") {
        Ok(
            String::from_str(
                "https://johnvansickle.com/ffmpeg/releases/ffmpeg-release-arm64-static.tar.xz",
            ),
        )
    } else if platform_is(&o, &a, "macos", "aarch64") {
        Ok(String::from_str("https://evermeet.cx/ffmpeg/ffmpeg-8.1.zip"))
    } else if platform_is(&o, &a, "macos", "x86_64") {
        Ok(String::from_str("https://evermeet.cx/ffmpeg/ffmpeg-8.1.zip"))
    } else if platform_is(&o, &a, "windows", "x86_64") {
        Ok(
            String::from_str(
                "https://github.com/BtbN/FFmpeg-Builds/releases/download/latest/ffmpeg-master-latest-win64-gpl.zip",
            ),
        )
    } else {
        let dash = vec!['-'];
        assert(dash@ =~= seq!['-']);
        let m = concat(&concat(&concat(&chars_of("Unsupported platform for ffmpeg: "), &o), &dash), &a);
        Err(string_of(&m))
    }
}

pub fn uv_download_url(os: &str, arch: &str) -> (r: Result<String, String>)
    ensures
        match r {
            Ok(u) => uv_url_spec(os@, arch@) == Ok::<Seq<char>, Seq<char>>(u@),
            Err(e) => uv_url_spec(os@, arch@) == Err::<Seq<char>, Seq<char>>(e@),
        },
{
    let o = chars_of(os);
    let a = chars_of(arch);
    proof {
        reveal_strlit("linux");
        reveal_strlit("macos");
        reveal_strlit("windows");
        reveal_strlit("x86_64");
        reveal_strlit("aarch64");
        assert("linux"@ =~= lit_linux());
        assert("macos"@ =~= lit_macos());
        assert("windows"@ =~= lit_windows());
        assert("x86_64"@ =~= lit_x86_64());
        assert("aarch64"@ =~= lit_aarch64());
    }
    if platform_is(&o, &a, "linux", "x86_64") {
        Ok(
            String::from_str(
                "https://github.com/astral-sh/uv/releases/latest/download/uv-x86_64-unknown-linux-gnu.tar.gz",
            ),
        )
    } else if platform_is(&o, &a, "linux", "aarch64") {
        Ok(
            String::from_str(
                "https://github.com/astral-sh/uv/releases/latest/download/uv-aarch64-unknown-linux-gnu.tar.gz",
            ),
        )
    } else if platform_is(&o, &a, "macos", "aarch64") {
        Ok(
            String::from_str(
                "https://github.com/astral-sh/uv/releases/latest/download/uv-aarch64-apple-darwin.tar.gz",
            ),
        )
    } else if platform_is(&o, &a, "macos", "x86_64") {
        Ok(
            String::from_str(
                "https://github.com/astral-sh/uv/releases/latest/download/uv-x86_64-apple-darwin.tar.gz",
            ),
        )
    } else if platform_is(&o, &a, "windows", "x86_64") {
        Ok(
            String::from_str(
                "https://github.com/astral-sh/uv/releases/latest/download/uv-x86_64-pc-windows-msvc.zip",
            ),
        )
    } else {
        let dash = vec!['-'];
        assert(dash@ =~= seq!['-']);
        let m = concat(&concat(&concat(&chars_of("Unsupported platform for uv: "), &o), &dash), &a);
        Err(string_of(&m))
    }
}

/// Kind of a downloaded archive, by name.
#[derive(PartialEq, Eq, Structural, Clone, Copy, Debug)]
pub enum ArchiveKind {
    TarXz,
    TarGz,
    Zip,
}

pub open spec fn archive_kind_spec(name: Seq<char>) -> Result<ArchiveKind, Seq<char>> {
    if has_suffix(name, ".tar.xz"@) {
        Ok(ArchiveKind::TarXz)
    } else if has_suffix(name, ".tar.gz"@) {
        Ok(ArchiveKind::TarGz)
    } else if has_suffix(name, ".zip"@) {
        Ok(ArchiveKind::Zip)
    } else {
        Err("Unknown archive format: "@ + name)
    }
}

pub fn archive_kind(name: &str) -> (r: Result<ArchiveKind, String>)
    ensures
        match r {
            Ok(k) => archive_kind_spec(name@) == Ok::<ArchiveKind, Seq<char>>(k),
            Err(e) => archive_kind_spec(name@) == Err::<ArchiveKind, Seq<char>>(e@),
        },
{
    let n = chars_of(name);
    if ends_with(&n, &chars_of(".tar.xz")) {
        Ok(ArchiveKind::TarXz)
    } else if ends_with(&n, &chars_of(".tar.gz")) {
        Ok(ArchiveKind::TarGz)
    } else if ends_with(&n, &chars_of(".zip")) {
        Ok(ArchiveKind::Zip)
    } else {
        Err(string_of(&concat(&chars_of("Unknown archive format: "), &n)))
    }
}

/// A command to run: program and arguments.
pub struct CommandLine {
    pub program: String,
    pub args: Vec<String>,
}

pub open spec fn strs(v: Seq<String>) -> Seq<Seq<char>> {
    v.map_values(|s: String| s@)
}

fn strings(parts: &Vec<&str>) -> (r: Vec<String>)
    ensures
        strs(r@) == parts@.map_values(|p: &str| p@),
{
    let mut out: Vec<String> = Vec::new();
    let mut i: usize = 0;
    while i < parts.len()
        invariant
            i <= parts@.len(),
            strs(out@) == parts@.take(i as int).map_values(|p: &str| p@),
        decreases parts@.len() - i,
    {
        let ghost before = strs(out@);
        out.push(String::from_str(parts[i]));
        assert(strs(out@) =~= before.push(parts@[i as int]@));
        assert(parts@.take(i + 1).map_values(|p: &str| p@) =~= parts@.take(i as int).map_values(
            |p: &str| p@,
        ).push(parts@[i as int]@));
        i = i + 1;
    }
    assert(parts@.take(parts@.len() as int) =~= parts@);
    out
}

/// How an archive is unpacked into `dest`: `tar -xmJf`, `tar -xmzf`, and for
/// zip files `tar -xmf` on Windows or `unzip -o ... -d` elsewhere.
pub fn extract_command(kind: ArchiveKind, archive: &str, dest: &str, windows: bool) -> (r:
    CommandLine)
    ensures
        match kind {
            ArchiveKind::TarXz => r.program@ == "tar"@ && strs(r.args@) == seq![
                "-xmJf"@,
                archive@,
                "-C"@,
                dest@,
            ],
            ArchiveKind::TarGz => r.program@ == "tar"@ && strs(r.args@) == seq![
                "-xmzf"@,
                archive@,
                "-C"@,
                dest@,
            ],
            ArchiveKind::Zip => if windows {
                r.program@ == "tar"@ && strs(r.args@) == seq!["-xmf"@, archive@, "-C"@, dest@]
            } else {
                r.program@ == "unzip"@ && strs(r.args@) == seq!["-o"@, archive@, "-d"@, dest@]
            },
        },
{
    let (program, flag, sep) = match kind {
        ArchiveKind::TarXz => ("tar", "-xmJf", "-C"),
        ArchiveKind::TarGz => ("tar", "-xmzf", "-C"),
        ArchiveKind::Zip => if windows {
            ("tar", "-xmf", "-C")
        } else {
            ("unzip", "-o", "-d")
        },
    };
    let parts = vec![flag, archive, sep, dest];
    let args = strings(&parts);
    assert(parts@.map_values(|p: &str| p@) =~= seq![flag@, archive@, sep@, dest@]);
    CommandLine { program: String::from_str(program), args }
}

/// Extension given to the downloaded ffmpeg archive.
pub fn ffmpeg_archive_ext(url: &str) -> (r: &'static str)
    ensures
        has_suffix(url@, ".tar.xz"@) ==> r@ == "tar.xz"@,
        !has_suffix(url@, ".tar.xz"@) ==> r@ == "zip"@,
{
    if ends_with(&chars_of(url), &chars_of(".tar.xz")) {
        "tar.xz"
    } else {
        "zip"
    }
}

/// Extension given to the downloaded uv archive.
pub fn uv_archive_ext(url: &str) -> (r: &'static str)
    ensures
        has_suffix(url@, ".zip"@) ==> r@ == "zip"@,
        !has_suffix(url@, ".zip"@) ==> r@ == "tar.gz"@,
{
    if ends_with(&chars_of(url), &chars_of(".zip")) {
        "zip"
    } else {
        "tar.gz"
    }
}

/// File names of the vendored binaries.
pub fn ffmpeg_binary_name(windows: bool) -> (r: &'static str)
    ensures
        windows ==> r@ == "ffmpeg.exe"@,
        !windows ==> r@ == "ffmpeg"@,
{
    if windows {
        "ffmpeg.exe"
    } else {
        "ffmpeg"
    }
}

pub fn uv_binary_name(windows: bool) -> (r: &'static str)
    ensures
        windows ==> r@ == "uv.exe"@,
        !windows ==> r@ == "uv"@,
{
    if windows {
        "uv.exe"
    } else {
        "uv"
    }
}

/// Name of the interpreter file a Python install is recognised by.
pub fn installed_python_name(windows: bool) -> (r: &'static str)
    ensures
        windows ==> r@ == "python.exe"@,
        !windows ==> r@ == "python3.10"@,
{
    if windows {
        "python.exe"
    } else {
        "python3.10"
    }
}

/// The venv's interpreter, relative to the vendor folder.
pub fn venv_python_parts(windows: bool) -> (r: Vec<String>)
    ensures
        windows ==> strs(r@) == seq!["venv"@, "Scripts"@, "python.exe"@],
        !windows ==> strs(r@) == seq!["venv"@, "bin"@, "python"@],
{
    let parts = if windows {
        vec!["venv", "Scripts", "python.exe"]
    } else {
        vec!["venv", "bin", "python"]
    };
    let r = strings(&parts);
    proof {
        if windows {
            assert(parts@.map_values(|p: &str| p@) =~= seq!["venv"@, "Scripts"@, "python.exe"@]);
        } else {
            assert(parts@.map_values(|p: &str| p@) =~= seq!["venv"@, "bin"@, "python"@]);
        }
    }
    r
}

// ─── Python and venv ─────────────────────────────────────────────────

/// `uv` arguments that install Python 3.10 into `python_dir`; nothing to do
/// when an interpreter is already there.
pub fn step_install_python(already_installed: bool, python_dir: &str) -> (r: Option<Vec<String>>)
    ensures
        already_installed ==> r is None,
        !already_installed ==> (r matches Some(a) && strs(a@) == seq![
            "python"@,
            "install"@,
            "3.10"@,
            "--install-dir"@,
            python_dir@,
        ]),
{
    if already_installed {
        return None;
    }
    let parts = vec!["python", "install", "3.10", "--install-dir", python_dir];
    let a = strings(&parts);
    assert(parts@.map_values(|p: &str| p@) =~= seq![
        "python"@,
        "install"@,
        "3.10"@,
        "--install-dir"@,
        python_dir@,
    ]);
    Some(a)
}

/// `uv` arguments that create the venv with the installed interpreter;
/// nothing to do when the venv's Python exists, an error when no installed
/// interpreter was found.
pub fn step_create_venv(venv_python_exists: bool, venv_dir: &str, installed_python: Option<&str>) -> (r:
    Result<Option<Vec<String>>, String>)
    ensures
        venv_python_exists ==> r matches Ok(None),
        !venv_python_exists ==> match installed_python {
            None => (r matches Err(e) && e@
                == "Could not find installed Python — run python install first"@),
            Some(p) => (r matches Ok(Some(a)) && strs(a@) == seq![
                "venv"@,
                venv_dir@,
                "--python"@,
                p@,
            ]),
        },
{
    if venv_python_exists {
        return Ok(None);
    }
    match installed_python {
        None => Err(String::from_str("Could not find installed Python — run python install first")),
        Some(p) => {
            let parts = vec!["venv", venv_dir, "--python", p];
            let a = strings(&parts);
            assert(parts@.map_values(|x: &str| x@) =~= seq!["venv"@, venv_dir@, "--python"@, p@]);
            Ok(Some(a))
        },
    }
}

// ─── GPU and packages ────────────────────────────────────────────────

/// Torch flavour for the machine: device, wheel index, and whether the last
/// torch line that supports it (< 2.3) is needed.
pub struct GpuInfo {
    pub device: &'static str,
    pub torch_index: &'static str,
    pub legacy_torch: bool,
}

/// Major version of a `compute_cap` answer such as `8.6`: the number before
/// the first `.` of the trimmed text.
pub open spec fn compute_major_spec(text: Seq<char>) -> Option<u32> {
    let t = trim(text);
    parse_u32(t.take(index_of(t, '.') as int))
}

pub open spec fn cuda_index_spec(major: Option<u32>) -> Seq<char> {
    match major {
        Some(v) => if v >= 10 {
            "https://download.pytorch.org/whl/cu128"@
        } else {
            "https://download.pytorch.org/whl/cu126"@
        },
        None => "https://download.pytorch.org/whl/cu126"@,
    }
}

/// CUDA wheel index for the output of `nvidia-smi --query-gpu=compute_cap`
/// (`None` when the query failed): cu128 from compute capability 10 on,
/// cu126 otherwise.
pub fn query_cuda_index(compute_cap_output: Option<&str>) -> (r: &'static str)
    ensures
        r@ == cuda_index_spec(
            match compute_cap_output {
                Some(t) => compute_major_spec(t@),
                None => None,
            },
        ),
{
    let major = match compute_cap_output {
        Some(t) => {
            let trimmed = trim_chars(&chars_of(t));
            let cut = crate::text::find_char_from(&trimmed, '.', 0);
            assert(trimmed@.skip(0) =~= trimmed@);
            parse_u32_chars(&subvec(&trimmed, 0, cut))
        },
        None => None,
    };
    match major {
        Some(v) => if v >= 10 {
            "https://download.pytorch.org/whl/cu128"
        } else {
            "https://download.pytorch.org/whl/cu126"
        },
        None => "https://download.pytorch.org/whl/cu126",
    }
}

/// Torch flavour: Intel Macs run CPU-only torch < 2.3, Apple Silicon uses
/// MPS with CPU wheels, elsewhere CUDA when `nvidia-smi` answers (with the
/// index its compute capability asks for) and the CPU wheels otherwise.
pub fn detect_gpu(macos: bool, x86_64: bool, nvidia_smi: bool, compute_cap_output: Option<&str>) -> (r:
    GpuInfo)
    ensures
        macos && x86_64 ==> r.device@ == "cpu"@ && r.torch_index@
            == "https://download.pytorch.org/whl/cpu"@ && r.legacy_torch,
        macos && !x86_64 ==> r.device@ == "mps"@ && r.torch_index@
            == "https://download.pytorch.org/whl/cpu"@ && !r.legacy_torch,
        !macos && nvidia_smi ==> r.device@ == "cuda"@ && r.torch_index@ == cuda_index_spec(
            match compute_cap_output {
                Some(t) => compute_major_spec(t@),
                None => None,
            },
        ) && !r.legacy_torch,
        !macos && !nvidia_smi ==> r.device@ == "cpu"@ && r.torch_index@
            == "https://download.pytorch.org/whl/cpu"@ && !r.legacy_torch,
{
    if macos {
        if x86_64 {
            return GpuInfo {
                device: "cpu",
                torch_index: "https://download.pytorch.org/whl/cpu",
                legacy_torch: true,
            };
        }
        return GpuInfo {
            device: "mps",
            torch_index: "https://download.pytorch.org/whl/cpu",
            legacy_torch: false,
        };
    }
    if nvidia_smi {
        GpuInfo { device: "cuda", torch_index: query_cuda_index(compute_cap_output), legacy_torch: false }
    } else {
        GpuInfo {
            device: "cpu",
            torch_index: "https://download.pytorch.org/whl/cpu",
            legacy_torch: false,
        }
    }
}

/// One `uv` run of the package install: its arguments, the message prefix
/// when it cannot be started, and the one when it exits with an error.
pub struct UvRun {
    pub args: Vec<String>,
    pub spawn_error: String,
    pub exit_error: String,
}

pub open spec fn base_packages(legacy: bool, cuda: bool) -> Seq<Seq<char>> {
    let (sep, whisperx) = if legacy {
        ("audio-separator>=0.24,<0.25"@, "whisperx>=3.3.0,<3.3.4"@)
    } else if cuda {
        ("audio-separator[gpu]>=0.25"@, "whisperx>=3.3.0"@)
    } else {
        ("audio-separator>=0.25"@, "whisperx>=3.3.0"@)
    };
    seq![
        "pip"@,
        "install"@,
        "demucs>=4.0.0"@,
        whisperx,
        "soundfile"@,
        "huggingface_hub>=0.27.0"@,
        "transformers>=5.13.0"@,
        sep,
        "onnx-asr>=0.5.0"@,
        "onnxruntime>=1.17"@,
        "fugashi[unidic-lite]>=1.3"@,
        "pykakasi>=2.3"@,
        "jieba>=0.42"@,
        "pypinyin>=0.50"@,
        "ToJyutping>=3.0"@,
        "hangul-romanize>=0.1.0"@,
        "nagisa>=0.2.11"@,
        "soynlp>=0.0.493"@,
    ] + if legacy {
        seq!["torch<2.3"@, "torchaudio<2.3"@]
    } else {
        seq![]
    }
}

/// The `uv` runs that install the analyzer's packages with `python`: build
/// dependencies, then the package set for the GPU flavour, then on CUDA the
/// matching torch wheels and NeMo.
pub open spec fn package_runs_spec(gpu: GpuInfo, python: Seq<char>) -> Seq<(Seq<Seq<char>>, Seq<char>, Seq<char>)> {
    let cuda = gpu.device@ == "cuda"@;
    let first = (
        seq!["pip"@, "install"@, "cython"@, "setuptools"@, "--python"@, python],
        "Failed to install build deps"@,
        "Build deps install failed"@,
    );
    let second = (
        base_packages(gpu.legacy_torch, cuda) + seq!["--python"@, python],
        "Failed to run uv pip install"@,
        "Package install failed"@,
    );
    let torch = (
        seq![
            "pip"@,
            "install"@,
            "--reinstall-package"@,
            "torch"@,
            "--reinstall-package"@,
            "torchaudio"@,
            "--reinstall-package"@,
            "torchvision"@,
            "torch==2.10.0"@,
            "torchaudio==2.10.0"@,
            "torchvision==0.25.0"@,
            "--python"@,
            python,
            "--index-url"@,
            gpu.torch_index@,
        ],
        "Failed to install CUDA PyTorch"@,
        "CUDA PyTorch install failed"@,
    );
    let nemo = (
        seq!["pip"@, "install"@, "nemo_toolkit[asr]>=2.0.0"@, "--python"@, python],
        "Failed to install NeMo"@,
        "NeMo install failed"@,
    );
    if cuda {
        seq![first, second, torch, nemo]
    } else {
        seq![first, second]
    }
}

/// Torch 2.3 and later have no wheels for Intel Macs: when the GPU info
/// asks for the legacy torch, the package-install run pins `torch<2.3`
/// and `torchaudio<2.3`, ahead of the `--python` it runs with.
pub proof fn lemma_legacy_torch_pinned(gpu: GpuInfo, python: Seq<char>)
    ensures
        package_runs_spec(gpu, python).len() >= 2,
        gpu.legacy_torch ==> exists|i: int, j: int, k: int|
            0 <= i < k && 0 <= j < k && k < package_runs_spec(gpu, python)[1].0.len()
                && package_runs_spec(gpu, python)[1].0[i] == "torch<2.3"@ && package_runs_spec(
                gpu,
                python,
            )[1].0[j] == "torchaudio<2.3"@ && package_runs_spec(gpu, python)[1].0[k]
                == "--python"@,
{
    let cuda = gpu.device@ == "cuda"@;
    let args = package_runs_spec(gpu, python)[1].0;
    assert(args == base_packages(gpu.legacy_torch, cuda) + seq!["--python"@, python]);
    if gpu.legacy_torch {
        assert(args[18] == "torch<2.3"@);
        assert(args[19] == "torchaudio<2.3"@);
        assert(args[20] == "--python"@);
    }
}

pub open spec fn run_view(r: UvRun) -> (Seq<Seq<char>>, Seq<char>, Seq<char>) {
    (strs(r.args@), r.spawn_error@, r.exit_error@)
}

fn uv_run(parts: &Vec<&str>, spawn_error: &str, exit_error: &str) -> (r: UvRun)
    ensures
        run_view(r) == (parts@.map_values(|p: &str| p@), spawn_error@, exit_error@),
{
    UvRun {
        args: strings(parts),
        spawn_error: String::from_str(spawn_error),
        exit_error: String::from_str(exit_error),
    }
}

pub fn step_install_packages(gpu: &GpuInfo, python: &str) -> (r: Vec<UvRun>)
    ensures
        r@.map_values(|x: UvRun| run_view(x)) == package_runs_spec(*gpu, python@),
{
    let cuda = chars_eq(&chars_of(gpu.device), &chars_of("cuda"));
    let (sep, whisperx) = if gpu.legacy_torch {
        ("audio-separator>=0.24,<0.25", "whisperx>=3.3.0,<3.3.4")
    } else if cuda {
        ("audio-separator[gpu]>=0.25", "whisperx>=3.3.0")
    } else {
        ("audio-separator>=0.25", "whisperx>=3.3.0")
    };
    let first_parts = vec!["pip", "install", "cython", "setuptools", "--python", python];
    let first = uv_run(&first_parts, "Failed to install build deps", "Build deps install failed");
    assert(run_view(first) == package_runs_spec(*gpu, python@)[0]) by {
        assert(first_parts@.map_values(|p: &str| p@) =~= package_runs_spec(*gpu, python@)[0].0);
    }
    let mut pkg: Vec<&str> = vec![
        "pip",
        "install",
        "demucs>=4.0.0",
        whisperx,
        "soundfile",
        "huggingface_hub>=0.27.0",
        "transformers>=5.13.0",
        sep,
        "onnx-asr>=0.5.0",
        "onnxruntime>=1.17",
        "fugashi[unidic-lite]>=1.3",
        "pykakasi>=2.3",
        "jieba>=0.42",
        "pypinyin>=0.50",
        "ToJyutping>=3.0",
        "hangul-romanize>=0.1.0",
        "nagisa>=0.2.11",
        "soynlp>=0.0.493",
    ];
    if gpu.legacy_torch {
        pkg.push("torch<2.3");
        pkg.push("torchaudio<2.3");
    }
    pkg.push("--python");
    pkg.push(python);
    let second = uv_run(&pkg, "Failed to run uv pip install", "Package install failed");
    assert(run_view(second) == package_runs_spec(*gpu, python@)[1]) by {
        assert(pkg@.map_values(|p: &str| p@) =~= package_runs_spec(*gpu, python@)[1].0);
    }
    let mut runs: Vec<UvRun> = Vec::new();
    runs.push(first);
    runs.push(second);
    if cuda {
        let torch_parts = vec![
            "pip",
            "install",
            "--reinstall-package",
            "torch",
            "--reinstall-package",
            "torchaudio",
            "--reinstall-package",
            "torchvision",
            "torch==2.10.0",
            "torchaudio==2.10.0",
            "torchvision==0.25.0",
            "--python",
            python,
            "--index-url",
            gpu.torch_index,
        ];
        let torch = uv_run(&torch_parts, "Failed to install CUDA PyTorch", "CUDA PyTorch install failed");
        assert(run_view(torch) == package_runs_spec(*gpu, python@)[2]) by {
            assert(torch_parts@.map_values(|p: &str| p@) =~= package_runs_spec(*gpu, python@)[2].0);
        }
        runs.push(torch);
        let nemo_parts = vec!["pip", "install", "nemo_toolkit[asr]>=2.0.0", "--python", python];
        let nemo = uv_run(&nemo_parts, "Failed to install NeMo", "NeMo install failed");
        assert(run_view(nemo) == package_runs_spec(*gpu, python@)[3]) by {
            assert(nemo_parts@.map_values(|p: &str| p@) =~= package_runs_spec(*gpu, python@)[3].0);
        }
        runs.push(nemo);
    }
    assert(runs@.map_values(|x: UvRun| run_view(x)) =~= package_runs_spec(*gpu, python@));
    runs
}

} // verus!
