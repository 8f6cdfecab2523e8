use app_core::vendor::{
    archive_kind, detect_gpu, extract_command, ffmpeg_download_url, is_ready, is_setup_running,
    query_cuda_index, refresh_analyzer_scripts_if_ready, requested_data_path, run_vendor_setup,
    setup_plan, step_create_venv, step_extract_scripts, step_install_packages,
    step_install_python, try_begin_setup, uv_download_url, venv_python_parts, ArchiveKind,
    SetupFolders, SetupLock, SetupStep, SetupTask,
};

#[test]
fn setup_lock_is_exclusive_until_released() {
    let mut lock = SetupLock::new();
    assert!(!is_setup_running(&lock));
    assert!(try_begin_setup(&mut lock));
    assert!(is_setup_running(&lock));
    assert!(
        !try_begin_setup(&mut lock),
        "second concurrent setup must be refused"
    );
    lock.release();
    assert!(!is_setup_running(&lock));
    assert!(try_begin_setup(&mut lock), "lock must be reacquirable after release");
    lock.release();
}

fn no_folders() -> SetupFolders {
    SetupFolders { data_path: None, cache_paths: None }
}

#[test]
fn second_run_is_refused_while_one_runs() {
    let mut lock = SetupLock::new();
    assert!(try_begin_setup(&mut lock));
    let ran = std::cell::Cell::new(0usize);
    let asked = std::cell::Cell::new(false);
    let refused = run_vendor_setup(
        &mut lock,
        &SetupFolders { data_path: Some("/elsewhere".to_string()), cache_paths: None },
        |_: &str| {
            asked.set(true);
            Ok(true)
        },
        |_: &SetupTask| {
            ran.set(ran.get() + 1);
            Ok(())
        },
    );
    assert_eq!(refused, Err("Setup is already running".to_string()));
    assert!(is_setup_running(&lock), "the running setup keeps its lock");
    assert!(!asked.get());
    assert_eq!(ran.get(), 0);
}

#[test]
fn a_finished_run_releases_the_lock() {
    let mut lock = SetupLock::new();
    let ran = std::cell::Cell::new(0usize);
    let r = run_vendor_setup(&mut lock, &no_folders(), |_: &str| Ok(true), |_: &SetupTask| {
        ran.set(ran.get() + 1);
        Ok(())
    });
    assert_eq!(r, Ok(()));
    assert_eq!(ran.get(), setup_plan(false).len());
    assert!(!is_setup_running(&lock));
}

#[test]
fn a_failed_run_stops_at_the_failing_task_and_releases_the_lock() {
    let mut lock = SetupLock::new();
    let seen = std::cell::RefCell::new(Vec::new());
    let r = run_vendor_setup(&mut lock, &no_folders(), |_: &str| Ok(true), |task: &SetupTask| {
        let failing = matches!(task, SetupTask::DownloadUv);
        seen.borrow_mut().push(failing);
        if failing {
            Err("uv download failed".to_string())
        } else {
            Ok(())
        }
    });
    assert_eq!(r, Err("uv download failed".to_string()));
    assert_eq!(seen.borrow().last(), Some(&true));
    assert!(seen.borrow().len() < setup_plan(false).len());
    assert!(!is_setup_running(&lock));
    assert!(try_begin_setup(&mut lock), "a new setup may begin");
}

#[test]
fn migration_is_decided_inside_the_lock() {
    let mut lock = SetupLock::new();
    let asked = std::cell::RefCell::new(Vec::new());
    let count = std::cell::Cell::new(0usize);
    let folders = SetupFolders { data_path: Some("  /new/data  ".to_string()), cache_paths: None };
    let r = run_vendor_setup(
        &mut lock,
        &folders,
        |p: &str| {
            asked.borrow_mut().push(p.to_string());
            Ok(true)
        },
        |_: &SetupTask| {
            count.set(count.get() + 1);
            Ok(())
        },
    );
    assert_eq!(r, Ok(()));
    assert_eq!(*asked.borrow(), vec!["/new/data".to_string()]);
    assert_eq!(count.get(), setup_plan(true).len());
    let failed = run_vendor_setup(&mut lock, &folders, |_: &str| Err("bad folder".to_string()), |_: &SetupTask| Ok(()));
    assert_eq!(failed, Err("bad folder".to_string()));
    assert!(!is_setup_running(&lock));
}

#[test]
fn plan_without_migration_cleans_staging() {
    let plan = setup_plan(false);
    assert_eq!(plan.len(), 21);
    match &plan[0] {
        SetupTask::Report(step, percent, msg) => {
            assert_eq!(*step, SetupStep::MigrateData);
            assert_eq!(*percent, 20);
            assert_eq!(msg, "Moving cache data to selected folders...");
        }
        _ => panic!("first task reports progress"),
    }
    assert!(matches!(plan[4], SetupTask::CleanupStaging));
    assert!(matches!(plan[19], SetupTask::MarkReady));
    match &plan[20] {
        SetupTask::Report(step, percent, msg) => {
            assert_eq!(*step, SetupStep::Finish);
            assert_eq!(*percent, 100);
            assert_eq!(msg, "Done");
        }
        _ => panic!("last task reports completion"),
    }
}

#[test]
fn plan_with_migration_clears_vendor_first() {
    let plan = setup_plan(true);
    assert_eq!(plan.len(), 23);
    assert!(matches!(plan[1], SetupTask::ClearVendorDir));
    assert!(matches!(plan[3], SetupTask::MigrateAppData));
    assert!(!plan.iter().any(|t| matches!(t, SetupTask::CleanupStaging)));
}

#[test]
fn requested_data_path_is_trimmed_and_blank_means_none() {
    let folders = SetupFolders { data_path: Some("  /data/ng  ".to_string()), cache_paths: None };
    assert_eq!(requested_data_path(&folders), Some("/data/ng".to_string()));
    let blank = SetupFolders { data_path: Some("   ".to_string()), cache_paths: None };
    assert_eq!(requested_data_path(&blank), None);
    let none = SetupFolders { data_path: None, cache_paths: None };
    assert_eq!(requested_data_path(&none), None);
}

#[test]
fn ready_needs_every_piece() {
    assert!(is_ready(true, true, true, true));
    assert!(!is_ready(true, true, false, true));
    assert!(!is_ready(false, true, true, true));
}

#[test]
fn download_urls_per_platform() {
    assert_eq!(
        ffmpeg_download_url("linux", "x86_64").unwrap(),
        "https://johnvansickle.com/ffmpeg/releases/ffmpeg-release-amd64-static.tar.xz"
    );
    assert_eq!(
        ffmpeg_download_url("macos", "aarch64").unwrap(),
        "https://evermeet.cx/ffmpeg/ffmpeg-8.1.zip"
    );
    assert_eq!(
        ffmpeg_download_url("freebsd", "x86_64").unwrap_err(),
        "Unsupported platform for ffmpeg: freebsd-x86_64"
    );
    assert_eq!(
        uv_download_url("windows", "x86_64").unwrap(),
        "https://github.com/astral-sh/uv/releases/latest/download/uv-x86_64-pc-windows-msvc.zip"
    );
    assert_eq!(
        uv_download_url("windows", "aarch64").unwrap_err(),
        "Unsupported platform for uv: windows-aarch64"
    );
}

#[test]
fn archives_are_recognised_by_name() {
    assert!(matches!(archive_kind("ffmpeg.tar.xz"), Ok(ArchiveKind::TarXz)));
    assert!(matches!(archive_kind("uv.tar.gz"), Ok(ArchiveKind::TarGz)));
    assert!(matches!(archive_kind("ffmpeg.zip"), Ok(ArchiveKind::Zip)));
    assert!(archive_kind("ffmpeg.rar").is_err());
    let cmd = extract_command(ArchiveKind::TarXz, "/tmp/a.tar.xz", "/tmp/out", false);
    assert_eq!(cmd.program, "tar");
    assert_eq!(cmd.args, vec!["-xmJf", "/tmp/a.tar.xz", "-C", "/tmp/out"]);
    let unzip = extract_command(ArchiveKind::Zip, "/tmp/a.zip", "/tmp/out", false);
    assert_eq!(unzip.program, "unzip");
    assert_eq!(unzip.args, vec!["-o", "/tmp/a.zip", "-d", "/tmp/out"]);
}

#[test]
fn python_steps() {
    assert_eq!(step_install_python(true, "/v/python"), None);
    assert_eq!(
        step_install_python(false, "/v/python"),
        Some(vec![
            "python".to_string(),
            "install".to_string(),
            "3.10".to_string(),
            "--install-dir".to_string(),
            "/v/python".to_string()
        ])
    );
    assert_eq!(step_create_venv(true, "/v/venv", None), Ok(None));
    assert_eq!(
        step_create_venv(false, "/v/venv", None),
        Err("Could not find installed Python — run python install first".to_string())
    );
    assert_eq!(
        step_create_venv(false, "/v/venv", Some("/v/python/bin/python3.10")),
        Ok(Some(vec![
            "venv".to_string(),
            "/v/venv".to_string(),
            "--python".to_string(),
            "/v/python/bin/python3.10".to_string()
        ]))
    );
    assert_eq!(venv_python_parts(false), vec!["venv", "bin", "python"]);
    assert_eq!(venv_python_parts(true), vec!["venv", "Scripts", "python.exe"]);
}

#[test]
fn cuda_index_follows_compute_capability() {
    assert_eq!(query_cuda_index(Some("8.6\n")), "https://download.pytorch.org/whl/cu126");
    assert_eq!(query_cuda_index(Some(" 12.0 ")), "https://download.pytorch.org/whl/cu128");
    assert_eq!(query_cuda_index(Some("garbage")), "https://download.pytorch.org/whl/cu126");
    assert_eq!(query_cuda_index(None), "https://download.pytorch.org/whl/cu126");
}

#[test]
fn package_runs_depend_on_gpu() {
    let cpu = detect_gpu(false, true, false, None);
    let runs = step_install_packages(&cpu, "/v/venv/bin/python");
    assert_eq!(runs.len(), 2);
    assert_eq!(runs[0].args[2], "cython");
    assert_eq!(runs[0].spawn_error, "Failed to install build deps");
    assert!(runs[1].args.iter().any(|a| a == "audio-separator>=0.25"));
    let last = runs[1].args.len() - 1;
    assert_eq!(runs[1].args[last], "/v/venv/bin/python");

    let cuda = detect_gpu(false, true, true, Some("9.0"));
    let runs = step_install_packages(&cuda, "py");
    assert_eq!(runs.len(), 4);
    assert!(runs[1].args.iter().any(|a| a == "audio-separator[gpu]>=0.25"));
    assert_eq!(runs[3].exit_error, "NeMo install failed");
}

#[test]
fn script_steps_prefix_errors() {
    assert_eq!(step_extract_scripts(|| Ok(())), Ok(()));
    assert_eq!(
        step_extract_scripts(|| Err("disk full".to_string())),
        Err("Failed to write scripts: disk full".to_string())
    );
    assert_eq!(
        refresh_analyzer_scripts_if_ready(false, || -> Result<(), String> {
            panic!("not written before setup")
        }),
        Ok(())
    );
    assert_eq!(
        refresh_analyzer_scripts_if_ready(true, || Err("denied".to_string())),
        Err("Failed to refresh analyzer scripts: denied".to_string())
    );
}
