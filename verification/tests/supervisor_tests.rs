use workshop_downloader::downloader::DownloaderService;
use workshop_downloader::models::TaskStatus;
use workshop_downloader::queue::TaskQueue;

fn enqueue_sample(q: &mut TaskQueue) -> String {
    let t = q
        .add_to_queue(
            "123456".to_string(),
            "123456".to_string(),
            "alice".to_string(),
            "/tmp/out".to_string(),
            "431960".to_string(),
        )
        .expect("enqueue should succeed");
    t.id
}

#[test]
fn scenario_successful_download() {
    let mut q = TaskQueue::new();
    let id = enqueue_sample(&mut q);
    q.update_task_status(&id, TaskStatus::Downloading, None);

    // The stub process prints one line and exits with code zero.
    let (log, update) =
        DownloaderService::handle_output_line(&id, b"Downloading (50.0 MB / 100.0 MB)");
    assert_eq!(log.task_id, id);
    assert_eq!(log.line, b"Downloading (50.0 MB / 100.0 MB)".to_vec());
    let payload = update.expect("the line carries a ratio");
    assert_eq!(payload.task_id, id);
    let p = payload.progress;
    let cur = p.cur_num as f64 / 10f64.powi(p.cur_scale as i32);
    let total = p.total_num as f64 / 10f64.powi(p.total_scale as i32);
    assert_eq!((cur / total) * 100.0, 50.0);
    assert!(payload.speed.is_none());
    assert!(payload.eta.is_none());

    let outcome = DownloaderService::exit_outcome(Some(0));
    assert!(outcome.is_ok());
    DownloaderService::apply_outcome(&mut q, &id, &outcome);
    let listed = q.get_queue();
    assert_eq!(listed.len(), 1);
    assert_eq!(listed[0].status, TaskStatus::Completed);
    assert!(listed[0].error.is_none());
}

#[test]
fn scenario_process_fails_with_code_one() {
    let mut q = TaskQueue::new();
    let id = enqueue_sample(&mut q);
    q.update_task_status(&id, TaskStatus::Downloading, None);

    let outcome = DownloaderService::exit_outcome(Some(1));
    let msg = outcome.clone().expect_err("nonzero exit is a failure");
    assert!(!msg.is_empty());
    assert!(msg.contains("1"));
    assert_eq!(msg, "download failed with exit code 1");

    DownloaderService::apply_outcome(&mut q, &id, &outcome);
    let listed = q.get_queue();
    assert_eq!(listed[0].status, TaskStatus::Failed);
    assert_eq!(
        listed[0].error.as_deref(),
        Some("download failed with exit code 1")
    );
}

#[test]
fn scenario_missing_destination_fails_before_any_spawn() {
    let mut q = TaskQueue::new();
    let before: Vec<String> = q.get_queue().into_iter().map(|t| t.id).collect();
    let r = DownloaderService::validate_start(false, true, "/does/not/exist", "/tools/dl.exe");
    assert_eq!(
        r.expect_err("missing path fails fast"),
        "download path does not exist: /does/not/exist"
    );
    let after: Vec<String> = q.get_queue().into_iter().map(|t| t.id).collect();
    assert_eq!(before, after);
    assert!(q.get_queue().is_empty());
}

#[test]
fn missing_executable_fails_fast_too() {
    let r = DownloaderService::validate_start(true, false, "/tmp/out", "/tools/dl.exe");
    assert_eq!(
        r.expect_err("missing executable fails fast"),
        "downloader executable not found at: /tools/dl.exe"
    );
    assert!(DownloaderService::validate_start(true, true, "/tmp/out", "/tools/dl.exe").is_ok());
}

#[test]
fn missing_exit_code_is_a_failure_naming_that() {
    let outcome = DownloaderService::exit_outcome(None);
    assert_eq!(
        outcome.expect_err("no exit code is a failure"),
        "download terminated without an exit code"
    );
    let neg = DownloaderService::exit_outcome(Some(-9));
    assert_eq!(
        neg.expect_err("negative code is a failure"),
        "download failed with exit code -9"
    );
}

#[test]
fn argument_list_is_fixed_and_carries_the_credential_once() {
    let mut q = TaskQueue::new();
    let id = enqueue_sample(&mut q);
    let listed = q.get_queue();
    let task = listed.iter().find(|t| t.id == id).unwrap();
    let dest = DownloaderService::output_dir(&task.download_path, &task.pubfile_id);
    assert_eq!(dest, "/tmp/out/123456");
    let args = DownloaderService::build_download_args(task, "SECRET-REDACTED", &dest);
    assert_eq!(
        args,
        vec![
            "-app".to_string(),
            "431960".to_string(),
            "-pubfile".to_string(),
            "123456".to_string(),
            "-verify-all".to_string(),
            "-username".to_string(),
            "alice".to_string(),
            "-password".to_string(),
            "SECRET-REDACTED".to_string(),
            "-dir".to_string(),
            "/tmp/out/123456".to_string(),
        ]
    );
}

#[test]
fn runtime_listing_check_looks_for_the_major_version() {
    assert!(DownloaderService::dotnet_runtime_listed(
        "Microsoft.NETCore.App 9.0.1 [/usr/share/dotnet]"
    ));
    assert!(!DownloaderService::dotnet_runtime_listed(
        "Microsoft.NETCore.App 8.0.11 [/usr/share/dotnet]"
    ));
    assert!(!DownloaderService::dotnet_runtime_listed(""));
}

#[test]
fn download_url_is_the_expected_one() {
    assert_eq!(
        DownloaderService::get_dotnet_download_url(),
        "https://dotnet.microsoft.com/en-us/download/dotnet/thank-you/runtime-9.0.0-windows-x64-installer"
    );
}
