//! The process supervisor's decision logic: the destination directory,
//! the fixed argument list handed to the external downloader, the
//! per-line event step, and the mapping from exit status to outcome.
//! The process itself is spawned and drained outside the engine; every
//! decision it needs is a function here, exact for every input.
use vstd::prelude::*;
use vstd::slice::slice_to_vec;
use vstd::string::StringExecFns;
use crate::models::{DownloadTask, Progress, TaskStatus};
use crate::progress::{parse_progress_line, parse_result};
use crate::queue::{TaskQueue, find_id_from, with_status};
use crate::text::{contains_seq, int_digits, i32_to_string, str_contains};

verus! {

/// Progress update payload for the event sink.
pub struct ProgressPayload {
    pub task_id: String,
    pub progress: Progress,
    pub speed: Option<String>,
    pub eta: Option<String>,
}

/// Log line payload for the event sink: one raw output line of a task.
pub struct LogPayload {
    pub task_id: String,
    pub line: Vec<u8>,
}

/// Downloader service: the supervision steps around one external process.
pub struct DownloaderService;

impl DownloaderService {
    /// Where to fetch the runtime the external downloader needs.
    pub fn get_dotnet_download_url() -> (r: String)
        ensures
            r@ == "https://dotnet.microsoft.com/en-us/download/dotnet/thank-you/runtime-9.0.0-windows-x64-installer"@,
    {
        "https://dotnet.microsoft.com/en-us/download/dotnet/thank-you/runtime-9.0.0-windows-x64-installer".to_owned()
    }

    /// Whether a runtime listing names the required major version.
    pub fn dotnet_runtime_listed(output: &str) -> (r: bool)
        ensures
            r == contains_seq(output@, "Microsoft.NETCore.App 9."@),
    {
        str_contains(output, "Microsoft.NETCore.App 9.")
    }

    /// Parse one raw output line for a progress ratio.
    pub fn parse_progress(line: &[u8]) -> (r: Option<Progress>)
        ensures
            r == parse_result(line@),
            r is Some ==> r.unwrap().wf(),
    {
        parse_progress_line(line)
    }

    /// The destination directory of a task: a per-item subfolder under
    /// the user-chosen root, so sibling items are never overwritten.
    pub fn output_dir(download_path: &str, pubfile_id: &str) -> (r: String)
        ensures
            r@ == download_path@ + "/"@ + pubfile_id@,
    {
        let mut s = download_path.to_owned();
        s.append("/");
        s.append(pubfile_id);
        s
    }

    /// The fixed argument list of the external downloader: application,
    /// item, full verification, account, credential, destination. The
    /// credential appears here and nowhere else.
    pub fn build_download_args(task: &DownloadTask, password: &str, dest_dir: &str) -> (r: Vec<
        String,
    >)
        ensures
            r@.len() == 11,
            r@[0]@ == "-app"@,
            r@[1]@ == task@.app_id,
            r@[2]@ == "-pubfile"@,
            r@[3]@ == task@.pubfile_id,
            r@[4]@ == "-verify-all"@,
            r@[5]@ == "-username"@,
            r@[6]@ == task@.account,
            r@[7]@ == "-password"@,
            r@[8]@ == password@,
            r@[9]@ == "-dir"@,
            r@[10]@ == dest_dir@,
    {
        let mut args: Vec<String> = Vec::new();
        args.push("-app".to_owned());
        args.push(task.app_id.clone());
        args.push("-pubfile".to_owned());
        args.push(task.pubfile_id.clone());
        args.push("-verify-all".to_owned());
        args.push("-username".to_owned());
        args.push(task.account.clone());
        args.push("-password".to_owned());
        args.push(password.to_owned());
        args.push("-dir".to_owned());
        args.push(dest_dir.to_owned());
        args
    }

    /// One step of stream supervision: every line becomes a log event,
    /// and exactly the lines carrying a recognisable ratio also become
    /// a progress event (speed and eta are not extracted yet).
    pub fn handle_output_line(task_id: &String, line: &[u8]) -> (r: (
        LogPayload,
        Option<ProgressPayload>,
    ))
        ensures
            r.0.task_id@ == task_id@,
            r.0.line@ == line@,
            match parse_result(line@) {
                Option::Some(p) => {
                    &&& r.1 is Some
                    &&& r.1.unwrap().task_id@ == task_id@
                    &&& r.1.unwrap().progress == p
                    &&& r.1.unwrap().speed is None
                    &&& r.1.unwrap().eta is None
                },
                Option::None => r.1 is None,
            },
    {
        let log = LogPayload { task_id: task_id.clone(), line: slice_to_vec(line) };
        let update = match parse_progress_line(line) {
            Option::Some(p) => Option::Some(
                ProgressPayload {
                    task_id: task_id.clone(),
                    progress: p,
                    speed: Option::None,
                    eta: Option::None,
                },
            ),
            Option::None => Option::None,
        };
        (log, update)
    }

    /// Exit status to outcome: code zero is success, anything else —
    /// another code or none at all — is a failure whose reason carries
    /// the code.
    pub fn exit_outcome(code: Option<i32>) -> (r: Result<(), String>)
        ensures
            r is Ok <==> code == Option::Some(0i32),
            match code {
                Option::Some(c) => c != 0 ==> r is Err && r.unwrap_err()@
                    == "download failed with exit code "@ + int_digits(c as int),
                Option::None => r is Err && r.unwrap_err()@
                    == "download terminated without an exit code"@,
            },
    {
        match code {
            Option::Some(c) => {
                if c == 0 {
                    Ok(())
                } else {
                    let mut msg = "download failed with exit code ".to_owned();
                    let digits = i32_to_string(c);
                    msg.append(digits.as_str());
                    Err(msg)
                }
            },
            Option::None => Err("download terminated without an exit code".to_owned()),
        }
    }

    /// The configuration check that precedes any spawn: when the
    /// destination or the executable is missing, fail fast — no process
    /// is created and no task state is touched.
    pub fn validate_start(
        path_exists: bool,
        exe_exists: bool,
        download_path: &str,
        exe_path: &str,
    ) -> (r: Result<(), String>)
        ensures
            r is Ok <==> path_exists && exe_exists,
            !path_exists ==> r is Err && r.unwrap_err()@ == "download path does not exist: "@
                + download_path@,
            path_exists && !exe_exists ==> r is Err && r.unwrap_err()@
                == "downloader executable not found at: "@ + exe_path@,
    {
        if !path_exists {
            let mut msg = "download path does not exist: ".to_owned();
            msg.append(download_path);
            Err(msg)
        } else if !exe_exists {
            let mut msg = "downloader executable not found at: ".to_owned();
            msg.append(exe_path);
            Err(msg)
        } else {
            Ok(())
        }
    }

    /// Apply a finished supervision's outcome to the queue: the task —
    /// if it is still there — becomes completed, or failed with the
    /// outcome's reason. A task removed meanwhile stays gone and the
    /// queue is untouched.
    pub fn apply_outcome(queue: &mut TaskQueue, task_id: &String, outcome: &Result<(), String>)
        ensures
            ({
                let status = if outcome is Ok {
                    TaskStatus::Completed
                } else {
                    TaskStatus::Failed
                };
                let err = match outcome {
                    Ok(_) => Option::<Seq<char>>::None,
                    Err(e) => Option::Some(e@),
                };
                let f = find_id_from(old(queue)@, task_id@, 0);
                &&& f == old(queue)@.len() ==> final(queue)@ == old(queue)@
                &&& f < old(queue)@.len() ==> final(queue)@ == old(queue)@.update(
                    f,
                    with_status(old(queue)@[f], status, err),
                )
            }),
    {
        match outcome {
            Ok(_) => queue.update_task_status(task_id, TaskStatus::Completed, Option::None),
            Err(e) => queue.update_task_status(
                task_id,
                TaskStatus::Failed,
                Option::Some(e.clone()),
            ),
        }
    }
}

} // verus!
