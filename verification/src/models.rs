//! Data model of the download engine: task lifecycle states, exact
//! progress ratios, tasks, history records and application settings.
use vstd::prelude::*;

verus! {

/// Lifecycle state of a download task.
#[derive(Clone, Copy, Debug, PartialEq, Eq, Structural)]
pub enum TaskStatus {
    Queued,
    Downloading,
    Paused,
    Completed,
    Failed,
}

impl Default for TaskStatus {
    fn default() -> (r: Self)
        ensures
            r == TaskStatus::Queued,
    {
        TaskStatus::Queued
    }
}

/// A task is finished when no further state transition can happen to it.
pub open spec fn is_finished(s: TaskStatus) -> bool {
    s == TaskStatus::Completed || s == TaskStatus::Failed
}

/// An exact completion ratio read from downloader output.
///
/// The current amount in megabytes is `cur_num / 10^cur_scale` and the
/// total is `total_num / 10^total_scale`; both are decimal numbers kept
/// exactly, so the percentage `100 * current / total` carries no rounding.
#[derive(Clone, Copy, Debug, PartialEq, Eq, Structural)]
pub struct Progress {
    pub cur_num: u64,
    pub cur_scale: usize,
    pub total_num: u64,
    pub total_scale: usize,
}

impl Progress {
    /// A ratio only makes sense against a positive total.
    pub open spec fn wf(self) -> bool {
        self.total_num > 0
    }

    /// The ratio a fresh task starts from: zero of one.
    pub open spec fn spec_zero() -> Progress {
        Progress { cur_num: 0, cur_scale: 0, total_num: 1, total_scale: 0 }
    }

    pub fn zero() -> (r: Progress)
        ensures
            r == Progress::spec_zero(),
            r.wf(),
    {
        Progress { cur_num: 0, cur_scale: 0, total_num: 1, total_scale: 0 }
    }
}

/// The mathematical value of an optional string: the character sequence, if any.
pub open spec fn opt_str_view(o: Option<String>) -> Option<Seq<char>> {
    match o {
        Option::Some(s) => Option::Some(s@),
        Option::None => Option::None,
    }
}

pub(crate) fn clone_opt_string(o: &Option<String>) -> (r: Option<String>)
    ensures
        opt_str_view(r) == opt_str_view(*o),
{
    match o {
        Option::Some(s) => Option::Some(s.clone()),
        Option::None => Option::None,
    }
}

/// One user-requested download and its mutable lifecycle state.
pub struct DownloadTask {
    pub id: String,
    pub pubfile_id: String,
    pub title: String,
    pub status: TaskStatus,
    pub progress: Progress,
    pub speed: Option<String>,
    pub eta: Option<String>,
    pub error: Option<String>,
    pub account: String,
    pub download_path: String,
    pub app_id: String,
}

/// The mathematical value of a task: every field as abstract data.
pub struct TaskView {
    pub id: Seq<char>,
    pub pubfile_id: Seq<char>,
    pub title: Seq<char>,
    pub status: TaskStatus,
    pub progress: Progress,
    pub speed: Option<Seq<char>>,
    pub eta: Option<Seq<char>>,
    pub error: Option<Seq<char>>,
    pub account: Seq<char>,
    pub download_path: Seq<char>,
    pub app_id: Seq<char>,
}

impl View for DownloadTask {
    type V = TaskView;

    open spec fn view(&self) -> TaskView {
        TaskView {
            id: self.id@,
            pubfile_id: self.pubfile_id@,
            title: self.title@,
            status: self.status,
            progress: self.progress,
            speed: opt_str_view(self.speed),
            eta: opt_str_view(self.eta),
            error: opt_str_view(self.error),
            account: self.account@,
            download_path: self.download_path@,
            app_id: self.app_id@,
        }
    }
}

impl Clone for DownloadTask {
    fn clone(&self) -> (r: Self)
        ensures
            r@ == self@,
    {
        DownloadTask {
            id: self.id.clone(),
            pubfile_id: self.pubfile_id.clone(),
            title: self.title.clone(),
            status: self.status,
            progress: self.progress,
            speed: clone_opt_string(&self.speed),
            eta: clone_opt_string(&self.eta),
            error: clone_opt_string(&self.error),
            account: self.account.clone(),
            download_path: self.download_path.clone(),
            app_id: self.app_id.clone(),
        }
    }
}

/// Relies on `uuid::Uuid::new_v4` and the `Display` form of `uuid::Uuid`,
/// which renders the hyphenated format: always exactly 36 characters.
/// The identifier itself is random, so nothing more is promised of it.
#[verifier::external_body]
pub(crate) fn fresh_task_id() -> (r: String)
    ensures
        r@.len() == 36,
{
    uuid::Uuid::new_v4().to_string()
}

impl DownloadTask {
    /// A fresh task: queued, at zero progress, with a newly drawn identifier.
    pub fn new(
        pubfile_id: String,
        title: String,
        account: String,
        download_path: String,
        app_id: String,
    ) -> (r: Self)
        ensures
            r@.id.len() == 36,
            r@.pubfile_id == pubfile_id@,
            r@.title == title@,
            r@.status == TaskStatus::Queued,
            r@.progress == Progress::spec_zero(),
            r@.speed is None,
            r@.eta is None,
            r@.error is None,
            r@.account == account@,
            r@.download_path == download_path@,
            r@.app_id == app_id@,
    {
        DownloadTask {
            id: fresh_task_id(),
            pubfile_id,
            title,
            status: TaskStatus::Queued,
            progress: Progress::zero(),
            speed: Option::None,
            eta: Option::None,
            error: Option::None,
            account,
            download_path,
            app_id,
        }
    }
}

/// An immutable record of one finished download attempt.
pub struct DownloadRecord {
    pub id: String,
    pub pubfile_id: String,
    pub title: String,
    pub file_size: Option<u64>,
    pub download_date: String,
    pub status: String,
    pub error_message: Option<String>,
    pub account_used: String,
    pub download_path: String,
}

/// The mathematical value of a history record.
pub struct RecordView {
    pub id: Seq<char>,
    pub pubfile_id: Seq<char>,
    pub title: Seq<char>,
    pub file_size: Option<u64>,
    pub download_date: Seq<char>,
    pub status: Seq<char>,
    pub error_message: Option<Seq<char>>,
    pub account_used: Seq<char>,
    pub download_path: Seq<char>,
}

impl View for DownloadRecord {
    type V = RecordView;

    open spec fn view(&self) -> RecordView {
        RecordView {
            id: self.id@,
            pubfile_id: self.pubfile_id@,
            title: self.title@,
            file_size: self.file_size,
            download_date: self.download_date@,
            status: self.status@,
            error_message: opt_str_view(self.error_message),
            account_used: self.account_used@,
            download_path: self.download_path@,
        }
    }
}

impl Clone for DownloadRecord {
    fn clone(&self) -> (r: Self)
        ensures
            r@ == self@,
    {
        DownloadRecord {
            id: self.id.clone(),
            pubfile_id: self.pubfile_id.clone(),
            title: self.title.clone(),
            file_size: self.file_size,
            download_date: self.download_date.clone(),
            status: self.status.clone(),
            error_message: clone_opt_string(&self.error_message),
            account_used: self.account_used.clone(),
            download_path: self.download_path.clone(),
        }
    }
}

/// Application settings, persisted outside the engine.
pub struct AppSettings {
    pub download_path: String,
    pub max_concurrent_downloads: u32,
    pub auto_retry: bool,
    pub retry_attempts: u32,
    pub default_account: Option<String>,
    pub theme: String,
}

impl Default for AppSettings {
    fn default() -> (r: Self)
        ensures
            r.download_path@ == Seq::<char>::empty(),
            r.max_concurrent_downloads == 3u32,
            r.auto_retry == true,
            r.retry_attempts == 3u32,
            r.default_account is None,
            r.theme@ == "dark"@,
    {
        AppSettings {
            download_path: String::new(),
            max_concurrent_downloads: 3,
            auto_retry: true,
            retry_attempts: 3,
            default_account: Option::None,
            theme: "dark".to_owned(),
        }
    }
}

/// A stored account name; the credential itself lives elsewhere.
pub struct Account {
    pub id: String,
    pub username: String,
    pub is_default: bool,
}

} // verus!
