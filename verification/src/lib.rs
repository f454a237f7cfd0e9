//! A download task lifecycle engine for Steam Workshop items: a queue
//! of tasks with verified enqueue / list / remove / update / sweep
//! operations, a pure progress parser over raw downloader output, the
//! supervision decisions around one external process, and a bounded
//! newest-first history of outcomes.
pub mod downloader;
pub mod history;
pub mod models;
pub mod progress;
pub mod queue;
pub mod search;
pub mod text;
