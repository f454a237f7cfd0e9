use workshop_downloader::models::{AppSettings, DownloadTask, TaskStatus};
use workshop_downloader::search::{shape_search_results, GameEntry};
use workshop_downloader::text::{i32_to_string, u64_to_string};

#[test]
fn default_status_is_queued() {
    assert_eq!(TaskStatus::default(), TaskStatus::Queued);
}

#[test]
fn default_settings_match_the_documented_values() {
    let s = AppSettings::default();
    assert_eq!(s.download_path, "");
    assert_eq!(s.max_concurrent_downloads, 3);
    assert!(s.auto_retry);
    assert_eq!(s.retry_attempts, 3);
    assert!(s.default_account.is_none());
    assert_eq!(s.theme, "dark");
}

#[test]
fn new_task_starts_queued_at_zero_progress() {
    let t = DownloadTask::new(
        "42".to_string(),
        "a title".to_string(),
        "bob".to_string(),
        "/data".to_string(),
        "431960".to_string(),
    );
    assert_eq!(t.id.len(), 36);
    assert_eq!(t.pubfile_id, "42");
    assert_eq!(t.title, "a title");
    assert_eq!(t.status, TaskStatus::Queued);
    assert_eq!(t.progress.cur_num, 0);
    assert_eq!(t.progress.cur_scale, 0);
    assert_eq!(t.progress.total_num, 1);
    assert_eq!(t.progress.total_scale, 0);
    assert!(t.speed.is_none() && t.eta.is_none() && t.error.is_none());
    assert_eq!(t.account, "bob");
    assert_eq!(t.download_path, "/data");
    assert_eq!(t.app_id, "431960");
}

#[test]
fn decimal_rendering_is_exact() {
    assert_eq!(u64_to_string(0), "0");
    assert_eq!(u64_to_string(7), "7");
    assert_eq!(u64_to_string(12345), "12345");
    assert_eq!(u64_to_string(u64::MAX), "18446744073709551615");
    assert_eq!(i32_to_string(-7), "-7");
    assert_eq!(i32_to_string(0), "0");
    assert_eq!(i32_to_string(i32::MIN), "-2147483648");
}

fn entry(id: Option<u64>, name: Option<&str>, icon: Option<&str>) -> GameEntry {
    GameEntry {
        id,
        name: name.map(|s| s.to_string()),
        icon: icon.map(|s| s.to_string()),
    }
}

#[test]
fn shaping_keeps_complete_entries_of_the_first_ten() {
    let mut items = Vec::new();
    items.push(entry(Some(431960), Some("Wallpaper Engine"), Some("we.png")));
    items.push(entry(None, Some("nameless"), None));
    items.push(entry(Some(10), None, None));
    for n in 0..9 {
        items.push(entry(Some(n), Some("filler"), None));
    }
    let shaped = shape_search_results(&items);
    // Twelve raw items: only the first ten are considered, and of
    // those the two incomplete ones are dropped.
    assert_eq!(shaped.len(), 8);
    assert_eq!(shaped[0].app_id, "431960");
    assert_eq!(shaped[0].name, "Wallpaper Engine");
    assert_eq!(shaped[0].icon.as_deref(), Some("we.png"));
    assert_eq!(shaped[1].app_id, "0");
    assert_eq!(shaped[7].app_id, "6");
}

#[test]
fn shaping_caps_at_ten_results() {
    let mut items = Vec::new();
    for n in 0..11 {
        items.push(entry(Some(n), Some("game"), None));
    }
    let shaped = shape_search_results(&items);
    assert_eq!(shaped.len(), 10);
    assert_eq!(shaped[9].app_id, "9");
}

#[test]
fn account_holds_its_fields() {
    let a = workshop_downloader::models::Account {
        id: "a1".to_string(),
        username: "alice".to_string(),
        is_default: true,
    };
    assert_eq!(a.username, "alice");
    assert!(a.is_default);
}

#[test]
fn shaping_an_empty_listing_yields_nothing() {
    let shaped = shape_search_results(&Vec::new());
    assert!(shaped.is_empty());
}
