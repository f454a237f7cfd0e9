use workshop_downloader::history::{make_history_record, History};
use workshop_downloader::models::DownloadRecord;

fn plain_record(n: usize) -> DownloadRecord {
    DownloadRecord {
        id: format!("id-{}", n),
        pubfile_id: format!("{}", n),
        title: format!("item {}", n),
        file_size: None,
        download_date: "2024-01-01 00:00".to_string(),
        status: "completed".to_string(),
        error_message: None,
        account_used: "alice".to_string(),
        download_path: "/tmp/out".to_string(),
    }
}

#[test]
fn retention_keeps_the_hundred_most_recent_newest_first() {
    let mut h = History::new();
    for n in 0..105 {
        h.add_to_history(plain_record(n));
    }
    let records = h.get_history();
    assert_eq!(records.len(), 100);
    assert_eq!(records[0].pubfile_id, "104");
    assert_eq!(records[99].pubfile_id, "5");
    for (k, r) in records.iter().enumerate() {
        assert_eq!(r.pubfile_id, format!("{}", 104 - k));
    }
}

#[test]
fn appends_below_the_limit_keep_everything_newest_first() {
    let mut h = History::new();
    for n in 0..3 {
        h.add_to_history(plain_record(n));
    }
    let records = h.get_history();
    assert_eq!(records.len(), 3);
    assert_eq!(records[0].pubfile_id, "2");
    assert_eq!(records[1].pubfile_id, "1");
    assert_eq!(records[2].pubfile_id, "0");
}

#[test]
fn adopting_stored_records_enforces_the_limit() {
    let mut v = Vec::new();
    for n in 0..120 {
        v.push(plain_record(n));
    }
    let h = History::from_records(v);
    assert_eq!(h.len(), 100);
    let records = h.get_history();
    assert_eq!(records[0].pubfile_id, "0");
    assert_eq!(records[99].pubfile_id, "99");
}

#[test]
fn adopting_exactly_the_limit_keeps_everything() {
    let mut v = Vec::new();
    for n in 0..100 {
        v.push(plain_record(n));
    }
    let h = History::from_records(v);
    assert_eq!(h.len(), 100);
}

#[test]
fn clearing_forgets_everything() {
    let mut h = History::new();
    h.add_to_history(plain_record(1));
    h.clear_history();
    assert_eq!(h.len(), 0);
    assert!(h.get_history().is_empty());
}

#[test]
fn made_records_carry_the_given_fields_and_a_stamp() {
    let r = make_history_record(
        "123456".to_string(),
        "My Wallpaper".to_string(),
        "failed".to_string(),
        "alice".to_string(),
        "/tmp/out".to_string(),
        Some("download failed with exit code 1".to_string()),
    );
    assert_eq!(r.id.len(), 36);
    assert_eq!(r.pubfile_id, "123456");
    assert_eq!(r.title, "My Wallpaper");
    assert!(r.file_size.is_none());
    assert!(r.download_date.len() >= 16);
    assert_eq!(r.status, "failed");
    assert_eq!(
        r.error_message.as_deref(),
        Some("download failed with exit code 1")
    );
    assert_eq!(r.account_used, "alice");
    assert_eq!(r.download_path, "/tmp/out");
}
