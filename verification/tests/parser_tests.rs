use workshop_downloader::downloader::DownloaderService;
use workshop_downloader::models::Progress;

fn percent(p: &Progress) -> f64 {
    let cur = p.cur_num as f64 / 10f64.powi(p.cur_scale as i32);
    let total = p.total_num as f64 / 10f64.powi(p.total_scale as i32);
    (cur / total) * 100.0
}

#[test]
fn parses_typical_downloader_line() {
    let p = DownloaderService::parse_progress(b"Downloading 'file.pak' (45.2 MB / 100.0 MB)")
        .expect("line should parse");
    assert_eq!(p.cur_num, 452);
    assert_eq!(p.cur_scale, 1);
    assert_eq!(p.total_num, 1000);
    assert_eq!(p.total_scale, 1);
    assert!((percent(&p) - 45.2).abs() < 1e-9);
}

#[test]
fn parses_half_done_line_exactly() {
    let p = DownloaderService::parse_progress(b"Downloading (50.0 MB / 100.0 MB)")
        .expect("line should parse");
    assert_eq!(percent(&p), 50.0);
}

#[test]
fn parses_integer_numbers() {
    let p = DownloaderService::parse_progress(b"5 MB / 10 MB").expect("line should parse");
    assert_eq!(p.cur_num, 5);
    assert_eq!(p.cur_scale, 0);
    assert_eq!(p.total_num, 10);
    assert_eq!(p.total_scale, 0);
    assert_eq!(percent(&p), 50.0);
}

#[test]
fn parses_without_spaces() {
    let p = DownloaderService::parse_progress(b"12.5MB/100MB").expect("line should parse");
    assert!((percent(&p) - 12.5).abs() < 1e-9);
}

#[test]
fn parses_number_with_trailing_point() {
    let p = DownloaderService::parse_progress(b"45. MB / 100 MB").expect("line should parse");
    assert_eq!(p.cur_num, 45);
    assert_eq!(p.cur_scale, 0);
    assert_eq!(percent(&p), 45.0);
}

#[test]
fn ignores_line_without_pattern() {
    assert!(DownloaderService::parse_progress(b"Connecting to Steam...").is_none());
    assert!(DownloaderService::parse_progress(b"").is_none());
    assert!(DownloaderService::parse_progress(b"MB / MB").is_none());
    assert!(DownloaderService::parse_progress(b"5 MB").is_none());
    assert!(DownloaderService::parse_progress(b"5 MB / x MB").is_none());
}

#[test]
fn ignores_zero_total() {
    assert!(DownloaderService::parse_progress(b"5 MB / 0 MB").is_none());
    assert!(DownloaderService::parse_progress(b"5 MB / 0.0 MB").is_none());
    assert!(DownloaderService::parse_progress(b"5 MB / 0.00 MB").is_none());
}

#[test]
fn leftmost_pattern_decides() {
    // The first occurrence has a zero total, so the whole line is
    // non-informative even though a later occurrence would not be.
    assert!(
        DownloaderService::parse_progress(b"1 MB / 0 MB then 3 MB / 4 MB").is_none()
    );
    let p = DownloaderService::parse_progress(b"x 1 MB / 4 MB then 3 MB / 0 MB")
        .expect("first occurrence should win");
    assert_eq!(percent(&p), 25.0);
}

#[test]
fn pattern_amid_noise() {
    let p = DownloaderService::parse_progress(b"x1.5 MB / 2 MB").expect("should parse");
    assert_eq!(percent(&p), 75.0);
}

#[test]
fn oversized_numbers_are_non_informative() {
    assert!(
        DownloaderService::parse_progress(b"99999999999999999999999999 MB / 5 MB").is_none()
    );
}
