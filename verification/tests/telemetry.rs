use clearhead::telemetry::{NdjsonEmitter, get_current_file, get_telemetry_dir, telemetry_dir_from, telemetry_file};

#[test]
fn state_dir_comes_first() {
    let dir = telemetry_dir_from(Some("/s".to_string()), Some("/d".to_string()), Some("/h".to_string()));
    assert_eq!(dir.as_deref(), Some("/s/clearhead/telemetry"));
}

#[test]
fn local_data_dir_gets_a_state_subdirectory() {
    let dir = telemetry_dir_from(None, Some("/d/".to_string()), Some("/h".to_string()));
    assert_eq!(dir.as_deref(), Some("/d/state/clearhead/telemetry"));
}

#[test]
fn home_falls_back_to_local_state() {
    let dir = telemetry_dir_from(None, None, Some("/home/me".to_string()));
    assert_eq!(dir.as_deref(), Some("/home/me/.local/state/clearhead/telemetry"));
}

#[test]
fn no_home_means_no_directory() {
    assert_eq!(telemetry_dir_from(None, None, None), None);
}

#[test]
fn monthly_file_name() {
    assert_eq!(telemetry_file("/t", "2026-01"), "/t/events-2026-01.ndjson");
}

#[test]
fn current_file_lives_in_the_telemetry_dir() {
    if let (Some(dir), Some(file)) = (get_telemetry_dir(), get_current_file()) {
        assert!(file.starts_with(&dir));
        assert!(file.ends_with(".ndjson"));
    }
}

#[test]
fn one_record_per_line() {
    assert_eq!(NdjsonEmitter.line("{\"a\":1}"), "{\"a\":1}\n");
}

#[test]
fn current_month_has_year_month_shape() {
    let ym = clearhead::telemetry::utc_year_month();
    let b = ym.as_bytes();
    assert_eq!(ym.len(), 7);
    assert_eq!(b[4], b'-');
    let month: u32 = ym[5..].parse().unwrap();
    assert!((1..=12).contains(&month));
}
