use maia_httpd::airband::{AirbandConfig, ConfigError, ConfigFile};
use maia_httpd::app::{AppState, Backoff};
use std::path::PathBuf;

const SECOND: u64 = 1_000_000_000;

#[test]
fn enabled_receiver_locks_the_front_end() {
    let path = PathBuf::from("/mnt/sdcard/airband.json");
    let state = AppState::new(true, Some(path.clone()), Some(ConfigFile::Missing)).unwrap();
    assert!(state.airband_locked());
    assert_eq!(state.airband_running(), Some(&AirbandConfig::default()));
    assert_eq!(state.airband_config_path(), Some(&path));
}

#[test]
fn disabled_receiver_runs_nothing() {
    let file = Some(ConfigFile::Malformed("never looked at".to_string()));
    let state = AppState::new(false, None, file).unwrap();
    assert!(!state.airband_locked());
    assert!(state.airband_running().is_none());
    assert!(state.airband_config_path().is_none());
}

#[test]
fn bad_config_file_stops_the_start() {
    let path = Some(PathBuf::from("airband.json"));
    let file = Some(ConfigFile::Unreadable("denied".to_string()));
    assert!(matches!(
        AppState::new(true, path, file),
        Err(ConfigError::Read(e)) if e == "denied"
    ));
}

#[test]
fn delays_double_up_to_the_cap() {
    let mut backoff = Backoff::new();
    let delays: Vec<u64> = (0..8).map(|_| backoff.after_run(0)).collect();
    assert_eq!(delays, vec![1, 2, 4, 8, 16, 30, 30, 30]);
}

#[test]
fn healthy_run_resets_the_delay() {
    let mut backoff = Backoff::new();
    for _ in 0..6 {
        backoff.after_run(59 * SECOND);
    }
    assert_eq!(backoff.after_run(60 * SECOND - 1), 30);
    assert_eq!(backoff.after_run(60 * SECOND), 1);
    assert_eq!(backoff.after_run(0), 2);
}
