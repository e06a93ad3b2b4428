use maia_httpd::airband::{
    Airband, AirbandConfig, ConfigError, ConfigFile, BROADCAST_DEPTH, FRAME_BYTES, N_CHANNELS,
};
use maia_httpd::app::AppState;
use maia_httpd::double::Double;
use std::path::PathBuf;

fn double(x: f64) -> Double {
    Double::from_bits(x.to_bits())
}

fn other_config() -> AirbandConfig {
    let mut config = AirbandConfig::default();
    config.center_hz = 126_400_000;
    config.channels_hz = vec![double(133_650_000.0), double(118_008_333.3)];
    config.channel_labels = None;
    config
}

#[test]
fn default_configuration() {
    let c = AirbandConfig::default();
    assert_eq!(c.center_hz, 123_438_000);
    assert_eq!(c.samp_rate, 16_000_000);
    assert_eq!(c.rf_bandwidth, None);
    assert_eq!(f64::from_bits(c.gain_db.to_bits()), 0.0);
    assert_eq!(c.agc.as_deref(), Some("manual"));
    assert_eq!(c.channels_hz.len(), 1);
    assert_eq!(f64::from_bits(c.channels_hz[0].to_bits()), 118_050_000.0);
    assert_eq!(c.channel_labels, Some(vec!["S50 AWOS".to_string()]));
    assert_eq!(c.poll_ms, 20);
}

#[test]
fn constants() {
    assert_eq!(FRAME_BYTES, 8);
    assert_eq!(N_CHANNELS, 18);
    assert_eq!(BROADCAST_DEPTH, 256);
}

#[test]
fn load_without_path_or_file_is_default() {
    assert_eq!(AirbandConfig::load(None).unwrap(), AirbandConfig::default());
    assert_eq!(
        AirbandConfig::load(Some(ConfigFile::Missing)).unwrap(),
        AirbandConfig::default()
    );
}

#[test]
fn load_gives_what_the_file_holds() {
    let r = AirbandConfig::load(Some(ConfigFile::Parsed(other_config())));
    assert_eq!(r.unwrap(), other_config());
}

#[test]
fn load_errors() {
    let r = AirbandConfig::load(Some(ConfigFile::Malformed("eof".to_string())));
    assert!(matches!(r, Err(ConfigError::Parse(e)) if e == "eof"));
    let r = AirbandConfig::load(Some(ConfigFile::Unreadable("denied".to_string())));
    assert!(matches!(r, Err(ConfigError::Read(e)) if e == "denied"));
}

#[test]
fn poll_interval_is_at_least_one_millisecond() {
    let mut c = AirbandConfig::default();
    assert_eq!(c.poll_interval_ms(), 20);
    c.poll_ms = 0;
    assert_eq!(c.poll_interval_ms(), 1);
    c.poll_ms = 1;
    assert_eq!(c.poll_interval_ms(), 1);
}

#[test]
fn configurations_differ_in_any_field() {
    let base = other_config();
    assert_eq!(base, base.clone());
    let mut c = base.clone();
    c.center_hz += 1;
    assert_ne!(c, base);
    let mut c = base.clone();
    c.samp_rate += 1;
    assert_ne!(c, base);
    let mut c = base.clone();
    c.rf_bandwidth = Some(1);
    assert_ne!(c, base);
    let mut c = base.clone();
    c.gain_db = double(1.0);
    assert_ne!(c, base);
    let mut c = base.clone();
    c.agc = None;
    assert_ne!(c, base);
    let mut c = base.clone();
    c.agc = Some("hybrid".to_string());
    assert_ne!(c, base);
    let mut c = base.clone();
    c.channels_hz[1] = double(118_008_333.4);
    assert_ne!(c, base);
    let mut c = base.clone();
    c.channels_hz.pop();
    assert_ne!(c, base);
    let mut c = base.clone();
    c.channel_labels = Some(vec![]);
    assert_ne!(c, base);
    let mut c = base.clone();
    c.poll_ms += 1;
    assert_ne!(c, base);
}

#[test]
fn labels_are_compared_by_text() {
    let mut a = other_config();
    let mut b = other_config();
    a.channel_labels = Some(vec!["x".to_string(), "y".to_string()]);
    b.channel_labels = Some(vec!["x".to_string(), "y".to_string()]);
    assert_eq!(a, b);
    b.channel_labels = Some(vec!["x".to_string(), "z".to_string()]);
    assert_ne!(a, b);
    b.channel_labels = Some(vec!["x".to_string()]);
    assert_ne!(a, b);
}

#[test]
fn the_two_zeros_are_one_gain() {
    let mut a = AirbandConfig::default();
    a.gain_db = double(-0.0);
    assert_eq!(a, AirbandConfig::default());
    a.gain_db = double(f64::NAN);
    assert_ne!(a, a.clone());
}

#[test]
fn task_is_optional() {
    let state = AppState::new(false, None, None).unwrap();
    assert!(Airband::new(&state, false, None).unwrap().is_none());
}

#[test]
fn task_runs_with_the_running_configuration() {
    let file = Some(ConfigFile::Parsed(other_config()));
    let state = AppState::new(true, Some(PathBuf::from("airband.json")), file).unwrap();
    let task = Airband::new(&state, true, Some(ConfigFile::Missing)).unwrap().unwrap();
    assert_eq!(*task.config(), other_config());
}

#[test]
fn task_falls_back_to_the_file() {
    let state = AppState::new(false, None, None).unwrap();
    let file = Some(ConfigFile::Parsed(other_config()));
    let task = Airband::new(&state, true, file).unwrap().unwrap();
    assert_eq!(*task.config(), other_config());
    let file = Some(ConfigFile::Malformed("bad".to_string()));
    assert!(matches!(Airband::new(&state, true, file), Err(ConfigError::Parse(_))));
    let task = Airband::new(&state, true, None).unwrap().unwrap();
    assert_eq!(*task.config(), AirbandConfig::default());
}
