use maia_httpd::airband::{Airband as Task, AirbandConfig, ConfigError, ConfigFile};
use maia_httpd::app::AppState;
use maia_httpd::double::Double;
use maia_httpd::httpd::airband::{
    agc_to_mode, apply_and_validate, config_to_json, get_airband, mode_to_agc, needs_restart,
    patch_airband, patch_answer, pending_config, PersistError,
};
use maia_httpd::httpd::health::get_health;
use maia_httpd::httpd::json_error::{JsonError, PatchError, ServerFault};
use maia_httpd::httpd::system::{post_restart, restart_command};
use maia_httpd::json::{Airband, AirbandAgcMode, AirbandChannel, PatchAirband};
use std::path::PathBuf;

fn double(x: f64) -> Double {
    Double::from_bits(x.to_bits())
}

fn float(d: Double) -> f64 {
    f64::from_bits(d.to_bits())
}

fn empty_patch() -> PatchAirband {
    PatchAirband {
        center_hz: None,
        rf_bandwidth: None,
        gain_db: None,
        agc: None,
        channels: None,
        poll_ms: None,
    }
}

fn channel(freq_hz: f64, label: Option<&str>) -> AirbandChannel {
    AirbandChannel { freq_hz: double(freq_hz), label: label.map(|l| l.to_string()) }
}

fn running_state() -> AppState {
    let path = Some(PathBuf::from("airband.json"));
    AppState::new(true, path, Some(ConfigFile::Missing)).unwrap()
}

fn changed_config() -> AirbandConfig {
    let mut config = AirbandConfig::default();
    config.poll_ms = 50;
    config
}

fn shown_channels(a: &Airband) -> Vec<(f64, Option<String>)> {
    a.channels.iter().map(|c| (float(c.freq_hz), c.label.clone())).collect()
}

#[test]
fn modes_round_trip() {
    for mode in [
        AirbandAgcMode::Manual,
        AirbandAgcMode::SlowAttack,
        AirbandAgcMode::FastAttack,
        AirbandAgcMode::Hybrid,
    ] {
        assert_eq!(agc_to_mode(&Some(mode_to_agc(mode))), mode);
    }
    assert_eq!(mode_to_agc(AirbandAgcMode::FastAttack), "fast_attack");
    assert_eq!(agc_to_mode(&None), AirbandAgcMode::Manual);
    assert_eq!(agc_to_mode(&Some("turbo".to_string())), AirbandAgcMode::Manual);
}

#[test]
fn default_configuration_is_shown() {
    let a = config_to_json(&AirbandConfig::default(), true, false);
    assert!(a.enabled);
    assert_eq!(a.center_hz, 123_438_000);
    assert_eq!(a.samp_rate, 16_000_000);
    assert_eq!(a.rf_bandwidth, None);
    assert_eq!(float(a.gain_db), 0.0);
    assert_eq!(a.agc, AirbandAgcMode::Manual);
    assert_eq!(shown_channels(&a), vec![(118_050_000.0, Some("S50 AWOS".to_string()))]);
    assert_eq!(a.poll_ms, 20);
    assert_eq!(a.max_channels, 18);
    assert!(a.samp_rate_locked);
    assert!(!a.needs_restart);
}

#[test]
fn missing_and_empty_labels_are_shown_as_none() {
    let mut config = AirbandConfig::default();
    config.channels_hz = vec![double(1.0), double(2.0), double(3.0)];
    config.channel_labels = Some(vec!["".to_string(), "two".to_string()]);
    let a = config_to_json(&config, false, true);
    assert_eq!(
        shown_channels(&a),
        vec![(1.0, None), (2.0, Some("two".to_string())), (3.0, None)]
    );
    assert!(!a.enabled && a.needs_restart);
    config.channel_labels = None;
    assert_eq!(config_to_json(&config, false, true).channels[1].label, None);
}

#[test]
fn pending_is_the_file_if_there_is_one() {
    let state = running_state();
    let c = pending_config(&state, ConfigFile::Parsed(changed_config())).unwrap();
    assert_eq!(c, changed_config());
    let c = pending_config(&state, ConfigFile::Missing).unwrap();
    assert_eq!(c, AirbandConfig::default());
    assert!(matches!(
        pending_config(&state, ConfigFile::Malformed("x".to_string())),
        Err(ConfigError::Parse(_))
    ));
    assert!(matches!(
        pending_config(&state, ConfigFile::Unreadable("x".to_string())),
        Err(ConfigError::Read(_))
    ));
}

#[test]
fn pending_without_file_is_the_running_configuration() {
    let state = AppState::new(true, None, Some(ConfigFile::Parsed(changed_config()))).unwrap();
    assert_eq!(pending_config(&state, ConfigFile::Missing).unwrap(), changed_config());
    let state = AppState::new(false, None, None).unwrap();
    assert_eq!(pending_config(&state, ConfigFile::Missing).unwrap(), AirbandConfig::default());
}

#[test]
fn restart_is_needed_for_a_change() {
    let state = running_state();
    assert!(!needs_restart(&state, &AirbandConfig::default()));
    assert!(needs_restart(&state, &changed_config()));
    let disabled = AppState::new(false, None, None).unwrap();
    assert!(!needs_restart(&disabled, &changed_config()));
}

#[test]
fn get_shows_the_pending_configuration() {
    let a = get_airband(&running_state(), ConfigFile::Parsed(changed_config())).unwrap();
    assert!(a.enabled && a.needs_restart);
    assert_eq!(a.poll_ms, 50);
    let a = get_airband(&running_state(), ConfigFile::Missing).unwrap();
    assert!(!a.needs_restart);
}

#[test]
fn get_reports_a_bad_file_as_server_error() {
    assert!(matches!(
        get_airband(&running_state(), ConfigFile::Malformed("eof".to_string())),
        Err(JsonError::ServerError(ServerFault::Config(ConfigError::Parse(e)))) if e == "eof"
    ));
}

#[test]
fn empty_patch_changes_nothing() {
    let mut config = changed_config();
    assert!(apply_and_validate(&mut config, &empty_patch()).is_ok());
    assert_eq!(config, changed_config());
}

#[test]
fn patch_sets_what_it_names() {
    let mut config = AirbandConfig::default();
    let mut patch = empty_patch();
    patch.center_hz = Some(126_400_000);
    patch.rf_bandwidth = Some(18_000_000);
    patch.gain_db = Some(double(12.5));
    patch.agc = Some(AirbandAgcMode::Hybrid);
    patch.poll_ms = Some(1);
    patch.channels =
        Some(vec![channel(133_650_000.0, Some("CTR")), channel(121_500_000.0, None)]);
    assert!(apply_and_validate(&mut config, &patch).is_ok());
    assert_eq!(config.center_hz, 126_400_000);
    assert_eq!(config.samp_rate, 16_000_000);
    assert_eq!(config.rf_bandwidth, Some(18_000_000));
    assert_eq!(float(config.gain_db), 12.5);
    assert_eq!(config.agc.as_deref(), Some("hybrid"));
    assert_eq!(config.poll_ms, 1);
    assert_eq!(
        config.channels_hz.iter().map(|&f| float(f)).collect::<Vec<f64>>(),
        vec![133_650_000.0, 121_500_000.0]
    );
    assert_eq!(config.channel_labels, Some(vec!["CTR".to_string(), String::new()]));
    // Sent again, it changes nothing more.
    let once = config.clone();
    assert!(apply_and_validate(&mut config, &patch).is_ok());
    assert_eq!(config, once);
}

#[test]
fn plan_without_labels_has_none() {
    let mut config = AirbandConfig::default();
    let mut patch = empty_patch();
    patch.channels = Some(vec![channel(123_000_000.0, Some("")), channel(123_100_000.0, None)]);
    assert!(apply_and_validate(&mut config, &patch).is_ok());
    assert_eq!(config.channel_labels, None);
    patch.channels = Some(vec![]);
    assert!(apply_and_validate(&mut config, &patch).is_ok());
    assert!(config.channels_hz.is_empty());
}

#[test]
fn gain_out_of_range() {
    for gain in [-0.1, 77.5, f64::NAN, f64::INFINITY] {
        let mut config = AirbandConfig::default();
        let mut patch = empty_patch();
        patch.gain_db = Some(double(gain));
        patch.center_hz = Some(1);
        patch.poll_ms = Some(0);
        assert!(matches!(
            apply_and_validate(&mut config, &patch),
            Err(PatchError::GainOutOfRange { gain_db }) if gain_db.to_bits() == gain.to_bits()
        ));
        // The center precedes the gain, the poll interval does not.
        assert_eq!(config.center_hz, 1);
        assert_eq!(config.poll_ms, 20);
    }
    for gain in [0.0, -0.0, 77.0] {
        let mut patch = empty_patch();
        patch.gain_db = Some(double(gain));
        assert!(apply_and_validate(&mut AirbandConfig::default(), &patch).is_ok());
    }
}

#[test]
fn poll_interval_of_zero() {
    let mut config = AirbandConfig::default();
    let mut patch = empty_patch();
    patch.poll_ms = Some(0);
    patch.agc = Some(AirbandAgcMode::SlowAttack);
    assert!(matches!(
        apply_and_validate(&mut config, &patch),
        Err(PatchError::PollTooShort)
    ));
    assert_eq!(config.agc.as_deref(), Some("slow_attack"));
    assert_eq!(config.poll_ms, 20);
}

#[test]
fn too_many_channels() {
    let mut config = AirbandConfig::default();
    let mut patch = empty_patch();
    patch.channels = Some((0..19).map(|_| channel(123_000_000.0, None)).collect());
    assert!(matches!(
        apply_and_validate(&mut config, &patch),
        Err(PatchError::TooManyChannels { count: 19 })
    ));
    assert_eq!(config, AirbandConfig::default());
    patch.channels = Some((0..18).map(|_| channel(123_000_000.0, None)).collect());
    assert!(apply_and_validate(&mut config, &patch).is_ok());
}

#[test]
fn channel_outside_the_patched_window() {
    let mut config = AirbandConfig::default();
    let mut patch = empty_patch();
    patch.center_hz = Some(130_000_000);
    patch.channels = Some(vec![channel(130_000_000.0, None), channel(138_000_000.0, None)]);
    match apply_and_validate(&mut config, &patch) {
        Err(PatchError::ChannelOutsideWindow { freq_hz, center_hz, samp_rate }) => {
            assert_eq!(float(freq_hz), 138_000_000.0);
            assert_eq!(center_hz, 130_000_000);
            assert_eq!(samp_rate, 16_000_000);
        }
        _ => panic!("the channel is outside the window"),
    }
    assert_eq!(config.channels_hz.len(), 1);
    patch.channels = Some(vec![channel(122_000_000.0, None), channel(137_999_999.9, None)]);
    assert!(apply_and_validate(&mut config, &patch).is_ok());
}

#[test]
fn patch_gives_the_configuration_to_persist() {
    let mut patch = empty_patch();
    patch.poll_ms = Some(50);
    let state = running_state();
    let config = patch_airband(&state, ConfigFile::Missing, &patch).unwrap();
    assert_eq!(config, changed_config());
    let answer = patch_answer(&state, &config, Ok(())).unwrap();
    assert!(answer.needs_restart);
    // What is read back is what was answered.
    let read = get_airband(&state, ConfigFile::Parsed(config)).unwrap();
    assert_eq!(read.poll_ms, answer.poll_ms);
    assert_eq!(read.needs_restart, answer.needs_restart);
    assert_eq!(shown_channels(&read), shown_channels(&answer));
}

#[test]
fn refused_patch_is_a_client_error() {
    let mut patch = empty_patch();
    patch.poll_ms = Some(0);
    assert!(matches!(
        patch_airband(&running_state(), ConfigFile::Missing, &patch),
        Err(JsonError::ClientErrorAlert(PatchError::PollTooShort))
    ));
    // It is refused before the missing path is.
    let state = AppState::new(true, None, None).unwrap();
    assert!(matches!(
        patch_airband(&state, ConfigFile::Missing, &patch),
        Err(JsonError::ClientErrorAlert(PatchError::PollTooShort))
    ));
    assert!(matches!(
        patch_airband(&state, ConfigFile::Missing, &empty_patch()),
        Err(JsonError::ClientErrorAlert(PatchError::NoConfigPath))
    ));
}

#[test]
fn texts_of_refusals() {
    let text = |e: PatchError| e.message();
    assert_eq!(text(PatchError::PollTooShort).unwrap(), "poll_ms must be at least 1 ms");
    assert_eq!(text(PatchError::NoConfigPath).unwrap(), "no airband config path configured");
    assert_eq!(
        text(PatchError::TooManyChannels { count: 19 }).unwrap(),
        "too many channels: 19 (max 18)"
    );
    for count in [0, 7, 10, 100, 1_234_567_890, usize::MAX] {
        assert_eq!(
            text(PatchError::TooManyChannels { count }).unwrap(),
            format!("too many channels: {count} (max 18)")
        );
    }
    assert_eq!(text(PatchError::GainOutOfRange { gain_db: double(78.0) }), None);
    let outside = PatchError::ChannelOutsideWindow {
        freq_hz: double(1.0),
        center_hz: 2,
        samp_rate: 3,
    };
    assert_eq!(text(outside), None);
}

#[test]
fn patch_of_a_bad_file_is_a_server_error() {
    assert!(matches!(
        patch_airband(
            &running_state(),
            ConfigFile::Unreadable("denied".to_string()),
            &empty_patch()
        ),
        Err(JsonError::ServerError(ServerFault::Config(ConfigError::Read(_))))
    ));
}

#[test]
fn failure_to_persist_is_a_server_error() {
    let state = running_state();
    let config = changed_config();
    assert!(matches!(
        patch_answer(&state, &config, Err(PersistError::Write("full".to_string()))),
        Err(JsonError::ServerError(ServerFault::Write(e))) if e == "full"
    ));
    assert!(matches!(
        patch_answer(&state, &config, Err(PersistError::Serialize("nan".to_string()))),
        Err(JsonError::ServerError(ServerFault::Serialize(e))) if e == "nan"
    ));
}

#[test]
fn accepted_plan_starts_after_a_restart() {
    let mut patch = empty_patch();
    patch.agc = Some(AirbandAgcMode::SlowAttack);
    patch.channels = Some(vec![channel(115_438_000.0, None), channel(131_437_999.9, None)]);
    let config = patch_airband(&running_state(), ConfigFile::Missing, &patch).unwrap();
    let state = AppState::new(true, None, Some(ConfigFile::Parsed(config))).unwrap();
    let task = Task::new(&state, true, None).unwrap().unwrap();
    assert!(task.configure().outcome.is_ok());
    // A change of the center alone does not look at the channels.
    let mut patch = empty_patch();
    patch.center_hz = Some(1_000_000_000);
    let config = patch_airband(&running_state(), ConfigFile::Missing, &patch).unwrap();
    let state = AppState::new(true, None, Some(ConfigFile::Parsed(config))).unwrap();
    let task = Task::new(&state, true, None).unwrap().unwrap();
    assert!(task.configure().outcome.is_err());
}

#[test]
fn sending_back_what_is_shown_changes_nothing() {
    let mut config = AirbandConfig::default();
    config.channels_hz = vec![double(118_050_000.0), double(121_500_000.0)];
    config.channel_labels = Some(vec!["".to_string(), "Guard".to_string()]);
    config.agc = Some("fast_attack".to_string());
    let before = config_to_json(&config, true, true);
    let patch = PatchAirband {
        center_hz: Some(before.center_hz),
        rf_bandwidth: before.rf_bandwidth,
        gain_db: Some(before.gain_db),
        agc: Some(before.agc),
        channels: Some(config_to_json(&config, true, true).channels),
        poll_ms: Some(before.poll_ms),
    };
    assert!(apply_and_validate(&mut config, &patch).is_ok());
    let after = config_to_json(&config, true, true);
    assert_eq!(shown_channels(&after), shown_channels(&before));
    assert_eq!(after.agc, before.agc);
    assert_eq!(after.center_hz, before.center_hz);
    assert_eq!(after.rf_bandwidth, before.rf_bandwidth);
    assert_eq!(after.poll_ms, before.poll_ms);
}

#[test]
fn health() {
    let h = get_health(&running_state(), 100, true, 200);
    assert!(h.airband_enabled && h.dma_advancing && h.overflow);
    assert_eq!(h.dma_address, 200);
    let disabled = AppState::new(false, None, None).unwrap();
    let h = get_health(&disabled, 100, false, 100);
    assert!(!h.airband_enabled && !h.dma_advancing && !h.overflow);
}

#[test]
fn restart() {
    assert_eq!(restart_command(), "sleep 1; /etc/init.d/S60maia-httpd restart");
    assert!(post_restart(Ok(())).unwrap().restarting);
    assert!(matches!(
        post_restart(Err("no shell".to_string())),
        Err(JsonError::ServerError(ServerFault::Spawn(e))) if e == "no shell"
    ));
}
