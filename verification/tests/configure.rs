use maia_httpd::airband::{Airband, AirbandConfig, ConfigFile};
use maia_httpd::app::AppState;
use maia_httpd::configure::{
    Ad9361GainMode, Configuration, ConfigureError, CoreAction, FrontEndAction,
};
use maia_httpd::double::Double;

fn double(x: f64) -> Double {
    Double::from_bits(x.to_bits())
}

fn configure(config: AirbandConfig) -> Configuration {
    let state = AppState::new(true, None, Some(ConfigFile::Parsed(config))).unwrap();
    Airband::new(&state, true, None).unwrap().unwrap().configure()
}

#[test]
fn default_plan() {
    let c = configure(AirbandConfig::default());
    assert!(c.outcome.is_ok());
    assert_eq!(c.front_end.len(), 5);
    assert!(matches!(c.front_end[0], FrontEndAction::SetSamplingFrequency(16_000_000)));
    assert!(matches!(c.front_end[1], FrontEndAction::SetRxRfBandwidth(16_000_000)));
    assert!(matches!(c.front_end[2], FrontEndAction::SetRxLoFrequency(123_438_000)));
    assert!(matches!(
        c.front_end[3],
        FrontEndAction::SetRxGainMode(Ad9361GainMode::Manual)
    ));
    assert!(matches!(c.front_end[4], FrontEndAction::SetRxGain(g) if g.to_bits() == 0));
    assert_eq!(
        c.core,
        vec![
            CoreAction::SetEnable(false),
            CoreAction::SetFrequency(0, 0xa9_cac1),
            CoreAction::SetEnable(true),
            CoreAction::DmaStart,
        ]
    );
}

#[test]
fn configured_bandwidth_and_agc() {
    let mut config = AirbandConfig::default();
    config.rf_bandwidth = Some(9_000_000);
    config.agc = Some("slow_attack".to_string());
    let c = configure(config);
    assert!(c.outcome.is_ok());
    assert_eq!(c.front_end.len(), 4);
    assert!(matches!(c.front_end[1], FrontEndAction::SetRxRfBandwidth(9_000_000)));
    assert!(matches!(
        c.front_end[3],
        FrontEndAction::SetRxGainMode(Ad9361GainMode::SlowAttack)
    ));
}

#[test]
fn missing_agc_is_manual() {
    let mut config = AirbandConfig::default();
    config.agc = None;
    config.gain_db = double(12.0);
    let c = configure(config);
    assert!(matches!(
        c.front_end[3],
        FrontEndAction::SetRxGainMode(Ad9361GainMode::Manual)
    ));
    assert!(matches!(
        c.front_end[4],
        FrontEndAction::SetRxGain(g) if g.to_bits() == 12.0f64.to_bits()
    ));
}

#[test]
fn gain_mode_names() {
    let parse = |s: &str| Ad9361GainMode::parse(&s.to_string());
    assert_eq!(parse("manual"), Some(Ad9361GainMode::Manual));
    assert_eq!(parse("fast_attack"), Some(Ad9361GainMode::FastAttack));
    assert_eq!(parse("slow_attack"), Some(Ad9361GainMode::SlowAttack));
    assert_eq!(parse("hybrid"), Some(Ad9361GainMode::Hybrid));
    assert_eq!(parse("Manual"), None);
    assert_eq!(parse(""), None);
}

#[test]
fn unknown_agc_mode() {
    let mut config = AirbandConfig::default();
    config.agc = Some("turbo".to_string());
    let c = configure(config);
    assert!(matches!(
        &c.outcome,
        Err(ConfigureError::InvalidAgcMode(name)) if name == "turbo"
    ));
    assert_eq!(c.front_end.len(), 3);
    assert!(c.core.is_empty());
}

#[test]
fn channel_outside_window_leaves_the_receiver_disabled() {
    let mut config = AirbandConfig::default();
    config.channels_hz =
        vec![double(123_438_000.0), double(131_438_000.0), double(118_050_000.0)];
    let c = configure(config);
    match &c.outcome {
        Err(ConfigureError::ChannelOutsideWindow { freq_hz, center_hz, samp_rate }) => {
            assert_eq!(f64::from_bits(freq_hz.to_bits()), 131_438_000.0);
            assert_eq!(*center_hz, 123_438_000);
            assert_eq!(*samp_rate, 16_000_000);
        }
        _ => panic!("the channel is outside the window"),
    }
    assert_eq!(
        c.core,
        vec![CoreAction::SetEnable(false), CoreAction::SetFrequency(0, 0)]
    );
}

#[test]
fn channels_past_the_oscillators_are_ignored() {
    let mut config = AirbandConfig::default();
    config.channels_hz = vec![double(123_438_000.0); 18];
    config.channels_hz.push(double(0.0));
    let c = configure(config);
    assert!(c.outcome.is_ok());
    assert_eq!(c.core.len(), 21);
    assert_eq!(c.core[18], CoreAction::SetFrequency(17, 0));
}

#[test]
fn empty_plan_is_started() {
    let mut config = AirbandConfig::default();
    config.channels_hz = vec![];
    let c = configure(config);
    assert!(c.outcome.is_ok());
    assert_eq!(c.core.len(), 3);
}
