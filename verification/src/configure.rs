//! Configuring the front-end and the receiver from a channel plan.

use crate::airband::{Airband, AirbandConfig, ConfigView, N_CHANNELS};
use crate::double::Double;
use crate::text::reads;
use crate::tuning::{tunable, tuning_word, word_of};
use vstd::prelude::*;

verus! {

/// Gain control mode of the front-end.
#[derive(Clone, Copy, Debug, PartialEq, Eq, Structural)]
pub enum Ad9361GainMode {
    Manual,
    FastAttack,
    SlowAttack,
    Hybrid,
}

/// The gain control mode with the given name.
pub open spec fn gain_mode_named(name: Seq<char>) -> Option<Ad9361GainMode> {
    if name == "manual"@ {
        Some(Ad9361GainMode::Manual)
    } else if name == "fast_attack"@ {
        Some(Ad9361GainMode::FastAttack)
    } else if name == "slow_attack"@ {
        Some(Ad9361GainMode::SlowAttack)
    } else if name == "hybrid"@ {
        Some(Ad9361GainMode::Hybrid)
    } else {
        None
    }
}

impl Ad9361GainMode {
    /// The gain control mode with the given name, if there is one.
    pub fn parse(name: &String) -> (mode: Option<Ad9361GainMode>)
        ensures
            mode == gain_mode_named(name@),
    {
        if reads(name, "manual") {
            Some(Ad9361GainMode::Manual)
        } else if reads(name, "fast_attack") {
            Some(Ad9361GainMode::FastAttack)
        } else if reads(name, "slow_attack") {
            Some(Ad9361GainMode::SlowAttack)
        } else if reads(name, "hybrid") {
            Some(Ad9361GainMode::Hybrid)
        } else {
            None
        }
    }
}

/// One setting of the front-end.
#[derive(Clone, Copy, Debug)]
pub enum FrontEndAction {
    /// Sets the sampling frequency (Hz).
    SetSamplingFrequency(u32),
    /// Sets the RX RF bandwidth (Hz).
    SetRxRfBandwidth(u32),
    /// Sets the RX LO frequency (Hz).
    SetRxLoFrequency(u64),
    /// Sets the RX gain control mode.
    SetRxGainMode(Ad9361GainMode),
    /// Sets the RX gain (dB).
    SetRxGain(Double),
}

/// One command to the receiver core.
#[derive(Clone, Copy, Debug, PartialEq, Eq, Structural)]
pub enum CoreAction {
    /// Enables or disables the receiver.
    SetEnable(bool),
    /// Sets the tuning word of a channel's oscillator.
    SetFrequency(u8, u32),
    /// Starts the cyclic audio DMA.
    DmaStart,
}

/// Why a configuration cannot be applied.
#[derive(Debug)]
pub enum ConfigureError {
    /// The AGC mode has no such name.
    InvalidAgcMode(String),
    /// A channel is outside the capture window.
    ChannelOutsideWindow { freq_hz: Double, center_hz: u64, samp_rate: u32 },
}

/// How a configuration is applied: the settings and commands to carry out, in
/// this order, and what to report after them.
#[derive(Debug)]
pub struct Configuration {
    /// Settings of the front-end, first.
    pub front_end: Vec<FrontEndAction>,
    /// Commands to the receiver core, next.
    pub core: Vec<CoreAction>,
    /// The outcome once they are carried out.
    pub outcome: Result<(), ConfigureError>,
}

/// Whether the gain is set by hand.
pub open spec fn manual_gain(config: ConfigView) -> bool {
    config.agc is None || config.agc == Some("manual"@)
}

/// Whether the AGC mode of a configuration is one that the front-end knows.
pub open spec fn agc_known(config: ConfigView) -> bool {
    config.agc matches Some(name) ==> gain_mode_named(name) is Some
}

/// The bandwidth that is set: the configured one, or the sample rate.
pub open spec fn bandwidth_of(config: ConfigView) -> u32 {
    match config.rf_bandwidth {
        Some(bandwidth) => bandwidth,
        None => config.samp_rate,
    }
}

/// The settings of the gain control. An unknown mode has none.
pub open spec fn gain_actions(config: ConfigView) -> Seq<FrontEndAction> {
    if manual_gain(config) {
        seq![
            FrontEndAction::SetRxGainMode(Ad9361GainMode::Manual),
            FrontEndAction::SetRxGain(config.gain_db),
        ]
    } else {
        match gain_mode_named(config.agc->0) {
            Some(mode) => seq![FrontEndAction::SetRxGainMode(mode)],
            None => seq![],
        }
    }
}

/// The settings of the front-end.
pub open spec fn front_end_actions(config: ConfigView) -> Seq<FrontEndAction> {
    seq![
        FrontEndAction::SetSamplingFrequency(config.samp_rate),
        FrontEndAction::SetRxRfBandwidth(bandwidth_of(config)),
        FrontEndAction::SetRxLoFrequency(config.center_hz),
    ] + gain_actions(config)
}

/// How many channels of the plan are used.
pub open spec fn used_channels(config: ConfigView) -> nat {
    if config.channels_hz.len() <= N_CHANNELS {
        config.channels_hz.len()
    } else {
        N_CHANNELS as nat
    }
}

/// Whether the channel at an index can be tuned to.
pub open spec fn channel_tunable(config: ConfigView, i: int) -> bool {
    tunable(config.channels_hz[i], config.center_hz, config.samp_rate)
}

/// Whether every used channel can be tuned to.
pub open spec fn plan_tunable(config: ConfigView) -> bool {
    forall|i: int| 0 <= i < used_channels(config) ==> #[trigger] channel_tunable(config, i)
}

/// Whether the channel at an index is the first used one that cannot be tuned
/// to.
pub open spec fn first_untunable(config: ConfigView, i: int) -> bool {
    &&& 0 <= i < used_channels(config)
    &&& !channel_tunable(config, i)
    &&& forall|j: int| 0 <= j < i ==> #[trigger] channel_tunable(config, j)
}

/// The commands that tune the first `n` oscillators.
pub open spec fn tuning_actions(config: ConfigView, n: nat) -> Seq<CoreAction> {
    Seq::new(
        n,
        |i: int|
            CoreAction::SetFrequency(
                i as u8,
                word_of(config.channels_hz[i], config.center_hz, config.samp_rate) as u32,
            ),
    )
}

/// The commands to the receiver core for a plan that can be tuned to.
pub open spec fn start_actions(config: ConfigView) -> Seq<CoreAction> {
    seq![CoreAction::SetEnable(false)] + tuning_actions(config, used_channels(config)) + seq![
        CoreAction::SetEnable(true),
        CoreAction::DmaStart,
    ]
}

/// The commands to the receiver core for a plan whose channel at `i` is the
/// first that cannot be tuned to: it stays disabled.
pub open spec fn abandoned_actions(config: ConfigView, i: nat) -> Seq<CoreAction> {
    seq![CoreAction::SetEnable(false)] + tuning_actions(config, i)
}

/// Whether a configuration is applied as it must be.
pub open spec fn applies(c: Configuration, config: ConfigView) -> bool {
    &&& c.front_end@ == front_end_actions(config)
    &&& match c.outcome {
        Ok(()) => agc_known(config) && plan_tunable(config) && c.core@ == start_actions(config),
        Err(ConfigureError::InvalidAgcMode(name)) => !agc_known(config) && config.agc == Some(
            name@,
        ) && c.core@ == Seq::<CoreAction>::empty(),
        Err(ConfigureError::ChannelOutsideWindow { freq_hz, center_hz, samp_rate }) => {
            &&& agc_known(config)
            &&& center_hz == config.center_hz
            &&& samp_rate == config.samp_rate
            &&& exists|i: int| #[trigger]
                first_untunable(config, i) && freq_hz == config.channels_hz[i] && c.core@
                    == abandoned_actions(config, i as nat)
        },
    }
}

impl Airband {
    /// Works out how the receiver's configuration is applied: the settings of
    /// the front-end, the tuning words of the oscillators, and the start of the
    /// receiver and its DMA.
    pub fn configure(&self) -> (c: Configuration)
        ensures
            applies(c, self.plan()),
    {
        let config = self.config();
        let mut front_end: Vec<FrontEndAction> = Vec::new();
        front_end.push(FrontEndAction::SetSamplingFrequency(config.samp_rate));
        front_end.push(
            FrontEndAction::SetRxRfBandwidth(
                match config.rf_bandwidth {
                    Some(bandwidth) => bandwidth,
                    None => config.samp_rate,
                },
            ),
        );
        front_end.push(FrontEndAction::SetRxLoFrequency(config.center_hz));
        let manual = match &config.agc {
            None => true,
            Some(name) => reads(name, "manual"),
        };
        if manual {
            front_end.push(FrontEndAction::SetRxGainMode(Ad9361GainMode::Manual));
            front_end.push(FrontEndAction::SetRxGain(config.gain_db));
        } else if let Some(name) = &config.agc {
            match Ad9361GainMode::parse(name) {
                Some(mode) => {
                    front_end.push(FrontEndAction::SetRxGainMode(mode));
                },
                None => {
                    assert(front_end@ =~= front_end_actions(self.plan()));
                    return Configuration {
                        front_end,
                        core: Vec::new(),
                        outcome: Err(ConfigureError::InvalidAgcMode(name.clone())),
                    };
                },
            }
        }
        assert(front_end@ =~= front_end_actions(self.plan()));
        let (core, outcome) = core_commands(config);
        Configuration { front_end, core, outcome }
    }
}

/// The commands to the receiver core, and whether the plan can be tuned to.
fn core_commands(config: &AirbandConfig) -> (r: (Vec<CoreAction>, Result<(), ConfigureError>))
    ensures
        match r.1 {
            Ok(()) => plan_tunable(config@) && r.0@ == start_actions(config@),
            Err(ConfigureError::InvalidAgcMode(_)) => false,
            Err(ConfigureError::ChannelOutsideWindow { freq_hz, center_hz, samp_rate }) => {
                &&& center_hz == config@.center_hz
                &&& samp_rate == config@.samp_rate
                &&& exists|i: int| #[trigger]
                    first_untunable(config@, i) && freq_hz == config@.channels_hz[i] && r.0@
                        == abandoned_actions(config@, i as nat)
            },
        },
{
    let ghost v = config@;
    let used: usize = if config.channels_hz.len() <= N_CHANNELS {
        config.channels_hz.len()
    } else {
        N_CHANNELS
    };
    let mut core: Vec<CoreAction> = Vec::new();
    core.push(CoreAction::SetEnable(false));
    assert(core@ =~= abandoned_actions(v, 0));
    let mut i: usize = 0;
    while i < used
        invariant
            i <= used <= N_CHANNELS,
            v == config@,
            used == used_channels(v),
            core@ == abandoned_actions(v, i as nat),
            forall|j: int| 0 <= j < i ==> #[trigger] channel_tunable(v, j),
        decreases used - i,
    {
        let freq_hz: Double = config.channels_hz[i];
        match tuning_word(freq_hz, config.center_hz, config.samp_rate) {
            None => {
                assert(first_untunable(v, i as int));
                return (
                    core,
                    Err(
                        ConfigureError::ChannelOutsideWindow {
                            freq_hz,
                            center_hz: config.center_hz,
                            samp_rate: config.samp_rate,
                        },
                    ),
                );
            },
            Some(word) => {
                assert(channel_tunable(v, i as int));
                core.push(CoreAction::SetFrequency(i as u8, word));
                assert(core@ =~= abandoned_actions(v, (i + 1) as nat));
                i = i + 1;
            },
        }
    }
    core.push(CoreAction::SetEnable(true));
    core.push(CoreAction::DmaStart);
    assert(core@ =~= start_actions(v));
    (core, Ok(()))
}

/// The receiver is enabled exactly when the configuration can be applied in
/// full, and then it is the last command but the start of the DMA: no
/// oscillator is tuned while the receiver is enabled.
pub proof fn law_enabled_only_when_tuned(c: Configuration, config: ConfigView)
    requires
        applies(c, config),
    ensures
        c.outcome is Ok <==> c.core@.contains(CoreAction::SetEnable(true)),
        c.outcome is Ok <==> c.core@.contains(CoreAction::DmaStart),
        c.core@.len() > 0 ==> c.core@[0] == CoreAction::SetEnable(false),
        c.outcome is Ok ==> c.core@[c.core@.len() - 2] == CoreAction::SetEnable(true)
            && c.core@.last() == CoreAction::DmaStart,
{
    if c.outcome is Ok {
        assert(c.core@[c.core@.len() - 2] == CoreAction::SetEnable(true));
        assert(c.core@[c.core@.len() - 1] == CoreAction::DmaStart);
    }
}

/// A configuration is applied in full exactly when its AGC mode is known and
/// every used channel can be tuned to; otherwise one of the two errors is
/// reported, the AGC mode before the channels.
pub proof fn law_outcome(c: Configuration, config: ConfigView)
    requires
        applies(c, config),
    ensures
        c.outcome is Ok <==> agc_known(config) && plan_tunable(config),
        (c.outcome matches Err(ConfigureError::InvalidAgcMode(_))) <==> !agc_known(config),
{
    if let Err(ConfigureError::ChannelOutsideWindow { freq_hz, center_hz, samp_rate }) = c.outcome {
        let i = choose|i: int| #[trigger]
            first_untunable(config, i) && freq_hz == config.channels_hz[i] && c.core@
                == abandoned_actions(config, i as nat);
        assert(!channel_tunable(config, i));
    }
}

/// Channels past the number of oscillators and the labels have no influence on
/// how a configuration is applied.
pub proof fn law_spare_channels_ignored(c: Configuration, a: ConfigView, b: ConfigView)
    requires
        applies(c, a),
        a.center_hz == b.center_hz,
        a.samp_rate == b.samp_rate,
        a.rf_bandwidth == b.rf_bandwidth,
        a.gain_db == b.gain_db,
        a.agc == b.agc,
        used_channels(a) == used_channels(b),
        forall|i: int| 0 <= i < used_channels(a) ==> a.channels_hz[i] == b.channels_hz[i],
    ensures
        applies(c, b),
{
    let n = used_channels(a);
    assert forall|i: int| 0 <= i < n implies channel_tunable(a, i) == #[trigger] channel_tunable(
        b,
        i,
    ) by {
        assert(a.channels_hz[i] == b.channels_hz[i]);
    }
    assert(front_end_actions(a) =~= front_end_actions(b));
    match c.outcome {
        Ok(()) => {
            assert forall|i: int| 0 <= i < n implies #[trigger] channel_tunable(b, i) by {
                assert(channel_tunable(a, i));
            }
            assert(tuning_actions(a, n) =~= tuning_actions(b, n));
        },
        Err(ConfigureError::InvalidAgcMode(_)) => {},
        Err(ConfigureError::ChannelOutsideWindow { freq_hz, center_hz, samp_rate }) => {
            let i = choose|i: int| #[trigger]
                first_untunable(a, i) && freq_hz == a.channels_hz[i] && c.core@
                    == abandoned_actions(a, i as nat);
            assert forall|j: int| 0 <= j < i implies #[trigger] channel_tunable(b, j) by {
                assert(channel_tunable(a, j));
            }
            assert(first_untunable(b, i));
            assert(tuning_actions(a, i as nat) =~= tuning_actions(b, i as nat));
        },
    }
}

} // verus!
