//! Laws of how a configuration is applied to the front-end and to the receiver.

use crate::airband::ConfigView;
use crate::configure::{
    abandoned_actions, applies, channel_tunable, first_untunable, law_outcome, used_channels,
    Ad9361GainMode, Configuration, ConfigureError, CoreAction, FrontEndAction,
};
use crate::httpd::airband_laws::lemma_names;
use crate::tuning::{center_value, in_window, word_of};
use crate::tuning_laws::{
    law_whole_hertz_word, law_window_agrees_with_tuning, law_word_tracks_frequency, size,
};
use vstd::arithmetic::div_mod::lemma_fundamental_div_mod;
use vstd::arithmetic::power2::pow2;
use vstd::prelude::*;

verus! {

/// The front-end is set to the configured sample rate, bandwidth and center
/// frequency, in this order and before anything else. Without a bandwidth, the
/// bandwidth is the sample rate.
pub proof fn law_front_end_is_configured(c: Configuration, config: ConfigView)
    requires
        applies(c, config),
    ensures
        3 <= c.front_end@.len() <= 5,
        c.front_end@[0] == FrontEndAction::SetSamplingFrequency(config.samp_rate),
        config.rf_bandwidth is None ==> c.front_end@[1] == FrontEndAction::SetRxRfBandwidth(
            config.samp_rate,
        ),
        config.rf_bandwidth matches Some(bandwidth) ==> c.front_end@[1]
            == FrontEndAction::SetRxRfBandwidth(bandwidth),
        c.front_end@[2] == FrontEndAction::SetRxLoFrequency(config.center_hz),
{
}

/// With manual gain, which is also what no AGC mode means, the front-end is set
/// to manual mode and then to the configured gain, and to nothing more.
pub proof fn law_manual_gain_is_set(c: Configuration, config: ConfigView)
    requires
        applies(c, config),
        config.agc is None || config.agc == Some("manual"@),
    ensures
        c.front_end@.len() == 5,
        c.front_end@[3] == FrontEndAction::SetRxGainMode(Ad9361GainMode::Manual),
        c.front_end@[4] == FrontEndAction::SetRxGain(config.gain_db),
{
}

/// With an AGC, the front-end is set to the mode of that name, and to no gain:
/// the configured gain is for manual mode alone.
pub proof fn law_agc_mode_is_set(c: Configuration, config: ConfigView)
    requires
        applies(c, config),
        config.agc == Some("fast_attack"@) || config.agc == Some("slow_attack"@) || config.agc
            == Some("hybrid"@),
    ensures
        c.front_end@.len() == 4,
        config.agc == Some("fast_attack"@) ==> c.front_end@[3] == FrontEndAction::SetRxGainMode(
            Ad9361GainMode::FastAttack,
        ),
        config.agc == Some("slow_attack"@) ==> c.front_end@[3] == FrontEndAction::SetRxGainMode(
            Ad9361GainMode::SlowAttack,
        ),
        config.agc == Some("hybrid"@) ==> c.front_end@[3] == FrontEndAction::SetRxGainMode(
            Ad9361GainMode::Hybrid,
        ),
        forall|k: int|
            0 <= k < c.front_end@.len() ==> !(#[trigger] c.front_end@[k] is SetRxGain),
{
    lemma_names();
}

/// A gain is set exactly in manual mode, only once, and it is the configured
/// one.
pub proof fn law_gain_only_in_manual_mode(c: Configuration, config: ConfigView, k: int)
    requires
        applies(c, config),
        0 <= k < c.front_end@.len(),
        c.front_end@[k] is SetRxGain,
    ensures
        config.agc is None || config.agc == Some("manual"@),
        k == 4,
        c.front_end@[k] == FrontEndAction::SetRxGain(config.gain_db),
        c.front_end@[k - 1] == FrontEndAction::SetRxGainMode(Ad9361GainMode::Manual),
{
}

/// An AGC mode of any other name is refused by that name, and only such a one
/// is: the front-end keeps its gain, and the receiver gets no command at all.
pub proof fn law_unknown_mode_is_refused(c: Configuration, config: ConfigView)
    requires
        applies(c, config),
    ensures
        (c.outcome matches Err(ConfigureError::InvalidAgcMode(_))) <==> (config.agc matches Some(
            name,
        ) && name != "manual"@ && name != "fast_attack"@ && name != "slow_attack"@ && name
            != "hybrid"@),
        c.outcome matches Err(ConfigureError::InvalidAgcMode(name)) ==> {
            &&& config.agc == Some(name@)
            &&& c.front_end@.len() == 3
            &&& c.core@.len() == 0
        },
{
    law_outcome(c, config);
}

/// A configuration that is applied in full first disables the receiver, gives
/// one command to each oscillator that has a channel, enables the receiver and
/// starts the DMA, and does nothing else. There are 18 oscillators.
pub proof fn law_commands_of_a_start(c: Configuration, config: ConfigView)
    requires
        applies(c, config),
        c.outcome is Ok,
    ensures
        ({
            let n = if config.channels_hz.len() <= 18 {
                config.channels_hz.len() as int
            } else {
                18
            };
            &&& c.core@.len() == n + 3
            &&& c.core@[0] == CoreAction::SetEnable(false)
            &&& forall|i: int|
                0 <= i < n ==> (#[trigger] c.core@[i + 1] matches CoreAction::SetFrequency(k, word)
                    && k == i && word < 0x100_0000)
            &&& c.core@[n + 1] == CoreAction::SetEnable(true)
            &&& c.core@[n + 2] == CoreAction::DmaStart
        }),
{
    let n = if config.channels_hz.len() <= 18 {
        config.channels_hz.len() as int
    } else {
        18
    };
    assert forall|i: int| 0 <= i < n implies (
    #[trigger] c.core@[i + 1] matches CoreAction::SetFrequency(k, word) && k == i && word
        < 0x100_0000) by {
        lemma_command(c, config, i);
    }
}

/// The command to the oscillator of a used channel.
proof fn lemma_command(c: Configuration, config: ConfigView, i: int)
    requires
        applies(c, config),
        c.outcome is Ok,
        0 <= i < config.channels_hz.len(),
        i < 18,
    ensures
        channel_tunable(config, i),
        0 <= word_of(config.channels_hz[i], config.center_hz, config.samp_rate) < 0x100_0000,
        c.core@[i + 1] == CoreAction::SetFrequency(
            i as u8,
            word_of(config.channels_hz[i], config.center_hz, config.samp_rate) as u32,
        ),
{
    assert(channel_tunable(config, i));
}

/// In a configuration that is applied in full, the oscillator of each used
/// channel is tuned to that channel: its word is the residue modulo 2^24 of an
/// integer `w` that is the exact offset `channels_hz[i] - center_hz`, counted in
/// steps of 2^-24 of the sample rate, up to half a step and the one part in
/// 2^28 of a step that the binary64 roundings can add. The frequencies are in
/// units of 2^-1074 Hz. A center of at most 2^53 Hz counts exactly, any other
/// by its binary64 value.
pub proof fn law_oscillator_follows_its_channel(
    c: Configuration,
    config: ConfigView,
    i: int,
) -> (w: int)
    requires
        applies(c, config),
        c.outcome is Ok,
        0 <= i < config.channels_hz.len(),
        i < 18,
    ensures
        c.core@[i + 1] matches CoreAction::SetFrequency(k, word) && k == i && word == w
            % 0x100_0000,
        -0x80_0000 <= w <= 0x80_0000,
        config.center_hz <= 0x20_0000_0000_0000 ==> center_value(config.center_hz)
            == config.center_hz * pow2(1074),
        2 * size(
            w * (config.samp_rate * pow2(1074)) - 0x100_0000 * (config.channels_hz[i].value()
                - center_value(config.center_hz)),
        ) * 0x800_0000 <= 0x800_0001 * (config.samp_rate * pow2(1074)),
{
    lemma_command(c, config, i);
    law_word_tracks_frequency(config.channels_hz[i], config.center_hz, config.samp_rate)
}

/// For a channel on a whole number of hertz, and a sample rate below 2^27 Hz,
/// the roundings have no part in this: `w` is the integer nearest to 2^24 times
/// the offset over the sample rate, the one farther from zero where two are.
pub proof fn law_oscillator_is_nearest(
    c: Configuration,
    config: ConfigView,
    i: int,
    hz: int,
) -> (w: int)
    requires
        applies(c, config),
        c.outcome is Ok,
        0 <= i < config.channels_hz.len(),
        i < 18,
        config.channels_hz[i].value() == hz * pow2(1074),
        config.center_hz <= 0x20_0000_0000_0000,
        config.samp_rate < 0x800_0000,
    ensures
        c.core@[i + 1] matches CoreAction::SetFrequency(k, word) && k == i && word == w
            % 0x100_0000,
        -0x80_0000 <= w <= 0x80_0000,
        2 * size(w * config.samp_rate - 0x100_0000 * (hz - config.center_hz)) <= config.samp_rate,
        2 * (w * config.samp_rate - 0x100_0000 * (hz - config.center_hz)) == config.samp_rate ==> hz
            >= config.center_hz,
        2 * (w * config.samp_rate - 0x100_0000 * (hz - config.center_hz)) == -config.samp_rate
            ==> hz < config.center_hz,
{
    lemma_command(c, config, i);
    law_whole_hertz_word(config.channels_hz[i], hz, config.center_hz, config.samp_rate)
}

/// Two residues modulo 2^24 of numbers at most 2^24 apart are equal only if the
/// numbers are equal or 2^24 apart.
proof fn lemma_residues(v: int, w: int)
    requires
        v % 0x100_0000 == w % 0x100_0000,
        -0x100_0000 <= v - w <= 0x100_0000,
    ensures
        v == w || v - w == 0x100_0000 || w - v == 0x100_0000,
{
    lemma_fundamental_div_mod(v, 0x100_0000);
    lemma_fundamental_div_mod(w, 0x100_0000);
}

/// Two used channels that are more than a tuning step apart (by one part in
/// 2^26 of a step), and do not lie at the two ends of the window, get different
/// words.
pub proof fn law_channels_get_their_own_words(
    c: Configuration,
    config: ConfigView,
    i: int,
    j: int,
)
    requires
        applies(c, config),
        c.outcome is Ok,
        0 <= i < config.channels_hz.len(),
        i < 18,
        0 <= j < config.channels_hz.len(),
        j < 18,
        ({
            let apart = 0x100_0000 * size(
                config.channels_hz[i].value() - config.channels_hz[j].value(),
            );
            let step = config.samp_rate * pow2(1074);
            &&& apart * 0x400_0000 > 0x400_0001 * step
            &&& apart <= 0xff_fffe * step
        }),
    ensures
        (c.core@[i + 1] matches CoreAction::SetFrequency(_, a) && (c.core@[j + 1]
            matches CoreAction::SetFrequency(_, b) && a != b)),
{
    let v = law_oscillator_follows_its_channel(c, config, i);
    let w = law_oscillator_follows_its_channel(c, config, j);
    let t = config.samp_rate * pow2(1074);
    let x = 0x100_0000 * (config.channels_hz[i].value() - center_value(config.center_hz));
    let y = 0x100_0000 * (config.channels_hz[j].value() - center_value(config.center_hz));
    if v % 0x100_0000 == w % 0x100_0000 {
        lemma_residues(v, w);
        assert(v * t - w * t == (v - w) * t) by (nonlinear_arith);
        assert(0 * t == 0 && 0x100_0000 * t == t * 0x100_0000 && (-0x100_0000) * t == -(t
            * 0x100_0000)) by (nonlinear_arith);
        assert(x - y == 0x100_0000 * (config.channels_hz[i].value()
            - config.channels_hz[j].value()));
        assert(t >= 0) by (nonlinear_arith)
            requires
                t == config.samp_rate * pow2(1074),
        ;
        assert(false);
    }
}

/// Two used channels on whole numbers of hertz that are a tuning step or more
/// apart, and less than the sample rate but for a step, get different words,
/// with a sample rate below 2^27 Hz.
pub proof fn law_a_step_apart_is_another_word(
    c: Configuration,
    config: ConfigView,
    i: int,
    j: int,
    hz_i: int,
    hz_j: int,
)
    requires
        applies(c, config),
        c.outcome is Ok,
        0 <= i < config.channels_hz.len(),
        i < 18,
        0 <= j < config.channels_hz.len(),
        j < 18,
        config.channels_hz[i].value() == hz_i * pow2(1074),
        config.channels_hz[j].value() == hz_j * pow2(1074),
        config.center_hz <= 0x20_0000_0000_0000,
        config.samp_rate < 0x800_0000,
        config.samp_rate <= 0x100_0000 * size(hz_i - hz_j) < 0xff_ffff * config.samp_rate,
    ensures
        (c.core@[i + 1] matches CoreAction::SetFrequency(_, a) && (c.core@[j + 1]
            matches CoreAction::SetFrequency(_, b) && a != b)),
{
    let v = law_oscillator_is_nearest(c, config, i, hz_i);
    let w = law_oscillator_is_nearest(c, config, j, hz_j);
    let t = config.samp_rate as int;
    lemma_command(c, config, i);
    if v % 0x100_0000 == w % 0x100_0000 {
        lemma_residues(v, w);
        assert(v * t - w * t == (v - w) * t) by (nonlinear_arith);
        assert(0 * t == 0 && 0x100_0000 * t == t * 0x100_0000 && (-0x100_0000) * t == -(t
            * 0x100_0000)) by (nonlinear_arith);
        assert(v == w);
        assert(false);
    }
}

/// A configuration is applied in full exactly when its AGC mode has one of the
/// four names, or there is none, and each used channel lies in the capture
/// window around its own center frequency.
pub proof fn law_start_needs_channels_inside(c: Configuration, config: ConfigView)
    requires
        applies(c, config),
    ensures
        c.outcome is Ok <==> {
            &&& config.agc matches Some(name) ==> name == "manual"@ || name == "fast_attack"@
                || name == "slow_attack"@ || name == "hybrid"@
            &&& forall|i: int|
                0 <= i < config.channels_hz.len() && i < 18 ==> in_window(
                    #[trigger] config.channels_hz[i],
                    config.center_hz,
                    config.samp_rate,
                )
        },
{
    law_outcome(c, config);
    assert forall|i: int| 0 <= i < config.channels_hz.len() && i < 18 implies channel_tunable(
        config,
        i,
    ) == in_window(#[trigger] config.channels_hz[i], config.center_hz, config.samp_rate) by {
        law_window_agrees_with_tuning(config.channels_hz[i], config.center_hz, config.samp_rate);
    }
    if forall|i: int|
        0 <= i < config.channels_hz.len() && i < 18 ==> in_window(
            #[trigger] config.channels_hz[i],
            config.center_hz,
            config.samp_rate,
        ) {
        assert forall|i: int| 0 <= i < used_channels(config) implies
            #[trigger] channel_tunable(config, i) by {
            assert(in_window(config.channels_hz[i], config.center_hz, config.samp_rate));
        }
    } else if c.outcome is Ok {
        let i = choose|i: int|
            0 <= i < config.channels_hz.len() && i < 18 && !in_window(
                #[trigger] config.channels_hz[i],
                config.center_hz,
                config.samp_rate,
            );
        lemma_command(c, config, i);
    }
}

/// The channel that a start is given up for.
proof fn lemma_given_up(c: Configuration, config: ConfigView) -> (i: int)
    requires
        applies(c, config),
        c.outcome matches Err(ConfigureError::ChannelOutsideWindow { .. }),
    ensures
        first_untunable(config, i),
        c.outcome == Err::<(), ConfigureError>(
            ConfigureError::ChannelOutsideWindow {
                freq_hz: config.channels_hz[i],
                center_hz: config.center_hz,
                samp_rate: config.samp_rate,
            },
        ),
        c.core@ == abandoned_actions(config, i as nat),
{
    let freq_hz = c.outcome->Err_0->freq_hz;
    choose|i: int| #[trigger]
        first_untunable(config, i) && freq_hz == config.channels_hz[i] && c.core@
            == abandoned_actions(config, i as nat)
}

/// A start that is given up for a channel reports the first used channel that
/// is outside the capture window, with the configured center and sample rate.
/// The receiver has been disabled, the oscillators of the channels before that
/// one have got a command each, and nothing more is done.
pub proof fn law_start_given_up(c: Configuration, config: ConfigView) -> (i: int)
    requires
        applies(c, config),
        c.outcome matches Err(ConfigureError::ChannelOutsideWindow { .. }),
    ensures
        0 <= i < config.channels_hz.len(),
        i < 18,
        !in_window(config.channels_hz[i], config.center_hz, config.samp_rate),
        forall|j: int|
            0 <= j < i ==> in_window(
                #[trigger] config.channels_hz[j],
                config.center_hz,
                config.samp_rate,
            ),
        c.outcome == Err::<(), ConfigureError>(
            ConfigureError::ChannelOutsideWindow {
                freq_hz: config.channels_hz[i],
                center_hz: config.center_hz,
                samp_rate: config.samp_rate,
            },
        ),
        c.core@.len() == i + 1,
        c.core@[0] == CoreAction::SetEnable(false),
        forall|j: int|
            0 <= j < i ==> (#[trigger] c.core@[j + 1] matches CoreAction::SetFrequency(k, _) && k
                == j),
{
    let i = lemma_given_up(c, config);
    law_window_agrees_with_tuning(config.channels_hz[i], config.center_hz, config.samp_rate);
    assert forall|j: int| 0 <= j < i implies in_window(
        #[trigger] config.channels_hz[j],
        config.center_hz,
        config.samp_rate,
    ) by {
        assert(channel_tunable(config, j));
        law_window_agrees_with_tuning(config.channels_hz[j], config.center_hz, config.samp_rate);
    }
    i
}

/// The oscillators that have got a command when a start is given up are tuned
/// to their own channels, as closely as in a start that succeeds.
pub proof fn law_tuned_until_given_up(c: Configuration, config: ConfigView, i: int) -> (w: int)
    requires
        applies(c, config),
        c.outcome matches Err(ConfigureError::ChannelOutsideWindow { .. }),
        0 <= i < c.core@.len() - 1,
    ensures
        c.core@[i + 1] matches CoreAction::SetFrequency(k, word) && k == i && word == w
            % 0x100_0000,
        -0x80_0000 <= w <= 0x80_0000,
        2 * size(
            w * (config.samp_rate * pow2(1074)) - 0x100_0000 * (config.channels_hz[i].value()
                - center_value(config.center_hz)),
        ) * 0x800_0000 <= 0x800_0001 * (config.samp_rate * pow2(1074)),
{
    lemma_given_up(c, config);
    assert(channel_tunable(config, i));
    law_word_tracks_frequency(config.channels_hz[i], config.center_hz, config.samp_rate)
}

} // verus!
