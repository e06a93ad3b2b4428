//! `/api/airband`.
//!
//! `GET` shows the pending configuration, which is the one in the config file.
//! `PATCH` validates changes and persists them there. A change takes effect
//! when the service is restarted.

use crate::airband::{
    default_config, label_texts, same_config, AirbandConfig, ConfigError, ConfigFile, ConfigView,
    N_CHANNELS,
};
use crate::app::AppState;
use crate::double::Double;
use crate::httpd::json_error::{JsonError, PatchError, ServerFault};
use crate::json::{
    channel_views, Airband, AirbandAgcMode, AirbandChannel, AirbandView, ChannelView,
    PatchAirband, PatchView,
};
use crate::text::{reads, text, texts};
use crate::tuning::{in_capture_window, in_window};
use vstd::arithmetic::power2::pow2;
use vstd::prelude::*;

verus! {

/// The greatest gain that can be set (dB).
pub const MAX_GAIN_DB: u32 = 77;

/// The mode that an AGC setting is shown as. An unknown setting is shown as
/// manual.
pub open spec fn mode_of(agc: Option<Seq<char>>) -> AirbandAgcMode {
    if agc == Some("slow_attack"@) {
        AirbandAgcMode::SlowAttack
    } else if agc == Some("fast_attack"@) {
        AirbandAgcMode::FastAttack
    } else if agc == Some("hybrid"@) {
        AirbandAgcMode::Hybrid
    } else {
        AirbandAgcMode::Manual
    }
}

/// The AGC setting of a mode.
pub open spec fn name_of(mode: AirbandAgcMode) -> Seq<char> {
    match mode {
        AirbandAgcMode::Manual => "manual"@,
        AirbandAgcMode::SlowAttack => "slow_attack"@,
        AirbandAgcMode::FastAttack => "fast_attack"@,
        AirbandAgcMode::Hybrid => "hybrid"@,
    }
}

/// The mode that an AGC setting is shown as.
pub fn agc_to_mode(agc: &Option<String>) -> (mode: AirbandAgcMode)
    ensures
        mode == mode_of(text(*agc)),
{
    match agc {
        None => AirbandAgcMode::Manual,
        Some(name) => {
            if reads(name, "slow_attack") {
                AirbandAgcMode::SlowAttack
            } else if reads(name, "fast_attack") {
                AirbandAgcMode::FastAttack
            } else if reads(name, "hybrid") {
                AirbandAgcMode::Hybrid
            } else {
                AirbandAgcMode::Manual
            }
        },
    }
}

/// The AGC setting of a mode.
pub fn mode_to_agc(mode: AirbandAgcMode) -> (name: String)
    ensures
        name@ == name_of(mode),
{
    match mode {
        AirbandAgcMode::Manual => "manual".to_owned(),
        AirbandAgcMode::SlowAttack => "slow_attack".to_owned(),
        AirbandAgcMode::FastAttack => "fast_attack".to_owned(),
        AirbandAgcMode::Hybrid => "hybrid".to_owned(),
    }
}

/// The label that the channel at an index is shown with: its label, unless that
/// is missing or empty.
pub open spec fn shown_label(labels: Option<Seq<Seq<char>>>, i: int) -> Option<Seq<char>> {
    match labels {
        Some(labels) => if i < labels.len() && labels[i].len() > 0 {
            Some(labels[i])
        } else {
            None
        },
        None => None,
    }
}

/// The channels that a configuration is shown with.
pub open spec fn shown_channels(config: ConfigView) -> Seq<ChannelView> {
    Seq::new(
        config.channels_hz.len(),
        |i: int|
            ChannelView {
                freq_hz: config.channels_hz[i],
                label: shown_label(config.channel_labels, i),
            },
    )
}

/// How a configuration is shown.
pub open spec fn shown(config: ConfigView, enabled: bool, needs_restart: bool) -> AirbandView {
    AirbandView {
        enabled,
        center_hz: config.center_hz,
        samp_rate: config.samp_rate,
        rf_bandwidth: config.rf_bandwidth,
        gain_db: config.gain_db,
        agc: mode_of(config.agc),
        channels: shown_channels(config),
        poll_ms: config.poll_ms,
        max_channels: N_CHANNELS as u32,
        samp_rate_locked: true,
        needs_restart,
    }
}

/// A copy of the label of the channel at an index, unless it is missing or
/// empty.
fn label_at(labels: &Option<Vec<String>>, i: usize) -> (label: Option<String>)
    ensures
        text(label) == shown_label(label_texts(*labels), i as int),
{
    match labels {
        Some(labels) => {
            if i < labels.len() && !is_blank(&labels[i]) {
                assert(texts(labels@)[i as int] == labels@[i as int]@);
                Some(labels[i].clone())
            } else {
                None
            }
        },
        None => None,
    }
}

/// Whether a string has no characters.
fn is_blank(s: &String) -> (r: bool)
    ensures
        r == (s@.len() == 0),
{
    proof {
        reveal_strlit("");
        assert(s@.len() == 0 <==> s@ =~= ""@);
    }
    reads(s, "")
}

/// Shows a configuration to clients.
pub fn config_to_json(config: &AirbandConfig, enabled: bool, needs_restart: bool) -> (a: Airband)
    ensures
        a@ == shown(config@, enabled, needs_restart),
        a.center_hz == config.center_hz,
        a.samp_rate == config.samp_rate,
        a.rf_bandwidth == config.rf_bandwidth,
        a.gain_db == config.gain_db,
        a.poll_ms == config.poll_ms,
        a.channels@.len() == config.channels_hz@.len(),
        forall|i: int|
            0 <= i < a.channels@.len() ==> (#[trigger] a.channels@[i]).freq_hz
                == config.channels_hz@[i],
{
    let mut channels: Vec<AirbandChannel> = Vec::new();
    let mut i: usize = 0;
    while i < config.channels_hz.len()
        invariant
            i <= config.channels_hz.len(),
            channels.len() == i,
            forall|j: int| 0 <= j < i ==> #[trigger] channels@[j]@ == shown_channels(config@)[j],
            forall|j: int|
                0 <= j < i ==> (#[trigger] channels@[j]).freq_hz == config.channels_hz@[j],
        decreases config.channels_hz.len() - i,
    {
        channels.push(
            AirbandChannel {
                freq_hz: config.channels_hz[i],
                label: label_at(&config.channel_labels, i),
            },
        );
        i = i + 1;
    }
    assert(channel_views(channels@) =~= shown_channels(config@));
    Airband {
        enabled,
        center_hz: config.center_hz,
        samp_rate: config.samp_rate,
        rf_bandwidth: config.rf_bandwidth,
        gain_db: config.gain_db,
        agc: agc_to_mode(&config.agc),
        channels,
        poll_ms: config.poll_ms,
        max_channels: N_CHANNELS as u32,
        samp_rate_locked: true,
        needs_restart,
    }
}

/// The pending configuration: the one in the config file if there is one,
/// otherwise the running one, otherwise the default.
pub open spec fn pending(
    has_path: bool,
    running: Option<ConfigView>,
    file: ConfigFile,
) -> Result<ConfigView, ConfigError> {
    let fallback = match running {
        Some(config) => config,
        None => default_config(),
    };
    if !has_path {
        Ok(fallback)
    } else {
        match file {
            ConfigFile::Parsed(config) => Ok(config@),
            ConfigFile::Malformed(e) => Err(ConfigError::Parse(e)),
            ConfigFile::Missing => Ok(fallback),
            ConfigFile::Unreadable(e) => Err(ConfigError::Read(e)),
        }
    }
}

/// The pending configuration. `file` is what reading the config file gave; it
/// is ignored when no config file is configured.
pub fn pending_config(state: &AppState, file: ConfigFile) -> (r: Result<AirbandConfig, ConfigError>)
    ensures
        match r {
            Ok(config) => pending(state.config_path() is Some, state.running(), file) == Ok::<
                ConfigView,
                ConfigError,
            >(config@),
            Err(e) => pending(state.config_path() is Some, state.running(), file) == Err::<
                ConfigView,
                ConfigError,
            >(e),
        },
{
    if state.airband_config_path().is_some() {
        match file {
            ConfigFile::Parsed(config) => return Ok(config),
            ConfigFile::Malformed(e) => return Err(ConfigError::Parse(e)),
            ConfigFile::Missing => {},
            ConfigFile::Unreadable(e) => return Err(ConfigError::Read(e)),
        }
    }
    match state.airband_running() {
        Some(config) => Ok(config.clone()),
        None => Ok(AirbandConfig::default()),
    }
}

/// Whether a restart is needed to apply a configuration: it differs from the
/// running one. Where the receiver is disabled there is none to differ from.
pub open spec fn restart_needed(running: Option<ConfigView>, pending: ConfigView) -> bool {
    match running {
        Some(running) => !same_config(pending, running),
        None => false,
    }
}

/// Whether a restart is needed to apply a configuration.
pub fn needs_restart(state: &AppState, pending: &AirbandConfig) -> (r: bool)
    ensures
        r == restart_needed(state.running(), pending@),
{
    match state.airband_running() {
        Some(running) => !(*pending == *running),
        None => false,
    }
}

/// How a configuration is shown in a given state.
pub open spec fn shown_in(state: AppState, config: ConfigView) -> AirbandView {
    shown(config, state.locked(), restart_needed(state.running(), config))
}

/// What `GET /api/airband` is answered.
pub open spec fn get_reply(state: AppState, file: ConfigFile) -> Result<AirbandView, JsonError> {
    match pending(state.config_path() is Some, state.running(), file) {
        Ok(config) => Ok(shown_in(state, config)),
        Err(e) => Err(JsonError::ServerError(ServerFault::Config(e))),
    }
}

/// The answer to `GET /api/airband`: the pending configuration.
pub fn get_airband(state: &AppState, file: ConfigFile) -> (r: Result<Airband, JsonError>)
    ensures
        match pending(state.config_path() is Some, state.running(), file) {
            Ok(config) => r is Ok && r->Ok_0@ == shown_in(*state, config),
            Err(e) => r == Err::<Airband, JsonError>(
                JsonError::ServerError(ServerFault::Config(e)),
            ),
        },
        match r {
            Ok(a) => get_reply(*state, file) == Ok::<AirbandView, JsonError>(a@),
            Err(e) => get_reply(*state, file) == Err::<AirbandView, JsonError>(e),
        },
{
    match pending_config(state, file) {
        Ok(config) => {
            let restart = needs_restart(state, &config);
            Ok(config_to_json(&config, state.airband_locked(), restart))
        },
        Err(e) => Err(JsonError::ServerError(ServerFault::Config(e))),
    }
}

/// Whether a gain can be set.
pub open spec fn gain_allowed(gain_db: Double) -> bool {
    gain_db.is_finite() && 0 <= gain_db.value() <= MAX_GAIN_DB * pow2(1074)
}

/// A configuration with a patch's center frequency and bandwidth.
pub open spec fn with_front_end(config: ConfigView, patch: PatchView) -> ConfigView {
    ConfigView {
        center_hz: match patch.center_hz {
            Some(center_hz) => center_hz,
            None => config.center_hz,
        },
        rf_bandwidth: match patch.rf_bandwidth {
            Some(rf_bandwidth) => Some(rf_bandwidth),
            None => config.rf_bandwidth,
        },
        ..config
    }
}

/// A configuration with a patch's settings up to the gain control.
pub open spec fn with_gain(config: ConfigView, patch: PatchView) -> ConfigView {
    ConfigView {
        gain_db: match patch.gain_db {
            Some(gain_db) => gain_db,
            None => config.gain_db,
        },
        agc: match patch.agc {
            Some(mode) => Some(name_of(mode)),
            None => config.agc,
        },
        ..with_front_end(config, patch)
    }
}

/// A configuration with all of a patch's settings but the channels.
pub open spec fn with_settings(config: ConfigView, patch: PatchView) -> ConfigView {
    ConfigView {
        poll_ms: match patch.poll_ms {
            Some(poll_ms) => poll_ms,
            None => config.poll_ms,
        },
        ..with_gain(config, patch)
    }
}

/// The label of a channel; empty when it has none.
pub open spec fn label_or_empty(channel: ChannelView) -> Seq<char> {
    match channel.label {
        Some(label) => label,
        None => Seq::empty(),
    }
}

/// The labels of a plan: none if no channel has one.
pub open spec fn plan_labels(channels: Seq<ChannelView>) -> Option<Seq<Seq<char>>> {
    if exists|i: int| 0 <= i < channels.len() && #[trigger] label_or_empty(channels[i]).len() > 0 {
        Some(Seq::new(channels.len(), |i: int| label_or_empty(channels[i])))
    } else {
        None
    }
}

/// A configuration with the channels of a plan.
pub open spec fn with_channels(config: ConfigView, channels: Seq<ChannelView>) -> ConfigView {
    ConfigView {
        channels_hz: Seq::new(channels.len(), |i: int| channels[i].freq_hz),
        channel_labels: plan_labels(channels),
        ..config
    }
}

/// Whether the channel at an index is in a configuration's capture window.
pub open spec fn channel_inside(config: ConfigView, channels: Seq<ChannelView>, i: int) -> bool {
    in_window(channels[i].freq_hz, config.center_hz, config.samp_rate)
}

/// The first channel from `i` on that is outside a configuration's capture
/// window, or the number of channels if there is none.
pub open spec fn first_outside(config: ConfigView, channels: Seq<ChannelView>, i: int) -> int
    decreases channels.len() - i,
{
    if i >= channels.len() {
        channels.len() as int
    } else if !channel_inside(config, channels, i) {
        i
    } else {
        first_outside(config, channels, i + 1)
    }
}

/// Whether a plan can replace the channels of a configuration.
pub open spec fn plan_verdict(config: ConfigView, channels: Seq<ChannelView>) -> Result<
    (),
    PatchError,
> {
    let i = first_outside(config, channels, 0);
    if channels.len() > N_CHANNELS {
        Err(PatchError::TooManyChannels { count: channels.len() as usize })
    } else if i < channels.len() {
        Err(
            PatchError::ChannelOutsideWindow {
                freq_hz: channels[i].freq_hz,
                center_hz: config.center_hz,
                samp_rate: config.samp_rate,
            },
        )
    } else {
        Ok(())
    }
}

/// Whether a patch is accepted, or why it is refused. The gain is looked at
/// first, then the poll interval, then the channels, which have to lie in the
/// capture window around the patched center frequency.
pub open spec fn verdict(config: ConfigView, patch: PatchView) -> Result<(), PatchError> {
    if patch.gain_db is Some && !gain_allowed(patch.gain_db->0) {
        Err(PatchError::GainOutOfRange { gain_db: patch.gain_db->0 })
    } else if patch.poll_ms == Some(0u64) {
        Err(PatchError::PollTooShort)
    } else {
        match patch.channels {
            Some(channels) => plan_verdict(with_settings(config, patch), channels),
            None => Ok(()),
        }
    }
}

/// A configuration after a patch. A patch that is refused leaves the settings
/// that precede the one it is refused for.
pub open spec fn patched(config: ConfigView, patch: PatchView) -> ConfigView {
    if patch.gain_db is Some && !gain_allowed(patch.gain_db->0) {
        with_front_end(config, patch)
    } else if patch.poll_ms == Some(0u64) {
        with_gain(config, patch)
    } else {
        match patch.channels {
            Some(channels) => if plan_verdict(with_settings(config, patch), channels) is Ok {
                with_channels(with_settings(config, patch), channels)
            } else {
                with_settings(config, patch)
            },
            None => with_settings(config, patch),
        }
    }
}

/// Applies a patch to a configuration, and validates it.
pub fn apply_and_validate(config: &mut AirbandConfig, patch: &PatchAirband) -> (r: Result<
    (),
    PatchError,
>)
    ensures
        r == verdict(old(config)@, patch@),
        final(config)@ == patched(old(config)@, patch@),
{
    let ghost c = config@;
    let ghost p = patch@;
    if let Some(center_hz) = patch.center_hz {
        config.center_hz = center_hz;
    }
    if let Some(rf_bandwidth) = patch.rf_bandwidth {
        config.rf_bandwidth = Some(rf_bandwidth);
    }
    assert(config@ =~= with_front_end(c, p));
    if let Some(gain_db) = patch.gain_db {
        if !gain_db.within(MAX_GAIN_DB) {
            return Err(PatchError::GainOutOfRange { gain_db });
        }
        config.gain_db = gain_db;
    }
    if let Some(mode) = patch.agc {
        config.agc = Some(mode_to_agc(mode));
    }
    assert(config@ =~= with_gain(c, p));
    if let Some(poll_ms) = patch.poll_ms {
        if poll_ms < 1 {
            return Err(PatchError::PollTooShort);
        }
        config.poll_ms = poll_ms;
    }
    assert(config@ =~= with_settings(c, p));
    if let Some(channels) = &patch.channels {
        replace_channels(config, channels)
    } else {
        Ok(())
    }
}

/// Replaces the channels of a configuration, if each lies in its capture
/// window and there are not too many.
fn replace_channels(config: &mut AirbandConfig, channels: &Vec<AirbandChannel>) -> (r: Result<
    (),
    PatchError,
>)
    ensures
        r == plan_verdict(old(config)@, channel_views(channels@)),
        final(config)@ == if r is Ok {
            with_channels(old(config)@, channel_views(channels@))
        } else {
            old(config)@
        },
{
    let ghost c = config@;
    let ghost plan = channel_views(channels@);
    if channels.len() > N_CHANNELS {
        return Err(PatchError::TooManyChannels { count: channels.len() });
    }
    let mut freqs: Vec<Double> = Vec::new();
    let mut labels: Vec<String> = Vec::new();
    let mut any_label = false;
    let mut i: usize = 0;
    while i < channels.len()
        invariant
            i <= channels.len() <= N_CHANNELS,
            *config == *old(config),
            c == config@,
            plan == channel_views(channels@),
            first_outside(c, plan, 0) == first_outside(c, plan, i as int),
            freqs.len() == i,
            labels.len() == i,
            forall|j: int| 0 <= j < i ==> #[trigger] freqs@[j] == plan[j].freq_hz,
            forall|j: int| 0 <= j < i ==> #[trigger] labels@[j]@ == label_or_empty(plan[j]),
            any_label == exists|j: int|
                0 <= j < i && #[trigger] label_or_empty(plan[j]).len() > 0,
        decreases channels.len() - i,
    {
        let channel = &channels[i];
        assert(plan[i as int] == channel@);
        if !in_capture_window(channel.freq_hz, config.center_hz, config.samp_rate) {
            return Err(
                PatchError::ChannelOutsideWindow {
                    freq_hz: channel.freq_hz,
                    center_hz: config.center_hz,
                    samp_rate: config.samp_rate,
                },
            );
        }
        let label: String = match &channel.label {
            Some(label) => label.clone(),
            None => String::new(),
        };
        if !is_blank(&label) {
            assert(label_or_empty(plan[i as int]).len() > 0);
            any_label = true;
        }
        freqs.push(channel.freq_hz);
        labels.push(label);
        i = i + 1;
    }
    config.channels_hz = freqs;
    config.channel_labels = if any_label {
        Some(labels)
    } else {
        None
    };
    proof {
        assert(config@.channels_hz =~= with_channels(c, plan).channels_hz);
        assert(texts(labels@) =~= Seq::new(plan.len(), |i: int| label_or_empty(plan[i])));
    }
    Ok(())
}

/// What `PATCH /api/airband` leads to: the configuration to persist, or why the
/// request fails.
pub open spec fn patch_reply(state: AppState, file: ConfigFile, patch: PatchView) -> Result<
    ConfigView,
    JsonError,
> {
    match pending(state.config_path() is Some, state.running(), file) {
        Err(e) => Err(JsonError::ServerError(ServerFault::Config(e))),
        Ok(config) => match verdict(config, patch) {
            Err(e) => Err(JsonError::ClientErrorAlert(e)),
            Ok(()) => if state.config_path() is Some {
                Ok(patched(config, patch))
            } else {
                Err(JsonError::ClientErrorAlert(PatchError::NoConfigPath))
            },
        },
    }
}

/// The first half of `PATCH /api/airband`: the configuration to persist, or why
/// the request is refused. `file` is what reading the config file gave.
pub fn patch_airband(state: &AppState, file: ConfigFile, patch: &PatchAirband) -> (r: Result<
    AirbandConfig,
    JsonError,
>)
    ensures
        match pending(state.config_path() is Some, state.running(), file) {
            Err(e) => r == Err::<AirbandConfig, JsonError>(
                JsonError::ServerError(ServerFault::Config(e)),
            ),
            Ok(config) => match verdict(config, patch@) {
                Err(e) => r == Err::<AirbandConfig, JsonError>(JsonError::ClientErrorAlert(e)),
                Ok(()) => if state.config_path() is None {
                    r == Err::<AirbandConfig, JsonError>(
                        JsonError::ClientErrorAlert(PatchError::NoConfigPath),
                    )
                } else {
                    r is Ok && r->Ok_0@ == patched(config, patch@)
                },
            },
        },
        match r {
            Ok(config) => patch_reply(*state, file, patch@) == Ok::<ConfigView, JsonError>(config@),
            Err(e) => patch_reply(*state, file, patch@) == Err::<ConfigView, JsonError>(e),
        },
{
    let mut config: AirbandConfig = match pending_config(state, file) {
        Ok(config) => config,
        Err(e) => return Err(JsonError::ServerError(ServerFault::Config(e))),
    };
    match apply_and_validate(&mut config, patch) {
        Ok(()) => {},
        Err(e) => return Err(JsonError::ClientErrorAlert(e)),
    }
    if state.airband_config_path().is_none() {
        return Err(JsonError::ClientErrorAlert(PatchError::NoConfigPath));
    }
    Ok(config)
}

/// Why a configuration could not be persisted.
#[derive(Debug)]
pub enum PersistError {
    /// The serializer's message.
    Serialize(String),
    /// The system's message.
    Write(String),
}

/// What `PATCH /api/airband` is answered once the configuration has been
/// persisted or could not be.
pub open spec fn persisted_reply(
    state: AppState,
    config: ConfigView,
    persisted: Result<(), PersistError>,
) -> Result<AirbandView, JsonError> {
    match persisted {
        Ok(()) => Ok(shown_in(state, config)),
        Err(PersistError::Serialize(e)) => Err(JsonError::ServerError(ServerFault::Serialize(e))),
        Err(PersistError::Write(e)) => Err(JsonError::ServerError(ServerFault::Write(e))),
    }
}

/// The second half of `PATCH /api/airband`: the answer, from whether the
/// configuration could be persisted.
pub fn patch_answer(
    state: &AppState,
    config: &AirbandConfig,
    persisted: Result<(), PersistError>,
) -> (r: Result<Airband, JsonError>)
    ensures
        match persisted {
            Ok(()) => r is Ok && r->Ok_0@ == shown_in(*state, config@),
            Err(PersistError::Serialize(e)) => r == Err::<Airband, JsonError>(
                JsonError::ServerError(ServerFault::Serialize(e)),
            ),
            Err(PersistError::Write(e)) => r == Err::<Airband, JsonError>(
                JsonError::ServerError(ServerFault::Write(e)),
            ),
        },
        match r {
            Ok(a) => persisted_reply(*state, config@, persisted) == Ok::<AirbandView, JsonError>(
                a@,
            ),
            Err(e) => persisted_reply(*state, config@, persisted) == Err::<AirbandView, JsonError>(
                e,
            ),
        },
{
    match persisted {
        Ok(()) => {
            let restart = needs_restart(state, config);
            Ok(config_to_json(config, state.airband_locked(), restart))
        },
        Err(PersistError::Serialize(e)) => Err(JsonError::ServerError(ServerFault::Serialize(e))),
        Err(PersistError::Write(e)) => Err(JsonError::ServerError(ServerFault::Write(e))),
    }
}

} // verus!
