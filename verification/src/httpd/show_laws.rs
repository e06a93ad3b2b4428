//! Laws of what `GET` and `PATCH /api/airband` show.

use crate::airband::{
    default_config, loaded, same_config, start_config, AirbandConfig, ConfigError, ConfigFile,
    ConfigView,
};
use crate::app::AppState;
use crate::configure::{applies, Ad9361GainMode, Configuration, FrontEndAction};
use crate::httpd::airband::{
    get_reply, patch_reply, patched, pending, persisted_reply, restart_needed, shown, shown_in,
    verdict, PersistError,
};
use crate::httpd::airband_laws::lemma_names;
use crate::httpd::patch_laws::law_channels_are_stored;
use crate::httpd::json_error::{JsonError, PatchError, ServerFault};
use crate::json::{
    Airband, AirbandAgcMode, AirbandChannel, AirbandView, PatchAirband, PatchView,
};
use vstd::prelude::*;

verus! {

/// What is shown has the center frequency, the sample rate, the bandwidth, the
/// gain and the poll interval of the configuration. It says that plans have up
/// to 18 channels and that the sample rate is fixed.
pub proof fn law_settings_are_shown(config: ConfigView, enabled: bool, needs_restart: bool)
    ensures
        ({
            let a = shown(config, enabled, needs_restart);
            &&& a.center_hz == config.center_hz
            &&& a.samp_rate == config.samp_rate
            &&& a.rf_bandwidth == config.rf_bandwidth
            &&& a.gain_db == config.gain_db
            &&& a.poll_ms == config.poll_ms
            &&& a.enabled == enabled
            &&& a.needs_restart == needs_restart
            &&& a.max_channels == 18
            &&& a.samp_rate_locked
        }),
{
}

/// The mode that is shown is the one that the configuration names; where it
/// names none, or one that is unknown, manual is shown.
pub proof fn law_mode_is_shown(config: ConfigView, enabled: bool, needs_restart: bool)
    ensures
        ({
            let mode = shown(config, enabled, needs_restart).agc;
            &&& mode == AirbandAgcMode::SlowAttack <==> config.agc == Some("slow_attack"@)
            &&& mode == AirbandAgcMode::FastAttack <==> config.agc == Some("fast_attack"@)
            &&& mode == AirbandAgcMode::Hybrid <==> config.agc == Some("hybrid"@)
        }),
{
    lemma_names();
}

/// Every channel of a configuration is shown, in order, with its frequency and
/// with its label, if it has one that is not empty.
pub proof fn law_channels_are_shown(config: ConfigView, enabled: bool, needs_restart: bool)
    ensures
        ({
            let channels = shown(config, enabled, needs_restart).channels;
            &&& channels.len() == config.channels_hz.len()
            &&& forall|i: int|
                0 <= i < channels.len() ==> (#[trigger] channels[i]).freq_hz
                    == config.channels_hz[i] && match config.channel_labels {
                    Some(labels) => if i < labels.len() && labels[i].len() > 0 {
                        channels[i].label == Some(labels[i])
                    } else {
                        channels[i].label is None
                    },
                    None => channels[i].label is None,
                }
        }),
{
}

/// After an accepted patch the answer shows each value that the patch names,
/// and each value that it does not name as before.
pub proof fn law_answer_shows_what_was_sent(state: AppState, config: ConfigView, patch: PatchView)
    requires
        verdict(config, patch) is Ok,
    ensures
        ({
            let before = shown_in(state, config);
            let after = shown_in(state, patched(config, patch));
            &&& patch.center_hz matches Some(v) ==> after.center_hz == v
            &&& patch.rf_bandwidth matches Some(v) ==> after.rf_bandwidth == Some(v)
            &&& patch.gain_db matches Some(v) ==> after.gain_db == v
            &&& patch.agc matches Some(v) ==> after.agc == v
            &&& patch.poll_ms matches Some(v) ==> after.poll_ms == v
            &&& patch.channels matches Some(channels) ==> {
                &&& after.channels.len() == channels.len()
                &&& forall|i: int|
                    0 <= i < channels.len() ==> (#[trigger] channels[i]).freq_hz
                        == after.channels[i].freq_hz && match channels[i].label {
                        Some(label) => after.channels[i].label == if label.len() > 0 {
                            Some(label)
                        } else {
                            None
                        },
                        None => after.channels[i].label is None,
                    }
            }
            &&& patch.center_hz is None ==> after.center_hz == before.center_hz
            &&& patch.rf_bandwidth is None ==> after.rf_bandwidth == before.rf_bandwidth
            &&& patch.gain_db is None ==> after.gain_db == before.gain_db
            &&& patch.agc is None ==> after.agc == before.agc
            &&& patch.poll_ms is None ==> after.poll_ms == before.poll_ms
            &&& patch.channels is None ==> after.channels == before.channels
            &&& after.samp_rate == config.samp_rate
            &&& after.enabled == state.locked()
        }),
{
    lemma_names();
    let after = patched(config, patch);
    law_channels_are_shown(after, state.locked(), restart_needed(state.running(), after));
    if let Some(channels) = patch.channels {
        law_channels_are_stored(config, patch, channels);
        let shown_channels = shown_in(state, after).channels;
        assert forall|i: int| 0 <= i < channels.len() implies (#[trigger] channels[i]).freq_hz
            == shown_channels[i].freq_hz && match channels[i].label {
            Some(label) => shown_channels[i].label == if label.len() > 0 {
                Some(label)
            } else {
                None
            },
            None => shown_channels[i].label is None,
        } by {
            assert(after.channels_hz[i] == channels[i].freq_hz);
        }
    } else {
        assert(shown_in(state, after).channels =~= shown_in(state, config).channels);
    }
}

/// The gain control mode that the front-end is set to is the mode that is shown
/// for the same configuration. Where the mode is unknown, none is set and
/// manual is shown.
pub proof fn law_mode_set_is_mode_shown(
    c: Configuration,
    config: ConfigView,
    enabled: bool,
    needs_restart: bool,
)
    requires
        applies(c, config),
    ensures
        match shown(config, enabled, needs_restart).agc {
            AirbandAgcMode::Manual => c.front_end@.len() == 3 || c.front_end@[3]
                == FrontEndAction::SetRxGainMode(Ad9361GainMode::Manual),
            AirbandAgcMode::SlowAttack => c.front_end@.len() == 4 && c.front_end@[3]
                == FrontEndAction::SetRxGainMode(Ad9361GainMode::SlowAttack),
            AirbandAgcMode::FastAttack => c.front_end@.len() == 4 && c.front_end@[3]
                == FrontEndAction::SetRxGainMode(Ad9361GainMode::FastAttack),
            AirbandAgcMode::Hybrid => c.front_end@.len() == 4 && c.front_end@[3]
                == FrontEndAction::SetRxGainMode(Ad9361GainMode::Hybrid),
        },
{
    lemma_names();
}

/// A restart is asked for exactly when the receiver runs and some setting of the
/// pending configuration is not that of the running one. Gains and frequencies
/// count as numbers.
pub proof fn law_restart_exactly_when_changed(running: ConfigView, pending: ConfigView)
    ensures
        !restart_needed(Some(running), pending) <==> {
            &&& running.center_hz == pending.center_hz
            &&& running.samp_rate == pending.samp_rate
            &&& running.rf_bandwidth == pending.rf_bandwidth
            &&& running.agc == pending.agc
            &&& running.channel_labels == pending.channel_labels
            &&& running.poll_ms == pending.poll_ms
            &&& pending.gain_db.same_number(running.gain_db)
            &&& running.channels_hz.len() == pending.channels_hz.len()
            &&& forall|i: int|
                0 <= i < pending.channels_hz.len() ==> #[trigger] pending.channels_hz[i].same_number(
                    running.channels_hz[i],
                )
        },
        same_config(pending, running) <==> !restart_needed(Some(running), pending),
{
}

/// What a config file holds is what is loaded. Without one the default is.
/// What cannot be parsed or read is reported with the message that came of it.
pub proof fn law_file_is_what_is_loaded(config: AirbandConfig, message: String)
    ensures
        loaded(Some(ConfigFile::Parsed(config))) == Ok::<ConfigView, ConfigError>(config@),
        loaded(None) == Ok::<ConfigView, ConfigError>(default_config()),
        loaded(Some(ConfigFile::Missing)) == loaded(None),
        loaded(Some(ConfigFile::Malformed(message))) == Err::<ConfigView, ConfigError>(
            ConfigError::Parse(message),
        ),
        loaded(Some(ConfigFile::Unreadable(message))) == Err::<ConfigView, ConfigError>(
            ConfigError::Read(message),
        ),
{
}

/// The pending configuration is what would be loaded from the config file, but
/// that the running one stands in for a file that is missing. Where no file is
/// configured, none has any influence.
pub proof fn law_pending_is_what_would_be_loaded(
    running: Option<ConfigView>,
    config: ConfigView,
    file: ConfigFile,
    other: ConfigFile,
)
    ensures
        !(file is Missing) ==> pending(true, running, file) == loaded(Some(file)),
        pending(true, Some(config), ConfigFile::Missing) == Ok::<ConfigView, ConfigError>(config),
        pending(true, None, ConfigFile::Missing) == loaded(None),
        pending(false, running, file) == pending(false, running, other),
        pending(false, running, file) == pending(true, running, ConfigFile::Missing),
{
}

/// The receiver starts with the running configuration whatever the file holds,
/// and with what is loaded from the file where none is running.
pub proof fn law_running_config_is_started(
    config: ConfigView,
    file: Option<ConfigFile>,
)
    ensures
        start_config(Some(config), file) == Ok::<ConfigView, ConfigError>(config),
        start_config(None, file) == loaded(file),
{
}

/// What a configuration says is what its fields hold.
pub proof fn law_config_says_its_fields(c: AirbandConfig)
    ensures
        c@.center_hz == c.center_hz,
        c@.samp_rate == c.samp_rate,
        c@.rf_bandwidth == c.rf_bandwidth,
        c@.gain_db == c.gain_db,
        c@.poll_ms == c.poll_ms,
        c@.channels_hz == c.channels_hz@,
        match c.agc {
            Some(name) => c@.agc == Some(name@),
            None => c@.agc is None,
        },
        match c.channel_labels {
            Some(labels) => match c@.channel_labels {
                Some(said) => said.len() == labels@.len() && forall|i: int|
                    0 <= i < labels@.len() ==> #[trigger] said[i] == labels@[i]@,
                None => false,
            },
            None => c@.channel_labels is None,
        },
{
}

/// What is shown to a client is what the fields of the answer hold.
pub proof fn law_answer_says_its_fields(a: Airband)
    ensures
        a@.enabled == a.enabled,
        a@.center_hz == a.center_hz,
        a@.samp_rate == a.samp_rate,
        a@.rf_bandwidth == a.rf_bandwidth,
        a@.gain_db == a.gain_db,
        a@.agc == a.agc,
        a@.poll_ms == a.poll_ms,
        a@.max_channels == a.max_channels,
        a@.samp_rate_locked == a.samp_rate_locked,
        a@.needs_restart == a.needs_restart,
        a@.channels.len() == a.channels@.len(),
        forall|i: int| 0 <= i < a.channels@.len() ==> #[trigger] a@.channels[i] == a.channels@[i]@,
{
}

/// What a channel says is what its fields hold.
pub proof fn law_channel_says_its_fields(c: AirbandChannel)
    ensures
        c@.freq_hz == c.freq_hz,
        match c.label {
            Some(label) => c@.label == Some(label@),
            None => c@.label is None,
        },
{
}

/// What a patch says is what its fields hold.
pub proof fn law_patch_says_its_fields(p: PatchAirband)
    ensures
        p@.center_hz == p.center_hz,
        p@.rf_bandwidth == p.rf_bandwidth,
        p@.gain_db == p.gain_db,
        p@.agc == p.agc,
        p@.poll_ms == p.poll_ms,
        match p.channels {
            Some(channels) => match p@.channels {
                Some(said) => said.len() == channels@.len() && forall|i: int|
                    0 <= i < channels@.len() ==> #[trigger] said[i] == channels@[i]@,
                None => false,
            },
            None => p@.channels is None,
        },
{
}

/// `GET` shows the settings of the config file, not those of the running
/// receiver, and whether the receiver is enabled.
pub proof fn law_get_shows_the_file(state: AppState, config: AirbandConfig)
    requires
        state.config_path() is Some,
    ensures
        get_reply(state, ConfigFile::Parsed(config)) matches Ok(a) && {
            &&& a.enabled == state.locked()
            &&& a.center_hz == config.center_hz
            &&& a.samp_rate == config.samp_rate
            &&& a.rf_bandwidth == config.rf_bandwidth
            &&& a.gain_db == config.gain_db
            &&& a.poll_ms == config.poll_ms
            &&& a.channels.len() == config.channels_hz@.len()
            &&& state.running() is None ==> !a.needs_restart
        },
{
}

/// Without a config file, `GET` shows the running configuration as it is, or
/// the default where none is running, whatever `file` is.
pub proof fn law_get_shows_the_running_config(
    state: AppState,
    file: ConfigFile,
    running: ConfigView,
)
    requires
        state.config_path() is None || file is Missing,
        state.running() == Some(running) || (state.running() is None && running
            == default_config()),
    ensures
        get_reply(state, file) matches Ok(a) && {
            &&& a.center_hz == running.center_hz
            &&& a.samp_rate == running.samp_rate
            &&& a.rf_bandwidth == running.rf_bandwidth
            &&& a.gain_db == running.gain_db
            &&& a.poll_ms == running.poll_ms
            &&& a.channels.len() == running.channels_hz.len()
        },
{
}

/// A config file that cannot be parsed or read fails both `GET` and `PATCH`, and
/// the server is at fault.
pub proof fn law_bad_file_is_a_server_error(state: AppState, patch: PatchView, message: String)
    requires
        state.config_path() is Some,
    ensures
        get_reply(state, ConfigFile::Malformed(message)) == Err::<AirbandView, JsonError>(
            JsonError::ServerError(ServerFault::Config(ConfigError::Parse(message))),
        ),
        get_reply(state, ConfigFile::Unreadable(message)) == Err::<AirbandView, JsonError>(
            JsonError::ServerError(ServerFault::Config(ConfigError::Read(message))),
        ),
        patch_reply(state, ConfigFile::Malformed(message), patch) == Err::<ConfigView, JsonError>(
            JsonError::ServerError(ServerFault::Config(ConfigError::Parse(message))),
        ),
        patch_reply(state, ConfigFile::Unreadable(message), patch) == Err::<ConfigView, JsonError>(
            JsonError::ServerError(ServerFault::Config(ConfigError::Read(message))),
        ),
{
}

/// A patch is applied to the pending configuration. One that is refused is
/// answered with that refusal, whether or not there is a config file; one that
/// is not is persisted, or refused for want of a config file.
pub proof fn law_patch_is_answered(
    state: AppState,
    file: ConfigFile,
    patch: PatchView,
    config: ConfigView,
)
    requires
        pending(state.config_path() is Some, state.running(), file) == Ok::<
            ConfigView,
            ConfigError,
        >(config),
    ensures
        verdict(config, patch) matches Err(e) ==> patch_reply(state, file, patch) == Err::<
            ConfigView,
            JsonError,
        >(JsonError::ClientErrorAlert(e)),
        verdict(config, patch) is Ok && state.config_path() is None ==> patch_reply(
            state,
            file,
            patch,
        ) == Err::<ConfigView, JsonError>(JsonError::ClientErrorAlert(PatchError::NoConfigPath)),
        verdict(config, patch) is Ok && state.config_path() is Some ==> patch_reply(
            state,
            file,
            patch,
        ) == Ok::<ConfigView, JsonError>(patched(config, patch)),
{
}

/// A patch that has been persisted is answered with what a `GET` shows that
/// finds in the config file what was persisted. One that could not be is
/// answered with the message of what went wrong.
pub proof fn law_patch_answer_is_what_get_shows(
    state: AppState,
    file: ConfigFile,
    patch: PatchView,
    written: AirbandConfig,
    message: String,
)
    requires
        patch_reply(state, file, patch) == Ok::<ConfigView, JsonError>(written@),
    ensures
        persisted_reply(state, written@, Ok(())) is Ok,
        persisted_reply(state, written@, Ok(())) == get_reply(state, ConfigFile::Parsed(written)),
        persisted_reply(state, written@, Err(PersistError::Serialize(message))) == Err::<
            AirbandView,
            JsonError,
        >(JsonError::ServerError(ServerFault::Serialize(message))),
        persisted_reply(state, written@, Err(PersistError::Write(message))) == Err::<
            AirbandView,
            JsonError,
        >(JsonError::ServerError(ServerFault::Write(message))),
{
}

} // verus!
