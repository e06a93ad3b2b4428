//! Laws of the airband configuration API.

use crate::airband::{default_config, law_default_values, same_config, ConfigFile, ConfigView};
use crate::app::AppState;
use crate::configure::{
    agc_known, applies, channel_tunable, gain_mode_named, law_outcome, plan_tunable,
    used_channels, Configuration,
};
use crate::httpd::airband::{
    channel_inside, first_outside, gain_allowed, label_or_empty, mode_of, name_of, patched,
    pending, plan_labels, restart_needed, shown, shown_channels, shown_in, verdict,
    with_channels, with_settings,
};
use crate::json::{AirbandAgcMode, AirbandView, ChannelView, PatchView};
use crate::tuning_laws::{
    law_center_is_exact, law_whole_hertz_window, law_window_agrees_with_tuning,
};
use vstd::prelude::*;

verus! {

/// The names of the AGC modes are distinct.
pub(crate) proof fn lemma_names()
    ensures
        "manual"@ != "slow_attack"@,
        "manual"@ != "fast_attack"@,
        "manual"@ != "hybrid"@,
        "slow_attack"@ != "fast_attack"@,
        "slow_attack"@ != "hybrid"@,
        "fast_attack"@ != "hybrid"@,
{
    reveal_strlit("manual");
    reveal_strlit("slow_attack");
    reveal_strlit("fast_attack");
    reveal_strlit("hybrid");
    assert("manual"@[0] == 'm');
    assert("hybrid"@[0] == 'h');
    assert("slow_attack"@[0] == 's');
    assert("fast_attack"@[0] == 'f');
}

/// A mode that is set is the mode that is shown, and the front-end knows it.
pub proof fn law_mode_round_trip(mode: AirbandAgcMode)
    ensures
        mode_of(Some(name_of(mode))) == mode,
        gain_mode_named(name_of(mode)) is Some,
{
    lemma_names();
}

/// A patch that changes nothing is accepted and leaves the configuration as it
/// is.
pub proof fn law_empty_patch(config: ConfigView, patch: PatchView)
    requires
        patch.center_hz is None,
        patch.rf_bandwidth is None,
        patch.gain_db is None,
        patch.agc is None,
        patch.channels is None,
        patch.poll_ms is None,
    ensures
        verdict(config, patch) is Ok,
        patched(config, patch) == config,
{
}

/// What a patch does not name stays as it is, and the sample rate always does.
pub proof fn law_unnamed_settings_stay(config: ConfigView, patch: PatchView)
    ensures
        patched(config, patch).samp_rate == config.samp_rate,
        patch.center_hz is None ==> patched(config, patch).center_hz == config.center_hz,
        patch.rf_bandwidth is None ==> patched(config, patch).rf_bandwidth == config.rf_bandwidth,
        patch.gain_db is None ==> patched(config, patch).gain_db == config.gain_db,
        patch.agc is None ==> patched(config, patch).agc == config.agc,
        patch.poll_ms is None ==> patched(config, patch).poll_ms == config.poll_ms,
        patch.channels is None ==> patched(config, patch).channels_hz == config.channels_hz
            && patched(config, patch).channel_labels == config.channel_labels,
{
}

/// An accepted patch sets what it names.
pub proof fn law_named_settings_are_set(config: ConfigView, patch: PatchView)
    requires
        verdict(config, patch) is Ok,
    ensures
        patch.center_hz matches Some(v) ==> patched(config, patch).center_hz == v,
        patch.rf_bandwidth matches Some(v) ==> patched(config, patch).rf_bandwidth == Some(v),
        patch.gain_db matches Some(v) ==> patched(config, patch).gain_db == v && gain_allowed(v),
        patch.agc matches Some(v) ==> mode_of(patched(config, patch).agc) == v,
        patch.poll_ms matches Some(v) ==> patched(config, patch).poll_ms == v && v >= 1,
{
    lemma_names();
}

/// An accepted patch that is sent again is accepted again and changes nothing
/// more.
pub proof fn law_patch_is_idempotent(config: ConfigView, patch: PatchView)
    requires
        verdict(config, patch) is Ok,
    ensures
        verdict(patched(config, patch), patch) is Ok,
        patched(patched(config, patch), patch) == patched(config, patch),
{
    let once = patched(config, patch);
    if let Some(channels) = patch.channels {
        let a = with_settings(config, patch);
        let b = with_settings(once, patch);
        lemma_first_outside_depends(a, b, channels, 0);
    }
}

/// Where the window is the same, the same channel is the first outside it.
proof fn lemma_first_outside_depends(
    a: ConfigView,
    b: ConfigView,
    channels: Seq<ChannelView>,
    i: int,
)
    requires
        a.center_hz == b.center_hz,
        a.samp_rate == b.samp_rate,
    ensures
        first_outside(a, channels, i) == first_outside(b, channels, i),
    decreases channels.len() - i,
{
    if i < channels.len() {
        lemma_first_outside_depends(a, b, channels, i + 1);
    }
}

/// The first channel outside the window is outside it, and every channel
/// before it is inside.
pub proof fn law_first_outside(config: ConfigView, channels: Seq<ChannelView>, i: int, j: int)
    requires
        0 <= i <= channels.len(),
    ensures
        i <= first_outside(config, channels, i) <= channels.len(),
        first_outside(config, channels, i) < channels.len() ==> !channel_inside(
            config,
            channels,
            first_outside(config, channels, i),
        ),
        i <= j < first_outside(config, channels, i) ==> channel_inside(config, channels, j),
    decreases channels.len() - i,
{
    if i < channels.len() {
        law_first_outside(config, channels, i + 1, j);
    }
}

/// The channels of an accepted patch are shown as they were sent; an empty
/// label is shown as none.
pub proof fn law_patched_channels_are_shown(
    config: ConfigView,
    patch: PatchView,
    channels: Seq<ChannelView>,
)
    requires
        verdict(config, patch) is Ok,
        patch.channels == Some(channels),
    ensures
        shown_channels(patched(config, patch)).len() == channels.len(),
        forall|i: int|
            0 <= i < channels.len() ==> #[trigger] shown_channels(patched(config, patch))[i] == (
            ChannelView {
                freq_hz: channels[i].freq_hz,
                label: if label_or_empty(channels[i]).len() > 0 {
                    channels[i].label
                } else {
                    None
                },
            }),
{
    let after = patched(config, patch);
    assert(after == with_channels(with_settings(config, patch), channels));
    assert forall|i: int| 0 <= i < channels.len() implies #[trigger] shown_channels(after)[i] == (
    ChannelView {
        freq_hz: channels[i].freq_hz,
        label: if label_or_empty(channels[i]).len() > 0 {
            channels[i].label
        } else {
            None
        },
    }) by {
        if label_or_empty(channels[i]).len() > 0 {
            assert(plan_labels(channels) is Some);
        }
    }
}

/// The patch that sets what is shown.
pub open spec fn patch_of(a: AirbandView) -> PatchView {
    PatchView {
        center_hz: Some(a.center_hz),
        rf_bandwidth: a.rf_bandwidth,
        gain_db: Some(a.gain_db),
        agc: Some(a.agc),
        channels: Some(a.channels),
        poll_ms: Some(a.poll_ms),
    }
}

/// A client that sends back what it was shown changes nothing that is shown:
/// if the patch is accepted, the configuration is shown as before.
pub proof fn law_sending_back_what_is_shown(
    config: ConfigView,
    enabled: bool,
    needs_restart: bool,
)
    requires
        verdict(config, patch_of(shown(config, enabled, needs_restart))) is Ok,
    ensures
        shown(
            patched(config, patch_of(shown(config, enabled, needs_restart))),
            enabled,
            needs_restart,
        ) == shown(config, enabled, needs_restart),
{
    let before = shown(config, enabled, needs_restart);
    let patch = patch_of(before);
    let after = patched(config, patch);
    law_mode_round_trip(before.agc);
    law_patched_channels_are_shown(config, patch, before.channels);
    assert(shown_channels(after) =~= before.channels);
    assert(shown(after, enabled, needs_restart) =~= before);
}

/// A channel plan that a patch sets can be tuned to when the receiver is
/// started with the patched configuration: every channel is in its capture
/// window, and there are no more channels than oscillators. The start succeeds
/// if the AGC mode is known, as it is if the patch sets it.
pub proof fn law_accepted_plan_starts(
    config: ConfigView,
    patch: PatchView,
    channels: Seq<ChannelView>,
    c: Configuration,
)
    requires
        verdict(config, patch) is Ok,
        patch.channels == Some(channels),
        applies(c, patched(config, patch)),
    ensures
        plan_tunable(patched(config, patch)),
        used_channels(patched(config, patch)) == channels.len(),
        c.outcome is Ok <==> agc_known(patched(config, patch)),
        patch.agc is Some ==> c.outcome is Ok,
{
    let after = patched(config, patch);
    let base = with_settings(config, patch);
    assert(after == with_channels(base, channels));
    assert forall|i: int| 0 <= i < channels.len() implies #[trigger] channel_tunable(after, i) by {
        law_first_outside(base, channels, 0, i);
        assert(channel_inside(base, channels, i));
        law_window_agrees_with_tuning(channels[i].freq_hz, base.center_hz, base.samp_rate);
    }
    law_outcome(c, after);
    lemma_names();
}

/// What `PATCH` answers is what a following `GET` reads back: with the patched
/// configuration in the config file, `GET` shows what `PATCH` has shown.
pub proof fn law_read_gives_back_write(
    state: AppState,
    config: ConfigView,
    patch: PatchView,
    file: ConfigFile,
)
    requires
        state.config_path() is Some,
        verdict(config, patch) is Ok,
        file matches ConfigFile::Parsed(written) && written@ == patched(config, patch),
    ensures
        match pending(state.config_path() is Some, state.running(), file) {
            Ok(read) => read == patched(config, patch) && shown_in(state, read) == shown_in(
                state,
                patched(config, patch),
            ),
            Err(_) => false,
        },
{
}

/// Whether the gain and every frequency of a configuration is a number.
pub open spec fn all_numbers(config: ConfigView) -> bool {
    &&& !config.gain_db.is_nan()
    &&& forall|i: int| 0 <= i < config.channels_hz.len() ==> !(
    #[trigger] config.channels_hz[i]).is_nan()
}

/// A configuration of numbers equals itself: as long as the config file holds
/// the running configuration, no restart is needed.
pub proof fn law_unchanged_needs_no_restart(config: ConfigView)
    requires
        all_numbers(config),
    ensures
        same_config(config, config),
        !restart_needed(Some(config), config),
{
}

/// While the receiver is disabled, no restart is ever asked for.
pub proof fn law_disabled_needs_no_restart(config: ConfigView)
    ensures
        !restart_needed(None, config),
{
}

/// While the receiver is enabled, a restart is asked for whenever any setting
/// of the config file differs from the running one.
pub proof fn law_change_needs_restart(running: ConfigView, pending: ConfigView)
    requires
        running.center_hz != pending.center_hz || running.samp_rate != pending.samp_rate
            || running.rf_bandwidth != pending.rf_bandwidth || running.agc != pending.agc
            || running.channels_hz.len() != pending.channels_hz.len() || running.channel_labels
            != pending.channel_labels || running.poll_ms != pending.poll_ms
            || !pending.gain_db.same_number(running.gain_db) || (exists|i: int|
            0 <= i < pending.channels_hz.len() && i < running.channels_hz.len()
                && !#[trigger] pending.channels_hz[i].same_number(running.channels_hz[i])),
    ensures
        restart_needed(Some(running), pending),
{
}

/// A patch keeps a configuration of numbers one of numbers.
pub proof fn law_patch_keeps_numbers(config: ConfigView, patch: PatchView)
    requires
        all_numbers(config),
        verdict(config, patch) is Ok,
    ensures
        all_numbers(patched(config, patch)),
{
    let after = patched(config, patch);
    if let Some(channels) = patch.channels {
        let base = with_settings(config, patch);
        assert(after == with_channels(base, channels));
        assert forall|i: int| 0 <= i < after.channels_hz.len() implies !(
        #[trigger] after.channels_hz[i]).is_nan() by {
            law_first_outside(base, channels, 0, i);
            assert(channel_inside(base, channels, i));
        }
    }
}

/// The default configuration can be started with, and its one channel is in
/// the capture window.
pub proof fn law_default_starts(c: Configuration)
    requires
        applies(c, default_config()),
    ensures
        c.outcome is Ok,
        used_channels(default_config()) == 1,
{
    let config = default_config();
    law_default_values();
    law_center_is_exact(config.center_hz);
    law_whole_hertz_window(
        config.channels_hz[0],
        118_050_000,
        config.center_hz,
        123_438_000,
        config.samp_rate,
    );
    law_window_agrees_with_tuning(config.channels_hz[0], config.center_hz, config.samp_rate);
    assert forall|i: int| 0 <= i < used_channels(config) implies #[trigger] channel_tunable(
        config,
        i,
    ) by {
        assert(i == 0);
    }
    law_outcome(c, config);
}

} // verus!
