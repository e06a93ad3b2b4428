//! Laws of what `PATCH /api/airband` accepts, refuses and sets.

use crate::airband::ConfigView;
use crate::double::Double;
use crate::httpd::airband::{
    channel_inside, first_outside, label_or_empty, patched, plan_labels, verdict, with_channels,
    with_settings,
};
use crate::httpd::airband_laws::law_first_outside;
use crate::httpd::json_error::PatchError;
use crate::json::{AirbandAgcMode, ChannelView, PatchView};
use crate::tuning::{center_value, in_window};
use crate::tuning_laws::{law_center_is_exact, law_whole_hertz_window, law_window_bounds};
use vstd::arithmetic::power2::pow2;
use vstd::prelude::*;

verus! {

/// The center frequency that a patch leads to.
pub open spec fn new_center(config: ConfigView, patch: PatchView) -> u64 {
    match patch.center_hz {
        Some(center_hz) => center_hz,
        None => config.center_hz,
    }
}

/// Whether the gain of a patch, if it names one, is a number from 0 to 77.
pub open spec fn gain_in_range(patch: PatchView) -> bool {
    patch.gain_db matches Some(gain_db) ==> gain_db.is_finite() && 0 <= gain_db.value() <= 77
        * pow2(1074)
}

/// Whether the poll interval of a patch, if it names one, is 1 ms or more.
pub open spec fn poll_in_range(patch: PatchView) -> bool {
    patch.poll_ms matches Some(poll_ms) ==> poll_ms >= 1
}

/// Where the first channel outside the window is.
proof fn lemma_plan(config: ConfigView, patch: PatchView, channels: Seq<ChannelView>)
    requires
        patch.channels == Some(channels),
    ensures
        ({
            let base = with_settings(config, patch);
            let i = first_outside(base, channels, 0);
            &&& base.center_hz == new_center(config, patch)
            &&& base.samp_rate == config.samp_rate
            &&& 0 <= i <= channels.len()
            &&& i < channels.len() ==> !in_window(
                channels[i].freq_hz,
                new_center(config, patch),
                config.samp_rate,
            )
            &&& forall|j: int|
                0 <= j < i ==> in_window(
                    (#[trigger] channels[j]).freq_hz,
                    new_center(config, patch),
                    config.samp_rate,
                )
        }),
{
    let base = with_settings(config, patch);
    let i = first_outside(base, channels, 0);
    law_first_outside(base, channels, 0, 0);
    assert forall|j: int| 0 <= j < i implies in_window(
        (#[trigger] channels[j]).freq_hz,
        new_center(config, patch),
        config.samp_rate,
    ) by {
        law_first_outside(base, channels, 0, j);
        assert(channel_inside(base, channels, j));
    }
}

/// A patch is accepted exactly when each thing that it names can be set: a gain
/// that is a number from 0 to 77, a poll interval of 1 ms or more, and at most
/// 18 channels, each in the capture window around the center frequency that the
/// patch names or, if it names none, the present one.
pub proof fn law_accepted_exactly_when(config: ConfigView, patch: PatchView)
    ensures
        verdict(config, patch) is Ok <==> {
            &&& patch.gain_db matches Some(gain_db) ==> gain_db.is_finite() && 0
                <= gain_db.value() <= 77 * pow2(1074)
            &&& patch.poll_ms matches Some(poll_ms) ==> poll_ms >= 1
            &&& patch.channels matches Some(channels) ==> channels.len() <= 18 && forall|i: int|
                0 <= i < channels.len() ==> in_window(
                    (#[trigger] channels[i]).freq_hz,
                    match patch.center_hz {
                        Some(center_hz) => center_hz,
                        None => config.center_hz,
                    },
                    config.samp_rate,
                )
        },
{
    if let Some(channels) = patch.channels {
        lemma_plan(config, patch, channels);
    }
}

/// Where every channel of a patch is on a whole number of hertz, at `hz`, the
/// window is the interval `[center - Fs/2, center + Fs/2)`: the patch is
/// accepted exactly when its gain and its poll interval can be set, it has at
/// most 18 channels, and each lies in this interval.
pub proof fn law_whole_hertz_plan(
    config: ConfigView,
    patch: PatchView,
    channels: Seq<ChannelView>,
    hz: Seq<int>,
)
    requires
        patch.channels == Some(channels),
        hz.len() == channels.len(),
        forall|i: int|
            0 <= i < channels.len() ==> (#[trigger] channels[i]).freq_hz.is_finite()
                && channels[i].freq_hz.value() == hz[i] * pow2(1074),
        patch.center_hz matches Some(center_hz) ==> center_hz <= 0x20_0000_0000_0000,
        patch.center_hz is None ==> config.center_hz <= 0x20_0000_0000_0000,
    ensures
        ({
            let center = match patch.center_hz {
                Some(center_hz) => center_hz as int,
                None => config.center_hz as int,
            };
            verdict(config, patch) is Ok <==> {
                &&& patch.gain_db matches Some(gain_db) ==> gain_db.is_finite() && 0
                    <= gain_db.value() <= 77 * pow2(1074)
                &&& patch.poll_ms matches Some(poll_ms) ==> poll_ms >= 1
                &&& channels.len() <= 18
                &&& forall|i: int|
                    0 <= i < hz.len() ==> 2 * center - config.samp_rate <= 2 * #[trigger] hz[i] < 2
                        * center + config.samp_rate
            }
        }),
{
    let center_hz = new_center(config, patch);
    let center = center_hz as int;
    law_accepted_exactly_when(config, patch);
    law_center_is_exact(center_hz);
    assert forall|i: int| 0 <= i < channels.len() implies in_window(
        (#[trigger] channels[i]).freq_hz,
        center_hz,
        config.samp_rate,
    ) == (2 * center - config.samp_rate <= 2 * hz[i] < 2 * center + config.samp_rate) by {
        law_whole_hertz_window(channels[i].freq_hz, hz[i], center_hz, center, config.samp_rate);
    }
    if forall|i: int|
        0 <= i < hz.len() ==> 2 * center - config.samp_rate <= 2 * #[trigger] hz[i] < 2 * center
            + config.samp_rate {
        assert forall|i: int| 0 <= i < channels.len() implies in_window(
            (#[trigger] channels[i]).freq_hz,
            center_hz,
            config.samp_rate,
        ) by {
            assert(2 * center - config.samp_rate <= 2 * hz[i] < 2 * center + config.samp_rate);
        }
    } else {
        let i = choose|i: int|
            0 <= i < hz.len() && !(2 * center - config.samp_rate <= 2 * #[trigger] hz[i] < 2
                * center + config.samp_rate);
        assert(!in_window(channels[i].freq_hz, center_hz, config.samp_rate));
    }
}

/// Every channel of an accepted patch is a finite number below the upper edge
/// of the capture window, and not below its lower edge but for one part in 2^52
/// of half the sample rate, which the rounding of its offset can take away.
pub proof fn law_accepted_channels_lie_inside(
    config: ConfigView,
    patch: PatchView,
    channels: Seq<ChannelView>,
    i: int,
)
    requires
        verdict(config, patch) is Ok,
        patch.channels == Some(channels),
        0 <= i < channels.len(),
    ensures
        channels[i].freq_hz.is_finite(),
        ({
            let center = match patch.center_hz {
                Some(center_hz) => center_hz,
                None => config.center_hz,
            };
            let x = channels[i].freq_hz.value() - center_value(center);
            let h = config.samp_rate * pow2(1073);
            &&& x < h
            &&& (-h - x) * 0x10_0000_0000_0000 <= h
            &&& center <= 0x20_0000_0000_0000 ==> center_value(center) == center * pow2(1074)
        }),
{
    law_accepted_exactly_when(config, patch);
    law_window_bounds(channels[i].freq_hz, new_center(config, patch), config.samp_rate);
}

/// A patch with channels is accepted if its gain and its poll interval can be
/// set, there are at most 18 channels, and each is a finite number in the
/// capture window, below the upper edge by one part in 2^52 of half the sample
/// rate or more.
pub proof fn law_channels_inside_are_accepted(
    config: ConfigView,
    patch: PatchView,
    channels: Seq<ChannelView>,
    center: u64,
)
    requires
        gain_in_range(patch),
        poll_in_range(patch),
        patch.channels == Some(channels),
        channels.len() <= 18,
        patch.center_hz == Some(center) || (patch.center_hz is None && config.center_hz == center),
        config.samp_rate > 0,
        forall|i: int|
            0 <= i < channels.len() ==> {
                let x = (#[trigger] channels[i]).freq_hz.value() - center_value(center);
                let h = config.samp_rate * pow2(1073);
                &&& channels[i].freq_hz.is_finite()
                &&& -h <= x < h
                &&& (h - x) * 0x10_0000_0000_0000 >= h
            },
    ensures
        verdict(config, patch) is Ok,
{
    law_accepted_exactly_when(config, patch);
    assert forall|i: int| 0 <= i < channels.len() implies in_window(
        (#[trigger] channels[i]).freq_hz,
        center,
        config.samp_rate,
    ) by {
        law_window_bounds(channels[i].freq_hz, center, config.samp_rate);
    }
}

/// A patch is refused for its gain exactly when it names one that is not a
/// number from 0 to 77, and the refusal holds that gain.
pub proof fn law_refused_for_gain(config: ConfigView, patch: PatchView, gain_db: Double)
    ensures
        verdict(config, patch) == Err::<(), PatchError>(PatchError::GainOutOfRange { gain_db })
            <==> patch.gain_db == Some(gain_db) && !(gain_db.is_finite() && 0 <= gain_db.value()
            <= 77 * pow2(1074)),
{
}

/// A patch is refused for its poll interval exactly when that is 0 ms and the
/// gain can be set.
pub proof fn law_refused_for_poll(config: ConfigView, patch: PatchView)
    ensures
        verdict(config, patch) == Err::<(), PatchError>(PatchError::PollTooShort) <==> (
        patch.poll_ms == Some(0u64) && (patch.gain_db matches Some(gain_db)
            ==> gain_db.is_finite() && 0 <= gain_db.value() <= 77 * pow2(1074))),
{
}

/// A patch is refused for the number of its channels exactly when there are
/// more than 18 and the gain and the poll interval can be set. The refusal
/// holds their number.
pub proof fn law_refused_for_count(config: ConfigView, patch: PatchView, count: usize)
    requires
        patch.channels matches Some(channels) ==> channels.len() <= usize::MAX,
    ensures
        verdict(config, patch) == Err::<(), PatchError>(PatchError::TooManyChannels { count })
            <==> gain_in_range(patch) && poll_in_range(patch) && (patch.channels matches Some(
            channels,
        ) && channels.len() > 18 && channels.len() == count),
{
}

/// A patch is refused for a channel exactly when the gain and the poll interval
/// can be set, there are at most 18 channels, and one is outside the capture
/// window around the new center. The refusal holds the first such channel, that
/// center and the sample rate.
pub proof fn law_refused_for_channel(
    config: ConfigView,
    patch: PatchView,
    freq_hz: Double,
    center_hz: u64,
    samp_rate: u32,
)
    ensures
        verdict(config, patch) == Err::<(), PatchError>(
            PatchError::ChannelOutsideWindow { freq_hz, center_hz, samp_rate },
        ) <==> {
            &&& gain_in_range(patch)
            &&& poll_in_range(patch)
            &&& patch.center_hz == Some(center_hz) || (patch.center_hz is None && config.center_hz
                == center_hz)
            &&& samp_rate == config.samp_rate
            &&& patch.channels matches Some(channels)
            &&& channels.len() <= 18
            &&& exists|i: int|
                0 <= i < channels.len() && (#[trigger] channels[i]).freq_hz == freq_hz
                    && !in_window(channels[i].freq_hz, center_hz, samp_rate) && forall|j: int|
                    0 <= j < i ==> in_window(
                        (#[trigger] channels[j]).freq_hz,
                        center_hz,
                        samp_rate,
                    )
        },
{
    if let Some(channels) = patch.channels {
        lemma_plan(config, patch, channels);
        let base = with_settings(config, patch);
        let k = first_outside(base, channels, 0);
        if verdict(config, patch) == Err::<(), PatchError>(
            PatchError::ChannelOutsideWindow { freq_hz, center_hz, samp_rate },
        ) {
            assert(channels[k].freq_hz == freq_hz);
        }
        if exists|i: int|
            0 <= i < channels.len() && (#[trigger] channels[i]).freq_hz == freq_hz && !in_window(
                channels[i].freq_hz,
                new_center(config, patch),
                config.samp_rate,
            ) && forall|j: int|
                0 <= j < i ==> in_window(
                    (#[trigger] channels[j]).freq_hz,
                    new_center(config, patch),
                    config.samp_rate,
                ) {
            let i = choose|i: int|
                0 <= i < channels.len() && (#[trigger] channels[i]).freq_hz == freq_hz
                    && !in_window(
                    channels[i].freq_hz,
                    new_center(config, patch),
                    config.samp_rate,
                ) && forall|j: int|
                    0 <= j < i ==> in_window(
                        (#[trigger] channels[j]).freq_hz,
                        new_center(config, patch),
                        config.samp_rate,
                    );
            assert(in_window(channels[i].freq_hz, new_center(config, patch), config.samp_rate)
                || i == k) by {
                if i < k {
                    assert(in_window(
                        channels[i].freq_hz,
                        new_center(config, patch),
                        config.samp_rate,
                    ));
                } else if k < i {
                    assert(in_window(
                        channels[k].freq_hz,
                        new_center(config, patch),
                        config.samp_rate,
                    ));
                }
            }
        }
    }
}

/// A refusal is one of these four: the patch itself is never refused for want
/// of a config file.
pub proof fn law_refusals_are_these(config: ConfigView, patch: PatchView)
    ensures
        verdict(config, patch) != Err::<(), PatchError>(PatchError::NoConfigPath),
{
}

/// An accepted patch stores the mode that it names by that mode's name.
pub proof fn law_mode_is_stored_by_name(config: ConfigView, patch: PatchView)
    requires
        verdict(config, patch) is Ok,
    ensures
        patch.agc == Some(AirbandAgcMode::Manual) ==> patched(config, patch).agc == Some(
            "manual"@,
        ),
        patch.agc == Some(AirbandAgcMode::SlowAttack) ==> patched(config, patch).agc == Some(
            "slow_attack"@,
        ),
        patch.agc == Some(AirbandAgcMode::FastAttack) ==> patched(config, patch).agc == Some(
            "fast_attack"@,
        ),
        patch.agc == Some(AirbandAgcMode::Hybrid) ==> patched(config, patch).agc == Some(
            "hybrid"@,
        ),
{
}

/// An accepted patch with channels stores their frequencies in order. It stores
/// their labels in order, an absent one as an empty one, if any of them is not
/// empty, and else no labels.
pub proof fn law_channels_are_stored(
    config: ConfigView,
    patch: PatchView,
    channels: Seq<ChannelView>,
)
    requires
        verdict(config, patch) is Ok,
        patch.channels == Some(channels),
    ensures
        ({
            let after = patched(config, patch);
            &&& after.channels_hz.len() == channels.len()
            &&& forall|i: int|
                0 <= i < channels.len() ==> #[trigger] after.channels_hz[i] == channels[i].freq_hz
            &&& after.channel_labels is Some <==> exists|i: int|
                0 <= i < channels.len() && ((#[trigger] channels[i]).label matches Some(label)
                    && label.len() > 0)
            &&& after.channel_labels matches Some(labels) ==> labels.len() == channels.len()
                && forall|i: int|
                0 <= i < channels.len() ==> match (#[trigger] channels[i]).label {
                    Some(label) => labels[i] == label,
                    None => labels[i].len() == 0,
                }
        }),
{
    let after = patched(config, patch);
    assert(after == with_channels(with_settings(config, patch), channels));
    if exists|i: int|
        0 <= i < channels.len() && ((#[trigger] channels[i]).label matches Some(label)
            && label.len() > 0) {
        let i = choose|i: int|
            0 <= i < channels.len() && ((#[trigger] channels[i]).label matches Some(label)
                && label.len() > 0);
        assert(label_or_empty(channels[i]).len() > 0);
    }
    if plan_labels(channels) is Some {
        let i = choose|i: int|
            0 <= i < channels.len() && #[trigger] label_or_empty(channels[i]).len() > 0;
        assert(channels[i].label is Some);
    }
}

/// A refused patch never touches the channels. The center frequency and the
/// bandwidth that it names are set all the same; the gain and the AGC mode are,
/// unless it is refused for the gain; the poll interval is, if it is refused for
/// a channel or for too many.
pub proof fn law_refused_patch_leaves(config: ConfigView, patch: PatchView)
    requires
        verdict(config, patch) is Err,
    ensures
        ({
            let e = verdict(config, patch)->Err_0;
            let after = patched(config, patch);
            &&& after.channels_hz == config.channels_hz
            &&& after.channel_labels == config.channel_labels
            &&& after.samp_rate == config.samp_rate
            &&& patch.center_hz matches Some(v) ==> after.center_hz == v
            &&& patch.rf_bandwidth matches Some(v) ==> after.rf_bandwidth == Some(v)
            &&& e is GainOutOfRange ==> after.gain_db == config.gain_db && after.agc
                == config.agc && after.poll_ms == config.poll_ms
            &&& !(e is GainOutOfRange) ==> {
                &&& patch.gain_db matches Some(v) ==> after.gain_db == v
                &&& patch.agc == Some(AirbandAgcMode::Manual) ==> after.agc == Some("manual"@)
                &&& patch.agc == Some(AirbandAgcMode::SlowAttack) ==> after.agc == Some(
                    "slow_attack"@,
                )
                &&& patch.agc == Some(AirbandAgcMode::FastAttack) ==> after.agc == Some(
                    "fast_attack"@,
                )
                &&& patch.agc == Some(AirbandAgcMode::Hybrid) ==> after.agc == Some("hybrid"@)
            }
            &&& e is PollTooShort ==> after.poll_ms == config.poll_ms
            &&& e is TooManyChannels || e is ChannelOutsideWindow ==> (patch.poll_ms matches Some(v)
                ==> after.poll_ms == v)
        }),
{
}

} // verus!
