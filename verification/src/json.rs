//! The values that the HTTP API exchanges.

use crate::double::Double;
use crate::text::text;
use vstd::prelude::*;

verus! {

/// AGC mode of the airband receiver.
#[derive(Clone, Copy, Debug, PartialEq, Eq, Structural)]
pub enum AirbandAgcMode {
    Manual,
    SlowAttack,
    FastAttack,
    Hybrid,
}

/// One channel of the plan.
#[derive(Debug)]
pub struct AirbandChannel {
    /// Center frequency (Hz).
    pub freq_hz: Double,
    /// Label; `None` when the channel has none.
    pub label: Option<String>,
}

/// What an [`AirbandChannel`] says.
pub struct ChannelView {
    pub freq_hz: Double,
    pub label: Option<Seq<char>>,
}

impl View for AirbandChannel {
    type V = ChannelView;

    open spec fn view(&self) -> ChannelView {
        ChannelView { freq_hz: self.freq_hz, label: text(self.label) }
    }
}

/// What each of a list of channels says.
pub open spec fn channel_views(channels: Seq<AirbandChannel>) -> Seq<ChannelView> {
    Seq::new(channels.len(), |i: int| channels[i]@)
}

/// The airband configuration as it is shown to clients.
#[derive(Debug)]
pub struct Airband {
    /// Whether the receiver is enabled.
    pub enabled: bool,
    /// RX LO center frequency (Hz).
    pub center_hz: u64,
    /// Sample rate (Hz).
    pub samp_rate: u32,
    /// RX RF bandwidth (Hz).
    pub rf_bandwidth: Option<u32>,
    /// Manual RX gain (dB).
    pub gain_db: Double,
    /// AGC mode.
    pub agc: AirbandAgcMode,
    /// Channel plan.
    pub channels: Vec<AirbandChannel>,
    /// Ring poll interval in milliseconds.
    pub poll_ms: u64,
    /// Greatest number of channels in a plan.
    pub max_channels: u32,
    /// Whether the sample rate is fixed.
    pub samp_rate_locked: bool,
    /// Whether a restart is needed to apply the configuration.
    pub needs_restart: bool,
}

/// What an [`Airband`] says.
#[verifier::ext_equal]
pub struct AirbandView {
    pub enabled: bool,
    pub center_hz: u64,
    pub samp_rate: u32,
    pub rf_bandwidth: Option<u32>,
    pub gain_db: Double,
    pub agc: AirbandAgcMode,
    pub channels: Seq<ChannelView>,
    pub poll_ms: u64,
    pub max_channels: u32,
    pub samp_rate_locked: bool,
    pub needs_restart: bool,
}

impl View for Airband {
    type V = AirbandView;

    open spec fn view(&self) -> AirbandView {
        AirbandView {
            enabled: self.enabled,
            center_hz: self.center_hz,
            samp_rate: self.samp_rate,
            rf_bandwidth: self.rf_bandwidth,
            gain_db: self.gain_db,
            agc: self.agc,
            channels: channel_views(self.channels@),
            poll_ms: self.poll_ms,
            max_channels: self.max_channels,
            samp_rate_locked: self.samp_rate_locked,
            needs_restart: self.needs_restart,
        }
    }
}

/// Changes to the airband configuration. What is `None` stays as it is.
#[derive(Debug)]
pub struct PatchAirband {
    /// RX LO center frequency (Hz).
    pub center_hz: Option<u64>,
    /// RX RF bandwidth (Hz).
    pub rf_bandwidth: Option<u32>,
    /// Manual RX gain (dB).
    pub gain_db: Option<Double>,
    /// AGC mode.
    pub agc: Option<AirbandAgcMode>,
    /// Channel plan.
    pub channels: Option<Vec<AirbandChannel>>,
    /// Ring poll interval in milliseconds.
    pub poll_ms: Option<u64>,
}

/// What a [`PatchAirband`] says.
#[verifier::ext_equal]
pub struct PatchView {
    pub center_hz: Option<u64>,
    pub rf_bandwidth: Option<u32>,
    pub gain_db: Option<Double>,
    pub agc: Option<AirbandAgcMode>,
    pub channels: Option<Seq<ChannelView>>,
    pub poll_ms: Option<u64>,
}

impl View for PatchAirband {
    type V = PatchView;

    open spec fn view(&self) -> PatchView {
        PatchView {
            center_hz: self.center_hz,
            rf_bandwidth: self.rf_bandwidth,
            gain_db: self.gain_db,
            agc: self.agc,
            channels: match self.channels {
                Some(channels) => Some(channel_views(channels@)),
                None => None,
            },
            poll_ms: self.poll_ms,
        }
    }
}

/// The internal health of the airband data path.
#[derive(Clone, Copy, Debug, PartialEq, Eq, Structural)]
pub struct Health {
    /// The airband receiver owns the front-end.
    pub airband_enabled: bool,
    /// Where the receiver writes next.
    pub dma_address: usize,
    /// Whether the write address moved across a short time.
    pub dma_advancing: bool,
    /// The receiver's overflow flag.
    pub overflow: bool,
}

} // verus!
