//! Configuration of the airband multichannel receiver.

use crate::app::AppState;
use crate::double::Double;
use crate::text::{copy_strings, same_strings, text, texts};
use vstd::arithmetic::power2::{lemma2_to64, lemma_pow2_adds, pow2};
use vstd::prelude::*;

verus! {

/// Size in bytes of one framed audio record.
pub const FRAME_BYTES: usize = 8;

/// Number of channels instantiated in the receiver.
pub const N_CHANNELS: usize = 18;

/// Depth in chunks of the broadcast to the clients. A client that falls behind
/// by more than this loses chunks.
pub const BROADCAST_DEPTH: usize = 256;

/// Airband receiver configuration.
#[derive(Debug)]
pub struct AirbandConfig {
    /// RX LO center frequency (Hz).
    pub center_hz: u64,
    /// Sample rate (Hz).
    pub samp_rate: u32,
    /// RX RF bandwidth (Hz). Defaults to `samp_rate` when `None`.
    pub rf_bandwidth: Option<u32>,
    /// Manual RX gain (dB); used when `agc` is `None` or `"manual"`.
    pub gain_db: Double,
    /// AGC mode: `"manual"`, `"slow_attack"`, `"fast_attack"`, `"hybrid"`.
    pub agc: Option<String>,
    /// Absolute channel center frequencies (Hz). At most [`N_CHANNELS`] are used.
    pub channels_hz: Vec<Double>,
    /// Optional per-channel labels, parallel to `channels_hz`. The receiver
    /// ignores them.
    pub channel_labels: Option<Vec<String>>,
    /// Ring poll interval in milliseconds.
    pub poll_ms: u64,
}

/// What an [`AirbandConfig`] says.
#[verifier::ext_equal]
pub struct ConfigView {
    pub center_hz: u64,
    pub samp_rate: u32,
    pub rf_bandwidth: Option<u32>,
    pub gain_db: Double,
    pub agc: Option<Seq<char>>,
    pub channels_hz: Seq<Double>,
    pub channel_labels: Option<Seq<Seq<char>>>,
    pub poll_ms: u64,
}

/// The characters of optional labels.
pub open spec fn label_texts(labels: Option<Vec<String>>) -> Option<Seq<Seq<char>>> {
    match labels {
        Some(labels) => Some(texts(labels@)),
        None => None,
    }
}

impl View for AirbandConfig {
    type V = ConfigView;

    open spec fn view(&self) -> ConfigView {
        ConfigView {
            center_hz: self.center_hz,
            samp_rate: self.samp_rate,
            rf_bandwidth: self.rf_bandwidth,
            gain_db: self.gain_db,
            agc: text(self.agc),
            channels_hz: self.channels_hz@,
            channel_labels: label_texts(self.channel_labels),
            poll_ms: self.poll_ms,
        }
    }
}

/// The one channel of the fallback plan, 118.050 MHz.
pub open spec fn default_channel() -> Double {
    Double { bits: 0x419c_2533_4000_0000 }
}

/// The configuration that is used when there is no config file: a minimal
/// fallback of one channel at 0 dB gain.
pub open spec fn default_config() -> ConfigView {
    ConfigView {
        center_hz: 123_438_000,
        samp_rate: 16_000_000,
        rf_bandwidth: None,
        gain_db: Double { bits: 0 },
        agc: Some("manual"@),
        channels_hz: seq![default_channel()],
        channel_labels: Some(seq!["S50 AWOS"@]),
        poll_ms: 20,
    }
}

/// The fallback plan's channel is 118.050 MHz and its gain is 0 dB, set by hand.
/// The center is 123.438 MHz, the sample rate 16 MHz and the poll interval 20 ms.
pub proof fn law_default_values()
    ensures
        default_config().center_hz == 123_438_000,
        default_config().samp_rate == 16_000_000,
        default_config().rf_bandwidth is None,
        default_config().agc == Some("manual"@),
        default_config().poll_ms == 20,
        default_config().channels_hz.len() == 1,
        default_config().channels_hz[0] == default_channel(),
        default_config().channel_labels == Some(seq!["S50 AWOS"@]),
        default_channel().is_finite(),
        default_channel().value() == 118_050_000 * pow2(1074),
        default_config().gain_db.is_finite(),
        default_config().gain_db.value() == 0,
{
    lemma2_to64();
    lemma_pow2_adds(1048, 26);
    let d = default_channel();
    assert(d.exponent() == 1049);
    assert(d.significand() == 118_050_000 * 0x400_0000);
    assert(d.magnitude() == 118_050_000 * pow2(1074)) by (nonlinear_arith)
        requires
            d.magnitude() == (118_050_000 * 0x400_0000) * pow2(1048),
            pow2(1074) == pow2(1048) * 0x400_0000,
    ;
    let g = default_config().gain_db;
    assert(g.significand() == 0 && g.magnitude() == 0);
}

impl Default for AirbandConfig {
    fn default() -> (c: AirbandConfig)
        ensures
            c@ == default_config(),
    {
        let mut channels_hz: Vec<Double> = Vec::new();
        channels_hz.push(Double::from_bits(0x419c_2533_4000_0000));
        let mut labels: Vec<String> = Vec::new();
        labels.push("S50 AWOS".to_owned());
        let c = AirbandConfig {
            center_hz: 123_438_000,
            samp_rate: 16_000_000,
            rf_bandwidth: None,
            gain_db: Double::from_bits(0),
            agc: Some("manual".to_owned()),
            channels_hz,
            channel_labels: Some(labels),
            poll_ms: 20,
        };
        assert(texts(labels@) =~= seq!["S50 AWOS"@]);
        assert(c@ =~= default_config());
        c
    }
}

impl Clone for AirbandConfig {
    fn clone(&self) -> (c: AirbandConfig)
        ensures
            c@ == self@,
    {
        let mut channels_hz: Vec<Double> = Vec::new();
        let mut i: usize = 0;
        while i < self.channels_hz.len()
            invariant
                i <= self.channels_hz.len(),
                channels_hz@ == self.channels_hz@.take(i as int),
            decreases self.channels_hz.len() - i,
        {
            channels_hz.push(self.channels_hz[i]);
            assert(channels_hz@ =~= self.channels_hz@.take(i + 1));
            i = i + 1;
        }
        assert(channels_hz@ =~= self.channels_hz@);
        let agc: Option<String> = match &self.agc {
            Some(agc) => Some(agc.clone()),
            None => None,
        };
        let channel_labels: Option<Vec<String>> = match &self.channel_labels {
            Some(labels) => Some(copy_strings(labels)),
            None => None,
        };
        AirbandConfig {
            center_hz: self.center_hz,
            samp_rate: self.samp_rate,
            rf_bandwidth: self.rf_bandwidth,
            gain_db: self.gain_db,
            agc,
            channels_hz,
            channel_labels,
            poll_ms: self.poll_ms,
        }
    }
}

/// Whether two frequency lists are equal number by number.
pub open spec fn same_channels(a: Seq<Double>, b: Seq<Double>) -> bool {
    a.len() == b.len() && forall|i: int| 0 <= i < a.len() ==> #[trigger] a[i].same_number(b[i])
}

/// Whether two configurations are equal: the gain and the frequencies as
/// numbers, everything else field by field.
pub open spec fn same_config(a: ConfigView, b: ConfigView) -> bool {
    &&& a.center_hz == b.center_hz
    &&& a.samp_rate == b.samp_rate
    &&& a.rf_bandwidth == b.rf_bandwidth
    &&& a.gain_db.same_number(b.gain_db)
    &&& a.agc == b.agc
    &&& same_channels(a.channels_hz, b.channels_hz)
    &&& a.channel_labels == b.channel_labels
    &&& a.poll_ms == b.poll_ms
}

impl PartialEq for AirbandConfig {
    fn eq(&self, other: &AirbandConfig) -> (r: bool) {
        let same_agc = match (&self.agc, &other.agc) {
            (Some(a), Some(b)) => *a == *b,
            (None, None) => true,
            _ => false,
        };
        let same_labels = match (&self.channel_labels, &other.channel_labels) {
            (Some(a), Some(b)) => same_strings(a, b),
            (None, None) => true,
            _ => false,
        };
        let same_bandwidth = match (self.rf_bandwidth, other.rf_bandwidth) {
            (Some(a), Some(b)) => a == b,
            (None, None) => true,
            _ => false,
        };
        self.center_hz == other.center_hz && self.samp_rate == other.samp_rate && same_bandwidth
            && self.gain_db.equals(other.gain_db) && same_agc && equal_channels(
            &self.channels_hz,
            &other.channels_hz,
        ) && same_labels && self.poll_ms == other.poll_ms
    }
}

impl vstd::std_specs::cmp::PartialEqSpecImpl for AirbandConfig {
    open spec fn obeys_eq_spec() -> bool {
        true
    }

    open spec fn eq_spec(&self, other: &AirbandConfig) -> bool {
        same_config(self@, other@)
    }
}

/// Whether two frequency lists are equal number by number.
fn equal_channels(a: &Vec<Double>, b: &Vec<Double>) -> (r: bool)
    ensures
        r == same_channels(a@, b@),
{
    if a.len() != b.len() {
        return false;
    }
    let mut i: usize = 0;
    while i < a.len()
        invariant
            i <= a.len(),
            a.len() == b.len(),
            forall|j: int| 0 <= j < i ==> #[trigger] a@[j].same_number(b@[j]),
        decreases a.len() - i,
    {
        if !a[i].equals(b[i]) {
            assert(!a@[i as int].same_number(b@[i as int]));
            return false;
        }
        i = i + 1;
    }
    true
}

/// What reading the config file gave.
#[derive(Debug)]
pub enum ConfigFile {
    /// The file holds this configuration.
    Parsed(AirbandConfig),
    /// The file is not a configuration; the parser's message.
    Malformed(String),
    /// There is no such file.
    Missing,
    /// The file could not be read; the system's message.
    Unreadable(String),
}

/// Why the config file gives no configuration.
#[derive(Debug)]
pub enum ConfigError {
    /// The file is not a configuration; the parser's message.
    Parse(String),
    /// The file could not be read; the system's message.
    Read(String),
}

/// The configuration that a config file gives: what it holds, or the default
/// when no file is configured or there is none.
pub open spec fn loaded(file: Option<ConfigFile>) -> Result<ConfigView, ConfigError> {
    match file {
        None => Ok(default_config()),
        Some(ConfigFile::Missing) => Ok(default_config()),
        Some(ConfigFile::Parsed(config)) => Ok(config@),
        Some(ConfigFile::Malformed(e)) => Err(ConfigError::Parse(e)),
        Some(ConfigFile::Unreadable(e)) => Err(ConfigError::Read(e)),
    }
}

impl AirbandConfig {
    /// The configuration in the config file, or the default configuration if
    /// no file is configured (`None`) or the file does not exist.
    pub fn load(file: Option<ConfigFile>) -> (r: Result<AirbandConfig, ConfigError>)
        ensures
            match r {
                Ok(config) => loaded(file) == Ok::<ConfigView, ConfigError>(config@),
                Err(e) => loaded(file) == Err::<ConfigView, ConfigError>(e),
            },
    {
        match file {
            None => Ok(AirbandConfig::default()),
            Some(ConfigFile::Parsed(config)) => Ok(config),
            Some(ConfigFile::Malformed(e)) => Err(ConfigError::Parse(e)),
            Some(ConfigFile::Missing) => Ok(AirbandConfig::default()),
            Some(ConfigFile::Unreadable(e)) => Err(ConfigError::Read(e)),
        }
    }

    /// How long to wait between two polls of the ring, in milliseconds: the
    /// configured interval, and at least one.
    pub fn poll_interval_ms(&self) -> (ms: u64)
        ensures
            ms == if self@.poll_ms == 0 {
                1
            } else {
                self@.poll_ms
            },
            ms == poll_interval(self@),
    {
        if self.poll_ms == 0 {
            1
        } else {
            self.poll_ms
        }
    }
}

/// The configuration that the receiver starts with: the running one, or the
/// one in the config file where none is running.
pub open spec fn start_config(
    running: Option<ConfigView>,
    file: Option<ConfigFile>,
) -> Result<ConfigView, ConfigError> {
    match running {
        Some(config) => Ok(config),
        None => loaded(file),
    }
}

/// The time between two polls of the ring, in milliseconds.
pub open spec fn poll_interval(config: ConfigView) -> u64 {
    if config.poll_ms == 0 {
        1
    } else {
        config.poll_ms
    }
}

/// The ring is polled at the configured interval, but not in a busy loop: an
/// interval of zero counts as one.
pub proof fn law_poll_interval(config: ConfigView)
    ensures
        poll_interval(config) >= 1,
        config.poll_ms >= 1 ==> poll_interval(config) == config.poll_ms,
        poll_interval(config) <= config.poll_ms + 1,
{
}

/// Airband receiver task.
#[derive(Debug)]
pub struct Airband {
    config: AirbandConfig,
}

impl Airband {
    /// The configuration that the receiver runs with.
    pub closed spec fn plan(self) -> ConfigView {
        self.config@
    }

    /// The airband task, or `None` if the receiver is not enabled.
    ///
    /// The task runs with the configuration of the application state; `file`
    /// is consulted only where that is absent.
    pub fn new(state: &AppState, enabled: bool, file: Option<ConfigFile>) -> (r: Result<
        Option<Airband>,
        ConfigError,
    >)
        ensures
            match r {
                Ok(None) => !enabled,
                Ok(Some(task)) => enabled && start_config(state.running(), file) == Ok::<
                    ConfigView,
                    ConfigError,
                >(task.plan()),
                Err(e) => enabled && start_config(state.running(), file) == Err::<
                    ConfigView,
                    ConfigError,
                >(e),
            },
    {
        if !enabled {
            return Ok(None);
        }
        let config: AirbandConfig = match state.airband_running() {
            Some(config) => config.clone(),
            None => match AirbandConfig::load(file) {
                Ok(config) => config,
                Err(e) => return Err(e),
            },
        };
        Ok(Some(Airband { config }))
    }

    /// The configuration that the receiver runs with.
    pub fn config(&self) -> (c: &AirbandConfig)
        ensures
            c@ == self.plan(),
    {
        &self.config
    }
}

} // verus!
