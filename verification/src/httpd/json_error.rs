//! Answers to requests that fail.

use crate::airband::{ConfigError, N_CHANNELS};
use crate::double::Double;
use crate::text::{append_decimal, decimal, digit, text};
use vstd::prelude::*;

verus! {

/// Why a change to the configuration is refused.
#[derive(Clone, Copy, Debug)]
pub enum PatchError {
    /// The gain is not between 0 and 77 dB.
    GainOutOfRange { gain_db: Double },
    /// The poll interval is shorter than one millisecond.
    PollTooShort,
    /// There are more channels than oscillators.
    TooManyChannels { count: usize },
    /// A channel is outside the capture window.
    ChannelOutsideWindow { freq_hz: Double, center_hz: u64, samp_rate: u32 },
    /// There is no config file to persist the change in.
    NoConfigPath,
}

/// The text of a refusal, unless it prints a floating-point number.
pub open spec fn refusal_text(error: PatchError) -> Option<Seq<char>> {
    match error {
        PatchError::PollTooShort => Some("poll_ms must be at least 1 ms"@),
        PatchError::TooManyChannels { count } => Some(
            "too many channels: "@ + decimal(count as nat) + " (max "@ + decimal(
                N_CHANNELS as nat,
            ) + ")"@,
        ),
        PatchError::NoConfigPath => Some("no airband config path configured"@),
        PatchError::GainOutOfRange { .. } => None,
        PatchError::ChannelOutsideWindow { .. } => None,
    }
}

impl PatchError {
    /// The text of the refusal, or `None` where it prints a floating-point
    /// number.
    pub fn message(&self) -> (m: Option<String>)
        ensures
            text(m) == refusal_text(*self),
    {
        match self {
            PatchError::PollTooShort => Some("poll_ms must be at least 1 ms".to_owned()),
            PatchError::TooManyChannels { count } => {
                let mut m: String = "too many channels: ".to_owned();
                append_decimal(&mut m, *count);
                m.append(" (max ");
                append_decimal(&mut m, N_CHANNELS);
                m.append(")");
                Some(m)
            },
            PatchError::NoConfigPath => Some("no airband config path configured".to_owned()),
            PatchError::GainOutOfRange { .. } => None,
            PatchError::ChannelOutsideWindow { .. } => None,
        }
    }
}

/// What went wrong on the side of the server.
#[derive(Debug)]
pub enum ServerFault {
    /// The config file gives no configuration.
    Config(ConfigError),
    /// The configuration could not be serialized; the serializer's message.
    Serialize(String),
    /// The config file could not be written; the system's message.
    Write(String),
    /// The restart could not be initiated; the system's message.
    Spawn(String),
}

/// The answer to a request that fails.
#[derive(Debug)]
pub enum JsonError {
    /// The server is at fault.
    ServerError(ServerFault),
    /// The request is at fault, and the user is to be alerted.
    ClientErrorAlert(PatchError),
}

/// The texts of the refusals that print no floating-point number. The one for
/// too many channels holds their number in decimal and the limit.
pub proof fn law_refusal_texts(count: usize, gain_db: Double, center_hz: u64, samp_rate: u32)
    ensures
        refusal_text(PatchError::PollTooShort) == Some("poll_ms must be at least 1 ms"@),
        refusal_text(PatchError::TooManyChannels { count }) == Some(
            "too many channels: "@ + decimal(count as nat) + " (max 18)"@,
        ),
        refusal_text(PatchError::NoConfigPath) == Some("no airband config path configured"@),
        refusal_text(PatchError::GainOutOfRange { gain_db }) is None,
        refusal_text(
            PatchError::ChannelOutsideWindow { freq_hz: gain_db, center_hz, samp_rate },
        ) is None,
{
    reveal_strlit(" (max ");
    reveal_strlit(")");
    reveal_strlit(" (max 18)");
    assert(decimal(1) =~= seq!['1']);
    assert(decimal(18) =~= seq!['1', '8']) by {
        assert(decimal(18) == decimal(1) + seq![digit(8)]);
    }
    let head = "too many channels: "@ + decimal(count as nat);
    assert(" (max "@ + decimal(18) + ")"@ =~= " (max 18)"@);
    assert(head + " (max "@ + decimal(18) + ")"@ =~= head + " (max 18)"@);
}

} // verus!
