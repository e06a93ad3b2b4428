//! Application state and supervision of the receiver.

use crate::airband::{loaded, AirbandConfig, ConfigError, ConfigFile, ConfigView};
use std::path::PathBuf;
use vstd::arithmetic::power2::{lemma2_to64, lemma_pow2_pos, lemma_pow2_unfold, pow2};
use vstd::prelude::*;

verus! {

/// The standard library's owned file path. It is carried, never looked into.
#[verifier::external_type_specification]
#[verifier::external_body]
pub struct ExPathBuf(std::path::PathBuf);

/// The part of the application state that describes the airband receiver.
#[derive(Debug)]
pub struct AppState {
    airband_locked: bool,
    airband_running: Option<AirbandConfig>,
    airband_config_path: Option<PathBuf>,
}

impl AppState {
    /// Whether the receiver owns the front-end.
    pub closed spec fn locked(self) -> bool {
        self.airband_locked
    }

    /// The running configuration.
    pub closed spec fn running(self) -> Option<ConfigView> {
        match self.airband_running {
            Some(config) => Some(config@),
            None => None,
        }
    }

    /// Where the config file is.
    pub closed spec fn config_path(self) -> Option<PathBuf> {
        self.airband_config_path
    }

    /// The front-end is locked exactly when a configuration is running.
    #[verifier::type_invariant]
    pub closed spec fn inv(self) -> bool {
        self.airband_locked == self.airband_running is Some
    }

    /// The state at startup. When the receiver is enabled, the configuration in
    /// the config file becomes the running one and the front-end is locked;
    /// `file` is what reading the file gave, `None` when no file is configured.
    /// When the receiver is disabled, `file` is ignored.
    pub fn new(
        airband: bool,
        airband_config_path: Option<PathBuf>,
        file: Option<ConfigFile>,
    ) -> (r: Result<AppState, ConfigError>)
        ensures
            match r {
                Ok(state) => {
                    &&& state.locked() == airband
                    &&& state.config_path() == airband_config_path
                    &&& match state.running() {
                        Some(config) => airband && loaded(file) == Ok::<ConfigView, ConfigError>(
                            config,
                        ),
                        None => !airband,
                    }
                },
                Err(e) => airband && loaded(file) == Err::<ConfigView, ConfigError>(e),
            },
    {
        let airband_running: Option<AirbandConfig> = if airband {
            match AirbandConfig::load(file) {
                Ok(config) => Some(config),
                Err(e) => return Err(e),
            }
        } else {
            None
        };
        Ok(AppState { airband_locked: airband, airband_running, airband_config_path })
    }

    /// Whether the front-end is locked by the airband receiver: it is then
    /// configured by the receiver alone.
    pub fn airband_locked(&self) -> (r: bool)
        ensures
            r == self.locked(),
            r == self.running() is Some,
    {
        proof {
            use_type_invariant(self);
        }
        self.airband_locked
    }

    /// The configuration loaded at startup; `None` when the receiver is
    /// disabled.
    pub fn airband_running(&self) -> (r: Option<&AirbandConfig>)
        ensures
            match r {
                Some(config) => self.running() == Some(config@),
                None => self.running() is None,
            },
    {
        self.airband_running.as_ref()
    }

    /// The path of the config file, if one is configured.
    pub fn airband_config_path(&self) -> (r: Option<&PathBuf>)
        ensures
            match r {
                Some(path) => self.config_path() == Some(*path),
                None => self.config_path() is None,
            },
    {
        self.airband_config_path.as_ref()
    }
}

/// A run of the receiver that lasts this long (ns) was healthy.
pub const HEALTHY_RUN_NS: u64 = 60_000_000_000;

/// The first delay before a restart, in seconds.
pub const FIRST_DELAY_SECS: u64 = 1;

/// The longest delay before a restart, in seconds.
pub const LONGEST_DELAY_SECS: u64 = 30;

/// The delays between restarts of the receiver: exponential, capped, and reset
/// by a healthy run.
#[derive(Debug)]
pub struct Backoff {
    secs: u64,
}

/// The delay that follows a delay.
pub open spec fn next_delay(secs: int) -> int {
    if 2 * secs <= LONGEST_DELAY_SECS {
        2 * secs
    } else {
        LONGEST_DELAY_SECS as int
    }
}

/// The delay after a run: the one that is due, or the first one if the run was
/// healthy.
pub open spec fn delay_for(secs: int, uptime_ns: u64) -> int {
    if uptime_ns >= HEALTHY_RUN_NS {
        FIRST_DELAY_SECS as int
    } else {
        secs
    }
}

/// The delay that is due after runs with the given uptimes.
pub open spec fn secs_after(uptimes_ns: Seq<u64>) -> int
    decreases uptimes_ns.len(),
{
    if uptimes_ns.len() == 0 {
        FIRST_DELAY_SECS as int
    } else {
        next_delay(delay_for(secs_after(uptimes_ns.drop_last()), uptimes_ns.last()))
    }
}

/// The first delay, `n` times followed by the next.
pub open spec fn delay_after(n: nat) -> int
    decreases n,
{
    if n == 0 {
        FIRST_DELAY_SECS as int
    } else {
        next_delay(delay_after((n - 1) as nat))
    }
}

impl Backoff {
    /// The delay before the next restart, unless the run is healthy.
    pub closed spec fn secs(self) -> int {
        self.secs as int
    }

    /// The delay is never shorter than the first nor longer than the cap.
    #[verifier::type_invariant]
    pub closed spec fn inv(self) -> bool {
        FIRST_DELAY_SECS <= self.secs <= LONGEST_DELAY_SECS
    }

    /// The delays of a receiver that has not failed yet.
    pub fn new() -> (b: Backoff)
        ensures
            b.secs() == FIRST_DELAY_SECS,
            b.secs() == 1,
    {
        Backoff { secs: FIRST_DELAY_SECS }
    }

    /// The delay in seconds before the restart that follows a run that stayed
    /// up for `uptime_ns`.
    pub fn after_run(&mut self, uptime_ns: u64) -> (delay: u64)
        ensures
            delay == delay_for(old(self).secs(), uptime_ns),
            final(self).secs() == next_delay(delay as int),
            FIRST_DELAY_SECS <= delay <= LONGEST_DELAY_SECS,
            uptime_ns >= 60_000_000_000 ==> delay == 1,
            uptime_ns < 60_000_000_000 ==> delay == old(self).secs(),
            1 <= delay <= 30,
    {
        proof {
            use_type_invariant(&*self);
        }
        let delay: u64 = if uptime_ns >= HEALTHY_RUN_NS {
            FIRST_DELAY_SECS
        } else {
            self.secs
        };
        self.secs = if 2 * delay <= LONGEST_DELAY_SECS {
            2 * delay
        } else {
            LONGEST_DELAY_SECS
        };
        delay
    }
}

/// The delay doubles with every failure in a row, up to the cap: after `n`
/// doublings it is the smaller of 2^n and 30 seconds.
pub proof fn law_delay_doubles(n: nat)
    ensures
        delay_after(n) == if pow2(n) <= LONGEST_DELAY_SECS {
            pow2(n) as int
        } else {
            LONGEST_DELAY_SECS as int
        },
        FIRST_DELAY_SECS <= delay_after(n) <= LONGEST_DELAY_SECS,
        delay_after(n) <= delay_after(n + 1),
    decreases n,
{
    lemma2_to64();
    lemma_pow2_unfold(n + 1);
    lemma_pow2_pos(n);
    if n > 0 {
        law_delay_doubles((n - 1) as nat);
        lemma_pow2_unfold(n);
        lemma_pow2_pos((n - 1) as nat);
    }
}

/// A healthy run resets the delays: whatever came before it, the runs that
/// fail after it are followed by the same delays as from the start.
pub proof fn law_healthy_run_resets(before: Seq<u64>, healthy: u64, failing: Seq<u64>)
    requires
        healthy >= HEALTHY_RUN_NS,
        forall|i: int| 0 <= i < failing.len() ==> failing[i] < HEALTHY_RUN_NS,
    ensures
        secs_after(failing) == delay_after(failing.len()),
        secs_after(before.push(healthy) + failing) == delay_after(failing.len() + 1),
    decreases failing.len(),
{
    let all = before.push(healthy) + failing;
    if failing.len() == 0 {
        assert(all =~= before.push(healthy));
        assert(all.drop_last() =~= before);
        assert(delay_after(1) == next_delay(delay_after(0)));
    } else {
        let front = failing.drop_last();
        law_healthy_run_resets(before, healthy, front);
        assert(all.drop_last() =~= before.push(healthy) + front);
        assert(all.last() == failing.last());
    }
}

/// The delay that is waited after a run: 1 s after a run of 60 s or more,
/// whatever came before it; after `n` shorter runs from the start or from such a
/// run on, and one more, the smaller of 2^n and 30 s, with the healthy run
/// counted among the `n`.
pub proof fn law_delays(before: Seq<u64>, healthy: u64, failing: Seq<u64>, last: u64)
    requires
        healthy >= 60_000_000_000,
        forall|i: int| 0 <= i < failing.len() ==> failing[i] < 60_000_000_000,
        last < 60_000_000_000,
    ensures
        delay_for(secs_after(before), healthy) == 1,
        ({
            let n = failing.len();
            &&& delay_for(secs_after(failing), last) == if pow2(n) <= 30 {
                pow2(n) as int
            } else {
                30
            }
            &&& delay_for(secs_after(before.push(healthy) + failing), last) == if pow2(n + 1)
                <= 30 {
                pow2(n + 1) as int
            } else {
                30
            }
        }),
{
    law_healthy_run_resets(before, healthy, failing);
    law_delay_doubles(failing.len());
    law_delay_doubles(failing.len() + 1);
}

} // verus!
