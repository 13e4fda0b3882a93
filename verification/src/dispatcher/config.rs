use vstd::prelude::*;

use crate::text::{parse_unsigned, unsigned_of_text};

verus! {

/// The limits the dispatcher works within.
///
/// Once `circuit_failure_threshold` failures in a row have been counted
/// against an endpoint, its circuit opens for a cooldown that starts at
/// `circuit_cooldown_base_ms` and grows by a constant factor with every
/// further failure, up to `circuit_cooldown_max_ms`. The factor is a
/// floating-point number; it is kept and applied by the caller, who hands the
/// grown cooldown to the functions that need it. An event is given up once
/// `max_attempts` attempts have been made on it.
#[derive(Debug, Clone, Copy, PartialEq, Eq, Structural)]
pub struct DispatcherConfig {
    pub circuit_failure_threshold: u32,
    pub circuit_cooldown_base_ms: u64,
    pub circuit_cooldown_max_ms: u64,
    pub max_attempts: u32,
}

/// A setting read as a number of at most `max`, or nothing where it is
/// absent or does not read as one.
pub open spec fn setting(value: Option<Seq<char>>, max: nat) -> Option<nat> {
    match value {
        Some(text) => unsigned_of_text(text, max),
        None => None,
    }
}

fn read_setting(value: Option<&str>, max: u64) -> (r: Option<u64>)
    ensures
        match r {
            Some(n) => setting(value.deep_view(), max as nat) == Some(n as nat),
            None => setting(value.deep_view(), max as nat) is None,
        },
{
    match value {
        Some(text) => parse_unsigned(text, max),
        None => None,
    }
}

impl DispatcherConfig {
    /// The configuration that the given settings describe: each one that is
    /// absent or unreadable keeps its default, and the threshold and the
    /// attempt budget are at least one.
    pub open spec fn from_settings(
        threshold: Option<Seq<char>>,
        base_ms: Option<Seq<char>>,
        max_ms: Option<Seq<char>>,
        max_attempts: Option<Seq<char>>,
    ) -> DispatcherConfig {
        DispatcherConfig {
            circuit_failure_threshold: match setting(threshold, u32::MAX as nat) {
                Some(n) => if n < 1 {
                    1u32
                } else {
                    n as u32
                },
                None => 3u32,
            },
            circuit_cooldown_base_ms: match setting(base_ms, u64::MAX as nat) {
                Some(n) => n as u64,
                None => 30_000u64,
            },
            circuit_cooldown_max_ms: match setting(max_ms, u64::MAX as nat) {
                Some(n) => n as u64,
                None => 600_000u64,
            },
            max_attempts: match setting(max_attempts, u32::MAX as nat) {
                Some(n) => if n < 1 {
                    1u32
                } else {
                    n as u32
                },
                None => 5u32,
            },
        }
    }

    /// Builds the configuration from the values of
    /// `RECEIVER_CIRCUIT_FAILURE_THRESHOLD`, `RECEIVER_CIRCUIT_COOLDOWN_BASE_MS`,
    /// `RECEIVER_CIRCUIT_COOLDOWN_MAX_MS` and `RECEIVER_MAX_ATTEMPTS`, each as
    /// the environment holds it or `None` where it is unset.
    pub fn from_env(
        threshold: Option<&str>,
        base_ms: Option<&str>,
        max_ms: Option<&str>,
        max_attempts: Option<&str>,
    ) -> (r: DispatcherConfig)
        ensures
            r == DispatcherConfig::from_settings(
                threshold.deep_view(),
                base_ms.deep_view(),
                max_ms.deep_view(),
                max_attempts.deep_view(),
            ),
            r.circuit_failure_threshold >= 1,
            r.max_attempts >= 1,
    {
        let mut config = DispatcherConfig::default();
        if let Some(parsed) = read_setting(threshold, 0xffff_ffff) {
            config.circuit_failure_threshold = if parsed < 1 {
                1
            } else {
                parsed as u32
            };
        }
        if let Some(parsed) = read_setting(base_ms, 0xffff_ffff_ffff_ffff) {
            config.circuit_cooldown_base_ms = parsed;
        }
        if let Some(parsed) = read_setting(max_ms, 0xffff_ffff_ffff_ffff) {
            config.circuit_cooldown_max_ms = parsed;
        }
        if let Some(parsed) = read_setting(max_attempts, 0xffff_ffff) {
            config.max_attempts = if parsed < 1 {
                1
            } else {
                parsed as u32
            };
        }
        config
    }
}

impl Default for DispatcherConfig {
    fn default() -> (r: DispatcherConfig)
        ensures
            r == (DispatcherConfig {
                circuit_failure_threshold: 3,
                circuit_cooldown_base_ms: 30_000,
                circuit_cooldown_max_ms: 600_000,
                max_attempts: 5,
            }),
    {
        DispatcherConfig {
            circuit_failure_threshold: 3,
            circuit_cooldown_base_ms: 30_000,
            circuit_cooldown_max_ms: 600_000,
            max_attempts: 5,
        }
    }
}

} // verus!
