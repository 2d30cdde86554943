//! Startup configuration: the polling interval and the two exclusion
//! sets, constructed once and passed down to each component — no hidden
//! global state.

use vstd::prelude::*;
use vstd::string::StrSliceExecFns;

use crate::errors::TrackerError;
use crate::{MAX_POLLING_INTERVAL_SECS, MIN_POLLING_INTERVAL_SECS};

verus! {

/// The polling interval used when the configuration supplies none, in
/// seconds.
pub const DEFAULT_POLLING_INTERVAL_SECS: u64 = 10;

/// The longest duration text [`parse_duration_secs`] accepts, in
/// characters.
pub const MAX_DURATION_TEXT_CHARS: usize = 25;

/// What humantime's `parse_duration` yields on these characters: the
/// duration's whole seconds, or nothing where the text is not a duration.
pub uninterp spec fn duration_secs_of(s: Seq<char>) -> Option<u64>;

/// Relies on humantime's `parse_duration`: parsing a duration is a pure
/// function of the characters alone; `Duration::as_secs` takes its whole
/// seconds.
///
/// The length bound keeps the call away from `parse_duration`'s one
/// panicking corner: a span whose units sum to exactly `u64::MAX` whole
/// seconds plus exactly one more second of nanoseconds overflows inside
/// the call. Reaching `u64::MAX` seconds takes at least twenty characters
/// (the shortest being a sixteen-digit hour count with a seconds
/// remainder), and the shortest term worth exactly one second of
/// nanoseconds takes six more, twenty-six in all, so no admitted text
/// reaches it.
#[verifier::external_body]
fn parse_duration_secs(s: &str) -> (r: Option<u64>)
    requires
        s@.len() <= MAX_DURATION_TEXT_CHARS,
    ensures
        r == duration_secs_of(s@),
{
    match humantime::parse_duration(s) {
        Ok(d) => Some(d.as_secs()),
        Err(_) => None,
    }
}

/// Whether a polling interval lies within the accepted bounds: one second
/// to one hour inclusive.
pub open spec fn interval_in_bounds(secs: int) -> bool {
    MIN_POLLING_INTERVAL_SECS <= secs <= MAX_POLLING_INTERVAL_SECS
}

/// Parses a configured polling interval such as `10s` or `2m`. Text that
/// is no duration, or longer than [`MAX_DURATION_TEXT_CHARS`] characters
/// (an accepted interval never needs more), or one outside the accepted
/// bounds, is a fatal [`TrackerError::ConfigurationInvalid`] at startup.
pub fn parse_polling_interval(s: &str) -> (r: Result<u64, TrackerError>)
    ensures
        s@.len() > MAX_DURATION_TEXT_CHARS ==> r == Err::<u64, TrackerError>(
            TrackerError::ConfigurationInvalid,
        ),
        s@.len() <= MAX_DURATION_TEXT_CHARS ==> r == match duration_secs_of(s@) {
            Some(secs) => if interval_in_bounds(secs as int) {
                Ok::<u64, TrackerError>(secs)
            } else {
                Err::<u64, TrackerError>(TrackerError::ConfigurationInvalid)
            },
            None => Err::<u64, TrackerError>(TrackerError::ConfigurationInvalid),
        },
{
    if s.unicode_len() > MAX_DURATION_TEXT_CHARS {
        return Err(TrackerError::ConfigurationInvalid);
    }
    match parse_duration_secs(s) {
        Some(secs) => {
            if MIN_POLLING_INTERVAL_SECS <= secs && secs <= MAX_POLLING_INTERVAL_SECS {
                Ok(secs)
            } else {
                Err(TrackerError::ConfigurationInvalid)
            }
        },
        None => Err(TrackerError::ConfigurationInvalid),
    }
}

/// The tracker's configuration, validated at construction.
pub struct Config {
    /// Delay between snapshot cycles, in seconds; within the accepted
    /// bounds.
    pub polling_interval_secs: u64,
    /// Process names excluded by exact match.
    pub blocked_names: Vec<String>,
    /// Executable path prefixes excluded from tracking.
    pub blocked_prefixes: Vec<String>,
}

impl Config {
    /// The polling interval lies within the accepted bounds.
    pub open spec fn wf(&self) -> bool {
        interval_in_bounds(self.polling_interval_secs as int)
    }

    /// Builds a configuration; an out-of-bounds interval is a fatal
    /// [`TrackerError::ConfigurationInvalid`].
    pub fn new(
        polling_interval_secs: u64,
        blocked_names: Vec<String>,
        blocked_prefixes: Vec<String>,
    ) -> (r: Result<Config, TrackerError>)
        ensures
            interval_in_bounds(polling_interval_secs as int) ==> (r matches Ok(c) && c.wf()
                && c.polling_interval_secs == polling_interval_secs && c.blocked_names
                == blocked_names && c.blocked_prefixes == blocked_prefixes),
            !interval_in_bounds(polling_interval_secs as int) ==> r == Err::<Config, TrackerError>(
                TrackerError::ConfigurationInvalid,
            ),
    {
        if MIN_POLLING_INTERVAL_SECS <= polling_interval_secs && polling_interval_secs
            <= MAX_POLLING_INTERVAL_SECS {
            Ok(Config { polling_interval_secs, blocked_names, blocked_prefixes })
        } else {
            Err(TrackerError::ConfigurationInvalid)
        }
    }
}

} // verus!
