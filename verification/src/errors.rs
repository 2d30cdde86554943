//! The error kinds the tracker can surface.

use vstd::prelude::*;

verus! {

/// What can go wrong in one poll cycle or at startup.
///
/// The pure stages (filter, normalize, aggregate) cannot fail; only the
/// snapshot boundary, the persistence boundary and startup configuration
/// can, and each failure is scoped to its cycle.
#[derive(Clone, Copy, Debug, PartialEq, Eq, Structural)]
pub enum TrackerError {
    /// The snapshot could not be obtained; the cycle is skipped and the
    /// next interval retries.
    ProviderUnavailable,
    /// A persisted timestamp or numeric field could not be parsed; fatal.
    LedgerCorruption,
    /// The polling interval is unparseable or out of bounds; fatal at
    /// startup.
    ConfigurationInvalid,
    /// A persistence write failed; the cycle's results are discarded and
    /// the next cycle retries independently.
    StorageUnavailable,
}

} // verus!
