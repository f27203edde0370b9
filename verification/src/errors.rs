//! The error conditions that the library distinguishes.

use vstd::prelude::*;

verus! {

/// Everything that can go wrong while reconstructing a playlist.
///
/// Transport and status errors are local to one race participant and never
/// abort a probe on their own; only total exhaustion, malformed input, or an
/// empty result set surface to the caller.
#[derive(Copy, Clone, PartialEq, Eq, Structural, Debug)]
pub enum VodError {
    /// A candidate path did not contain the three `_` separators that the
    /// naming convention requires.
    NotEnoughUnderscores,
    /// A numeric field could not be read as a decimal integer in range.
    InvalidNumber,
    /// A unix timestamp fell outside the representable calendar range.
    TimeOutOfRange,
    /// A URL did not start with `scheme://`.
    MissingScheme,
    /// A URL had an empty host part.
    MissingHost,
    /// A URL carried no path segment after the host.
    MissingUrlPath,
    /// A time string did not match the expected calendar format.
    BadTimeString,
    /// A response body did not parse as a media playlist.
    NotMediaPlaylist,
    /// A probe answered with a non-success HTTP status.
    StatusCode(u16),
    /// A race over domains was started with no domains at all.
    NoDomainsSupplied,
    /// Every candidate of a probe failed and no distinct failure survives.
    NothingReported,
    /// Segment validation left no valid segment behind.
    NoValidSegments,
}

} // verus!
