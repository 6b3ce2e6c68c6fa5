use vstd::prelude::*;

verus! {

/// Why the catalog decoder rejected one record.
#[derive(Clone, Copy, Debug, PartialEq, Eq, Structural)]
pub enum DecodeReason {
    /// A required field is absent.
    MissingField,
    /// A numeric field is not a plain decimal of the accepted width.
    BadNumber,
    /// The epoch is not a calendar instant of the accepted form.
    BadEpoch,
    /// A field parsed but lies outside its domain (eccentricity, angles, mean motion).
    ValueOutOfRange,
}

/// A rejected catalog record: its position in the input and the reason.
#[derive(Clone, Copy, Debug, PartialEq, Eq, Structural)]
pub struct MalformedRecord {
    pub index: usize,
    pub reason: DecodeReason,
}

/// Per-satellite failure kinds surfaced in a query's failure list.
/// A failure never aborts the query; the satellite is only excluded
/// from the ranking.
#[derive(Clone, Copy, Debug, PartialEq, Eq, Structural)]
pub enum ErrorKind {
    /// Derived propagation constants violate the element domain.
    ElementsOutOfRange,
    /// Orbital period is 225 minutes or more; outside the near-Earth scope.
    DeepSpaceUnsupported,
    /// The Kepler iteration did not converge. Part of the error
    /// taxonomy for callers; the propagator in use caps its Kepler
    /// iteration and returns without reporting non-convergence, so no
    /// path in this crate produces this kind.
    KeplerNonConvergent,
    /// The orbit has re-entered: perigee at or below the surface at the
    /// target time, or the propagated eccentricity left [0, 1).
    Decayed,
    /// A non-finite intermediate or result.
    NumericOverflow,
}

} // verus!
