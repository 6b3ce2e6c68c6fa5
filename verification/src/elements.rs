use vstd::prelude::*;
use crate::decode::{spec_dec_nano, spec_epoch_micros, spec_parse_u64};

verus! {

/// A full turn in nanodegrees.
pub const TURN_NANO: i64 = 360000000000;

/// A normalized catalog record.
///
/// Every quantity is carried twice: as a fixed-point integer in
/// nano-units (angles in nanodegrees, mean motion in nano-revolutions
/// per day, eccentricity and drag term in billionths), on which the
/// domain rules are verified exactly, and as the catalog text it was
/// read from, which is what the propagator's own parser consumes. The
/// invariant [`OrbitalElements::valid`] ties each text to its integer model, so
/// the two readings can never drift apart.
#[derive(Clone, Debug)]
pub struct OrbitalElements {
    pub norad_id: u64,
    /// Epoch as Unix time in microseconds, UTC.
    pub epoch_micros: i64,
    pub mean_motion_nano: u64,
    pub eccentricity_nano: u64,
    pub inclination_nano: i64,
    pub raan_nano: i64,
    pub arg_perigee_nano: i64,
    pub mean_anomaly_nano: i64,
    pub bstar_nano: i64,
    pub ephemeris_type: u8,
    pub norad_text: Vec<u8>,
    /// The epoch text with a trailing `Z`, if any, removed.
    pub epoch_text: Vec<u8>,
    pub mean_motion_text: Vec<u8>,
    pub eccentricity_text: Vec<u8>,
    pub inclination_text: Vec<u8>,
    pub raan_text: Vec<u8>,
    pub arg_perigee_text: Vec<u8>,
    pub mean_anomaly_text: Vec<u8>,
    pub bstar_text: Vec<u8>,
    pub ephemeris_text: Vec<u8>,
}

/// An angle in nanodegrees reduced to [0, 360°).
pub open spec fn spec_norm_angle(x: int) -> int {
    x % (TURN_NANO as int)
}

impl OrbitalElements {
    /// Each text parses, to exactly the integer model beside it.
    pub open spec fn texts_consistent(self) -> bool {
        &&& spec_parse_u64(self.norad_text@) == Some(self.norad_id as int)
        &&& spec_epoch_micros(self.epoch_text@) == Some(self.epoch_micros as int)
        &&& spec_dec_nano(self.mean_motion_text@) == Some(self.mean_motion_nano as int)
        &&& spec_dec_nano(self.eccentricity_text@) == Some(self.eccentricity_nano as int)
        &&& spec_dec_nano(self.inclination_text@) == Some(self.inclination_nano as int)
        &&& spec_dec_nano(self.raan_text@) is Some && self.raan_nano == spec_norm_angle(
            spec_dec_nano(self.raan_text@)->0,
        )
        &&& spec_dec_nano(self.arg_perigee_text@) is Some && self.arg_perigee_nano
            == spec_norm_angle(spec_dec_nano(self.arg_perigee_text@)->0)
        &&& spec_dec_nano(self.mean_anomaly_text@) is Some && self.mean_anomaly_nano
            == spec_norm_angle(spec_dec_nano(self.mean_anomaly_text@)->0)
        &&& spec_dec_nano(self.bstar_text@) == Some(self.bstar_nano as int)
        &&& spec_parse_u64(self.ephemeris_text@) == Some(self.ephemeris_type as int)
    }

    /// The record invariant the decoder establishes: positive mean motion,
    /// eccentricity in [0, 1), inclination in [0, 180°], the other angles
    /// normalized to [0, 360°), an epoch within the accepted years, and
    /// every carried text consistent with its integer model.
    pub open spec fn valid(self) -> bool {
        &&& 0 < self.mean_motion_nano
        &&& self.eccentricity_nano < 1000000000
        &&& 0 <= self.inclination_nano <= 180000000000
        &&& 0 <= self.raan_nano < TURN_NANO
        &&& 0 <= self.arg_perigee_nano < TURN_NANO
        &&& 0 <= self.mean_anomaly_nano < TURN_NANO
        &&& 0 <= self.epoch_micros <= 300000000000000000
        &&& self.texts_consistent()
    }

    /// An orbit whose period is 225 minutes or more — mean motion at most
    /// 1440/225 = 6.4 revolutions per day — is deep space and outside the
    /// near-Earth SGP4 domain this crate supports. This classification
    /// judges the catalog (Kozai) mean motion of the record itself, not
    /// the Brouwer mean motion the propagator derives from it; the two
    /// differ by the small Kozai-to-Brouwer correction.
    pub open spec fn spec_deep_space(self) -> bool {
        self.mean_motion_nano <= 6400000000
    }

    pub fn is_deep_space(&self) -> (r: bool)
        ensures
            r == self.spec_deep_space(),
    {
        self.mean_motion_nano <= 6400000000
    }

    /// Record identity is the catalog id together with the epoch: two
    /// records with the same id but different epochs are different
    /// entities (the newer supersedes for query purposes).
    pub fn same_identity(&self, other: &OrbitalElements) -> (r: bool)
        ensures
            r == (self.norad_id == other.norad_id && self.epoch_micros == other.epoch_micros),
    {
        self.norad_id == other.norad_id && self.epoch_micros == other.epoch_micros
    }
}

/// Reduces an angle in nanodegrees to [0, 360°).
pub fn norm_angle_nano(x: i64) -> (r: i64)
    ensures
        r == spec_norm_angle(x as int),
        0 <= r < TURN_NANO,
{
    let m = x % TURN_NANO;
    if m < 0 {
        m + TURN_NANO
    } else {
        m
    }
}

} // verus!
