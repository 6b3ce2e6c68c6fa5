use vstd::prelude::*;
use vstd::string::StringSliceAdditionalSpecFns;
use crate::bits::{finite_bits, nonpositive_bits, spec_finite_bits, spec_nonpositive_bits, spec_sign_bit};
use crate::errors::ErrorKind;
use crate::rank::{Failure, Outcome, RankedEntry};

verus! {

/// A TEME state vector: position in km and velocity in km/s, each
/// component an IEEE-754 double carried as its bit pattern.
#[derive(Clone, Copy, Debug, PartialEq, Eq, Structural)]
pub struct TemeStateBits {
    pub px: u64,
    pub py: u64,
    pub pz: u64,
    pub vx: u64,
    pub vy: u64,
    pub vz: u64,
}

impl TemeStateBits {
    /// Every component is a finite double.
    pub open spec fn spec_finite(self) -> bool {
        &&& spec_finite_bits(self.px)
        &&& spec_finite_bits(self.py)
        &&& spec_finite_bits(self.pz)
        &&& spec_finite_bits(self.vx)
        &&& spec_finite_bits(self.vy)
        &&& spec_finite_bits(self.vz)
    }
}

/// One OMM member emitted as a JSON string: an optional leading comma,
/// the quoted key, a colon, and the value in quotes.
pub open spec fn spec_quoted(key: &str, value: Seq<u8>, comma: bool) -> Seq<u8> {
    (if comma {
        ",\"".spec_bytes()
    } else {
        "\"".spec_bytes()
    }) + key.spec_bytes() + "\":\"".spec_bytes() + value + "\"".spec_bytes()
}

/// The OMM object, as JSON bytes, that stands for a decoded record:
/// every value is emitted as a JSON string, which the propagator's
/// deserializer accepts for each field, and the fields this crate does
/// not model (name, designator, set and revolution numbers, the
/// mean-motion derivatives) are emitted as their OMM defaults.
pub open spec fn spec_omm_json(e: crate::elements::OrbitalElements) -> Seq<u8> {
    "{\"OBJECT_NAME\":null,\"OBJECT_ID\":null,".spec_bytes() + spec_quoted(
        "CLASSIFICATION_TYPE",
        "U".spec_bytes(),
        false,
    ) + spec_quoted("NORAD_CAT_ID", e.norad_text@, true) + spec_quoted("EPOCH", e.epoch_text@, true)
        + spec_quoted("MEAN_MOTION", e.mean_motion_text@, true) + spec_quoted(
        "ECCENTRICITY",
        e.eccentricity_text@,
        true,
    ) + spec_quoted("INCLINATION", e.inclination_text@, true) + spec_quoted(
        "RA_OF_ASC_NODE",
        e.raan_text@,
        true,
    ) + spec_quoted("ARG_OF_PERICENTER", e.arg_perigee_text@, true) + spec_quoted(
        "MEAN_ANOMALY",
        e.mean_anomaly_text@,
        true,
    ) + spec_quoted("BSTAR", e.bstar_text@, true) + spec_quoted(
        "EPHEMERIS_TYPE",
        e.ephemeris_text@,
        true,
    ) + spec_quoted("MEAN_MOTION_DOT", "0".spec_bytes(), true) + spec_quoted(
        "MEAN_MOTION_DDOT",
        "0".spec_bytes(),
        true,
    ) + spec_quoted("ELEMENT_SET_NO", "0".spec_bytes(), true) + spec_quoted(
        "REV_AT_EPOCH",
        "0".spec_bytes(),
        true,
    ) + "}".spec_bytes()
}

fn push_slice(v: &mut Vec<u8>, s: &[u8])
    ensures
        final(v)@ == old(v)@ + s@,
{
    let mut i: usize = 0;
    proof {
        assert(v@ + s@.subrange(0, 0) =~= v@);
    }
    while i < s.len()
        invariant
            i <= s@.len(),
            v@ == old(v)@ + s@.subrange(0, i as int),
        decreases s@.len() - i,
    {
        v.push(s[i]);
        proof {
            assert(old(v)@ + s@.subrange(0, i + 1) =~= (old(v)@ + s@.subrange(0, i as int)).push(
                s@[i as int],
            ));
        }
        i += 1;
    }
    proof {
        assert(s@.subrange(0, s@.len() as int) =~= s@);
    }
}

fn push_quoted(v: &mut Vec<u8>, key: &str, value: &[u8], comma: bool)
    ensures
        final(v)@ == old(v)@ + spec_quoted(key, value@, comma),
{
    if comma {
        push_slice(v, ",\"".as_bytes());
    } else {
        push_slice(v, "\"".as_bytes());
    }
    push_slice(v, key.as_bytes());
    push_slice(v, "\":\"".as_bytes());
    push_slice(v, value);
    push_slice(v, "\"".as_bytes());
    proof {
        assert(v@ =~= old(v)@ + spec_quoted(key, value@, comma));
    }
}

/// Rebuilds one OMM object, as JSON bytes, from the validated field
/// texts a record carries: exactly [`spec_omm_json`] of the record.
fn omm_json(e: &crate::elements::OrbitalElements) -> (r: Vec<u8>)
    ensures
        r@ == spec_omm_json(*e),
{
    let mut v: Vec<u8> = Vec::new();
    push_slice(&mut v, "{\"OBJECT_NAME\":null,\"OBJECT_ID\":null,".as_bytes());
    push_quoted(&mut v, "CLASSIFICATION_TYPE", "U".as_bytes(), false);
    push_quoted(&mut v, "NORAD_CAT_ID", e.norad_text.as_slice(), true);
    push_quoted(&mut v, "EPOCH", e.epoch_text.as_slice(), true);
    push_quoted(&mut v, "MEAN_MOTION", e.mean_motion_text.as_slice(), true);
    push_quoted(&mut v, "ECCENTRICITY", e.eccentricity_text.as_slice(), true);
    push_quoted(&mut v, "INCLINATION", e.inclination_text.as_slice(), true);
    push_quoted(&mut v, "RA_OF_ASC_NODE", e.raan_text.as_slice(), true);
    push_quoted(&mut v, "ARG_OF_PERICENTER", e.arg_perigee_text.as_slice(), true);
    push_quoted(&mut v, "MEAN_ANOMALY", e.mean_anomaly_text.as_slice(), true);
    push_quoted(&mut v, "BSTAR", e.bstar_text.as_slice(), true);
    push_quoted(&mut v, "EPHEMERIS_TYPE", e.ephemeris_text.as_slice(), true);
    push_quoted(&mut v, "MEAN_MOTION_DOT", "0".as_bytes(), true);
    push_quoted(&mut v, "MEAN_MOTION_DDOT", "0".as_bytes(), true);
    push_quoted(&mut v, "ELEMENT_SET_NO", "0".as_bytes(), true);
    push_quoted(&mut v, "REV_AT_EPOCH", "0".as_bytes(), true);
    push_slice(&mut v, "}".as_bytes());
    proof {
        assert(v@ =~= spec_omm_json(*e));
    }
    v
}

/// Whether the OMM object in these bytes parses and yields SGP4
/// propagation constants — a pure function of the bytes alone.
pub uninterp spec fn sgp4_accepts(j: Seq<u8>) -> bool;

/// Relies on `serde_json::from_slice` with the sgp4 crate's OMM
/// deserialization, and on `sgp4::Constants::from_elements`: both are
/// deterministic in the bytes, so whether they succeed is a function of
/// the bytes, which this call decides.
#[verifier::external_body]
fn sgp4_check(j: &[u8]) -> (r: bool)
    ensures
        r == sgp4_accepts(j@),
{
    serde_json::from_slice::<sgp4::Elements>(j)
        .ok()
        .and_then(|e| sgp4::Constants::from_elements(&e).ok())
        .is_some()
}

/// The SGP4 propagation outcome for the OMM object in these bytes at
/// the given UTC instant (Unix microseconds): the TEME state, or the
/// error kind — rejected elements, an instant out of range for the
/// time arithmetic, or a diverged (decayed) orbit. A pure function of
/// the bytes and the instant alone.
pub uninterp spec fn sgp4_outcome(j: Seq<u8>, micros: i64) -> Result<TemeStateBits, ErrorKind>;

/// Relies on `serde_json::from_slice` (sgp4's OMM deserialization),
/// `sgp4::Constants::from_elements`, chrono's
/// `DateTime::from_timestamp_micros`,
/// `sgp4::Elements::datetime_to_minutes_since_epoch` and
/// `sgp4::Constants::propagate`. Every step is deterministic in (bytes,
/// instant), so the outcome is the named function of them; a parse or
/// constants failure is an element-domain error, a time failure a
/// numeric overflow, and each `propagate` error a diverged orbit.
#[verifier::external_body]
fn sgp4_run(j: &[u8], micros: i64) -> (r: Result<TemeStateBits, ErrorKind>)
    ensures
        r == sgp4_outcome(j@, micros),
        sgp4_accepts(j@) ==> !(r matches Err(k) && k == ErrorKind::ElementsOutOfRange),
{
    let e: sgp4::Elements = serde_json::from_slice(j).map_err(|_| ErrorKind::ElementsOutOfRange)?;
    let c = sgp4::Constants::from_elements(&e).map_err(|_| ErrorKind::ElementsOutOfRange)?;
    let dt = chrono::DateTime::from_timestamp_micros(micros).ok_or(ErrorKind::NumericOverflow)?.naive_utc();
    let t = e.datetime_to_minutes_since_epoch(&dt).map_err(|_| ErrorKind::NumericOverflow)?;
    let p = c.propagate(t).map_err(|_| ErrorKind::Decayed)?;
    Ok(TemeStateBits {
        px: p.position[0].to_bits(), py: p.position[1].to_bits(), pz: p.position[2].to_bits(),
        vx: p.velocity[0].to_bits(), vy: p.velocity[1].to_bits(), vz: p.velocity[2].to_bits(),
    })
}

/// Determinism through the propagation step: the SGP4 outcome is a
/// function of the record's OMM bytes and the queried instant alone,
/// so identical records queried at identical instants yield identical
/// states or errors, whatever schedule runs the propagations.
pub proof fn lemma_propagation_deterministic(a: Seq<u8>, b: Seq<u8>, micros: i64)
    requires
        a == b,
    ensures
        sgp4_outcome(a, micros) == sgp4_outcome(b, micros),
{
}

/// Greenwich Mean Sidereal Time at a Unix instant in microseconds, in
/// radians, as IEEE-754 bits: a pure function of the instant alone.
pub uninterp spec fn spec_gmst_bits(micros: i64) -> u64;

/// Relies on chrono's `DateTime::from_timestamp_micros` — documented to
/// succeed on every instant within chrono's range, which covers the
/// crate's whole accepted epoch span — and on
/// `sgp4::julian_years_since_j2000` and
/// `sgp4::iau_epoch_to_sidereal_time`: GMST by the IAU 1982 expression,
/// normalized to [0, 2π), a deterministic function of the instant.
#[verifier::external_body]
fn gmst_raw(micros: i64) -> (r: Option<u64>)
    ensures
        r matches Some(b) ==> b == spec_gmst_bits(micros),
        0 <= micros <= 300000000000000000 ==> r is Some,
{
    let dt = chrono::DateTime::from_timestamp_micros(micros)?.naive_utc();
    Some(sgp4::iau_epoch_to_sidereal_time(sgp4::julian_years_since_j2000(&dt)).to_bits())
}

/// GMST at the instant, in radians in [0, 2π), as IEEE-754 bits: `None`
/// only outside chrono's representable range, and never for an instant
/// within the crate's accepted epoch span.
pub fn gmst_bits(query_micros: i64) -> (r: Option<u64>)
    ensures
        r matches Some(b) ==> b == spec_gmst_bits(query_micros),
        0 <= query_micros <= 300000000000000000 ==> r is Some,
{
    gmst_raw(query_micros)
}

/// The per-record working set: the OMM bytes a record stands for, held
/// with the identity the ranking needs. Each propagation re-derives the
/// SGP4 constants from these bytes, which keeps the whole propagation a
/// single named function of (record bytes, instant).
pub struct Propagator {
    norad_id: u64,
    epoch_micros: i64,
    omm: Vec<u8>,
}

impl Propagator {
    /// The catalog id of the record this working set came from.
    pub closed spec fn spec_id(self) -> u64 {
        self.norad_id
    }

    /// The epoch of the record, Unix time in microseconds.
    pub closed spec fn spec_epoch_micros(self) -> i64 {
        self.epoch_micros
    }

    /// The OMM bytes the record stands for.
    pub closed spec fn spec_omm(self) -> Seq<u8> {
        self.omm@
    }

    pub fn id(&self) -> (r: u64)
        ensures
            r == self.spec_id(),
    {
        self.norad_id
    }

    pub fn epoch_micros(&self) -> (r: i64)
        ensures
            r == self.spec_epoch_micros(),
    {
        self.epoch_micros
    }

    /// Propagates to the queried UTC instant (Unix microseconds): the
    /// result is exactly the named SGP4 outcome of the record's OMM
    /// bytes at that instant, with any state that has a non-finite
    /// component rejected as a numeric overflow. A returned state is
    /// finite in every component; on a record accepted by [`prepare`]
    /// an element-domain error can no longer arise.
    pub fn propagate_at(&self, query_micros: i64) -> (r: Result<TemeStateBits, ErrorKind>)
        ensures
            r == (match sgp4_outcome(self.spec_omm(), query_micros) {
                Ok(s) => if s.spec_finite() {
                    Result::<TemeStateBits, ErrorKind>::Ok(s)
                } else {
                    Result::<TemeStateBits, ErrorKind>::Err(ErrorKind::NumericOverflow)
                },
                Err(k) => Result::<TemeStateBits, ErrorKind>::Err(k),
            }),
            r matches Ok(s) ==> s.spec_finite(),
            sgp4_accepts(self.spec_omm()) ==> !(r matches Err(k) && k
                == ErrorKind::ElementsOutOfRange),
    {
        let s = match sgp4_run(self.omm.as_slice(), query_micros) {
            Err(k) => { return Err(k) },
            Ok(s) => s,
        };
        if !(finite_bits(s.px) && finite_bits(s.py) && finite_bits(s.pz) && finite_bits(s.vx)
            && finite_bits(s.vy) && finite_bits(s.vz)) {
            return Err(ErrorKind::NumericOverflow);
        }
        Ok(s)
    }
}

/// Builds the per-record working set for one decoded record.
///
/// A deep-space record — period of 225 minutes or more — is rejected
/// here, before any propagation, and that is the only input rejected as
/// deep space. Every other record succeeds exactly when the SGP4 layer
/// accepts the OMM object the record stands for; a rejection there is
/// an element-domain error.
pub fn prepare(e: &crate::elements::OrbitalElements) -> (r: Result<Propagator, ErrorKind>)
    requires
        e.valid(),
    ensures
        r is Ok <==> (!e.spec_deep_space() && sgp4_accepts(spec_omm_json(*e))),
        e.spec_deep_space() <==> (r matches Err(k) && k == ErrorKind::DeepSpaceUnsupported),
        r matches Err(k) ==> k == ErrorKind::DeepSpaceUnsupported || k
            == ErrorKind::ElementsOutOfRange,
        r matches Ok(p) ==> p.spec_id() == e.norad_id && p.spec_epoch_micros() == e.epoch_micros
            && p.spec_omm() == spec_omm_json(*e) && sgp4_accepts(p.spec_omm()),
{
    if e.is_deep_space() {
        return Err(ErrorKind::DeepSpaceUnsupported);
    }
    let json = omm_json(e);
    if !sgp4_check(json.as_slice()) {
        return Err(ErrorKind::ElementsOutOfRange);
    }
    Ok(Propagator { norad_id: e.norad_id, epoch_micros: e.epoch_micros, omm: json })
}

/// Judges one satellite's computed sub-satellite point and distance
/// metric, both as IEEE-754 bits: any non-finite coordinate or a
/// negative distance is a numeric overflow; an altitude at or below the
/// ellipsoid means the orbit has decayed at the query time; otherwise
/// the satellite enters the ranking with exactly these coordinates.
/// A placed distance has a clear sign bit, so the unsigned order of the
/// carried bits is the numeric order of the distances.
pub fn assess(norad_id: u64, lat_bits: u64, lon_bits: u64, alt_bits: u64, distance_bits: u64) -> (r:
    Outcome)
    ensures
        r == (if !spec_finite_bits(lat_bits) || !spec_finite_bits(lon_bits) || !spec_finite_bits(
            alt_bits,
        ) || !spec_finite_bits(distance_bits) || spec_sign_bit(distance_bits) {
            Outcome::Failed(Failure { norad_id, kind: ErrorKind::NumericOverflow })
        } else if spec_nonpositive_bits(alt_bits) {
            Outcome::Failed(Failure { norad_id, kind: ErrorKind::Decayed })
        } else {
            Outcome::Placed(RankedEntry { norad_id, lat_bits, lon_bits, alt_bits, distance_bits })
        }),
{
    if !(finite_bits(lat_bits) && finite_bits(lon_bits) && finite_bits(alt_bits) && finite_bits(
        distance_bits,
    )) || (distance_bits >> 63u64) == 1 {
        return Outcome::Failed(Failure { norad_id, kind: ErrorKind::NumericOverflow });
    }
    if nonpositive_bits(alt_bits) {
        return Outcome::Failed(Failure { norad_id, kind: ErrorKind::Decayed });
    }
    Outcome::Placed(RankedEntry { norad_id, lat_bits, lon_bits, alt_bits, distance_bits })
}

} // verus!
