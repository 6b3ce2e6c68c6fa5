use vstd::prelude::*;
use crate::elements::{norm_angle_nano, OrbitalElements};
use crate::errors::{DecodeReason, MalformedRecord};
use crate::timebase::{civil_micros, civil_to_micros, days_in_month, month_days};

verus! {

pub open spec fn is_digit(c: u8) -> bool {
    48 <= c <= 57
}

pub open spec fn all_digits(s: Seq<u8>) -> bool {
    forall|i: int| 0 <= i < s.len() ==> is_digit(s[i])
}

/// The integer written by a run of decimal digit characters.
pub open spec fn digits_val(s: Seq<u8>) -> int
    decreases s.len(),
{
    if s.len() == 0 {
        0
    } else {
        digits_val(s.drop_last()) * 10 + (s.last() - 48)
    }
}

pub open spec fn pow10(k: nat) -> int
    decreases k,
{
    if k == 0 {
        1
    } else {
        10 * pow10((k - 1) as nat)
    }
}

proof fn lemma_pow10_mono(a: nat, b: nat)
    requires
        a <= b,
    ensures
        1 <= pow10(a) <= pow10(b),
    decreases b,
{
    if a == b {
        if a > 0 {
            lemma_pow10_mono((a - 1) as nat, (b - 1) as nat);
        }
    } else {
        lemma_pow10_mono(a, (b - 1) as nat);
    }
}

proof fn lemma_pow10_vals()
    ensures
        pow10(9) == 1000000000,
        pow10(17) == 100000000000000000,
        pow10(18) == 1000000000000000000,
{
    reveal_with_fuel(pow10, 20);
}

proof fn lemma_digits_val_bound(s: Seq<u8>)
    requires
        all_digits(s),
    ensures
        0 <= digits_val(s) < pow10(s.len()),
    decreases s.len(),
{
    if s.len() > 0 {
        assert(all_digits(s.drop_last())) by {
            assert(forall|i: int| 0 <= i < s.len() - 1 ==> s.drop_last()[i] == s[i]);
        }
        lemma_digits_val_bound(s.drop_last());
        assert(is_digit(s.last()));
    }
}

fn parse_digits_range(s: &[u8], a: usize, b: usize) -> (r: Option<u64>)
    requires
        a <= b && b <= s@.len(),
        b - a <= 18,
    ensures
        r is Some <==> all_digits(s@.subrange(a as int, b as int)),
        r matches Some(v) ==> v == digits_val(s@.subrange(a as int, b as int)) && v
            < pow10((b - a) as nat),
{
    let mut i: usize = a;
    let mut acc: u64 = 0;
    proof {
        assert(s@.subrange(a as int, a as int) =~= Seq::<u8>::empty());
        lemma_pow10_mono(0, (i - a) as nat);
    }
    while i < b
        invariant
            a <= i <= b,
            b <= s@.len(),
            b - a <= 18,
            all_digits(s@.subrange(a as int, i as int)),
            acc == digits_val(s@.subrange(a as int, i as int)),
            acc < pow10((i - a) as nat),
        decreases b - i,
    {
        let c = s[i];
        if c < 48 || c > 57 {
            proof {
                assert(s@.subrange(a as int, b as int)[i - a] == s@[i as int]);
            }
            return None;
        }
        proof {
            lemma_pow10_mono((i - a) as nat, 17);
            lemma_pow10_vals();
            assert(acc < 100000000000000000);
        }
        acc = acc * 10 + ((c - 48) as u64);
        proof {
            let prev = s@.subrange(a as int, i as int);
            let cur = s@.subrange(a as int, i + 1);
            assert(cur.drop_last() =~= prev);
            assert(cur.last() == s@[i as int]);
            assert(all_digits(cur)) by {
                assert(forall|k: int| 0 <= k < prev.len() ==> cur[k] == prev[k]);
            }
        }
        i += 1;
    }
    Some(acc)
}

/// The value of a decimal-digit field, scaled as if padded or truncated
/// on the right to exactly `width` digits after an implied point.
pub open spec fn scaled_digits(f: Seq<u8>, width: nat) -> int {
    if f.len() >= width {
        digits_val(f.take(width as int))
    } else {
        digits_val(f) * pow10((width - f.len()) as nat)
    }
}

/// Index of the first `.` in the field, or -1 when there is none.
pub open spec fn find_dot(s: Seq<u8>) -> int
    decreases s.len(),
{
    if s.len() == 0 {
        -1
    } else if s[0] == 46 {
        0
    } else if find_dot(s.drop_first()) == -1 {
        -1
    } else {
        find_dot(s.drop_first()) + 1
    }
}

proof fn lemma_find_dot_at(s: Seq<u8>, i: int)
    requires
        0 <= i <= s.len(),
        forall|k: int| 0 <= k < i ==> s[k] != 46,
        i < s.len() ==> s[i] == 46,
    ensures
        i == s.len() ==> find_dot(s) == -1,
        i < s.len() ==> find_dot(s) == i,
    decreases s.len(),
{
    if s.len() > 0 && i > 0 {
        let t = s.drop_first();
        assert(forall|k: int| 0 <= k < i - 1 ==> t[k] == s[k + 1]);
        assert(i - 1 < t.len() ==> t[i - 1] == s[i]);
        lemma_find_dot_at(t, i - 1);
    }
}

/// A plain signed decimal in nano units (billionths), truncating digits
/// beyond the ninth fractional place: an optional `-`, one to nine
/// integer digits, optionally a point and one to eighteen fraction
/// digits. Anything else is rejected.
pub open spec fn spec_dec_nano_unsigned(s: Seq<u8>) -> Option<int> {
    let d = find_dot(s);
    if d == -1 {
        if 1 <= s.len() <= 9 && all_digits(s) {
            Some(digits_val(s) * 1000000000)
        } else {
            None
        }
    } else {
        let ip = s.take(d);
        let fp = s.skip(d + 1);
        if 1 <= ip.len() <= 9 && all_digits(ip) && 1 <= fp.len() <= 18 && all_digits(fp) {
            Some(digits_val(ip) * 1000000000 + scaled_digits(fp, 9))
        } else {
            None
        }
    }
}

pub open spec fn spec_dec_nano(s: Seq<u8>) -> Option<int> {
    if s.len() > 0 && s[0] == 45 {
        match spec_dec_nano_unsigned(s.drop_first()) {
            Some(v) => Some(-v),
            None => None,
        }
    } else {
        spec_dec_nano_unsigned(s)
    }
}

fn pow10_exec(k: u64) -> (r: u64)
    requires
        k <= 18,
    ensures
        r == pow10(k as nat),
{
    let mut i: u64 = 0;
    let mut acc: u64 = 1;
    while i < k
        invariant
            i <= k <= 18,
            acc == pow10(i as nat),
        decreases k - i,
    {
        proof {
            lemma_pow10_mono(i as nat, 17);
            lemma_pow10_vals();
        }
        acc = acc * 10;
        i += 1;
    }
    acc
}

proof fn lemma_pow10_mul(a: nat, b: nat)
    ensures
        pow10(a) * pow10(b) == pow10(a + b),
    decreases a,
{
    if a == 0 {
    } else {
        lemma_pow10_mul((a - 1) as nat, b);
        assert(pow10(a) * pow10(b) == 10 * (pow10((a - 1) as nat) * pow10(b))) by (nonlinear_arith)
            requires
                pow10(a) == 10 * pow10((a - 1) as nat),
        ;
    }
}

/// Reads the fraction digits `s[a..b]` as a field of `width` implied
/// places: truncated after `width` digits, padded with zeros when shorter.
fn parse_frac_scaled(s: &[u8], a: usize, b: usize, width: usize) -> (r: Option<u64>)
    requires
        a <= b && b <= s@.len(),
        1 <= b - a <= 18,
        1 <= width <= 9,
    ensures
        r is Some <==> all_digits(s@.subrange(a as int, b as int)),
        r matches Some(v) ==> v == scaled_digits(s@.subrange(a as int, b as int), width as nat)
            && v < pow10(width as nat),
{
    let ghost fp = s@.subrange(a as int, b as int);
    let fl = b - a;
    let w = if fl >= width { width } else { fl };
    let fv = match parse_digits_range(s, a, a + w) {
        None => {
            proof {
                assert(s@.subrange(a as int, a + w) =~= fp.take(w as int));
                assert(!all_digits(fp)) by {
                    let bad = choose|k: int|
                        0 <= k < fp.take(w as int).len() && !is_digit(fp.take(w as int)[k]);
                    assert(fp[bad] == fp.take(w as int)[bad]);
                }
            }
            return None;
        },
        Some(v) => v,
    };
    let mut j: usize = a + w;
    while j < b
        invariant
            a + w <= j <= b <= s@.len(),
            w <= b - a,
            forall|k: int| a + w <= k < j ==> is_digit(s@[k]),
        decreases b - j,
    {
        let c = s[j];
        if c < 48 || c > 57 {
            proof {
                assert(s@.subrange(a as int, b as int)[j - a] == s@[j as int]);
            }
            return None;
        }
        j += 1;
    }
    let scale = pow10_exec((width - w) as u64);
    proof {
        assert(all_digits(fp)) by {
            assert(forall|k: int| 0 <= k < w ==> fp[k] == s@.subrange(a as int, a + w)[k]);
            assert(forall|k: int| w <= k < fp.len() ==> fp[k] == s@[k + a]);
        }
        assert(s@.subrange(a as int, a + w) =~= fp.take(w as int));
        lemma_pow10_mul(w as nat, (width - w) as nat);
        lemma_pow10_mono((width - w) as nat, 9);
        lemma_pow10_mono(w as nat, 9);
        lemma_pow10_vals();
        if fl < width {
            assert(fp.take(w as int) =~= fp);
        }
        assert(fv * scale < pow10(width as nat)) by (nonlinear_arith)
            requires
                0 <= fv < pow10(w as nat),
                scale == pow10((width - w) as nat),
                scale >= 1,
                pow10(w as nat) * pow10((width - w) as nat) == pow10((width) as nat),
        ;
        if fl >= width {
            assert(w == width);
            assert(scale == pow10(0));
            assert(pow10(0) == 1);
            assert(fv * scale == fv) by (nonlinear_arith)
                requires
                    scale == 1,
            ;
            assert(fv == digits_val(fp.take(width as int)));
        } else {
            assert(fp.take(w as int) =~= fp);
            assert(fv == digits_val(fp));
            assert(scaled_digits(fp, width as nat) == digits_val(fp) * pow10(
                (width - fp.len()) as nat,
            ));
        }
        lemma_pow10_mono(width as nat, 9);
    }
    Some(fv * scale)
}

fn parse_unsigned_nano(s: &[u8], from: usize) -> (r: Option<i64>)
    requires
        from <= s@.len(),
    ensures
        r is Some <==> spec_dec_nano_unsigned(s@.skip(from as int)) is Some,
        r matches Some(v) ==> spec_dec_nano_unsigned(s@.skip(from as int)) == Some(v as int) && 0
            <= v < 1000000000000000000,
{
    let ghost body = s@.skip(from as int);
    let n = s.len();
    let mut i: usize = from;
    while i < n && s[i] != 46
        invariant
            from <= i <= n == s@.len(),
            forall|k: int| from <= k < i ==> s@[k] != 46,
        decreases n - i,
    {
        i += 1;
    }
    proof {
        assert(forall|k: int| 0 <= k < i - from ==> body[k] == s@[k + from]);
        assert(i - from < body.len() ==> body[i - from] == s@[i as int]);
        lemma_find_dot_at(body, i - from);
    }
    if i == n {
        // no point: a bare integer field
        if n - from < 1 || n - from > 9 {
            return None;
        }
        match parse_digits_range(s, from, n) {
            None => {
                proof {
                    assert(body =~= s@.subrange(from as int, n as int));
                }
                None
            },
            Some(v) => {
                proof {
                    assert(body =~= s@.subrange(from as int, n as int));
                    lemma_pow10_vals();
                    lemma_pow10_mono(((n - from)) as nat, 9);
                }
                Some((v * 1000000000) as i64)
            },
        }
    } else {
        // point at i
        let ghost d = (i - from) as int;
        let ghost ip = body.take(d);
        let ghost fp = body.skip(d + 1);
        if i - from < 1 || i - from > 9 {
            return None;
        }
        let fl = n - i - 1;
        if fl < 1 || fl > 18 {
            return None;
        }
        let intv = match parse_digits_range(s, from, i) {
            None => {
                proof {
                    assert(ip =~= s@.subrange(from as int, i as int));
                }
                return None;
            },
            Some(v) => v,
        };
        let frac = match parse_frac_scaled(s, i + 1, n, 9) {
            None => {
                proof {
                    assert(fp =~= s@.subrange(i + 1, n as int));
                }
                return None;
            },
            Some(v) => v,
        };
        proof {
            assert(ip =~= s@.subrange(from as int, i as int));
            assert(fp =~= s@.subrange(i + 1, n as int));
            lemma_pow10_vals();
            lemma_pow10_mono((i - from) as nat, 9);
        }
        Some((intv * 1000000000 + frac) as i64)
    }
}

/// Parses a signed decimal field into nano units, exactly as
/// [`spec_dec_nano`] reads it.
pub fn parse_dec_nano(s: &[u8]) -> (r: Option<i64>)
    ensures
        r is Some <==> spec_dec_nano(s@) is Some,
        r matches Some(v) ==> spec_dec_nano(s@) == Some(v as int),
{
    if s.len() > 0 && s[0] == 45 {
        proof {
            assert(s@.skip(1) =~= s@.drop_first());
        }
        match parse_unsigned_nano(s, 1) {
            None => None,
            Some(v) => Some(-v),
        }
    } else {
        proof {
            assert(s@.skip(0) =~= s@);
        }
        parse_unsigned_nano(s, 0)
    }
}

/// An epoch field: `YYYY-MM-DDTHH:MM:SS`, optionally followed by a point
/// and one to nine fraction digits (read to microsecond precision), and
/// optionally by a final `Z`. Years 1970 through 9999 are accepted; the
/// value is Unix time in microseconds.
pub open spec fn spec_epoch_micros(s: Seq<u8>) -> Option<int> {
    let t = if s.len() > 0 && s.last() == 90 {
        s.drop_last()
    } else {
        s
    };
    if t.len() < 19 {
        None
    } else if !(all_digits(t.subrange(0, 4)) && t[4] == 45 && all_digits(t.subrange(5, 7)) && t[7]
        == 45 && all_digits(t.subrange(8, 10)) && t[10] == 84 && all_digits(t.subrange(11, 13))
        && t[13] == 58 && all_digits(t.subrange(14, 16)) && t[16] == 58 && all_digits(
        t.subrange(17, 19),
    )) {
        None
    } else if t.len() > 19 && !(t[19] == 46 && t.len() >= 21 && t.len() <= 29 && all_digits(
        t.subrange(20, t.len() as int),
    )) {
        None
    } else {
        let y = digits_val(t.subrange(0, 4));
        let m = digits_val(t.subrange(5, 7));
        let d = digits_val(t.subrange(8, 10));
        let h = digits_val(t.subrange(11, 13));
        let mi = digits_val(t.subrange(14, 16));
        let sec = digits_val(t.subrange(17, 19));
        let us = if t.len() == 19 {
            0
        } else {
            scaled_digits(t.subrange(20, t.len() as int), 6)
        };
        if 1970 <= y <= 9999 && 1 <= m <= 12 && 1 <= d <= days_in_month(y, m) && h <= 23 && mi
            <= 59 && sec <= 59 {
            Some(civil_to_micros(y, m, d, h, mi, sec, us))
        } else {
            None
        }
    }
}

/// Parses an epoch field into Unix microseconds, exactly as
/// [`spec_epoch_micros`] reads it.
pub fn parse_epoch_micros(s: &[u8]) -> (r: Option<i64>)
    ensures
        r is Some <==> spec_epoch_micros(s@) is Some,
        r matches Some(v) ==> spec_epoch_micros(s@) == Some(v as int) && 0 <= v
            <= 300000000000000000,
{
    let n0 = s.len();
    let n = if n0 > 0 && s[n0 - 1] == 90 { n0 - 1 } else { n0 };
    let ghost t = if s@.len() > 0 && s@.last() == 90 { s@.drop_last() } else { s@ };
    proof {
        assert(t =~= s@.subrange(0, n as int));
    }
    if n < 19 {
        return None;
    }
    let y = match parse_digits_range(s, 0, 4) {
        None => { proof { assert(t.subrange(0, 4) =~= s@.subrange(0, 4)); } return None; },
        Some(v) => v,
    };
    let m = match parse_digits_range(s, 5, 7) {
        None => { proof { assert(t.subrange(5, 7) =~= s@.subrange(5, 7)); } return None; },
        Some(v) => v,
    };
    let d = match parse_digits_range(s, 8, 10) {
        None => { proof { assert(t.subrange(8, 10) =~= s@.subrange(8, 10)); } return None; },
        Some(v) => v,
    };
    let h = match parse_digits_range(s, 11, 13) {
        None => { proof { assert(t.subrange(11, 13) =~= s@.subrange(11, 13)); } return None; },
        Some(v) => v,
    };
    let mi = match parse_digits_range(s, 14, 16) {
        None => { proof { assert(t.subrange(14, 16) =~= s@.subrange(14, 16)); } return None; },
        Some(v) => v,
    };
    let sec = match parse_digits_range(s, 17, 19) {
        None => { proof { assert(t.subrange(17, 19) =~= s@.subrange(17, 19)); } return None; },
        Some(v) => v,
    };
    if s[4] != 45 || s[7] != 45 || s[10] != 84 || s[13] != 58 || s[16] != 58 {
        return None;
    }
    proof {
        assert(t.subrange(0, 4) =~= s@.subrange(0, 4));
        assert(t.subrange(5, 7) =~= s@.subrange(5, 7));
        assert(t.subrange(8, 10) =~= s@.subrange(8, 10));
        assert(t.subrange(11, 13) =~= s@.subrange(11, 13));
        assert(t.subrange(14, 16) =~= s@.subrange(14, 16));
        assert(t.subrange(17, 19) =~= s@.subrange(17, 19));
    }
    let mut us: u64 = 0;
    if n > 19 {
        if s[19] != 46 || n < 21 || n > 29 {
            return None;
        }
        let ghost fp = t.subrange(20, t.len() as int);
        us = match parse_frac_scaled(s, 20, n, 6) {
            None => {
                proof {
                    assert(fp =~= s@.subrange(20, n as int));
                }
                return None;
            },
            Some(v) => v,
        };
        proof {
            assert(fp =~= s@.subrange(20, n as int));
            reveal_with_fuel(pow10, 8);
        }
    }
    if !(1970 <= y && y <= 9999) {
        return None;
    }
    if m < 1 || m > 12 {
        return None;
    }
    if d < 1 || d > month_days(y, m) {
        return None;
    }
    if h > 23 || mi > 59 || sec > 59 {
        return None;
    }
    Some(civil_micros(y, m, d, h, mi, sec, us))
}

/// A plain unsigned integer field of at most eighteen digits.
pub open spec fn spec_parse_u64(s: Seq<u8>) -> Option<int> {
    if 1 <= s.len() <= 18 && all_digits(s) {
        Some(digits_val(s))
    } else {
        None
    }
}

pub fn parse_u64(s: &[u8]) -> (r: Option<u64>)
    ensures
        r is Some <==> spec_parse_u64(s@) is Some,
        r matches Some(v) ==> spec_parse_u64(s@) == Some(v as int),
{
    if s.len() < 1 || s.len() > 18 {
        return None;
    }
    let r = parse_digits_range(s, 0, s.len());
    proof {
        assert(s@.subrange(0, s@.len() as int) =~= s@);
        if all_digits(s@) {
            lemma_digits_val_bound(s@);
        }
    }
    r
}

/// The field with a trailing `Z`, if any, removed.
pub open spec fn spec_strip_z(s: Seq<u8>) -> Seq<u8> {
    if s.len() > 0 && s.last() == 90 {
        s.drop_last()
    } else {
        s
    }
}

fn copy_stripped(src: &Vec<u8>) -> (r: Vec<u8>)
    ensures
        r@ == spec_strip_z(src@),
{
    let n = if src.len() > 0 && src[src.len() - 1] == 90 {
        src.len() - 1
    } else {
        src.len()
    };
    let mut v: Vec<u8> = Vec::new();
    let mut i: usize = 0;
    proof {
        assert(src@.subrange(0, 0) =~= Seq::<u8>::empty());
    }
    while i < n
        invariant
            i <= n <= src@.len(),
            v@ == src@.subrange(0, i as int),
        decreases n - i,
    {
        v.push(src[i]);
        proof {
            assert(src@.subrange(0, i + 1) =~= src@.subrange(0, i as int).push(src@[i as int]));
        }
        i += 1;
    }
    proof {
        if src@.len() > 0 && src@.last() == 90 {
            assert(src@.subrange(0, n as int) =~= src@.drop_last());
        } else {
            assert(src@.subrange(0, n as int) =~= src@);
        }
    }
    v
}

fn copy_bytes(src: &Vec<u8>) -> (r: Vec<u8>)
    ensures
        r@ == src@,
{
    let mut v: Vec<u8> = Vec::new();
    let mut i: usize = 0;
    proof {
        assert(src@.subrange(0, 0) =~= Seq::<u8>::empty());
    }
    while i < src.len()
        invariant
            i <= src@.len(),
            v@ == src@.subrange(0, i as int),
        decreases src@.len() - i,
    {
        v.push(src[i]);
        proof {
            assert(src@.subrange(0, i + 1) =~= src@.subrange(0, i as int).push(src@[i as int]));
        }
        i += 1;
    }
    proof {
        assert(src@.subrange(0, src@.len() as int) =~= src@);
    }
    v
}

/// One catalog record as the caller hands it over: the recognized OMM
/// fields, each as its raw text, absent where the record lacks it.
///
/// A record's identity is its numeric `NORAD_CAT_ID`, which the ranking
/// orders by; the `OBJECT_ID` international designator (a string such
/// as a launch-year code) carries no numeric identity and is not
/// modelled, so a record identified only by it is rejected as missing
/// a field.
#[derive(Clone, Debug)]
pub struct RawRecord {
    pub norad_cat_id: Option<Vec<u8>>,
    pub epoch: Option<Vec<u8>>,
    pub mean_motion: Option<Vec<u8>>,
    pub eccentricity: Option<Vec<u8>>,
    pub inclination: Option<Vec<u8>>,
    pub ra_of_asc_node: Option<Vec<u8>>,
    pub arg_of_pericenter: Option<Vec<u8>>,
    pub mean_anomaly: Option<Vec<u8>>,
    pub bstar: Option<Vec<u8>>,
    pub ephemeris_type: Option<Vec<u8>>,
}

/// Why a record is rejected, if it is: the checks in the order the
/// decoder makes them. `None` means the record decodes.
#[verifier::opaque]
pub open spec fn spec_decode_err(r: RawRecord) -> Option<DecodeReason> {
    if r.norad_cat_id is None || r.epoch is None || r.mean_motion is None || r.eccentricity is None
        || r.inclination is None || r.ra_of_asc_node is None || r.arg_of_pericenter is None
        || r.mean_anomaly is None || r.bstar is None || r.ephemeris_type is None {
        Some(DecodeReason::MissingField)
    } else if spec_parse_u64(r.norad_cat_id->0@) is None {
        Some(DecodeReason::BadNumber)
    } else if spec_epoch_micros(r.epoch->0@) is None {
        Some(DecodeReason::BadEpoch)
    } else if spec_dec_nano(r.mean_motion->0@) is None || spec_dec_nano(r.eccentricity->0@) is None
        || spec_dec_nano(r.inclination->0@) is None || spec_dec_nano(r.ra_of_asc_node->0@) is None
        || spec_dec_nano(r.arg_of_pericenter->0@) is None || spec_dec_nano(r.mean_anomaly->0@)
        is None || spec_dec_nano(r.bstar->0@) is None {
        Some(DecodeReason::BadNumber)
    } else if spec_parse_u64(r.ephemeris_type->0@) is None || spec_parse_u64(r.ephemeris_type->0@)->0
        > 255 {
        Some(DecodeReason::BadNumber)
    } else if spec_dec_nano(r.mean_motion->0@)->0 <= 0 {
        Some(DecodeReason::ValueOutOfRange)
    } else if spec_dec_nano(r.eccentricity->0@)->0 < 0 || spec_dec_nano(r.eccentricity->0@)->0
        >= 1000000000 {
        Some(DecodeReason::ValueOutOfRange)
    } else if spec_dec_nano(r.inclination->0@)->0 < 0 || spec_dec_nano(r.inclination->0@)->0
        > 180000000000 {
        Some(DecodeReason::ValueOutOfRange)
    } else {
        None
    }
}

/// The texts the decoded record carries are the record's own fields,
/// with only the epoch's optional `Z` removed.
#[verifier::opaque]
pub open spec fn decodes_from(r: RawRecord, e: OrbitalElements) -> bool {
    &&& r.norad_cat_id matches Some(v) && e.norad_text@ == v@
    &&& r.epoch matches Some(v) && e.epoch_text@ == spec_strip_z(v@)
    &&& r.mean_motion matches Some(v) && e.mean_motion_text@ == v@
    &&& r.eccentricity matches Some(v) && e.eccentricity_text@ == v@
    &&& r.inclination matches Some(v) && e.inclination_text@ == v@
    &&& r.ra_of_asc_node matches Some(v) && e.raan_text@ == v@
    &&& r.arg_of_pericenter matches Some(v) && e.arg_perigee_text@ == v@
    &&& r.mean_anomaly matches Some(v) && e.mean_anomaly_text@ == v@
    &&& r.bstar matches Some(v) && e.bstar_text@ == v@
    &&& r.ephemeris_type matches Some(v) && e.ephemeris_text@ == v@
}

/// Decodes one OMM record into a normalized [`OrbitalElements`].
///
/// A record is rejected exactly as [`spec_decode_err`] reads it; a
/// decoded record satisfies the full [`OrbitalElements::valid`] invariant and
/// carries the record's own field texts.
pub fn decode_record(rec: &RawRecord) -> (r: Result<OrbitalElements, DecodeReason>)
    ensures
        r is Err <==> spec_decode_err(*rec) is Some,
        r matches Err(k) ==> spec_decode_err(*rec) == Some(k),
        r matches Ok(e) ==> e.valid() && decodes_from(*rec, e),
{
    proof {
        reveal(spec_decode_err);
        reveal(decodes_from);
    }
    let norad_t = match &rec.norad_cat_id {
        None => { return Err(DecodeReason::MissingField) },
        Some(v) => v,
    };
    let epoch_t = match &rec.epoch {
        None => { return Err(DecodeReason::MissingField) },
        Some(v) => v,
    };
    let mm_t = match &rec.mean_motion {
        None => { return Err(DecodeReason::MissingField) },
        Some(v) => v,
    };
    let ecc_t = match &rec.eccentricity {
        None => { return Err(DecodeReason::MissingField) },
        Some(v) => v,
    };
    let incl_t = match &rec.inclination {
        None => { return Err(DecodeReason::MissingField) },
        Some(v) => v,
    };
    let raan_t = match &rec.ra_of_asc_node {
        None => { return Err(DecodeReason::MissingField) },
        Some(v) => v,
    };
    let argp_t = match &rec.arg_of_pericenter {
        None => { return Err(DecodeReason::MissingField) },
        Some(v) => v,
    };
    let ma_t = match &rec.mean_anomaly {
        None => { return Err(DecodeReason::MissingField) },
        Some(v) => v,
    };
    let bstar_t = match &rec.bstar {
        None => { return Err(DecodeReason::MissingField) },
        Some(v) => v,
    };
    let eph_t = match &rec.ephemeris_type {
        None => { return Err(DecodeReason::MissingField) },
        Some(v) => v,
    };
    let norad_id = match parse_u64(norad_t.as_slice()) {
        None => { return Err(DecodeReason::BadNumber) },
        Some(v) => v,
    };
    let epoch_micros = match parse_epoch_micros(epoch_t.as_slice()) {
        None => { return Err(DecodeReason::BadEpoch) },
        Some(v) => v,
    };
    let mm = match parse_dec_nano(mm_t.as_slice()) {
        None => { return Err(DecodeReason::BadNumber) },
        Some(v) => v,
    };
    let ecc = match parse_dec_nano(ecc_t.as_slice()) {
        None => { return Err(DecodeReason::BadNumber) },
        Some(v) => v,
    };
    let incl = match parse_dec_nano(incl_t.as_slice()) {
        None => { return Err(DecodeReason::BadNumber) },
        Some(v) => v,
    };
    let raan = match parse_dec_nano(raan_t.as_slice()) {
        None => { return Err(DecodeReason::BadNumber) },
        Some(v) => v,
    };
    let argp = match parse_dec_nano(argp_t.as_slice()) {
        None => { return Err(DecodeReason::BadNumber) },
        Some(v) => v,
    };
    let ma = match parse_dec_nano(ma_t.as_slice()) {
        None => { return Err(DecodeReason::BadNumber) },
        Some(v) => v,
    };
    let bstar = match parse_dec_nano(bstar_t.as_slice()) {
        None => { return Err(DecodeReason::BadNumber) },
        Some(v) => v,
    };
    let eph = match parse_u64(eph_t.as_slice()) {
        None => { return Err(DecodeReason::BadNumber) },
        Some(v) => v,
    };
    if eph > 255 {
        return Err(DecodeReason::BadNumber);
    }
    if mm <= 0 {
        return Err(DecodeReason::ValueOutOfRange);
    }
    if ecc < 0 || ecc >= 1000000000 {
        return Err(DecodeReason::ValueOutOfRange);
    }
    if incl < 0 || incl > 180000000000 {
        return Err(DecodeReason::ValueOutOfRange);
    }
    Ok(
        OrbitalElements {
            norad_id,
            epoch_micros,
            mean_motion_nano: mm as u64,
            eccentricity_nano: ecc as u64,
            inclination_nano: incl,
            raan_nano: norm_angle_nano(raan),
            arg_perigee_nano: norm_angle_nano(argp),
            mean_anomaly_nano: norm_angle_nano(ma),
            bstar_nano: bstar,
            ephemeris_type: eph as u8,
            norad_text: copy_bytes(norad_t),
            epoch_text: copy_stripped(epoch_t),
            mean_motion_text: copy_bytes(mm_t),
            eccentricity_text: copy_bytes(ecc_t),
            inclination_text: copy_bytes(incl_t),
            raan_text: copy_bytes(raan_t),
            arg_perigee_text: copy_bytes(argp_t),
            mean_anomaly_text: copy_bytes(ma_t),
            bstar_text: copy_bytes(bstar_t),
            ephemeris_text: copy_bytes(eph_t),
        },
    )
}

/// The rejected records of a catalog, each with its input index, in
/// input order.
pub open spec fn spec_malformed(s: Seq<RawRecord>) -> Seq<MalformedRecord>
    decreases s.len(),
{
    if s.len() == 0 {
        Seq::empty()
    } else {
        let pre = spec_malformed(s.drop_last());
        match spec_decode_err(s.last()) {
            Some(k) => pre.push(MalformedRecord { index: (s.len() - 1) as usize, reason: k }),
            None => pre,
        }
    }
}

/// Decodes a whole catalog. Rejections are per record: a malformed
/// record is reported with its index and reason, and the remaining
/// records are still returned, in input order.
/// The records of a catalog that decode, in input order.
pub open spec fn spec_decoded_records(s: Seq<RawRecord>) -> Seq<RawRecord>
    decreases s.len(),
{
    if s.len() == 0 {
        Seq::empty()
    } else {
        let pre = spec_decoded_records(s.drop_last());
        if spec_decode_err(s.last()) is None {
            pre.push(s.last())
        } else {
            pre
        }
    }
}

/// Failure isolation at the decoder: a record that does not decode
/// contributes nothing to the decoded sequence — inserting one anywhere
/// in a catalog leaves the records that decode exactly as they were.
pub proof fn lemma_malformed_isolation(a: Seq<RawRecord>, bad: RawRecord, b: Seq<RawRecord>)
    requires
        spec_decode_err(bad) is Some,
    ensures
        spec_decoded_records(a + seq![bad] + b) == spec_decoded_records(a + b),
    decreases b.len(),
{
    if b.len() == 0 {
        assert((a + seq![bad] + b).last() == bad);
        assert((a + seq![bad] + b).drop_last() =~= a);
        assert(a + b =~= a);
    } else {
        assert((a + seq![bad] + b).last() == b.last());
        assert((a + seq![bad] + b).drop_last() =~= a + seq![bad] + b.drop_last());
        assert((a + b).last() == b.last());
        assert((a + b).drop_last() =~= a + b.drop_last());
        lemma_malformed_isolation(a, bad, b.drop_last());
    }
}

/// The decoded records are exactly the records the index list selects.
pub proof fn lemma_decoded_records_are_selected(s: Seq<RawRecord>, k: int)
    requires
        0 <= k < spec_decoded_records(s).len(),
    ensures
        spec_decoded_records(s).len() == spec_ok_indexes(s).len(),
        0 <= spec_ok_indexes(s)[k] < s.len(),
        spec_decoded_records(s)[k] == s[spec_ok_indexes(s)[k]],
    decreases s.len(),
{
    lemma_selected_lengths(s);
    if s.len() > 0 {
        let pre = s.drop_last();
        lemma_selected_lengths(pre);
        if k < spec_decoded_records(pre).len() {
            lemma_decoded_records_are_selected(pre, k);
        }
    }
}

proof fn lemma_selected_lengths(s: Seq<RawRecord>)
    ensures
        spec_decoded_records(s).len() == spec_ok_indexes(s).len(),
        forall|k: int|
            0 <= k < spec_ok_indexes(s).len() ==> 0 <= #[trigger] spec_ok_indexes(s)[k] < s.len(),
    decreases s.len(),
{
    if s.len() > 0 {
        lemma_selected_lengths(s.drop_last());
    }
}

/// The input positions of the records that decode, in input order.
pub open spec fn spec_ok_indexes(s: Seq<RawRecord>) -> Seq<int>
    decreases s.len(),
{
    if s.len() == 0 {
        Seq::empty()
    } else {
        let pre = spec_ok_indexes(s.drop_last());
        if spec_decode_err(s.last()) is None {
            pre.push(s.len() - 1)
        } else {
            pre
        }
    }
}

#[verifier::rlimit(100)]
pub fn decode_catalog(records: &Vec<RawRecord>) -> (r: (Vec<OrbitalElements>, Vec<MalformedRecord>))
    ensures
        r.1@ == spec_malformed(records@),
        r.0@.len() == spec_ok_indexes(records@).len(),
        forall|k: int|
            0 <= k < r.0@.len() ==> 0 <= #[trigger] spec_ok_indexes(records@)[k]
                < records@.len(),
        forall|k: int|
            0 <= k < r.0@.len() ==> decodes_from(
                records@[spec_ok_indexes(records@)[k]],
                #[trigger] r.0@[k],
            ) && r.0@[k].valid(),
        r.0@.len() + r.1@.len() == records@.len(),
{
    let mut oks: Vec<OrbitalElements> = Vec::new();
    let mut fails: Vec<MalformedRecord> = Vec::new();
    let mut i: usize = 0;
    proof {
        assert(records@.take(0) =~= Seq::<RawRecord>::empty());
    }
    while i < records.len()
        invariant
            i <= records@.len(),
            fails@ == spec_malformed(records@.take(i as int)),
            oks@.len() == spec_ok_indexes(records@.take(i as int)).len(),
            forall|k: int|
                0 <= k < oks@.len() ==> 0 <= #[trigger] spec_ok_indexes(
                    records@.take(i as int),
                )[k] < i,
            forall|k: int|
                0 <= k < oks@.len() ==> decodes_from(
                    records@[spec_ok_indexes(records@.take(i as int))[k]],
                    #[trigger] oks@[k],
                ) && oks@[k].valid(),
            oks@.len() + fails@.len() == i,
        decreases records@.len() - i,
    {
        let ghost pre = records@.take(i as int);
        let ghost oldoks = oks@;
        proof {
            assert(records@.take(i + 1).drop_last() =~= pre);
            assert(records@.take(i + 1).last() == records@[i as int]);
        }
        match decode_record(&records[i]) {
            Ok(e) => {
                proof {
                    assert(spec_decode_err(records@[i as int]) is None);
                    assert(spec_ok_indexes(records@.take(i + 1)) == spec_ok_indexes(pre).push(
                        i as int,
                    ));
                    assert(decodes_from(records@[i as int], e) && e.valid());
                }
                oks.push(e);
            },
            Err(k) => {
                proof {
                    assert(spec_decode_err(records@[i as int]) is Some);
                    assert(spec_ok_indexes(records@.take(i + 1)) == spec_ok_indexes(pre));
                }
                fails.push(MalformedRecord { index: i, reason: k });
            },
        }
        proof {
            assert(spec_ok_indexes(pre).len() == oldoks.len());
            assert forall|k: int| 0 <= k < oks@.len() implies 0 <= spec_ok_indexes(
                records@.take(i + 1),
            )[k] < i + 1 && decodes_from(
                records@[spec_ok_indexes(records@.take(i + 1))[k]],
                oks@[k],
            ) && oks@[k].valid() by {
                if k < oldoks.len() {
                    assert(oks@[k] == oldoks[k]);
                    assert(spec_ok_indexes(records@.take(i + 1))[k] == spec_ok_indexes(pre)[k]);
                    assert(0 <= spec_ok_indexes(pre)[k] < i);
                } else {
                    assert(spec_ok_indexes(records@.take(i + 1))[k] == i as int);
                }
            }
        }
        i += 1;
    }
    proof {
        assert(records@.take(records@.len() as int) =~= records@);
    }
    (oks, fails)
}

} // verus!
