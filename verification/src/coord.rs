//! Pure numeric conversion of fixed-point decimal-degree coordinates into the
//! degree/minute/second rational encoding of the positional metadata fields,
//! and of altitudes into their sign/magnitude encoding.

use vstd::prelude::*;
use vstd::arithmetic::div_mod::lemma_fundamental_div_mod;
use vstd::arithmetic::div_mod::lemma_fundamental_div_mod_converse;
use vstd::arithmetic::div_mod::lemma_mod_multiples_vanish;
use vstd::arithmetic::div_mod::lemma_mod_self_0;
use vstd::arithmetic::div_mod::lemma_small_mod;

use crate::result::{GTError, GTResult};

verus! {

/// Number of fixed-point units per decimal degree: coordinates are signed
/// integers counting `10^-7` degree steps.
pub const COORD_SCALE: i64 = 10_000_000;

/// Greatest common divisor, by Euclid's recurrence.
pub open spec fn gcd(a: nat, b: nat) -> nat
    decreases b,
{
    if b == 0 {
        a
    } else {
        gcd(b, a % b)
    }
}

/// The greatest common divisor of two numbers, not both zero, is at least one
/// and divides both.
pub proof fn lemma_gcd_divides(a: nat, b: nat)
    requires
        a > 0 || b > 0,
    ensures
        gcd(a, b) >= 1,
        a % gcd(a, b) == 0,
        b % gcd(a, b) == 0,
    decreases b,
{
    if b == 0 {
        lemma_mod_self_0(a as int);
        lemma_small_mod(0, a);
    } else {
        let g = gcd(b, a % b);
        lemma_gcd_divides(b, a % b);
        let q = a as int / b as int;
        let k = b as int / g as int;
        lemma_fundamental_div_mod(a as int, b as int);
        lemma_fundamental_div_mod(b as int, g as int);
        assert(b as int == g * k);
        assert(b as int * q == g * (k * q)) by (nonlinear_arith)
            requires
                b as int == g * k,
        ;
        lemma_mod_multiples_vanish(k * q, (a % b) as int, g as int);
        assert(a as int == g * (k * q) + (a % b) as int);
    }
}

/// The whole-degree component: the floor of the coordinate in degrees.
pub open spec fn dms_degrees(coord: int) -> int {
    coord / (COORD_SCALE as int)
}

/// The sub-degree part of the coordinate, in fixed-point units; always in
/// `[0, COORD_SCALE)`, also for negative coordinates.
pub open spec fn dms_rem(coord: int) -> int {
    coord % (COORD_SCALE as int)
}

/// The whole-minute component: the floor of the sub-degree part times sixty.
pub open spec fn dms_minutes(coord: int) -> int {
    (dms_rem(coord) * 60) / (COORD_SCALE as int)
}

/// Numerator of the seconds component over the fixed denominator
/// `COORD_SCALE`: what remains below a whole minute, times sixty.
pub open spec fn dms_seconds_num(coord: int) -> int {
    ((dms_rem(coord) * 60) % (COORD_SCALE as int)) * 60
}

/// The seconds component as an exact rational in lowest terms.
pub open spec fn dms_seconds(coord: int) -> (int, int) {
    let g = gcd(dms_seconds_num(coord) as nat, COORD_SCALE as nat);
    (dms_seconds_num(coord) / g as int, COORD_SCALE as int / g as int)
}

/// Saturating conversion of an integer into the unsigned degrees encoding:
/// a negative floor collapses to zero, a floor past the unsigned range to
/// its largest value.
pub open spec fn sat_u32(x: int) -> int {
    if x < 0 {
        0
    } else if x > u32::MAX {
        u32::MAX as int
    } else {
        x
    }
}

fn gcd_u64(a: u64, b: u64) -> (g: u64)
    ensures
        g == gcd(a as nat, b as nat),
{
    let mut x = a;
    let mut y = b;
    while y != 0
        invariant
            gcd(x as nat, y as nat) == gcd(a as nat, b as nat),
        decreases y,
    {
        let r = x % y;
        x = y;
        y = r;
    }
    x
}

/// Stateless converter between decimal coordinates and their encoded forms.
pub struct Converter {}

impl Converter {
    /// Decomposes a fixed-point coordinate into whole degrees, whole minutes
    /// and an exact rational of seconds. The degree component saturates into
    /// the unsigned encoding, so a negative coordinate yields degrees zero.
    /// The decomposition always succeeds on fixed-point input.
    pub fn try_coord_to_dms(coord: i64) -> (r: Option<(u32, u32, (u32, u32))>)
        ensures
            r is Some,
            r.unwrap().0 == sat_u32(dms_degrees(coord as int)),
            r.unwrap().1 == dms_minutes(coord as int),
            r.unwrap().2.0 == dms_seconds(coord as int).0,
            r.unwrap().2.1 == dms_seconds(coord as int).1,
            1 <= r.unwrap().2.1,
    {
        let s64: u64 = 10_000_000u64;
        let (deg, rem): (i64, u64) = if coord >= 0 {
            let c = coord as u64;
            proof {
                lemma_fundamental_div_mod(c as int, s64 as int);
            }
            ((c / s64) as i64, c % s64)
        } else {
            let a: u64 = (-(coord as i128)) as u64;
            let q0 = a / s64;
            let r0 = a % s64;
            proof {
                lemma_fundamental_div_mod(a as int, s64 as int);
            }
            if r0 == 0 {
                (-(q0 as i64), 0u64)
            } else {
                (-((q0 + 1) as i64), s64 - r0)
            }
        };
        proof {
            lemma_fundamental_div_mod_converse(
                coord as int,
                COORD_SCALE as int,
                deg as int,
                rem as int,
            );
        }
        let degrees: u32 = if deg < 0 {
            0
        } else if deg > u32::MAX as i64 {
            u32::MAX
        } else {
            deg as u32
        };
        let part: u64 = rem * 60;
        let minutes: u64 = part / s64;
        let n0: u64 = (part % s64) * 60;
        proof {
            lemma_gcd_divides(n0 as nat, s64 as nat);
        }
        let g: u64 = gcd_u64(n0, s64);
        let sec_n: u32 = (n0 / g) as u32;
        let sec_d: u32 = (s64 / g) as u32;
        proof {
            lemma_fundamental_div_mod(s64 as int, g as int);
            assert(s64 as int / g as int >= 1) by (nonlinear_arith)
                requires
                    g >= 1,
                    s64 as int == (g as int) * (s64 as int / g as int),
                    s64 == 10_000_000u64,
            ;
        }
        Some((degrees, minutes as u32, (sec_n, sec_d)))
    }

    /// Splits an altitude in meters into the reference flag (zero at or above
    /// sea level, one below) and its magnitude; fails exactly when the
    /// magnitude does not fit the unsigned target range.
    pub fn encode_altitude(meters: i64) -> (r: GTResult<(u16, u32)>)
        ensures
            r is Ok <==> -(u32::MAX as int) <= meters <= u32::MAX as int,
            r is Ok ==> r.unwrap().0 == (if meters >= 0 { 0int } else { 1int }),
            r is Ok ==> r.unwrap().1 == (if meters >= 0 { meters as int } else { -(meters as int) }),
            r is Err ==> r->Err_0 is Conversion,
    {
        if meters >= 0 {
            if meters <= u32::MAX as i64 {
                Ok((0, meters as u32))
            } else {
                Err(GTError::Conversion(altitude_range_message()))
            }
        } else {
            let m: i128 = -(meters as i128);
            if m <= u32::MAX as i128 {
                Ok((1, m as u32))
            } else {
                Err(GTError::Conversion(altitude_range_message()))
            }
        }
    }

    /// The hemisphere letter for a latitude, as an ASCII byte: `N` (78) when
    /// non-negative, else `S` (83).
    pub fn latitude_ref(latitude: i64) -> (r: u8)
        ensures
            r == (if latitude >= 0 { 78u8 } else { 83u8 }),
    {
        if latitude >= 0 {
            78
        } else {
            83
        }
    }

    /// The hemisphere letter for a longitude, as an ASCII byte: `E` (69) when
    /// non-negative, else `W` (87).
    pub fn longitude_ref(longitude: i64) -> (r: u8)
        ensures
            r == (if longitude >= 0 { 69u8 } else { 87u8 }),
    {
        if longitude >= 0 {
            69
        } else {
            87
        }
    }
}

fn altitude_range_message() -> (r: String)
    ensures
        r@ == "altitude magnitude does not fit the unsigned target range"@,
{
    "altitude magnitude does not fit the unsigned target range".to_string()
}

} // verus!
