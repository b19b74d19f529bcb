//! The configuration each track-acquisition collaborator is built from,
//! and the normalization applied at construction. The acquisition itself
//! (file reading, network access, payload parsing) is performed by the
//! surrounding driver.

use vstd::prelude::*;
use vstd::arithmetic::div_mod::lemma_fundamental_div_mod;
use vstd::arithmetic::div_mod::lemma_fundamental_div_mod_converse;

verus! {

/// Number of seconds in one UTC day.
pub const SECONDS_PER_DAY: i64 = 86_400;

/// Acquisition of a track from a local structured file.
pub struct FlightDataFileProvider {
    /// Path label of the source file the surrounding driver reads.
    pub src_path: String,
}

impl FlightDataFileProvider {
    /// Remembers the path label of the source file.
    pub fn new(src_path: String) -> (r: FlightDataFileProvider)
        ensures
            r.src_path == src_path,
    {
        FlightDataFileProvider { src_path }
    }
}

/// Acquisition of a track from the remote flight history service,
/// identified by a flight code and the departure day.
pub struct FlightRadar24ApiProvider {
    /// The flight code of the journey.
    pub flight_code: String,
    /// Midnight opening the UTC day of departure, in epoch seconds.
    pub dod: i64,
}

impl FlightRadar24ApiProvider {
    /// Pairs a flight code with a departure instant, normalized down to
    /// the midnight that opens its UTC day.
    pub fn new(flight_code: String, dod: i64) -> (r: FlightRadar24ApiProvider)
        requires
            i64::MIN + SECONDS_PER_DAY <= dod,
        ensures
            r.flight_code == flight_code,
            r.dod == SECONDS_PER_DAY * ((dod as int) / (SECONDS_PER_DAY as int)),
            r.dod <= dod < r.dod + SECONDS_PER_DAY,
    {
        let day: i64 = if dod >= 0 {
            let c = dod as u64;
            proof {
                lemma_fundamental_div_mod(c as int, 86400int);
            }
            ((c / 86400) * 86400) as i64
        } else {
            let a: u64 = (-(dod as i128)) as u64;
            let q0 = a / 86400;
            let r0 = a % 86400;
            proof {
                lemma_fundamental_div_mod(a as int, 86400int);
            }
            if r0 == 0 {
                proof {
                    lemma_fundamental_div_mod_converse(
                        dod as int,
                        86400int,
                        -(q0 as int),
                        0int,
                    );
                }
                dod
            } else {
                proof {
                    lemma_fundamental_div_mod_converse(
                        dod as int,
                        86400int,
                        -(q0 as int) - 1,
                        86400 - r0 as int,
                    );
                }
                (-((((q0 + 1) * 86400) as i128))) as i64
            }
        };
        proof {
            if dod >= 0 {
                lemma_fundamental_div_mod_converse(
                    dod as int,
                    86400int,
                    (dod as int) / 86400int,
                    (dod as int) % 86400int,
                );
            }
        }
        FlightRadar24ApiProvider { flight_code, dod: day }
    }
}

} // verus!
