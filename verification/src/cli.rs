//! Selection of the source that supplies flight geodata.

use vstd::prelude::*;

verus! {

/// Which collaborator supplies flight geodata: a local structured file or
/// the remote flight history service.
#[derive(Copy, Clone, Debug, PartialEq, Eq, Structural)]
pub enum FlightDataSrc {
    Json,
    Api,
}

impl FlightDataSrc {
    /// The short lowercase label of the source, as shown to users.
    pub fn label(&self) -> (r: &'static str)
        ensures
            self is Json ==> r@ == "json"@,
            self is Api ==> r@ == "api"@,
    {
        match self {
            FlightDataSrc::Json => "json",
            FlightDataSrc::Api => "api",
        }
    }
}

} // verus!
