//! Region resolution: maps a free-form region string to a canonical,
//! statically known region identifier, falling back to a default region
//! for anything unrecognized.

use vstd::prelude::*;

use crate::text::str_eq;

verus! {

/// The canonical region strings this tool knows about.
pub open spec fn spec_known_region(s: Seq<char>) -> bool {
    s == "us-east-1"@ || s == "us-west-2"@ || s == "eu-west-1"@
}

/// The fallback region used for any unrecognized input.
pub open spec fn spec_default_region() -> Seq<char> {
    "us-west-2"@
}

/// What `convert_to_name` returns: a known region maps to itself,
/// everything else to the default region.
pub open spec fn spec_resolve_region(s: Seq<char>) -> Seq<char> {
    if spec_known_region(s) {
        s
    } else {
        spec_default_region()
    }
}

/// Resolves a free-form region string to a canonical region identifier.
/// Unrecognized input is mapped to the default region rather than
/// rejected, so a typo in one account cannot abort a multi-account run.
pub fn convert_to_name(region: &str) -> (r: &'static str)
    ensures
        r@ == spec_resolve_region(region@),
        spec_known_region(region@) ==> r@ == region@,
        !spec_known_region(region@) ==> r@ == spec_default_region(),
{
    if str_eq(region, "us-east-1") {
        "us-east-1"
    } else if str_eq(region, "us-west-2") {
        "us-west-2"
    } else if str_eq(region, "eu-west-1") {
        "eu-west-1"
    } else {
        "us-west-2"
    }
}

/// AirportCode represents the 3-letter international airport code
/// closest to a data center region.
#[derive(Debug, Copy, Clone)]
pub enum AirportCode {
    IAD,
    PDX,
    DUB,
}

/// A region carrier that can name its canonical region string.
pub trait AWSRegionName {
    /// The canonical region string this value stands for.
    spec fn spec_name(self) -> Seq<char>;

    /// Returns the canonical region string.
    fn name(self) -> (r: &'static str)
        ensures
            r@ == self.spec_name(),
    ;
}

impl AWSRegionName for AirportCode {
    open spec fn spec_name(self) -> Seq<char> {
        match self {
            AirportCode::IAD => "us-east-1"@,
            AirportCode::PDX => "us-west-2"@,
            AirportCode::DUB => "eu-west-1"@,
        }
    }

    fn name(self) -> (r: &'static str) {
        match self {
            AirportCode::IAD => "us-east-1",
            AirportCode::PDX => "us-west-2",
            AirportCode::DUB => "eu-west-1",
        }
    }
}

} // verus!
