use vstd::prelude::*;
use crate::text::same_text;

verus! {

/// How many seconds one unit of a configured time resolution lasts:
/// a minute is 60 s, an hour 3600 s, and a second, or any unit that the
/// configuration does not name, counts as one second.
pub open spec fn spec_time_unit_seconds(unit: Seq<char>) -> u32 {
    if unit == "minute"@ {
        60
    } else if unit == "hour"@ {
        3600
    } else {
        1
    }
}

/// The number of seconds in one `unit` of the observation's time resolution.
/// A resolution of `v` units lasts `v * time_unit_seconds(unit)` seconds.
pub fn time_unit_seconds(unit: &str) -> (r: u32)
    ensures
        r == spec_time_unit_seconds(unit@),
{
    if same_text(unit, "minute") {
        60
    } else if same_text(unit, "hour") {
        3600
    } else {
        1
    }
}

/// How an angle given in some unit becomes an angle in arcminutes.
#[derive(Debug, Clone, Copy, PartialEq, Eq)]
pub enum ArcminScale {
    /// The value is already in arcminutes.
    Unchanged,
    /// The value is multiplied by 60 (degrees).
    TimesSixty,
    /// The value is divided by 60 (arcseconds).
    DividedBySixty,
}

/// Degrees are multiplied by 60, arcseconds divided by 60; arcminutes and any
/// unit that the configuration does not name are taken as arcminutes.
pub open spec fn spec_arcmin_scale(unit: Seq<char>) -> ArcminScale {
    if unit == "degree"@ {
        ArcminScale::TimesSixty
    } else if unit == "arcsec"@ {
        ArcminScale::DividedBySixty
    } else {
        ArcminScale::Unchanged
    }
}

/// The conversion to arcminutes of a catalog radius or exclusion radius
/// given in `unit`.
pub fn arcmin_scale(unit: &str) -> (r: ArcminScale)
    ensures
        r == spec_arcmin_scale(unit@),
{
    if same_text(unit, "degree") {
        ArcminScale::TimesSixty
    } else if same_text(unit, "arcsec") {
        ArcminScale::DividedBySixty
    } else {
        ArcminScale::Unchanged
    }
}

/// Exposures are given in milliseconds unless the unit is "s": a unit of
/// "ms", or any unit that the configuration does not name, is divided by 1000.
pub open spec fn spec_exposure_divisor(unit: Seq<char>) -> u32 {
    if unit == "s"@ {
        1
    } else {
        1000
    }
}

/// The divisor that turns a detector exposure given in `unit` into seconds.
pub fn exposure_divisor(unit: &str) -> (r: u32)
    ensures
        r == spec_exposure_divisor(unit@),
{
    if same_text(unit, "s") {
        1
    } else {
        1000
    }
}

} // verus!
