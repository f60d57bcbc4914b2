//! Runway configurations of Denver International.

use vstd::prelude::*;
use crate::aviation::{heading, on_arc, wind_between, AirportWeather};

verus! {

/// KDEN runway configurations.
#[derive(Clone, Copy, PartialEq, Eq, Structural, Debug)]
pub enum DenverConfig {
    NorthCalm,
    SouthCalm,
    NorthEast,
    NorthWest,
    SouthEast,
    SouthWest,
    NorthAll,
    SouthAll,
    EastAll,
    WestAll,
}

impl DenverConfig {
    /// The configuration's name.
    pub fn name(&self) -> (r: &'static str)
        ensures
            r@ == match *self {
                DenverConfig::NorthCalm => "North Calm"@,
                DenverConfig::SouthCalm => "South Calm"@,
                DenverConfig::NorthEast => "North East"@,
                DenverConfig::NorthWest => "North West"@,
                DenverConfig::SouthEast => "South East"@,
                DenverConfig::SouthWest => "South West"@,
                DenverConfig::NorthAll => "North All"@,
                DenverConfig::SouthAll => "South All"@,
                DenverConfig::EastAll => "East All"@,
                DenverConfig::WestAll => "West All"@,
            },
    {
        match self {
            DenverConfig::NorthCalm => "North Calm",
            DenverConfig::SouthCalm => "South Calm",
            DenverConfig::NorthEast => "North East",
            DenverConfig::NorthWest => "North West",
            DenverConfig::SouthEast => "South East",
            DenverConfig::SouthWest => "South West",
            DenverConfig::NorthAll => "North All",
            DenverConfig::SouthAll => "South All",
            DenverConfig::EastAll => "East All",
            DenverConfig::WestAll => "West All",
        }
    }

    /// The runways used for departures.
    pub fn departing(&self) -> (r: &'static str)
        ensures
            r@ == match *self {
                DenverConfig::NorthCalm => "8, 25, 34L"@,
                DenverConfig::SouthCalm => "8, 25, 16L or 17L"@,
                DenverConfig::NorthEast => "7, 35L, 35R"@,
                DenverConfig::NorthWest => "25, 34L"@,
                DenverConfig::SouthEast => "8, 16L or 17L"@,
                DenverConfig::SouthWest => "17L, 17R, 25"@,
                DenverConfig::NorthAll => "34L, 34R"@,
                DenverConfig::SouthAll => "Depends"@,
                DenverConfig::EastAll => "8"@,
                DenverConfig::WestAll => "25"@,
            },
    {
        match self {
            DenverConfig::NorthCalm => "8, 25, 34L",
            DenverConfig::SouthCalm => "8, 25, 16L or 17L",
            DenverConfig::NorthEast => "7, 35L, 35R",
            DenverConfig::NorthWest => "25, 34L",
            DenverConfig::SouthEast => "8, 16L or 17L",
            DenverConfig::SouthWest => "17L, 17R, 25",
            DenverConfig::NorthAll => "34L, 34R",
            DenverConfig::SouthAll => "Depends",
            DenverConfig::EastAll => "8",
            DenverConfig::WestAll => "25",
        }
    }

    /// The runways used for arrivals.
    pub fn landing(&self) -> (r: &'static str)
        ensures
            r@ == match *self {
                DenverConfig::NorthCalm => "34R, 35L, 35R"@,
                DenverConfig::SouthCalm => "16L, 16R, 17R"@,
                DenverConfig::NorthEast => "34R, 35L, 35R"@,
                DenverConfig::NorthWest => "26, 345R, 35L, 35R"@,
                DenverConfig::SouthEast => "7, 16L, 16R, 17R"@,
                DenverConfig::SouthWest => "16L, 16R, 26"@,
                DenverConfig::NorthAll => "35L, 35R"@,
                DenverConfig::SouthAll => "Depends"@,
                DenverConfig::EastAll => "7, 8"@,
                DenverConfig::WestAll => "25, 26"@,
            },
    {
        match self {
            DenverConfig::NorthCalm => "34R, 35L, 35R",
            DenverConfig::SouthCalm => "16L, 16R, 17R",
            DenverConfig::NorthEast => "34R, 35L, 35R",
            DenverConfig::NorthWest => "26, 345R, 35L, 35R",
            DenverConfig::SouthEast => "7, 16L, 16R, 17R",
            DenverConfig::SouthWest => "16L, 16R, 26",
            DenverConfig::NorthAll => "35L, 35R",
            DenverConfig::SouthAll => "Depends",
            DenverConfig::EastAll => "7, 8",
            DenverConfig::WestAll => "25, 26",
        }
    }
}

/// Whether the wind from `dir` lies on the arc from `min` to `max`.
pub open spec fn from_arc(dir: u16, min: u16, max: u16) -> bool {
    on_arc(heading(dir), heading(min), heading(max))
}

/// The likeliest configuration for a wind from `dir` of strength `mag`
/// knots: calm up to 10 knots, split by quadrant from 11 to 25, and by
/// wider sectors above 25.
pub open spec fn runway_config(dir: u16, mag: u8) -> DenverConfig {
    if from_arc(dir, 260, 79) && mag <= 10 {
        DenverConfig::NorthCalm
    } else if from_arc(dir, 80, 295) && mag <= 10 {
        DenverConfig::SouthCalm
    } else if from_arc(dir, 350, 79) && 11 <= mag <= 25 {
        DenverConfig::NorthEast
    } else if from_arc(dir, 260, 349) && 11 <= mag <= 25 {
        DenverConfig::NorthWest
    } else if from_arc(dir, 80, 169) && 11 <= mag <= 25 {
        DenverConfig::SouthEast
    } else if from_arc(dir, 170, 259) && 11 <= mag <= 25 {
        DenverConfig::SouthWest
    } else if from_arc(dir, 300, 39) && mag > 25 {
        DenverConfig::NorthAll
    } else if from_arc(dir, 120, 219) && mag > 25 {
        DenverConfig::SouthAll
    } else if from_arc(dir, 40, 119) && mag > 25 {
        DenverConfig::EastAll
    } else if from_arc(dir, 220, 299) && mag > 25 {
        DenverConfig::WestAll
    } else {
        DenverConfig::NorthCalm
    }
}

/// The stronger of the steady wind and the gust.
pub open spec fn wind_strength(w: (u16, u8, u8)) -> u8 {
    if w.1 >= w.2 {
        w.1
    } else {
        w.2
    }
}

/// Determine the likeliest KDEN runway configuration from the weather; the
/// gust counts where it is stronger than the steady wind.
pub fn determine_runway_config(weather: &AirportWeather) -> (r: DenverConfig)
    ensures
        r == runway_config(weather.wind.0, wind_strength(weather.wind)),
{
    let dir = weather.wind.0;
    let mag = if weather.wind.1 >= weather.wind.2 {
        weather.wind.1
    } else {
        weather.wind.2
    };
    if wind_between(dir, 260, 79) && mag <= 10 {
        DenverConfig::NorthCalm
    } else if wind_between(dir, 80, 295) && mag <= 10 {
        DenverConfig::SouthCalm
    } else if wind_between(dir, 350, 79) && 11 <= mag && mag <= 25 {
        DenverConfig::NorthEast
    } else if wind_between(dir, 260, 349) && 11 <= mag && mag <= 25 {
        DenverConfig::NorthWest
    } else if wind_between(dir, 80, 169) && 11 <= mag && mag <= 25 {
        DenverConfig::SouthEast
    } else if wind_between(dir, 170, 259) && 11 <= mag && mag <= 25 {
        DenverConfig::SouthWest
    } else if wind_between(dir, 300, 39) && mag > 25 {
        DenverConfig::NorthAll
    } else if wind_between(dir, 120, 219) && mag > 25 {
        DenverConfig::SouthAll
    } else if wind_between(dir, 40, 119) && mag > 25 {
        DenverConfig::EastAll
    } else if wind_between(dir, 220, 299) && mag > 25 {
        DenverConfig::WestAll
    } else {
        DenverConfig::NorthCalm
    }
}

/// The wind on one runway, in whole knots.
#[derive(Debug)]
pub struct WindComponent {
    pub runway: String,
    pub head: u8,
    pub tail: u8,
    pub cross: u8,
}

} // verus!
