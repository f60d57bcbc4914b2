//! Facility configuration.

use vstd::prelude::*;

verus! {

/// App configuration.
#[derive(Debug, Clone)]
pub struct Config {
    pub database: ConfigDatabase,
    pub vatsim: ConfigVatsim,
    pub airports: ConfigAirports,
    pub stats: ConfigStats,
    pub webhooks: ConfigWebhooks,
}

/// Where the local store lives.
#[derive(Debug, Clone)]
pub struct ConfigDatabase {
    pub file: String,
}

/// Access to the network and the registry.
#[derive(Debug, Clone)]
pub struct ConfigVatsim {
    pub oauth_client_id: String,
    pub oauth_client_secret: String,
    pub oauth_client_callback_url: String,
    pub vatusa_facility_code: String,
    pub vatusa_api_key: String,
}

/// The facility's airports.
#[derive(Debug, Clone)]
pub struct ConfigAirports {
    pub all: Vec<Airport>,
    pub weather_for: Vec<String>,
}

/// One airport of the facility.
#[derive(Debug, Clone)]
pub struct Airport {
    pub code: String,
    pub name: String,
    pub location: String,
    pub towered: bool,
    pub class: String,
}

/// The callsign parts that mark a position as the facility's.
#[derive(Debug, Clone)]
pub struct ConfigStats {
    pub position_prefixes: Vec<String>,
    pub position_suffixes: Vec<String>,
}

/// Where notices are posted.
#[derive(Debug, Clone)]
pub struct ConfigWebhooks {
    pub staffing_request: String,
    pub feedback: String,
}

} // verus!
