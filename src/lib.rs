//! Reconciliation of a facility's local controller records with the
//! external membership registry and the session history feed.

pub mod activity;
pub mod aviation;
pub mod certs;
pub mod config;
pub mod initials;
pub mod kden;
pub mod no_show_expiration;
pub mod roles;
pub mod roster;
pub mod roster_laws;
pub mod schedule;
pub mod shared;
pub mod solo_cert;
pub mod text;
pub mod time;
pub mod training;
