//! The terminal client: what it decides, and what it says.
//!
//! Nothing here reads a file, draws a screen or waits for anybody. Those who do
//! hand in what they found and are told what comes of it.

pub mod startup;
pub mod listing;
pub mod listing_laws;
pub mod connect;
pub mod themes;
pub mod preferences;
pub mod policy;
pub mod session_laws;
pub mod shell;
pub mod turns;
pub mod servers;
pub mod dispatch;
pub mod opening;
pub mod work_laws;
