//! What the web interface asks of the receiver, and what it shows.

pub mod base64;
pub mod blocklist;
pub mod compare;
pub mod dump;
pub mod grants;
pub mod lines;
pub mod monitoring;
pub mod reinit;
pub mod site;
pub mod traffic;
pub mod tsbk;
pub mod tune;
