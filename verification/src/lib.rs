//! Verified core of a P25 trunking receiver daemon.

pub mod audio;
pub mod calendar;
pub mod clock;
pub mod dibits;
pub mod event_log;
pub mod follower;
pub mod fpga;
pub mod httpd;
pub mod json;
pub mod lsm;
pub mod monitor;
pub mod runtime;
pub mod slices;
pub mod sorting;
pub mod text;
pub mod voice;
