//! LSM (linear simulcast modulation) receive chain.
//!
//! - `ring`: sub-buffers of the IQ ring to samples
//! - `filters`: decimator, filter taps, filter history
//! - `demod`: symbol decisions
//! - `sync`: frame-sync detectors and extraction of the network identifier
//! - `sync_laws`: what the detectors owe, stated on the dibits themselves
//! - `nid_fec`: error correction of the network identifier

pub mod demod;
pub mod filters;
pub mod nid_fec;
pub mod ring;
pub mod sync;
pub mod sync_laws;

use vstd::prelude::*;

verus! {

/// One complex sample of 16-bit parts.
#[derive(Debug, Clone, Copy, PartialEq, Eq, Structural)]
pub struct Complex16 {
    pub re: i16,
    pub im: i16,
}

} // verus!
