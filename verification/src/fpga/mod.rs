//! Model of the receiver's programmable logic: registers, rings, interrupts.

pub mod boot;
pub mod dma;
pub mod fir;
pub mod ip_core;
pub mod irq;
pub mod laws;
pub mod nco;
pub mod registers;
pub mod tables;
