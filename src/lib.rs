//! Driver for legacy parallel ATA/IDE channels with bus-mastering DMA.
//!
//! Hardware access goes through the [`ports::PortIo`] trait; every decision
//! the driver takes on what it reads is verified here.
pub mod devices;
pub mod extent;
pub mod ide;
pub mod identify;
pub mod pci;
pub mod pio;
pub mod ports;
pub mod prdt;
pub mod queue;
pub mod regs;
