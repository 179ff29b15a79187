//! A cycle-level model of a DDR4 memory subsystem.
//!
//! Requests carry a flat address. The address mapper turns it into one
//! coordinate per hierarchy level, the memory routes the request to the
//! controller of its channel, and the controller issues, one command per
//! cycle, what the device tree allows at the current clock.
//!
//! - `command`, `request`, `config`: the commands of the device, the
//!   requests of the processor side, the configuration of a run.
//! - `dram`: the device tree, its state machine and timing engine, and the
//!   trait that a memory technology implements.
//! - `ddr4`: the DDR4 technology, with the constraint table of nine speed
//!   grades.
//! - `scheduler`, `controller`: the choice of the next request, and the
//!   controller of one channel.
//! - `memory`: the address mapper and the memory over all channels.
//!
//! Every function of this crate is verified against its contract. The
//! contracts are written over the views of the types (`DramView`,
//! `ControllerView`, `MemoryView`) and over the spec functions that stand
//! beside them; the laws that relate several functions are proof functions
//! named `lemma_..`.

pub mod command;
pub mod config;
pub mod controller;
pub mod ddr4;
pub mod dram;
pub mod memory;
pub mod request;
pub mod scheduler;
