//! Verified core of `lnx`, which runs Linux virtual machines and snapshots them
//! between commands.
//!
//! The library decides; it performs no I/O. Files, sockets, clocks and processes
//! are read by the caller, handed in as plain values, and acted on by the caller
//! from the plans and actions that come back.
use vstd::prelude::*;

pub mod broker;
pub mod bundle;
pub mod bytes;
pub mod capture;
pub mod cas;
pub mod compress;
pub mod config;
pub mod deterministic;
pub mod digest;
pub mod forwards;
pub mod imports;
pub mod instances;
pub mod launch;
pub mod locks;
pub mod logs;
pub mod names;
pub mod network;
pub mod outcome;
pub mod paths;
pub mod protocol;
pub mod publish;
pub mod push;
pub mod run;
pub mod session;
pub mod settings;
pub mod shares;
pub mod snapshots;
pub mod sparse;
pub mod stamps;
pub mod start;
pub mod terminal;
pub mod text;
pub mod trace;
pub mod vmnet;

verus! {

} // verus!
