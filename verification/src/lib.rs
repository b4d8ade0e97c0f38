//! Resizable BAR reconfiguration for PCIe GPUs: the decisions behind the tool.
//!
//! Everything here is a function of plain values: texts that were read from sysfs, dwords that
//! were read from config space, flags from the command line. The program around the library
//! performs the reads and writes that these functions ask for.

pub mod cli;
pub mod config;
pub mod diagnose;
pub mod execute;
pub mod laws;
pub mod manifest;
pub mod number;
pub mod path;
pub mod pci;
pub mod plan;
pub mod preflight;
pub mod rebar;
pub mod text;
pub mod topology;
