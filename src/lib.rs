//! Power-management tunables of a Linux machine: discovering them, taking a
//! snapshot of their values, and reconciling a snapshot with the live system.
pub mod battery;
pub mod config;
pub mod cpu;
pub mod cpuinfo;
pub mod diff;
pub mod discovery;
pub mod extract;
pub mod hwmon;
pub mod number;
pub mod rules;
pub mod sampling;
pub mod snapshot;
pub mod text;
pub mod thermal;
