//! Verified decision logic of a CPU and memory load simulator: when a configured
//! work period is in force, how much memory a pool of blocks holds and how it is
//! grown or shrunk towards a target, how the total memory is read from
//! `/proc/meminfo`, and how long a load cycle sleeps.
pub mod text;
pub mod clock;
pub mod schedule;
pub mod meminfo;
pub mod cpu;
pub mod memory;
