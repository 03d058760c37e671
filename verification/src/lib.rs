//! Verified core of the Boat RISC-V emulator and its difftest harness.
pub mod boat;
pub mod memory;
pub mod simulator;
pub mod elf;
pub mod numbers;
pub mod difftest;
pub mod spike_log;
pub mod text;
pub mod memory_size;
pub mod stub_platform;
