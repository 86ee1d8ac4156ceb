pub mod bus;
pub mod cpu;
pub mod display;
pub mod emu;
pub mod memory;
