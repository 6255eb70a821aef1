//! Emulator model: ROM headers, memory regions, breakpoints, pads, frames and
//! the command handling of the frame loop.

pub mod breakpoints;
pub mod debug_api;
pub mod decode;
pub mod frame;
pub mod input;
pub mod memory;
pub mod rom;
pub mod runner;

pub use breakpoints::{BpKind, BpSpace, Breakpoint, SharedBreakpoints};
pub use memory::MemorySpace;
pub use rom::{crc32_ieee, header_name, region_from_header, RomInfo};
pub use runner::{Command, ResourceEvent, SetBpOutcome, Status, StepOutcome};
