//! Identifiers shared with the libretro core.

use vstd::prelude::*;

verus! {

/// Battery-backed cartridge RAM.
pub const RETRO_MEMORY_SAVE_RAM: u32 = 0;

/// 68k work RAM.
pub const RETRO_MEMORY_SYSTEM_RAM: u32 = 2;

/// Video RAM.
pub const RETRO_MEMORY_VIDEO_RAM: u32 = 3;

/// Colour RAM.
pub const LIBRA_MEMORY_CRAM: u32 = 0x100;

/// Vertical scroll RAM.
pub const LIBRA_MEMORY_VSRAM: u32 = 0x101;

/// VDP register and state blob.
pub const LIBRA_MEMORY_VDP_STATE: u32 = 0x102;

/// 68k register blob.
pub const LIBRA_MEMORY_M68K: u32 = 0x103;

/// Z80 register blob.
pub const LIBRA_MEMORY_Z80: u32 = 0x104;

/// Z80 work RAM.
pub const LIBRA_MEMORY_Z80RAM: u32 = 0x105;

/// Z80 bus-request and reset lines.
pub const LIBRA_MEMORY_Z80BUS: u32 = 0x106;

/// Table of debug entry points.
pub const LIBRA_MEMORY_DEBUG_API: u32 = 0x109;

/// Halt on execution.
pub const LIBRA_BP_EXEC: u32 = 1;

/// Halt on a bus read.
pub const LIBRA_BP_READ: u32 = 2;

/// Halt on a bus write.
pub const LIBRA_BP_WRITE: u32 = 4;

/// Halt on a bus read or write.
pub const LIBRA_BP_ACCESS: u32 = 6;

} // verus!
