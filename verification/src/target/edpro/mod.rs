//! Flash cartridge target: wire formats, the debug stub and its state.

pub mod elf_parse;
pub mod framing;
pub mod proto;
pub mod rsp;
pub mod screenshot;
pub mod session;
pub mod stub_blob;
pub mod stub_sync;

pub use rsp::{decode_packet, encode_packet, AckByte, RspError, StopReply};
pub use stub_sync::{BreakpointTable, StubSync, StubSyncError};
