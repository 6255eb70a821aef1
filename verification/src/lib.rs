//! Verified core of a Mega Drive debugging server.

pub mod checksum;
pub mod codec;
pub mod emulator;
pub mod ffi;
pub mod notifications;
pub mod resources;
pub mod rom_session;
pub mod server;
pub mod target;
pub mod text;
pub mod tools;
