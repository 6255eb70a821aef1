# mds_mcp

A debugging server for the Mega Drive that speaks the Model Context Protocol. It
drives an emulator thread, or a flash cartridge in a real console.

- `src/` is the verified library: memory, register and sprite decoding, frames,
  breakpoints, pads, the command state machine of the emulator, change
  notifications, resources, tool replies, and the cartridge's wire formats,
  dialogue and picture.
- `app/` is the program around it: command line, transports, the emulator thread,
  the serial port and JSON.
- `tests/` run the library.

The library calls `base64`, `crc32fast`, `png` and `object` behind small trusted
functions; each says in its doc comment what it claims of the outside code.
