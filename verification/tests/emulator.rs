//! ROM headers, memory regions, the frame loop's commands and what they publish.

use mds_mcp::checksum::crc32_bitwise;
use mds_mcp::emulator::memory::{
    read_region, snapshot_region, write_region, CoreMemory, RegionError,
};
use mds_mcp::emulator::rom::{check_rom, rom_info, RomError};
use mds_mcp::emulator::runner::{
    loop_step, pace, CommandError, CommandReply, CoreAction, LibraCtx, LoopStep, Payload, Polled,
    State, FRAME_DURATION_US, MAX_READ,
};
use mds_mcp::emulator::{
    crc32_ieee, header_name, region_from_header, Command, MemorySpace, ResourceEvent,
};
use mds_mcp::ffi;
use mds_mcp::rom_session::{parse_space, EmulatorActor, MemorySpace as RomSpace, SessionError};

fn rom() -> Vec<u8> {
    let mut rom = vec![0u8; 0x400];
    rom[0x100..0x110].copy_from_slice(b"SEGA MEGA DRIVE ");
    rom[0x150..0x156].copy_from_slice(b"SONIC ");
    for b in &mut rom[0x156..0x180] {
        *b = b' ';
    }
    rom[0x1F0..0x1F3].copy_from_slice(b"JUE");
    rom[0x3FF] = 0x5A;
    rom
}

fn linked() -> State {
    let mut libra = LibraCtx::new().unwrap();
    libra.linked = true;
    State::new(libra)
}

#[test]
fn checksums_agree() {
    // The check value of CRC-32/IEEE.
    assert_eq!(crc32_ieee(b"123456789"), 0xCBF4_3926);
    assert_eq!(crc32_bitwise(b"123456789"), 0xCBF4_3926);
    assert_eq!(crc32_ieee(b""), 0);
    let data: Vec<u8> = (0..=255).collect();
    assert_eq!(crc32_ieee(&data), crc32_bitwise(&data));
    assert_eq!(mds_mcp::rom_session::crc32_ieee(&data), crc32_ieee(&data));
}

#[test]
fn headers_are_read() {
    let info = rom_info(&rom());
    assert_eq!(info.size, 0x400);
    assert_eq!(info.crc32, crc32_ieee(&rom()));
    assert_eq!(info.header_name, "SONIC");
    assert_eq!(info.region, "JUE");
    assert_eq!(region_from_header(&[0; 0x1F3]), "?");
    assert_eq!(region_from_header(&[0; 0x1F4]), "?");
    assert_eq!(region_from_header(&[0xFF; 0x200]), "?");
    assert_eq!(header_name(&[b'x'; 0x17F]), "");
    assert_eq!(header_name(&[0xFF; 0x180]), "");
}

#[test]
fn roms_without_a_header_are_refused() {
    assert!(check_rom(&rom()).is_ok());
    match check_rom(&[0; 0x1FF]) {
        Err(RomError::TooSmall(n)) => assert_eq!(n, 0x1FF),
        _ => panic!("too small"),
    }
    assert_eq!(RomError::TooSmall(511).message(), "ROM too small (511 bytes)");
    let mut bad = rom();
    bad[0x100] = b'M';
    match check_rom(&bad) {
        Err(e) => assert_eq!(
            e.message(),
            "missing SEGA magic at 0x100 (got \"MEGA MEGA DRIVE \")"
        ),
        Ok(()) => panic!("no magic"),
    }
    bad[0x101] = 0xFF;
    match check_rom(&bad) {
        Err(e) => assert_eq!(e.message(), "missing SEGA magic at 0x100 (got \"\")"),
        Ok(()) => panic!("not UTF-8"),
    }
}

#[test]
fn spaces_have_names_and_ids() {
    assert_eq!(MemorySpace::parse("Z80RAM"), Some(MemorySpace::Z80Ram));
    assert_eq!(MemorySpace::parse("z80bus"), Some(MemorySpace::Z80Bus));
    assert_eq!(MemorySpace::parse("vdp_state"), Some(MemorySpace::VdpState));
    assert_eq!(MemorySpace::parse("wram"), None);
    assert_eq!(MemorySpace::Rom.libretro_id(), None);
    assert_eq!(MemorySpace::Ram.libretro_id(), Some(ffi::RETRO_MEMORY_SYSTEM_RAM));
    assert_eq!(MemorySpace::M68kState.variant_name(), "M68kState");
    let ids: Vec<u32> =
        ["ram", "vram", "cram", "vsram", "saveram", "vdp_state", "m68k_state", "z80", "z80ram", "z80bus"]
            .iter()
            .map(|n| MemorySpace::parse(n).unwrap().libretro_id().unwrap())
            .collect();
    for i in 0..ids.len() {
        for j in 0..i {
            assert_ne!(ids[i], ids[j]);
        }
    }
}

#[test]
fn regions_read_back_what_was_written() {
    let mut mem = CoreMemory::new();
    mem.map_region(3, vec![0; 8]);
    mem.map_region(5, vec![9; 2]);
    assert_eq!(write_region(&mut mem, 3, 2, &[1, 2, 3]), Ok(()));
    assert_eq!(read_region(&mem, 3, 2, 3), Ok(Some(vec![1, 2, 3])));
    assert_eq!(snapshot_region(&mem, 3), Some(vec![0, 0, 1, 2, 3, 0, 0, 0]));
    assert_eq!(snapshot_region(&mem, 5), Some(vec![9, 9]));
    assert_eq!(snapshot_region(&mem, 4), None);
    assert_eq!(read_region(&mem, 4, 0, 1), Ok(None));
    assert_eq!(write_region(&mut mem, 4, 0, &[1]), Err(RegionError::Unmapped));
    let read = read_region(&mem, 3, 6, 3).unwrap_err();
    assert_eq!(read.message(), "out-of-bounds read 0x00000006..0x00000009 (region is 8 bytes)");
    let write = write_region(&mut mem, 3, 7, &[1, 2]).unwrap_err();
    assert_eq!(write.message(), "out-of-bounds write 0x00000007..0x00000009 (region is 8 bytes)");
    assert_eq!(RegionError::Overflow.message(), "addr+length overflow");
    assert_eq!(RegionError::Unmapped.message(), "region unmapped");
}

#[test]
fn the_core_acts_before_commands() {
    let mut s = State::new(LibraCtx::new().unwrap());
    assert_eq!(
        s.core_action(&Command::LoadRom { bytes: rom() }),
        CoreAction::LoadGame { load_core: true }
    );
    assert_eq!(s.core_action(&Command::LoadRom { bytes: vec![] }), CoreAction::Nothing);
    assert_eq!(s.core_action(&Command::StepFrame { n: 3 }), CoreAction::Nothing);
    s.load_rom(rom()).unwrap();
    assert_eq!(s.core_action(&Command::StepFrame { n: 3 }), CoreAction::RunFrames(3));
    assert_eq!(s.core_action(&Command::StepInstruction { n: 9 }), CoreAction::RunFrames(1));
    s.libra.debug_api = true;
    assert_eq!(s.core_action(&Command::StepInstruction { n: 9 }), CoreAction::StepInstructions(9));
    assert_eq!(s.core_action(&Command::Status), CoreAction::Nothing);
}

#[test]
fn a_missing_core_loads_nothing() {
    let mut libra = LibraCtx::new().unwrap();
    assert!(!libra.load_core("core.so"));
    assert!(!libra.load_game("game.bin"));
    libra.run_frame();
    assert!(!libra.linked && !libra.core_loaded && !libra.debug_api);
}

#[test]
fn a_loaded_rom_starts_paused_and_reads_back() {
    let mut s = State::new(LibraCtx::new().unwrap());
    match s.handle_command(Command::LoadRom { bytes: rom() }, 0).0 {
        CommandReply::Rom(Ok(info)) => assert_eq!(info.header_name, "SONIC"),
        _ => panic!("not loaded"),
    }
    let st = s.status();
    assert!(st.rom_loaded && st.paused && !st.libra_linked);
    assert_eq!((st.frame, st.target), (0, "emulator"));
    assert_eq!(s.read_memory(MemorySpace::Rom, 0x3FF, 1).unwrap(), vec![0x5A]);
    assert_eq!(s.read_memory(MemorySpace::Rom, 0x100, 4).unwrap(), b"SEGA".to_vec());
    assert_eq!(s.snapshot(MemorySpace::Rom), rom());
    s.unload_rom();
    assert!(s.snapshot(MemorySpace::Rom).is_empty());
    assert!(!s.status().rom_loaded);
}

#[test]
fn memory_errors() {
    let mut s = State::new(LibraCtx::new().unwrap());
    assert!(s.read_memory(MemorySpace::Rom, 0, 0).unwrap().is_empty());
    let m = |r: Result<Vec<u8>, CommandError>| r.unwrap_err().message();
    assert_eq!(m(s.read_memory(MemorySpace::Rom, 0, 1)), "no ROM loaded");
    assert_eq!(
        m(s.read_memory(MemorySpace::Ram, 0, MAX_READ + 1)),
        "length 16777217 exceeds sanity cap (16 MiB)"
    );
    assert_eq!(
        m(s.read_memory(MemorySpace::Vram, 0, 1)),
        "region Vram unmapped (core not loaded?)"
    );
    s.load_rom(rom()).unwrap();
    assert_eq!(
        m(s.read_memory(MemorySpace::Rom, 0x3FF, 2)),
        "out-of-bounds ROM read 0x000003FF..0x00000401 (rom is 1024 bytes)"
    );
    let w = s.write_memory(MemorySpace::Rom, 0, &[1]).unwrap_err();
    assert_eq!(w.message(), "ROM is read-only");
    let w = s.write_memory(MemorySpace::Ram, 0, &[1]).unwrap_err();
    assert_eq!(w.message(), "libra not linked");
    assert_eq!(CommandError::Overflow.message(), "addr+length overflow");
    let bad = s.load_rom(vec![]).unwrap_err();
    assert_eq!(bad.message(), "ROM too small (0 bytes)");
    let mut l = linked();
    let w = l.write_memory(MemorySpace::Ram, 0, &[1]).unwrap_err();
    assert_eq!(w.message(), "region unmapped");
}

#[test]
fn a_linked_core_reads_back_what_was_written() {
    let mut s = linked();
    s.libra.memory.map_region(ffi::RETRO_MEMORY_SYSTEM_RAM, vec![0; 16]);
    s.write_memory(MemorySpace::Ram, 4, &[0xCA, 0xFE]).unwrap();
    assert_eq!(s.read_memory(MemorySpace::Ram, 4, 2).unwrap(), vec![0xCA, 0xFE]);
    assert_eq!(s.read_memory(MemorySpace::Ram, 0, 4).unwrap(), vec![0; 4]);
}

#[test]
fn stepping_needs_a_rom_and_pauses() {
    let mut s = State::new(LibraCtx::new().unwrap());
    match s.handle_command(Command::StepFrame { n: 2 }, 1).0 {
        CommandReply::Frame(Err(e)) => assert_eq!(e.message(), "no ROM loaded"),
        _ => panic!("no ROM"),
    }
    s.load_rom(rom()).unwrap();
    s.handle_command(Command::Resume, 0);
    match s.handle_command(Command::StepFrame { n: 60 }, 0).0 {
        CommandReply::Frame(Ok(f)) => assert_eq!(f, 60),
        _ => panic!("not stepped"),
    }
    assert!(s.paused);
    s.frame_done();
    assert_eq!(s.frame, 61);
    s.frame = u64::MAX - 1;
    s.frame_done();
    s.frame_done();
    assert_eq!(s.frame, u64::MAX);
    assert_eq!(s.step_frame(9, 0).0.unwrap(), u64::MAX);
    match s.handle_command(Command::Pause, 0).0 {
        CommandReply::Frame(Ok(f)) => assert_eq!(f, u64::MAX),
        _ => panic!("not paused"),
    }
}

#[test]
fn instruction_steps_tell_their_granularity() {
    let mut s = linked();
    assert!(s.step_instruction(5, 0).0.is_err());
    s.load_rom(rom()).unwrap();
    let mut blob = vec![0u8; 78];
    blob[64] = 0x34;
    blob[65] = 0x12;
    blob[69] = 0x27;
    s.libra.memory.map_region(ffi::LIBRA_MEMORY_M68K, blob);
    let out = s.step_instruction(5, 0).0.unwrap();
    assert_eq!((out.pc, out.sr, out.frame), (0x1234, 0x2700, 1));
    assert_eq!((out.instructions_executed, out.granularity), (0, "frame"));
    s.libra.debug_api = true;
    let out = s.step_instruction(5, 0).0.unwrap();
    assert_eq!((out.frame, out.instructions_executed, out.granularity), (1, 5, "instruction"));
}

fn uris(events: &[ResourceEvent]) -> Vec<&'static str> {
    events.iter().map(|e| e.uri).collect()
}

#[test]
fn changes_are_published_once() {
    let mut s = linked();
    s.load_rom(rom()).unwrap();
    s.libra.memory.map_region(ffi::RETRO_MEMORY_VIDEO_RAM, vec![1; 4]);
    s.libra.memory.map_region(ffi::LIBRA_MEMORY_CRAM, vec![]);
    s.libra.memory.map_region(ffi::LIBRA_MEMORY_VDP_STATE, vec![0x40; 24]);
    assert!(s.publish_changes(0).is_empty());
    let events = s.publish_changes(1);
    assert_eq!(uris(&events), vec!["mega://vram", "mega://vdp/registers"]);
    assert_eq!(events[0].mime, "application/octet-stream");
    assert_eq!(events[1].mime, "application/json");
    match &events[0].payload {
        Payload::Bytes(b) => assert_eq!(b, &vec![1; 4]),
        _ => panic!("bytes"),
    }
    match &events[1].payload {
        Payload::Vdp(v) => assert!(v.decoded.display_enabled),
        _ => panic!("registers"),
    }
    assert!(s.publish_changes(1).is_empty());
    s.write_memory(MemorySpace::Vram, 3, &[2]).unwrap();
    let (r, events) = s.step_frame(1, 1);
    assert!(r.is_ok());
    assert_eq!(uris(&events), vec!["mega://vram"]);
    // A new ROM starts anew.
    s.load_rom(rom()).unwrap();
    assert_eq!(s.publish_changes(1).len(), 2);
}

#[test]
fn saved_slots_load() {
    let mut s = linked();
    s.libra.memory.map_region(ffi::RETRO_MEMORY_VIDEO_RAM, vec![7; 3]);
    assert_eq!(s.load_state(2).unwrap_err().message(), "slot 2 is empty");
    match s.handle_command(Command::SaveState { slot: 2 }, 0).0 {
        CommandReply::Size(n) => assert_eq!(n, 15),
        _ => panic!("not saved"),
    }
    assert_eq!(s.saved_states[&2], vec![3, 0, 0, 0, 7, 7, 7, 0, 0, 0, 0, 0, 0, 0, 0]);
    assert!(s.load_state(2).is_ok());
    assert!(s.load_state(3).is_err());
    s.libra.memory.map_region(ffi::LIBRA_MEMORY_CRAM, vec![7; 3]);
    s.save_state(3);
    assert_ne!(s.saved_states[&2], s.saved_states[&3]);
}

#[test]
fn other_commands() {
    let mut s = linked();
    assert!(matches!(s.handle_command(Command::Shutdown, 0).0, CommandReply::Nothing));
    assert!(matches!(s.handle_command(Command::UnloadRom, 0).0, CommandReply::Done(Ok(()))));
    assert!(matches!(s.handle_command(Command::Screenshot, 0).0, CommandReply::Screenshot(None)));
    assert!(matches!(s.handle_command(Command::Status, 0).0, CommandReply::Status(_)));
    let space = MemorySpace::Ram;
    match s.handle_command(Command::SnapshotRegion { space }, 0).0 {
        CommandReply::Bytes(Ok(b)) => assert!(b.is_empty()),
        _ => panic!("no bytes"),
    }
    assert!(matches!(
        s.handle_command(Command::ReadMemory { space, addr: 0, length: 1 }, 0).0,
        CommandReply::Bytes(Err(CommandError::Unmapped(MemorySpace::Ram)))
    ));
    assert!(matches!(
        s.handle_command(Command::WriteMemory { space, addr: 0, bytes: vec![1] }, 0).0,
        CommandReply::Done(Err(CommandError::Region(RegionError::Unmapped)))
    ));
    assert!(matches!(
        s.handle_command(Command::LoadState { slot: 0 }, 0).0,
        CommandReply::Done(Err(CommandError::EmptySlot(0)))
    ));
    assert!(matches!(
        s.handle_command(Command::StepInstruction { n: 1 }, 0).0,
        CommandReply::Step(Err(CommandError::NoRom))
    ));
}

#[test]
fn the_frame_loop_prefers_commands() {
    assert_eq!(loop_step(Polled::Command, true, false), LoopStep::Handle);
    assert_eq!(loop_step(Polled::Shutdown, false, true), LoopStep::Stop);
    assert_eq!(loop_step(Polled::Disconnected, false, true), LoopStep::Stop);
    assert_eq!(loop_step(Polled::Empty, true, true), LoopStep::Block);
    assert_eq!(loop_step(Polled::Empty, false, false), LoopStep::Block);
    assert_eq!(loop_step(Polled::Empty, false, true), LoopStep::RunFrame);
}

#[test]
fn frames_are_paced() {
    assert_eq!(FRAME_DURATION_US, 16_667);
    assert_eq!(pace(20_000, 5_000), (15_000, 36_667));
    assert_eq!(pace(20_000, 20_000), (0, 36_667));
    assert_eq!(pace(20_000, 50_000), (0, 66_667));
}

#[test]
fn rom_sessions() {
    let mut a = EmulatorActor::new();
    assert_eq!(a.pause(), 0);
    assert!(a.paused);
    assert_eq!(a.read_memory(RomSpace::Rom, 0, 1).unwrap_err().message(), "no ROM loaded");
    let info = a.load_rom(rom()).unwrap();
    assert_eq!((info.size, info.header_name.as_str()), (0x400, "SONIC"));
    assert_eq!(info.crc32, crc32_ieee(&rom()));
    assert!(!a.paused);
    assert_eq!(a.read_memory(RomSpace::Rom, 0x100, 4).unwrap(), b"SEGA".to_vec());
    assert!(a.read_memory(RomSpace::Z80, 0, 0).unwrap().is_empty());
    let m = |r: Result<Vec<u8>, SessionError>| r.unwrap_err().message();
    assert_eq!(
        m(a.read_memory(RomSpace::Rom, 0x400, 1)),
        "out-of-bounds ROM read: 0x00000400..0x00000401 (rom is 1024 bytes)"
    );
    assert_eq!(
        m(a.read_memory(RomSpace::Vsram, 0, 1)),
        "memory space Vsram not implemented in M1 (deferred to M2)"
    );
    assert_eq!(
        m(a.read_memory(RomSpace::Vsram, 0, u32::MAX)),
        "length 4294967295 exceeds sanity cap (16 MiB)"
    );
    assert_eq!(SessionError::Overflow.message(), "addr+length overflow");
    assert_eq!(
        a.load_rom(vec![0; 3]).unwrap_err().message(),
        "ROM too small: 3 bytes (need \u{2265}0x200)"
    );
    let mut bad = rom();
    bad[0x100..0x110].copy_from_slice(b"NINTENDO        ");
    assert_eq!(
        a.load_rom(bad).unwrap_err().message(),
        "missing SEGA magic at 0x100 (got: \"NINTENDO\")"
    );
    // A refused ROM leaves the session alone.
    assert_eq!(a.rom_bytes, Some(rom()));
}

#[test]
fn rom_session_spaces() {
    assert_eq!(parse_space("SaveRAM"), Ok(RomSpace::Saveram));
    assert_eq!(parse_space("cram"), Ok(RomSpace::Cram));
    assert_eq!(parse_space("TAPE"), Err("unknown memory space: \"tape\"".to_string()));
}
