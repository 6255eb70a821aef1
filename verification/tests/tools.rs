//! Tool arguments and replies, resources, subscriptions and notifications.

use base64::engine::general_purpose::STANDARD;
use base64::Engine;
use mds_mcp::codec::DecodeFault;
use mds_mcp::emulator::runner::{Status, StepOutcome};
use mds_mcp::emulator::{BpKind, BpSpace, Breakpoint, MemorySpace, RomInfo, SetBpOutcome};
use mds_mcp::notifications::{min_interval_for_hz, Notifier, Snapshot};
use mds_mcp::resources::{
    cached_contents, catalogue_entry, find, find_index, list_resources, read_contents,
    spaces_needed, ResourceBody, ResourceContents, ResourceSource, CATALOGUE_LEN,
};
use mds_mcp::server::{unknown_uri, Subscriptions};
use mds_mcp::target::{TargetKind, NOT_SUPPORTED};
use mds_mcp::tools::{
    cart_breakpoint_request, cart_clear_breakpoint, cart_done, cart_list_breakpoints,
    cart_read_memory, cart_set_breakpoint, cart_step_instruction, classify_edpro_err,
    data_argument, done_reply, frame_reply, mega_clear_breakpoint, mega_dump_tile,
    mega_get_68k_registers, mega_get_palettes, mega_get_sprites, mega_get_status,
    mega_get_vdp_registers, mega_get_z80_registers, mega_list_breakpoints, mega_load_rom,
    mega_read_memory, mega_save_state, mega_set_breakpoint, mega_step_instruction,
    not_supported_on_target, slot_argument, space_argument, step_frame_count,
    step_instruction_count, told_fault, write_memory_request, BreakpointArgs, DumpTileArgs,
    ReadMemoryArgs, StateSlotArgs, StepFrameArgs, StepInstructionArgs, ToolReply, WriteMemoryArgs,
};

fn error(r: ToolReply) -> String {
    match r {
        ToolReply::Error(m) => m,
        _ => panic!("not an error"),
    }
}

fn why() -> String {
    "why".to_string()
}

#[test]
fn failures_are_told() {
    assert_eq!(error(done_reply("unload_rom", Err(why()))), "unload_rom failed: why");
    assert_eq!(error(frame_reply("pause", Err(why()))), "pause failed: why");
    assert_eq!(error(mega_load_rom(Err(why()))), "load_rom failed: why");
    assert_eq!(error(mega_step_instruction(Err(why()))), "step_instruction failed: why");
    assert_eq!(error(mega_set_breakpoint(Err(why()))), "set_breakpoint failed: why");
    assert_eq!(error(mega_clear_breakpoint(Err(why()))), "clear_breakpoint failed: why");
    assert_eq!(error(mega_list_breakpoints(Err(why()))), "list_breakpoints failed: why");
    assert_eq!(error(mega_save_state(Err(why()))), "save_state failed: why");
    assert_eq!(error(mega_get_status(Err(why()))), "status failed: why");
}

#[test]
fn successes_carry_their_values() {
    assert!(matches!(done_reply("x", Ok(())), ToolReply::Done));
    assert!(matches!(frame_reply("x", Ok(5)), ToolReply::Frame { frame: 5 }));
    assert!(matches!(mega_save_state(Ok(9)), ToolReply::StateSaved { size: 9 }));
    assert!(matches!(
        mega_clear_breakpoint(Ok(true)),
        ToolReply::BreakpointCleared { removed: true }
    ));
    let status = Status {
        rom_loaded: true,
        paused: false,
        frame: 3,
        target: "emulator",
        libra_linked: false,
    };
    assert!(matches!(mega_get_status(Ok(status)), ToolReply::Status(_)));
    let out = StepOutcome { pc: 1, sr: 2, frame: 3, instructions_executed: 4, granularity: "frame" };
    match mega_step_instruction(Ok(out)) {
        ToolReply::Stepped(o) => assert_eq!((o.pc, o.instructions_executed), (1, 4)),
        _ => panic!("not stepped"),
    }
    let out = SetBpOutcome { ok: true, id: 8, reason: None };
    match mega_set_breakpoint(Ok(out)) {
        ToolReply::BreakpointSet(o) => assert_eq!(o.id, 8),
        _ => panic!("not set"),
    }
    let info = RomInfo {
        size: 512,
        crc32: 0xBEEF,
        header_name: "N".to_string(),
        region: "J".to_string(),
    };
    match mega_load_rom(Ok(info)) {
        ToolReply::LoadedRom { size, crc32, header_name, region } => {
            assert_eq!((size, crc32.as_str()), (512, "0000BEEF"));
            assert_eq!((header_name.as_str(), region.as_str()), ("N", "J"));
        }
        _ => panic!("not loaded"),
    }
}

#[test]
fn cartridge_errors_are_classified() {
    match classify_edpro_err("mega_pause", "not_supported_on_target: edpro target not connected") {
        ToolReply::NotConnected { tool, message } => {
            assert_eq!(tool, "mega_pause");
            assert_eq!(message, "mega_pause: edpro target not connected");
        }
        _ => panic!("a missing connection comes first"),
    }
    match classify_edpro_err("mega_load_rom", NOT_SUPPORTED) {
        ToolReply::NotSupported { tool, message } => {
            assert_eq!(tool, "mega_load_rom");
            assert_eq!(
                message,
                "mega_load_rom is not supported on the EdPro hardware target stub (M5.1)"
            );
        }
        _ => panic!("not supported"),
    }
    assert_eq!(error(classify_edpro_err("mega_resume", "boom")), "mega_resume failed: boom");
    assert!(matches!(not_supported_on_target("t"), ToolReply::NotSupported { .. }));
    assert!(matches!(cart_done("t", Ok(())), ToolReply::Done));
    assert_eq!(error(cart_done("t", Err(why()))), "t failed: why");
}

#[test]
fn cartridge_replies() {
    match cart_step_instruction(Ok("Sig(5)".to_string())) {
        ToolReply::CartStepped { stop_reply } => assert_eq!(stop_reply, "Sig(5)"),
        _ => panic!("not stepped"),
    }
    assert_eq!(error(cart_step_instruction(Err(why()))), "mega_step_instruction failed: why");
    let none = BreakpointArgs { addr: None, kind: None, space: None };
    match cart_breakpoint_request(&none) {
        Err(e) => assert_eq!(error(e), "missing required field: addr"),
        Ok(_) => panic!("an address is required"),
    }
    let some = BreakpointArgs { addr: Some(6), kind: Some("wat".to_string()), space: None };
    assert!(matches!(cart_breakpoint_request(&some), Ok(6)));
    assert!(matches!(cart_set_breakpoint(6, Ok(())), ToolReply::CartBreakpointSet { addr: 6 }));
    assert_eq!(error(cart_set_breakpoint(6, Err(why()))), "mega_set_breakpoint failed: why");
    assert!(matches!(
        cart_clear_breakpoint(Ok(())),
        ToolReply::BreakpointCleared { removed: true }
    ));
    assert_eq!(error(cart_clear_breakpoint(Err(why()))), "mega_clear_breakpoint failed: why");
    match cart_list_breakpoints(&vec![0x100, 0x300]) {
        ToolReply::Breakpoints(l) => {
            assert_eq!(l.len(), 2);
            assert_eq!(
                l[1],
                Breakpoint {
                    id: 0x300,
                    addr: 0x300,
                    kind: BpKind::Exec,
                    space: BpSpace::Rom,
                    hit_count: 0,
                    enabled: true,
                }
            );
        }
        _ => panic!("no list"),
    }
}

#[test]
fn counts_and_slots_are_clamped() {
    assert_eq!(step_frame_count(StepFrameArgs { n: None }), 1);
    assert_eq!(step_frame_count(StepFrameArgs { n: Some(0) }), 0);
    assert_eq!(step_frame_count(StepFrameArgs { n: Some(10_001) }), 10_000);
    assert_eq!(step_instruction_count(StepInstructionArgs { n: None }), 1);
    assert_eq!(step_instruction_count(StepInstructionArgs { n: Some(0) }), 1);
    assert_eq!(step_instruction_count(StepInstructionArgs { n: Some(u32::MAX) }), 1_000_000);
    assert_eq!(slot_argument(StateSlotArgs { slot: None }), 0);
    assert_eq!(slot_argument(StateSlotArgs { slot: Some(7) }), 7);
}

#[test]
fn memory_replies_are_base64() {
    let args = |space: &str| ReadMemoryArgs { space: space.to_string(), addr: 4, length: 3 };
    match mega_read_memory(args("RAM"), Ok(vec![0xFF, 0xEE, 0xDD])) {
        ToolReply::Memory { addr, length, space, data } => {
            assert_eq!((addr, length, space.as_str()), (4, 3, "RAM"));
            assert_eq!(data, "/+7d");
        }
        _ => panic!("no memory"),
    }
    match cart_read_memory(args("x"), Ok(vec![1])) {
        ToolReply::Memory { data, .. } => assert_eq!(data, "AQ=="),
        _ => panic!("no memory"),
    }
    assert_eq!(error(mega_read_memory(args("ram"), Err(why()))), "read_memory failed: why");
    assert_eq!(error(cart_read_memory(args("ram"), Err(why()))), "mega_read_memory failed: why");
    assert!(matches!(space_argument("Z80Bus"), Ok(MemorySpace::Z80Bus)));
    match space_argument("a\"b") {
        Err(e) => assert_eq!(error(e), "unknown memory space: \"a\\\"b\""),
        Ok(_) => panic!("no such space"),
    }
}

#[test]
fn arguments_give_their_bytes_back() {
    for n in 0..70usize {
        let bytes: Vec<u8> = (0..n).map(|i| (i * 37 + n) as u8).collect();
        match data_argument(&STANDARD.encode(&bytes)) {
            Ok(got) => assert_eq!(got, bytes),
            Err(_) => panic!("canonical text"),
        }
    }
}

#[test]
fn bad_base64_is_told() {
    let told = |s: &str| match data_argument(s) {
        Err(e) => error(e),
        Ok(_) => panic!("not Base64"),
    };
    assert_eq!(told("AB*D"), "invalid base64: Invalid symbol 42, offset 2.");
    assert_eq!(told("A"), "invalid base64: Invalid input length: 1");
    assert_eq!(told("AQ"), "invalid base64: Invalid padding");
    assert_eq!(told("AR=="), "invalid base64: Invalid last symbol 82, offset 1.");
    for (fault, text) in [
        (DecodeFault::InvalidByte(2, 42), "Invalid symbol 42, offset 2."),
        (DecodeFault::InvalidLength(5), "Invalid input length: 5"),
        (DecodeFault::InvalidLastSymbol(1, 82), "Invalid last symbol 82, offset 1."),
        (DecodeFault::InvalidPadding, "Invalid padding"),
    ] {
        assert_eq!(fault.message(), text);
        assert_eq!(error(told_fault(fault)), format!("invalid base64: {text}"));
    }
}

#[test]
fn write_requests_check_the_space_first() {
    let args = |space: &str, data: &str| WriteMemoryArgs {
        space: space.to_string(),
        addr: 0,
        data: data.to_string(),
    };
    match write_memory_request(&args("vram", "AQI=")) {
        Ok((space, bytes)) => assert_eq!((space, bytes), (MemorySpace::Vram, vec![1, 2])),
        Err(_) => panic!("good arguments"),
    }
    match write_memory_request(&args("nope", "!")) {
        Err(e) => assert_eq!(error(e), "unknown memory space: \"nope\""),
        Ok(_) => panic!("no such space"),
    }
    match write_memory_request(&args("ram", "!")) {
        Err(e) => assert!(error(e).contains("invalid base64: ")),
        Ok(_) => panic!("not Base64"),
    }
}

#[test]
fn register_tools() {
    match mega_get_vdp_registers(&[0x00, 0x40]) {
        ToolReply::Vdp(v) => assert!(v.decoded.display_enabled && v.regs.len() == 24),
        _ => panic!("no registers"),
    }
    match mega_get_68k_registers(&[0; 77]) {
        ToolReply::NotImplemented { reason } => assert_eq!(
            reason,
            "m68k_state blob layout not yet stable in the libretro core fork"
        ),
        _ => panic!("too short"),
    }
    assert!(matches!(mega_get_68k_registers(&[0; 78]), ToolReply::M68k(_)));
    match mega_get_z80_registers(&[], &[]) {
        ToolReply::NotImplemented { reason } => assert_eq!(
            reason,
            "z80 state blob unavailable (libretro core fork not linked yet)"
        ),
        _ => panic!("too short"),
    }
    assert!(matches!(mega_get_z80_registers(&[0; 30], &[]), ToolReply::Z80(_)));
}

#[test]
fn picture_tools() {
    let mut cram = vec![0u8; 128];
    cram[97] = 0x0E;
    match mega_get_palettes(&cram) {
        ToolReply::Palettes(p) => assert_eq!((p.len(), p[3][0].r), (4, 255)),
        _ => panic!("no palettes"),
    }
    let mut vdp = vec![0u8; 24];
    vdp[5] = 0x10;
    let mut vram = vec![0u8; 0x10000];
    vram[0x2001] = 0x99;
    match mega_get_sprites(&vdp, &vram) {
        ToolReply::Sprites(s) => assert_eq!((s.len(), s[0].y), (1, 0x99)),
        _ => panic!("no sprites"),
    }
    vram[0] = 0x12;
    vram[32] = 0x34;
    let args = |palette: Option<u8>, format: Option<&str>| DumpTileArgs {
        index: 0,
        palette,
        format: format.map(|f| f.to_string()),
    };
    match mega_dump_tile(&args(Some(9), None), &vram, &cram) {
        ToolReply::Tile { width, height, bitmap, palette } => {
            assert_eq!((width, height), (8, 8));
            let bitmap = STANDARD.decode(bitmap).unwrap();
            assert_eq!((bitmap.len(), bitmap[0], bitmap[1]), (64, 1, 2));
            let palette = STANDARD.decode(palette).unwrap();
            assert_eq!(palette.len(), 64);
            assert_eq!(&palette[..4], &[255, 0, 0, 255]);
        }
        _ => panic!("no tile"),
    }
    match mega_dump_tile(&args(None, Some("8x16")), &vram, &[]) {
        ToolReply::Tile { height, bitmap, palette, .. } => {
            let bitmap = STANDARD.decode(bitmap).unwrap();
            assert_eq!((height, bitmap.len(), bitmap[64], bitmap[65]), (16, 128, 3, 4));
            assert_eq!(palette, "");
        }
        _ => panic!("no tile"),
    }
}

#[test]
fn the_catalogue_has_nine_resources() {
    let all = list_resources();
    assert_eq!(all.len(), 9);
    assert_eq!(CATALOGUE_LEN, 9);
    for uri in [
        "mega://vram",
        "mega://cram",
        "mega://vsram",
        "mega://vdp/registers",
        "mega://sprites",
        "mega://m68k/registers",
        "mega://z80/registers",
        "mega://breakpoints",
        "mega://framebuffer",
    ] {
        let def = find(uri).expect(uri);
        assert_eq!(def.uri, uri);
        assert_eq!(catalogue_entry(find_index(uri).unwrap()).name, def.name);
        assert_eq!(all.iter().filter(|r| r.uri == uri).count(), 1);
    }
    assert!(find("mega://nonexistent").is_none());
    let vram = find("mega://vram").unwrap();
    assert_eq!((vram.name, vram.mime_type), ("VRAM", "application/octet-stream"));
    assert_eq!(vram.source, ResourceSource::Region(MemorySpace::Vram));
    assert_eq!(find("mega://framebuffer").unwrap().mime_type, "image/png");
}

/// The content of a resource, whose labels have been checked.
fn labelled(uri: &str, r: ResourceContents) -> ResourceBody {
    assert_eq!((r.uri, r.mime_type), (uri, find(uri).unwrap().mime_type));
    r.body
}

fn read(uri: &str, first: &[u8], second: &[u8], breakpoints: Vec<Breakpoint>) -> ResourceBody {
    labelled(uri, read_contents(&find(uri).unwrap(), first, second, breakpoints))
}

fn cached(uri: &str, payload: &[u8]) -> ResourceBody {
    labelled(uri, cached_contents(&find(uri).unwrap(), payload))
}

#[test]
fn resources_are_read_from_their_spaces() {
    let source = |uri: &str| find(uri).unwrap().source;
    assert_eq!(
        spaces_needed(source("mega://sprites")),
        (Some(MemorySpace::VdpState), Some(MemorySpace::Vram))
    );
    assert_eq!(
        spaces_needed(source("mega://z80/registers")),
        (Some(MemorySpace::Z80), Some(MemorySpace::Z80Bus))
    );
    assert_eq!(spaces_needed(source("mega://breakpoints")), (None, None));
    let r = read_contents(&find("mega://cram").unwrap(), &[], &[], vec![]);
    assert_eq!((r.uri, r.mime_type), ("mega://cram", "application/octet-stream"));
    match read("mega://cram", &[1, 2], &[], vec![]) {
        ResourceBody::Blob(t) => assert_eq!(t, "AQI="),
        _ => panic!("a blob"),
    }
    match read("mega://framebuffer", &[1], &[], vec![]) {
        ResourceBody::Blob(t) => assert_eq!(t, ""),
        _ => panic!("a blob"),
    }
    match read("mega://m68k/registers", &[], &[], vec![]) {
        ResourceBody::M68k(r) => assert_eq!((r.d, r.pc), ([0; 8], 0)),
        _ => panic!("registers"),
    }
    match read("mega://z80/registers", &[], &[], vec![]) {
        ResourceBody::Z80(r) => assert_eq!((r.pc, r.im), (0, 0)),
        _ => panic!("registers"),
    }
    assert!(matches!(
        read("mega://vdp/registers", &[], &[], vec![]),
        ResourceBody::Vdp(_)
    ));
    match read("mega://sprites", &[], &[0; 8], vec![]) {
        ResourceBody::Sprites(s) => assert_eq!(s.len(), 1),
        _ => panic!("sprites"),
    }
    let bp = Breakpoint {
        id: 1,
        addr: 2,
        kind: BpKind::Read,
        space: BpSpace::Ram,
        hit_count: 0,
        enabled: true,
    };
    match read("mega://breakpoints", &[], &[], vec![bp]) {
        ResourceBody::Breakpoints(l) => assert_eq!(l, vec![bp]),
        _ => panic!("breakpoints"),
    }
}

#[test]
fn cached_payloads_go_out_as_they_are() {
    match cached("mega://vram", &[1, 2]) {
        ResourceBody::Blob(t) => assert_eq!(t, "AQI="),
        _ => panic!("a blob"),
    }
    match cached("mega://framebuffer", &[3]) {
        ResourceBody::Blob(t) => assert_eq!(t, "Aw=="),
        _ => panic!("a blob"),
    }
    match cached("mega://vdp/registers", "{\"\u{e9}\":1}".as_bytes()) {
        ResourceBody::Json(t) => assert_eq!(t, "{\"\u{e9}\":1}"),
        _ => panic!("JSON"),
    }
    match cached("mega://vdp/registers", &[0xFF]) {
        ResourceBody::Json(t) => assert_eq!(t, ""),
        _ => panic!("JSON"),
    }
}

#[test]
fn subscriptions_need_a_known_uri() {
    let mut subs = Subscriptions::new();
    assert!(subs.subscribe("mega://vram").is_ok());
    assert_eq!(
        subs.subscribe("mega://nonexistent"),
        Err("unknown resource uri: mega://nonexistent".to_string())
    );
    assert_eq!(unknown_uri("x"), "unknown resource uri: x");
    assert!(subs.subscribe("mega://vram").is_ok());
    assert_eq!(subs.set.len(), 1);
    subs.unsubscribe("mega://cram");
    subs.unsubscribe("mega://nonexistent");
    assert_eq!(subs.set.len(), 1);
    subs.unsubscribe("mega://vram");
    assert!(subs.set.is_empty());
}

#[test]
fn refresh_rates_are_clamped() {
    assert_eq!(min_interval_for_hz(0), 1000);
    assert_eq!(min_interval_for_hz(1), 1000);
    assert_eq!(min_interval_for_hz(4), 250);
    assert_eq!(min_interval_for_hz(7), 142);
    assert_eq!(min_interval_for_hz(30), 33);
    assert_eq!(min_interval_for_hz(u32::MAX), 33);
}

#[test]
fn notifications_are_spaced_and_payloads_kept() {
    let snap = |b: u8| Snapshot { bytes: vec![b], mime: "application/octet-stream" };
    let mut n = Notifier::new(250);
    assert!(n.cached(0).is_none());
    assert!(n.on_event(0, snap(1), 1_000_000_000));
    assert!(!n.on_event(0, snap(2), 1_249_999_999));
    assert_eq!(n.cached(0).unwrap().bytes, vec![2]);
    assert!(n.on_event(1, snap(9), 1_249_999_999));
    assert!(n.on_event(0, snap(3), 1_250_000_000));
    // A clock that runs backwards counts as no time at all.
    assert!(!n.on_event(0, snap(4), 900_000_000));
    assert_eq!(n.cached(0).unwrap().bytes, vec![4]);
    assert_eq!(n.cached(1).unwrap().bytes, vec![9]);
    assert!(Notifier::new(0).on_event(5, snap(0), 0));
}

#[test]
fn target_names_parse() {
    for k in [TargetKind::Emulator, TargetKind::EdPro] {
        assert_eq!(TargetKind::parse(k.as_str()), Some(k));
    }
    assert_eq!(TargetKind::parse("EMU"), Some(TargetKind::Emulator));
    assert_eq!(TargetKind::parse("Ed-Pro"), Some(TargetKind::EdPro));
    assert_eq!(TargetKind::parse("everdrive"), Some(TargetKind::EdPro));
    assert_eq!(TargetKind::parse("snes"), None);
}
