//! The cartridge session: breakpoint words, replies, and the target's state.

use mds_mcp::target::edpro::elf_parse::SgdkSymbols;
use mds_mcp::target::edpro::session::{
    decode_g_reply_be, sprite_table_offset, tile_address, EdProTarget, ShortChunk, VramRead,
    SAT_TOTAL, VRAM_TOTAL,
};
use mds_mcp::target::edpro::stub_blob::{HEADER_MAGIC, STUB_LOAD_ADDR};
use mds_mcp::target::edpro::stub_sync::{
    check_ok, cram_reply, decode_hex_payload, decode_sized_payload, stop_reply, vdp_status_reply,
    vsram_reply,
};
use mds_mcp::target::edpro::{BreakpointTable, RspError, StopReply, StubSync, StubSyncError};
use mds_mcp::target::{EdProConfig, TargetKind, DEFAULT_BAUD, NOT_SUPPORTED};
use mds_mcp::tools::{classify_edpro_err, ToolReply};

fn hex(bytes: &[u8]) -> Vec<u8> {
    let mut out = Vec::with_capacity(bytes.len() * 2);
    for &b in bytes {
        out.extend_from_slice(format!("{b:02x}").as_bytes());
    }
    out
}

fn blob() -> Vec<u8> {
    let mut v = Vec::new();
    for word in [HEADER_MAGIC, 0x0030_0C4C, 0x0030_0C68, 0x0030_0A1C, 0, 0] {
        v.extend_from_slice(&word.to_be_bytes());
    }
    v.resize(64, 0xCD);
    v
}

fn connected(symbols: Option<SgdkSymbols>) -> EdProTarget {
    let mut t = EdProTarget::new(EdProConfig::default());
    let features = vec![("swbreak".to_string(), "+".to_string())];
    t.attach(StubSync::new(), features, &blob(), symbols);
    t
}

fn fixture_symbols() -> SgdkSymbols {
    SgdkSymbols {
        reg_values: 0x00FF_1234,
        bga_addr: 0x00FF_2000,
        bgb_addr: 0x00FF_2002,
        slist_addr: 0x00FF_2004,
        window_addr: 0x00FF_2006,
        hscroll: 0x00FF_2008,
        palette_cache: None,
    }
}

#[test]
fn bp_table_insert_get_remove() {
    let mut t = BreakpointTable::new();
    assert!(t.is_empty());
    t.insert(0x200, [0xAB, 0xCD]);
    assert_eq!(t.len(), 1);
    assert_eq!(t.get(0x200), Some([0xAB, 0xCD]));
    assert!(t.contains(0x200));
    assert_eq!(t.remove(0x200), Some([0xAB, 0xCD]));
    assert!(t.is_empty());
}

#[test]
fn bp_table_addresses_sorted() {
    let mut t = BreakpointTable::new();
    t.insert(0x300, [0; 2]);
    t.insert(0x100, [0; 2]);
    t.insert(0x200, [0; 2]);
    assert_eq!(t.addresses(), vec![0x100, 0x200, 0x300]);
}

#[test]
fn bp_table_keeps_one_word_per_address() {
    let mut t = BreakpointTable::default();
    t.insert(0x100, [1, 2]);
    t.insert(0x100, [3, 4]);
    assert_eq!((t.len(), t.get(0x100)), (1, Some([3, 4])));
    assert_eq!(t.remove(0x200), None);
    assert!(!t.contains(0x200));
}

#[test]
fn set_breakpoint_idempotent() {
    let mut s = StubSync::new();
    s.set_breakpoint_done(0x300, [0xAB, 0xCD], b"OK").unwrap();
    assert!(s.set_breakpoint_start(0x300).is_none());
    assert_eq!(s.list_breakpoints(), vec![0x300]);
}

#[test]
fn breakpoints_need_an_ok() {
    let mut s = StubSync::new();
    assert!(matches!(
        s.set_breakpoint_patch(0x200, b"12"),
        Err(StubSyncError::UnexpectedReply(_))
    ));
    assert!(s.set_breakpoint_done(0x200, [1, 2], b"E22").is_err());
    assert!(s.list_breakpoints().is_empty());
    s.set_breakpoint_done(0x200, [1, 2], b"OK").unwrap();
    assert!(s.clear_breakpoint_done(0x200, b"").is_err());
    assert_eq!(s.list_breakpoints(), vec![0x200]);
    s.clear_breakpoint_done(0x200, b"OK").unwrap();
    assert!(s.restore_request(0x200).is_none());
}

#[test]
fn on_breakpoint_hit_restores_keeps_entry() {
    let mut s = StubSync::new();
    s.set_breakpoint_done(0x400, [0x12, 0x34], b"OK").unwrap();
    assert_eq!(s.on_breakpoint_hit(0x400).unwrap(), b"M400,2:1234");
    assert_eq!(s.list_breakpoints(), vec![0x400]);
    assert_eq!(s.bps.get(0x400), Some([0x12, 0x34]));
}

#[test]
fn on_breakpoint_hit_unknown_addr_errors() {
    match StubSync::new().on_breakpoint_hit(0xDEAD) {
        Err(StubSyncError::UnexpectedReply(b)) => assert_eq!(b, b"no bp at 0xdead"),
        _ => panic!("nothing is set there"),
    }
}

#[test]
fn read_memory_decodes_hex() {
    assert_eq!(decode_hex_payload(b"deadbeef").unwrap(), vec![0xDE, 0xAD, 0xBE, 0xEF]);
    match decode_hex_payload(b"E01").unwrap_err() {
        StubSyncError::UnexpectedReply(p) => assert_eq!(p, b"E01"),
        other => panic!("wrong err: {other:?}"),
    }
    assert!(matches!(decode_hex_payload(b"E0"), Ok(v) if v == [0xE0]));
    assert!(matches!(decode_hex_payload(b"xyz1"), Err(StubSyncError::Rsp(RspError::BadHex))));
    assert!(matches!(decode_sized_payload(b"0102", 2), Ok(v) if v == [1, 2]));
    assert!(check_ok(b"OK").is_ok());
    assert!(check_ok(b"E22").is_err());
}

#[test]
fn video_replies_have_fixed_sizes() {
    let cram: Vec<u8> = (0..128).collect();
    assert_eq!(cram_reply(&hex(&cram)).unwrap(), cram);
    assert!(matches!(cram_reply(&hex(&[0; 64])), Err(StubSyncError::UnexpectedReply(_))));
    let vsram: Vec<u8> = (0..80).map(|i| i ^ 0xA5).collect();
    assert_eq!(vsram_reply(&hex(&vsram)).unwrap(), vsram);
    assert!(vsram_reply(&hex(&cram)).is_err());
    assert_eq!(vdp_status_reply(b"3408").unwrap(), 0x3408);
    assert!(vdp_status_reply(b"34").is_err());
}

#[test]
fn stop_replies() {
    assert!(matches!(stop_reply(b"S05"), Ok(StopReply::Sig(0x05))));
    assert!(matches!(stop_reply(b"T05thread:01;"), Ok(StopReply::TrapAt { signal: 5, .. })));
    assert!(matches!(stop_reply(b"W00"), Err(StubSyncError::Rsp(_))));
}

#[test]
fn dialogue_errors_have_messages() {
    assert!(StubSyncError::MaxRetransmits.message().contains("NAKed"));
    assert_eq!(StubSyncError::MaxRetransmits.message(), "stub NAKed > 3 times");
    assert!(StubSyncError::Rsp(RspError::NoPacketStart).message().contains("rsp codec"));
    assert_eq!(StubSyncError::Transport("gone".to_string()).message(), "transport: gone");
    assert_eq!(
        StubSyncError::UnexpectedReply(vec![b'"', 0xFF]).message(),
        "unexpected reply: \"\\\"\u{FFFD}\""
    );
}

#[test]
fn new_is_disconnected() {
    let t = EdProTarget::new(EdProConfig::default());
    assert!(!t.connected());
    assert_eq!(t.kind(), TargetKind::EdPro);
    let st = t.get_status();
    assert!(!st.connected);
    assert_eq!(st.bp_count, 0);
    assert_eq!(st.port, "<unset>");
    assert!(t.features().is_empty());
    assert_eq!((t.entry_vbl, t.blob_load_addr), (0, STUB_LOAD_ADDR));
}

#[test]
fn connect_with_port_none_returns_port_required() {
    let t = EdProTarget::new(EdProConfig::default());
    let e = t.connect_request().unwrap_err();
    assert!(e.contains(NOT_SUPPORTED), "got: {e}");
    assert!(
        e.contains("port required") || e.contains("--edpro-port"),
        "error should explain how to fix it: {e}"
    );
}

#[test]
fn config_default_port_is_none() {
    let cfg = EdProConfig::default();
    assert!(cfg.port.is_none(), "default port must be None");
    assert_eq!(cfg.baud, DEFAULT_BAUD);
    assert_eq!(DEFAULT_BAUD, 9600);
    assert!(!cfg.auto_detect_port);
    assert!(cfg.elf_path.is_none());
}

#[test]
fn port_str_when_set_renders_path() {
    let cfg = EdProConfig {
        port: Some("/dev/ttyACM0".to_string()),
        baud: 0,
        auto_detect_port: false,
        elf_path: None,
    };
    let t = EdProTarget::new(cfg);
    assert_eq!(t.port_str(), "/dev/ttyACM0");
    assert_eq!(t.get_status().port, "/dev/ttyACM0");
    assert_eq!(t.connect_request(), Ok(("/dev/ttyACM0".to_string(), 9600)));
}

#[test]
fn attaching_caches_features_and_the_hook() {
    let t = connected(None);
    assert!(t.connected());
    assert!(t.features().iter().any(|(k, v)| k == "swbreak" && v == "+"));
    assert_eq!(t.entry_vbl, 0x0030_0A1C);
    assert!(t.get_status().connected);
    assert!(t.check_connected().is_ok());
    let mut t = EdProTarget::new(EdProConfig::default());
    t.attach(StubSync::new(), vec![], &[], None);
    assert_eq!(
        t.pause_request(),
        Err("pause: stub VBL entry not cached (header parse failed at connect-time)".to_string())
    );
}

#[test]
fn attach_with_elf_caches_symbols_table() {
    let mut t = connected(Some(fixture_symbols()));
    assert_eq!(t.symbols().unwrap().slist_addr, 0x00FF_2004);
    assert_eq!(t.vdp_registers_addr(), Ok(0x00FF_1234));
    assert_eq!(t.sprite_table_addr(), Ok(0x00FF_2004));
    // A dialogue without an ELF keeps them.
    t.attach(StubSync::new(), vec![], &blob(), None);
    assert!(t.symbols().is_some());
}

#[test]
fn symbols_are_asked_for() {
    let t = connected(None);
    for e in [t.vdp_registers_addr().unwrap_err(), t.sprite_table_addr().unwrap_err()] {
        assert!(e.contains(NOT_SUPPORTED), "must include NOT_SUPPORTED tag: {e}");
        assert!(
            e.contains("ELF symbols not loaded") && e.contains("--edpro-elf"),
            "msg must hint at the elf-path fix, got: {e}"
        );
    }
}

#[test]
fn disconnected_methods_error_with_not_connected() {
    let t = EdProTarget::new(EdProConfig::default());
    for e in [
        t.check_connected().unwrap_err(),
        t.pause_request().unwrap_err(),
        t.vdp_registers_addr().unwrap_err(),
        t.sprite_table_addr().unwrap_err(),
    ] {
        assert!(
            e.contains(NOT_SUPPORTED) && e.contains("not connected"),
            "expected not_connected, got: {e}"
        );
        assert!(matches!(classify_edpro_err("t", &e), ToolReply::NotConnected { .. }));
    }
    assert!(t.list_breakpoints().is_empty());
}

#[test]
fn permanently_unsupported_tools_return_not_supported() {
    let t = connected(None);
    for e in [t.unsupported(), t.get_z80_registers(), t.screenshot()] {
        assert!(e.contains(NOT_SUPPORTED), "expected NOT_SUPPORTED, got: {e}");
        assert!(matches!(classify_edpro_err("t", &e), ToolReply::NotSupported { .. }));
    }
    assert!(t.screenshot().contains("M5.8"));
}

#[test]
fn a_pause_is_undone_by_a_resume() {
    let mut t = connected(None);
    assert_eq!(t.resume_request(), None);
    assert_eq!(t.pause_request(), Ok((STUB_LOAD_ADDR, 0x0030_0A1C)));
    t.pause_done(0x0010_5678);
    let e = t.pause_request().unwrap_err();
    assert!(e.contains("already paused"), "got: {e}");
    assert_eq!(t.resume_request(), Some(0x0010_5678));
    assert_eq!(t.resume_request(), None);
    assert!(t.pause_request().is_ok());
}

#[test]
fn get_status_reports_bp_count() {
    let mut t = connected(None);
    {
        let s = t.sync.as_mut().unwrap();
        s.set_breakpoint_done(0x200, [1, 1], b"OK").unwrap();
        s.set_breakpoint_done(0x100, [2, 2], b"OK").unwrap();
    }
    assert_eq!(t.get_status().bp_count, 2);
    assert_eq!(t.list_breakpoints(), vec![0x100, 0x200]);
}

#[test]
fn registers_are_big_endian() {
    let mut raw = Vec::new();
    for i in 0..8u32 {
        raw.extend_from_slice(&i.to_be_bytes());
    }
    for i in 0..8u32 {
        raw.extend_from_slice(&(0x10 + i).to_be_bytes());
    }
    raw.extend_from_slice(&0x2700u32.to_be_bytes());
    raw.extend_from_slice(&0x00FF_0000u32.to_be_bytes());
    let r = decode_g_reply_be(&raw).unwrap();
    assert_eq!(r.d, [0, 1, 2, 3, 4, 5, 6, 7]);
    assert_eq!(r.a, [0x10, 0x11, 0x12, 0x13, 0x14, 0x15, 0x16, 0x17]);
    assert_eq!(r.sr, 0x2700);
    assert_eq!(r.pc, 0x00FF_0000);
    assert!(decode_g_reply_be(&raw[..4]).is_err());
}

#[test]
fn the_sprite_table_is_read_in_chunks() {
    assert_eq!(sprite_table_offset(&[0xF4, 0x00]), Ok(0xF400));
    assert_eq!(
        sprite_table_offset(&[1]),
        Err("get_sprites: slist_addr read returned 1 bytes (expected 2)".to_string())
    );
    let mut r = VramRead::new(0xF400, SAT_TOTAL);
    let mut asked = Vec::new();
    let mut k: u8 = 0;
    while let Some((addr, len)) = r.next_request() {
        asked.push((addr, len));
        r.accept(&vec![0xA0 | k; len as usize]).unwrap();
        k += 1;
    }
    assert_eq!(asked, vec![(0xF400, 128), (0xF480, 128), (0xF500, 128), (0xF580, 128), (0xF600, 128)]);
    assert_eq!((r.data.len(), r.data[0], r.data[639]), (640, 0xA0, 0xA4));
}

#[test]
fn a_short_chunk_is_refused() {
    let mut r = VramRead::new(0, 200);
    r.accept(&[0; 128]).unwrap();
    let e = r.accept(&[0; 71]).unwrap_err();
    assert_eq!(e, ShortChunk { got: 71, expected: 72, offset: 128 });
    assert_eq!(
        e.message(),
        "get_sprites: short VRAM chunk: got 71 expected 72 at offset 128"
    );
    assert_eq!(e.whole_message(), "read_vram@0x80: short chunk (71 of 72)");
    assert_eq!(r.next_request(), Some((128, 72)));
    assert_eq!(VRAM_TOTAL, 65536);
    assert_eq!(VramRead::new(u32::MAX, 4).next_request(), Some((u32::MAX, 4)));
}

#[test]
fn tiles_are_32_bytes_apart() {
    assert_eq!(tile_address(0x10), 0x200);
    assert_eq!(tile_address(0x0800_0001), 32);
}
