//! The cartridge's packet codec, its command frames and the stub's header.

use mds_mcp::target::edpro::framing::{decode_cmd, encode_cmd, FramingError};
use mds_mcp::target::edpro::proto::{
    host_reset_request, mem_read_request, status_reply, status_request, usb_write_request,
    M68kBusAddr, MemWrite, Opcode, PiBusAddr, ProtoError, ResetMode, StatusReply, MEM_WR_BLOCK,
    PI_BRAM_BASE, PI_CFG_BASE, PI_FIFO_BASE, PI_MAP_BASE, PI_ROM_BASE, PI_SRAM_BASE,
};
use mds_mcp::target::edpro::rsp::{
    cmd_clear_sw_breakpoint, cmd_continue, cmd_qmds_cram, cmd_qmds_vdp_status, cmd_qmds_vram,
    cmd_qmds_vsram, cmd_query_halt_reason, cmd_query_start_no_ack_mode, cmd_query_supported,
    cmd_read_memory, cmd_read_one_register, cmd_read_registers, cmd_set_sw_breakpoint, cmd_step,
    cmd_vcont, cmd_write_memory, cmd_write_one_register, cmd_write_registers, encode_ack,
    escape_payload, hex_nibble, parse_error, parse_hex_bytes, parse_ok, parse_qsupported_reply,
    parse_stop_reply, push_hex_byte, split_feature, text_bytes, try_parse_ack, xor_checksum,
};
use mds_mcp::target::edpro::stub_blob::{
    deploy_writes, original_handler, parse_header, pause_writes, unpause_writes, DeployError,
    LongWrite, HEADER_MAGIC, HEADER_OFF_ORIGINAL_VBL, HEADER_OFF_PAUSED_FLAG, MAX_BLOB_SIZE,
    STUB_BSS_ADDR, STUB_BSS_LEN, STUB_LOAD_ADDR, VEC_TRACE, VEC_TRAP1, VEC_VBL,
};
use mds_mcp::target::edpro::{decode_packet, encode_packet, AckByte, RspError, StopReply};

#[test]
fn decode_well_formed() {
    let (p, n) = decode_packet(b"$OK#04").unwrap();
    assert_eq!(p, b"OK");
    assert_eq!(n, 6);
}

#[test]
fn decode_skips_leading_garbage() {
    let (p, n) = decode_packet(b"junk$OK#04tail").unwrap();
    assert_eq!(p, b"OK");
    assert_eq!(n, 10); // 4 garbage + 6 packet
}

#[test]
fn decode_skips_leading_ack() {
    let (p, n) = decode_packet(b"+$OK#04").unwrap();
    assert_eq!(p, b"OK");
    assert_eq!(n, 7);
}

#[test]
fn decode_no_dollar() {
    assert!(matches!(decode_packet(b"junk"), Err(RspError::NoPacketStart)));
}

#[test]
fn decode_no_hash() {
    assert!(matches!(decode_packet(b"$abcdef"), Err(RspError::UnterminatedPacket)));
}

#[test]
fn decode_truncated_csum() {
    assert!(matches!(decode_packet(b"$abc#6"), Err(RspError::UnterminatedPacket)));
}

#[test]
fn decode_bad_csum() {
    match decode_packet(b"$OK#00") {
        Err(RspError::BadChecksum { got, expected }) => {
            assert_eq!(got, 0x00);
            assert_eq!(expected, 0x04);
        }
        other => panic!("expected BadChecksum, got {other:?}"),
    }
    assert!(matches!(decode_packet(b"$OK#zz"), Err(RspError::BadHex)));
}

#[test]
fn decode_escape_hash() {
    let frame = encode_packet(b"#");
    let (p, _) = decode_packet(&frame).unwrap();
    assert_eq!(p, b"#");
}

#[test]
fn decode_dangling_escape() {
    assert!(matches!(decode_packet(b"$}#7d"), Err(RspError::BadEscape)));
}

#[test]
fn decode_rle_expansion() {
    // "X*\x20": count = 0x20 - 29 = 3 more X
    let (p, _) = decode_packet(b"$X*\x20#52").unwrap();
    assert_eq!(p, b"XXXX");
}

#[test]
fn decode_rle_bad_count() {
    // count byte = 28 < 29
    assert!(matches!(decode_packet(b"$X*\x1c#6e"), Err(RspError::BadEscape)));
}

#[test]
fn ack_encode() {
    assert_eq!(encode_ack(AckByte::Accept), b'+');
    assert_eq!(encode_ack(AckByte::Retransmit), b'-');
}

#[test]
fn ack_parse() {
    assert_eq!(try_parse_ack(b'+'), Some(AckByte::Accept));
    assert_eq!(try_parse_ack(b'-'), Some(AckByte::Retransmit));
    assert_eq!(try_parse_ack(b'X'), None);
    assert_eq!(try_parse_ack(b'$'), None);
}

#[test]
fn command_payloads() {
    assert_eq!(cmd_query_supported(&[]), b"qSupported".to_vec());
    assert_eq!(
        cmd_query_supported(&["swbreak+", "hwbreak+"]),
        b"qSupported:swbreak+;hwbreak+".to_vec()
    );
    assert_eq!(cmd_read_registers(), b"g".to_vec());
    assert_eq!(cmd_write_registers(&[0xDE, 0xAD, 0xBE, 0xEF]), b"Gdeadbeef".to_vec());
    assert_eq!(cmd_read_one_register(0), b"p0".to_vec());
    assert_eq!(cmd_read_one_register(0x11), b"p11".to_vec());
    assert_eq!(cmd_read_one_register(0xABCD), b"pabcd".to_vec());
    assert_eq!(cmd_write_one_register(7, &[0x12, 0x34]), b"P7=1234".to_vec());
    assert_eq!(cmd_read_memory(0xFF0000, 4), b"mff0000,4".to_vec());
    assert_eq!(cmd_write_memory(0xFF8000, &[0xAA, 0xBB]), b"Mff8000,2:aabb".to_vec());
    assert_eq!(cmd_continue(None), b"c".to_vec());
    assert_eq!(cmd_continue(Some(0x200)), b"c200".to_vec());
    assert_eq!(cmd_step(None), b"s".to_vec());
    assert_eq!(cmd_step(Some(0x1000)), b"s1000".to_vec());
    assert_eq!(cmd_set_sw_breakpoint(0x200, 2), b"Z0,200,2".to_vec());
    assert_eq!(cmd_clear_sw_breakpoint(0x200, 2), b"z0,200,2".to_vec());
    assert_eq!(cmd_query_halt_reason(), b"?".to_vec());
    assert_eq!(cmd_vcont("c:1"), b"vCont;c:1".to_vec());
    assert_eq!(cmd_query_start_no_ack_mode(), b"QStartNoAckMode".to_vec());
    assert_eq!(cmd_qmds_cram(), b"qMdsCram".to_vec());
    assert_eq!(cmd_qmds_vsram(), b"qMdsVsram".to_vec());
    assert_eq!(cmd_qmds_vdp_status(), b"qMdsVdpStatus".to_vec());
    assert_eq!(cmd_qmds_vram(0, 32), b"qMdsVram:0,20".to_vec());
    assert_eq!(cmd_qmds_vram(0xC000, 64), b"qMdsVram:c000,40".to_vec());
    assert_eq!(cmd_qmds_vram(0x1234, 0x80), b"qMdsVram:1234,80".to_vec());
    assert_eq!(text_bytes("\u{e9}"), vec![0xC3, 0xA9]);
}

#[test]
fn cmd_qmds_vram_roundtrips_through_packet() {
    let frame = encode_packet(&cmd_qmds_vram(0xC000, 0x40));
    let (decoded, _) = decode_packet(&frame).unwrap();
    assert_eq!(decoded, b"qMdsVram:c000,40");
}

#[test]
fn parse_ok_and_error_replies() {
    assert!(parse_ok(b"OK").is_ok());
    assert!(parse_ok(b"oK").is_err());
    assert!(parse_ok(b"").is_err());
    assert_eq!(parse_error(b"E01").unwrap(), 1);
    assert_eq!(parse_error(b"Eff").unwrap(), 0xFF);
    assert!(parse_error(b"OK").is_err());
    assert!(parse_error(b"E0").is_err());
}

#[test]
fn replies_that_are_not_utf8_are_told_with_replacements() {
    let m = parse_ok(&[b'a', 0xFF, b'b']).unwrap_err().message();
    assert!(m.contains("a\u{FFFD}b"), "{m}");
}

#[test]
fn parse_stop_simple() {
    assert!(matches!(parse_stop_reply(b"S05"), Ok(StopReply::Sig(0x05))));
}

#[test]
fn parse_stop_rich() {
    match parse_stop_reply(b"T05thread:01;").unwrap() {
        StopReply::TrapAt { signal, regs, reason } => {
            assert_eq!(signal, 0x05);
            assert!(regs.is_empty());
            assert_eq!(reason.as_deref(), Some("thread:01"));
        }
        _ => panic!("expected TrapAt"),
    }
}

#[test]
fn parse_stop_rich_with_reg() {
    match parse_stop_reply(b"T050a:deadbeef;thread:01;").unwrap() {
        StopReply::TrapAt { signal, regs, reason } => {
            assert_eq!(signal, 0x05);
            assert_eq!(regs, vec![(0x0a, vec![0xDE, 0xAD, 0xBE, 0xEF])]);
            assert_eq!(reason.as_deref(), Some("thread:01"));
        }
        _ => panic!("expected TrapAt"),
    }
}

#[test]
fn parse_stop_malformed() {
    assert!(parse_stop_reply(b"").is_err());
    assert!(parse_stop_reply(b"X05").is_err());
    assert!(parse_stop_reply(b"S0").is_err());
}

#[test]
fn parse_qsupported_mixed() {
    let v = parse_qsupported_reply(b"PacketSize=400;swbreak+;hwbreak-;qXfer:features:read-");
    let has = |k: &str, val: &str| v.iter().any(|(a, b)| a == k && b == val);
    assert_eq!(v.len(), 4);
    assert!(has("PacketSize", "400"));
    assert!(has("swbreak", "+"));
    assert!(has("hwbreak", "-"));
    assert!(has("qXfer:features:read", "-"));
    assert_eq!(split_feature("a=b=c"), ("a".to_string(), "b=c".to_string()));
}

#[test]
fn hex_bytes() {
    assert_eq!(parse_hex_bytes(b"deadbeef").unwrap(), vec![0xDE, 0xAD, 0xBE, 0xEF]);
    assert_eq!(parse_hex_bytes(b"").unwrap(), Vec::<u8>::new());
    assert!(parse_hex_bytes(b"abc").is_err());
    assert!(parse_hex_bytes(b"zz").is_err());
    assert_eq!(hex_nibble(b'F'), Some(15));
    assert_eq!(hex_nibble(b'g'), None);
    for b in 0u8..=255 {
        let mut out = Vec::new();
        push_hex_byte(&mut out, b);
        assert_eq!(out, format!("{b:02x}").into_bytes());
        assert_eq!(parse_hex_bytes(&out).unwrap(), vec![b]);
    }
    assert_eq!(xor_checksum(b"abc"), 0x60);
    assert_eq!(escape_payload(b"a*b"), b"a}\x0ab".to_vec());
}

#[test]
fn packets_decode_to_what_was_encoded() {
    let all: Vec<u8> = (0..=255).collect();
    for p in [
        &b""[..],
        &b"OK"[..],
        &b"hello world"[..],
        &b"qSupported:swbreak+;hwbreak+"[..],
        &b"#"[..],
        &b"$"[..],
        &b"}"[..],
        &b"*"[..],
        &b"#$}*"[..],
        &b"a#b$c}d*e"[..],
        &all[..],
    ] {
        let frame = encode_packet(p);
        let (decoded, n) = decode_packet(&frame).unwrap();
        assert_eq!(decoded, p);
        assert_eq!(n, frame.len());
    }
    let payload = cmd_read_memory(0xFF8000, 16);
    let (decoded, _) = decode_packet(&encode_packet(&payload)).unwrap();
    assert_eq!(decoded, b"mff8000,10");
}

#[test]
fn rsp_errors_have_messages() {
    assert_eq!(RspError::NoPacketStart.message(), "no '$' packet start in input");
    assert_eq!(RspError::UnterminatedPacket.message(), "packet missing '#xx' terminator");
    assert_eq!(
        RspError::BadChecksum { got: 0xAB, expected: 4 }.message(),
        "bad checksum: got 0xab, expected 0x04"
    );
    assert_eq!(RspError::BadEscape.message(), "malformed '}' escape sequence");
    assert_eq!(RspError::BadHex.message(), "malformed hex string");
    assert_eq!(RspError::UnexpectedReply("x".to_string()).message(), "unexpected reply: x");
}

#[test]
fn encode_known_opcodes() {
    assert_eq!(encode_cmd(0x10), [0x2B, 0xD4, 0x10, 0xEF]);
    assert_eq!(encode_cmd(0x19), [0x2B, 0xD4, 0x19, 0xE6]);
    assert_eq!(encode_cmd(0x1A), [0x2B, 0xD4, 0x1A, 0xE5]);
    assert_eq!(encode_cmd(0x22), [0x2B, 0xD4, 0x22, 0xDD]);
    assert_eq!(encode_cmd(0x29), [0x2B, 0xD4, 0x29, 0xD6]);
}

#[test]
fn roundtrip_all_opcodes() {
    for op in 0u8..=255 {
        let f = encode_cmd(op);
        assert_eq!(decode_cmd(&f).unwrap(), op);
        for i in 0..4usize {
            let mut bad = f;
            bad[i] ^= 1;
            assert!(decode_cmd(&bad).is_err());
        }
    }
}

#[test]
fn rejects_bad_sync() {
    assert_eq!(decode_cmd(&[0x00, 0xD4, 0x10, 0xEF]), Err(FramingError::BadSync));
    assert_eq!(decode_cmd(&[0x2B, 0x00, 0x10, 0xEF]), Err(FramingError::BadSync));
}

#[test]
fn rejects_bad_checksum() {
    assert_eq!(
        decode_cmd(&[0x2B, 0xD4, 0x10, 0x00]),
        Err(FramingError::BadChecksum)
    );
    assert_ne!(FramingError::BadSync.message(), FramingError::BadChecksum.message());
}

#[test]
fn opcode_tryfrom_roundtrip() {
    for op in [
        Opcode::Status,
        Opcode::MemRd,
        Opcode::MemWr,
        Opcode::UsbWr,
        Opcode::HostRst,
    ] {
        assert_eq!(Opcode::from_code(op.code()), Ok(op));
    }
    assert_eq!(Opcode::from_code(0xFF), Err(0xFF));
}

#[test]
fn status_roundtrip() {
    assert_eq!(status_request(), vec![0x2B, 0xD4, 0x10, 0xEF]);
    assert_eq!(status_reply(&[0xA5, 0x00]), Ok(StatusReply { key: 0xA5, code: 0 }));
    let e = status_reply(&[0x0B, 0x00]).unwrap_err();
    assert_eq!(e.message(), "status: bad key byte 0x0B (want 0xA5)");
}

#[test]
fn mem_read_header() {
    let mut v = vec![0x2B, 0xD4, 0x19, 0xE6];
    v.extend_from_slice(&0x0010_0000u32.to_be_bytes());
    v.extend_from_slice(&4u32.to_be_bytes());
    assert_eq!(mem_read_request(PiBusAddr(0x0010_0000), 4), v);
    assert_eq!(PiBusAddr(5).raw(), 5);
    assert_eq!(M68kBusAddr(6).raw(), 6);
}

fn chunks(addr: u32, data: Vec<u8>) -> (Vec<u8>, Vec<Vec<u8>>, usize) {
    let (mut w, header) = MemWrite::begin(PiBusAddr(addr), data);
    let mut out = Vec::new();
    let mut acks = 0;
    while !w.finished() {
        if w.wants_ack() {
            acks += 1;
        }
        out.push(w.next_chunk(0).unwrap());
    }
    (header, out, acks)
}

#[test]
fn mem_write_single_chunk_reads_one_ack_before_chunk() {
    let payload = [0x11u8, 0x22, 0x33, 0x44];
    let (h, out, acks) = chunks(0x0000_1000, payload.to_vec());
    assert_eq!(&h[..4], &[0x2B, 0xD4, 0x1A, 0xE5]);
    assert_eq!(&h[4..8], &0x0000_1000u32.to_be_bytes());
    assert_eq!(&h[8..12], &4u32.to_be_bytes());
    assert_eq!(h[12], 0xAA, "ROM-area write must request ACK");
    assert_eq!(h.len(), 13);
    assert_eq!(out, vec![payload.to_vec()]);
    assert_eq!(acks, 1);
}

#[test]
fn mem_write_multi_chunk_reads_one_ack_per_chunk() {
    let data: Vec<u8> = (0..2560u32).map(|i| i as u8).collect();
    let (_, out, acks) = chunks(0, data.clone());
    assert_eq!(out.iter().map(|c| c.len()).collect::<Vec<usize>>(), vec![1024, 1024, 512]);
    assert_eq!(out.concat(), data);
    assert_eq!(acks, 3);
    assert_eq!(MEM_WR_BLOCK, 1024);
}

#[test]
fn mem_write_cfg_area_no_ack_no_read() {
    let (h, out, acks) = chunks(PI_CFG_BASE, vec![0u8; 8]);
    assert_eq!((h[12], out.len(), acks), (0x00, 1, 0));
    let (mut w, _) = MemWrite::begin(PiBusAddr(PI_CFG_BASE), vec![1]);
    assert_eq!(w.next_chunk(0xEE), Ok(vec![1]));
}

#[test]
fn mem_write_errors_on_nonzero_ack() {
    let (mut w, _) = MemWrite::begin(PiBusAddr(0), vec![0u8; 4]);
    let msg = w.next_chunk(0xEE).unwrap_err().message();
    assert!(msg.contains("NAK"), "msg: {msg}");
    assert!(msg.contains("0xEE"), "msg: {msg}");
    assert_eq!(msg, "mem_write: cart NAK 0xEE on chunk @ pi:0x0");
    assert!(!w.finished());
    let (w, _) = MemWrite::begin(PiBusAddr(0), vec![]);
    assert!(w.finished());
}

#[test]
fn usb_write_lengths_payload() {
    assert_eq!(
        usb_write_request(b"hi").unwrap(),
        vec![0x2B, 0xD4, 0x22, 0xDD, 0, 2, b'h', b'i']
    );
    assert_eq!(usb_write_request(&[]).unwrap().len(), 6);
    let big = usb_write_request(&vec![1u8; 0xFFFF]).unwrap();
    assert_eq!((big[4], big[5], big.len()), (0xFF, 0xFF, 0xFFFF + 6));
    let e = usb_write_request(&vec![0u8; 0x10000]).unwrap_err();
    assert_eq!(e, ProtoError::TooLarge(0x10000));
    assert_eq!(e.message(), "usb_write: payload too large (65536 bytes)");
}

#[test]
fn host_reset_modes() {
    assert_eq!(host_reset_request(ResetMode::Soft), vec![0x2B, 0xD4, 0x29, 0xD6, 1]);
    assert_eq!(host_reset_request(ResetMode::Off), vec![0x2B, 0xD4, 0x29, 0xD6, 0]);
    assert_eq!(host_reset_request(ResetMode::Hard), vec![0x2B, 0xD4, 0x29, 0xD6, 2]);
}

#[test]
fn pi_bus_constants() {
    assert_eq!(PI_ROM_BASE, 0x000_0000);
    assert_eq!(PI_SRAM_BASE, 0x100_0000);
    assert_eq!(PI_BRAM_BASE, 0x108_0000);
    assert_eq!(PI_CFG_BASE, 0x180_0000);
    assert_eq!(PI_FIFO_BASE, 0x181_0000);
    assert_eq!(PI_MAP_BASE, 0x183_0000);
    assert!(STUB_LOAD_ADDR < 0x100_0000);
    assert!(STUB_LOAD_ADDR >= 0x20_0000);
    assert!(STUB_BSS_ADDR >= 0x00FF_0000);
    assert!(STUB_BSS_ADDR + STUB_BSS_LEN <= 0x0100_0000);
}

fn synth_blob_full(
    entry_trace: u32,
    entry_trap1: u32,
    entry_vbl: u32,
    paused_flag: u32,
    original_vbl: u32,
) -> Vec<u8> {
    let mut v = Vec::with_capacity(64);
    v.extend_from_slice(&HEADER_MAGIC.to_be_bytes());
    v.extend_from_slice(&entry_trace.to_be_bytes());
    v.extend_from_slice(&entry_trap1.to_be_bytes());
    v.extend_from_slice(&entry_vbl.to_be_bytes());
    v.extend_from_slice(&paused_flag.to_be_bytes());
    v.extend_from_slice(&original_vbl.to_be_bytes());
    v.resize(64, 0xCD);
    v
}

fn synth_blob(entry_trace: u32, entry_trap1: u32) -> Vec<u8> {
    synth_blob_full(entry_trace, entry_trap1, 0x0030_0A1C, 0, 0)
}

#[test]
fn parse_header_synth_ok() {
    let blob = synth_blob(0x0030_0C4C, 0x0030_0C68);
    let hdr = parse_header(&blob).unwrap();
    assert_eq!(hdr.entry_trace, 0x0030_0C4C);
    assert_eq!(hdr.entry_trap1, 0x0030_0C68);
    assert_eq!(hdr.entry_vbl, 0x0030_0A1C);
}

#[test]
fn parse_header_rejects_bad_magic() {
    let mut blob = synth_blob(0, 0);
    blob[0] = 0xFF;
    match parse_header(&blob) {
        Err(e @ DeployError::BadMagic(_)) => assert_eq!(
            e.message(),
            "stub blob bad magic 0xFF445354 (want 0x4D445354 'MDST')"
        ),
        other => panic!("expected BadMagic, got {other:?}"),
    }
}

#[test]
fn parse_header_rejects_short_blob() {
    let blob = vec![0u8; 8];
    assert_eq!(parse_header(&blob), Err(DeployError::BadBlobSize(8)));
    assert_eq!(
        DeployError::BadBlobSize(8).message(),
        "stub blob size 8 bytes outside [32, 16384]"
    );
}

#[test]
fn parse_header_rejects_oversized_blob() {
    let blob = vec![0u8; MAX_BLOB_SIZE + 1];
    match parse_header(&blob) {
        Err(DeployError::BadBlobSize(_)) => {}
        other => panic!("expected BadBlobSize, got {other:?}"),
    }
}

#[test]
fn parse_header_rejects_nonzero_init_slots() {
    let blob = synth_blob_full(1, 2, 3, 0xDEAD_BEEF, 0);
    match parse_header(&blob) {
        Err(
            e @ DeployError::UnknownHeaderRevision { paused_flag: 0xDEAD_BEEF, original_vbl: 0 },
        ) => assert_eq!(
            e.message(),
            "stub blob header init slots non-zero: paused_flag=0xDEADBEEF original_vbl=0x00000000 (expected both 0); rebuild?"
        ),
        other => panic!("expected UnknownHeaderRevision (paused), got {other:?}"),
    }
    let blob = synth_blob_full(1, 2, 3, 0, 0xCAFE_BABE);
    match parse_header(&blob) {
        Err(DeployError::UnknownHeaderRevision { paused_flag: 0, original_vbl: 0xCAFE_BABE }) => {}
        other => panic!("expected UnknownHeaderRevision (original_vbl), got {other:?}"),
    }
}

#[test]
fn parse_header_extracts_entry_vbl() {
    let blob = synth_blob_full(0x0030_0010, 0x0030_0020, 0x0030_0030, 0, 0);
    let hdr = parse_header(&blob).unwrap();
    assert_eq!(hdr.entry_trace, 0x0030_0010);
    assert_eq!(hdr.entry_trap1, 0x0030_0020);
    assert_eq!(hdr.entry_vbl, 0x0030_0030);
}

fn at(addr: u32, value: u32) -> LongWrite {
    LongWrite { addr: PiBusAddr(addr), value }
}

#[test]
fn deploying_patches_both_vectors() {
    let hdr = parse_header(&synth_blob(0x0030_0C4C, 0x0030_0C68)).unwrap();
    assert_eq!(
        deploy_writes(hdr),
        vec![at(VEC_TRACE, 0x0030_0C4C), at(VEC_TRAP1, 0x0030_0C68)]
    );
}

#[test]
fn pause_writes_three_longs_in_order() {
    let original = original_handler(&0x0010_5678u32.to_be_bytes()).unwrap();
    assert_eq!(original, 0x0010_5678);
    assert_eq!(
        pause_writes(0x0030_0000, 0x0030_0A1C, original),
        vec![
            at(0x0030_0000 + HEADER_OFF_ORIGINAL_VBL, original),
            at(0x0030_0000 + HEADER_OFF_PAUSED_FLAG, 1),
            at(VEC_VBL, 0x0030_0A1C),
        ]
    );
}

#[test]
fn unpause_clears_flag_then_restores_vector() {
    assert_eq!(
        unpause_writes(0x0030_0000, 0x0010_5678),
        vec![at(0x0030_0000 + HEADER_OFF_PAUSED_FLAG, 0), at(VEC_VBL, 0x0010_5678)]
    );
}

#[test]
fn a_short_vector_is_refused() {
    let e = original_handler(&[0, 0]).unwrap_err();
    assert_eq!(e, DeployError::ShortVector(2));
    assert_eq!(e.message(), "transport: MEM_RD VEC_VBL returned 2 bytes (want 4)");
}
