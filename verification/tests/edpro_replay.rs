//! Byte-exact scenarios of the dialogue with the cartridge, with canned replies.

use mds_mcp::target::edpro::encode_packet;
use mds_mcp::target::edpro::framing::encode_cmd;
use mds_mcp::target::edpro::proto::{usb_write_request, Opcode};
use mds_mcp::target::edpro::rsp::{
    cmd_continue, cmd_query_start_no_ack_mode, cmd_query_supported, cmd_read_memory,
    cmd_read_registers, cmd_step, cmd_write_memory, push_hex_u32, StopReply,
};
use mds_mcp::target::edpro::session::decode_g_reply_be;
use mds_mcp::target::edpro::stub_sync::{
    check_ok, decode_hex_payload, on_ack, stop_reply, AckOutcome, PacketReader, StubSync,
    StubSyncError, WireAction, WireEvent,
};

fn usb_wr(payload: &[u8]) -> Vec<u8> {
    usb_write_request(payload).unwrap()
}

/// The framed packet for `payload`, in a mailbox message.
fn host_send_rsp(payload: &[u8]) -> Vec<u8> {
    usb_wr(&encode_packet(payload))
}

/// A single acknowledgement, in a mailbox message.
fn host_send_ack() -> Vec<u8> {
    usb_wr(b"+")
}

/// What the cartridge sends: a packet, after an acknowledgement if wanted.
fn cart_reply(payload: &[u8], ack: bool) -> Vec<u8> {
    let mut v = Vec::with_capacity(payload.len() + 6);
    if ack {
        v.push(b'+');
    }
    v.extend_from_slice(&encode_packet(payload));
    v
}

/// A dialogue over canned bytes.
struct Wire {
    sync: StubSync,
    rx: Vec<u8>,
    at: usize,
    tx: Vec<u8>,
}

impl Wire {
    fn new(rx: &[u8]) -> Wire {
        Wire { sync: StubSync::new(), rx: rx.to_vec(), at: 0, tx: Vec::new() }
    }

    fn read(&mut self) -> u8 {
        let b = self.rx[self.at];
        self.at += 1;
        b
    }

    fn send(&mut self, payload: &[u8]) {
        let packet = self.sync.request(payload);
        self.tx.extend_from_slice(&usb_wr(&packet));
    }

    fn transact(&mut self, payload: &[u8]) -> Result<Vec<u8>, StubSyncError> {
        let packet = self.sync.request(payload);
        let mut attempts: u32 = 0;
        let mut action = WireAction::Send;
        loop {
            let event = match action {
                WireAction::Send => {
                    self.tx.extend_from_slice(&usb_wr(&packet));
                    WireEvent::Sent
                }
                WireAction::ReadAck => WireEvent::Ack(self.read()),
                WireAction::ReadPacket => WireEvent::Packet(self.read_packet()),
                WireAction::Finish { payload, acknowledge } => {
                    if acknowledge {
                        self.tx.extend_from_slice(&host_send_ack());
                    }
                    return Ok(payload);
                }
                WireAction::Fail(e) => return Err(e),
            };
            (attempts, action) = self.sync.on_event(attempts, event);
        }
    }

    fn read_packet(&mut self) -> Vec<u8> {
        let mut reader = PacketReader::new();
        loop {
            let b = self.read();
            if reader.push(b) {
                break;
            }
        }
        if let Ok((_, used)) = self.sync.reply(&reader.buf) {
            assert_eq!(used, reader.buf.len());
        }
        reader.buf
    }

    fn shake(&mut self) {
        let (first, second) = StubSync::handshake_requests();
        self.transact(&first).unwrap();
        let reply = self.transact(&second).unwrap();
        self.sync.handshake_done(&reply);
    }
}

fn append_handshake(tx: &mut Vec<u8>, rx: &mut Vec<u8>) {
    // 1. qSupported
    tx.extend_from_slice(&host_send_rsp(&cmd_query_supported(&[
        "swbreak+", "hwbreak+",
    ])));
    rx.extend_from_slice(&cart_reply(b"PacketSize=400;swbreak+;hwbreak+", true));
    tx.extend_from_slice(&host_send_ack());
    // 2. QStartNoAckMode
    tx.extend_from_slice(&host_send_rsp(&cmd_query_start_no_ack_mode()));
    rx.extend_from_slice(&cart_reply(b"OK", true));
    tx.extend_from_slice(&host_send_ack());
}

fn scenario_handshake() -> (Vec<u8>, Vec<u8>) {
    let mut tx = Vec::new();
    let mut rx = Vec::new();
    append_handshake(&mut tx, &mut rx);
    (tx, rx)
}

fn contains(hay: &[u8], needle: &[u8]) -> bool {
    hay.windows(needle.len()).any(|w| w == needle)
}

#[test]
fn handshake() {
    let (tx, rx) = scenario_handshake();
    let env_count = tx.windows(4).filter(|w| w == b"\x2B\xD4\x22\xDD").count();
    assert_eq!(env_count, 4, "expected 4 USB-WR envelopes in handshake tx");
    assert_eq!(rx.iter().filter(|&&b| b == b'$').count(), 2);
    let mut w = Wire::new(&rx);
    w.shake();
    assert_eq!(w.tx, tx);
    assert_eq!(w.at, rx.len());
    assert!(w.sync.no_ack_mode);
    assert_eq!(w.sync.seq, 2);
}

#[test]
fn boot_status() {
    // Status needs no bytes on the wire past the handshake.
    let (tx, rx) = scenario_handshake();
    let mut w = Wire::new(&rx);
    w.shake();
    assert!(w.sync.list_breakpoints().is_empty());
    assert_eq!(scenario_handshake(), (tx.clone(), rx.clone()));
    assert_eq!(w.tx, tx);
}

#[test]
fn read_68k_regs() {
    // 18 BE longs: D0=0x12345678, D1..D7=1..7, A0..A7=0x10..0x17,
    // PS=0x00002700 (SR=0x2700), PC=0x00FF_0000.
    let mut hex = String::new();
    hex.push_str("12345678");
    for i in 1u32..8 {
        hex.push_str(&format!("{i:08x}"));
    }
    for i in 0u32..8 {
        hex.push_str(&format!("{:08x}", 0x10 + i));
    }
    hex.push_str("00002700");
    hex.push_str("00ff0000");
    let (mut tx, mut rx) = scenario_handshake();
    tx.extend_from_slice(&host_send_rsp(&cmd_read_registers()));
    rx.extend_from_slice(&cart_reply(hex.as_bytes(), false)); // noack mode

    let needle = host_send_rsp(b"g");
    assert!(contains(&tx, &needle));
    let last_dollar = rx.iter().rposition(|&b| b == b'$').unwrap();
    let last_hash = rx.iter().rposition(|&b| b == b'#').unwrap();
    assert_eq!(last_hash - last_dollar - 1, 144);

    let mut w = Wire::new(&rx);
    w.shake();
    let reply = w.transact(&cmd_read_registers()).unwrap();
    assert_eq!(w.tx, tx);
    let regs = decode_g_reply_be(&decode_hex_payload(&reply).unwrap()).unwrap();
    assert_eq!(regs.d, [0x12345678, 1, 2, 3, 4, 5, 6, 7]);
    assert_eq!(regs.a, [0x10, 0x11, 0x12, 0x13, 0x14, 0x15, 0x16, 0x17]);
    assert_eq!((regs.sr, regs.pc), (0x2700, 0x00FF_0000));
}

#[test]
fn read_memory_short() {
    let mut hex = String::new();
    for i in 0u8..16 {
        hex.push_str(&format!("{i:02x}"));
    }
    let (mut tx, mut rx) = scenario_handshake();
    tx.extend_from_slice(&host_send_rsp(&cmd_read_memory(0x00FF_0000, 16)));
    rx.extend_from_slice(&cart_reply(hex.as_bytes(), false));
    let needle = host_send_rsp(b"mff0000,10");
    assert!(contains(&tx, &needle), "m packet for FF0000,16 not found in tx");
    let mut w = Wire::new(&rx);
    w.shake();
    let reply = w.transact(&cmd_read_memory(0x00FF_0000, 16)).unwrap();
    assert_eq!(decode_hex_payload(&reply).unwrap(), (0u8..16).collect::<Vec<u8>>());
    assert_eq!(w.tx, tx);
}

#[test]
fn write_memory_with_ack() {
    let (mut tx, mut rx) = scenario_handshake();
    tx.extend_from_slice(&host_send_rsp(&cmd_write_memory(
        0x00FF_1000,
        &[0xCA, 0xFE],
    )));
    rx.extend_from_slice(&cart_reply(b"OK", false));
    let needle = host_send_rsp(b"Mff1000,2:cafe");
    assert!(contains(&tx, &needle), "M packet for FF1000:cafe not found in tx");
    let mut w = Wire::new(&rx);
    w.shake();
    let reply = w.transact(&cmd_write_memory(0x00FF_1000, &[0xCA, 0xFE])).unwrap();
    assert!(check_ok(&reply).is_ok());
    assert_eq!(w.tx, tx);
}

#[test]
fn bp_set_clear() {
    let (_, mut rx) = scenario_handshake();
    rx.extend_from_slice(&cart_reply(b"abcd", false));
    rx.extend_from_slice(&cart_reply(b"OK", false));
    rx.extend_from_slice(&cart_reply(b"OK", false));
    let mut w = Wire::new(&rx);
    w.shake();
    // set: read the original word, then patch in TRAP #1 (0x4E41)
    let p = w.sync.set_breakpoint_start(0x200).unwrap();
    let reply = w.transact(&p).unwrap();
    let (saved, p) = w.sync.set_breakpoint_patch(0x200, &reply).unwrap();
    assert_eq!(saved, [0xAB, 0xCD]);
    let reply = w.transact(&p).unwrap();
    w.sync.set_breakpoint_done(0x200, saved, &reply).unwrap();
    assert_eq!(w.sync.list_breakpoints(), vec![0x200]);
    // clear: restore the saved word
    let p = w.sync.restore_request(0x200).unwrap();
    let reply = w.transact(&p).unwrap();
    w.sync.clear_breakpoint_done(0x200, &reply).unwrap();
    assert!(w.sync.list_breakpoints().is_empty());

    let read_orig = host_send_rsp(b"m200,2");
    let patch_trap = host_send_rsp(b"M200,2:4e41");
    let restore = host_send_rsp(b"M200,2:abcd");
    for (label, needle) in [
        ("read original", &read_orig),
        ("patch TRAP #1", &patch_trap),
        ("restore saved word", &restore),
    ] {
        assert!(
            contains(&w.tx, needle.as_slice()),
            "{label} packet missing from tx"
        );
    }
    let post_handshake_dollars = rx.iter().filter(|&&b| b == b'$').count() - 2;
    assert_eq!(post_handshake_dollars, 3);
}

#[test]
fn step_then_stop() {
    let (mut tx, mut rx) = scenario_handshake();
    tx.extend_from_slice(&host_send_rsp(&cmd_step(None)));
    rx.extend_from_slice(&cart_reply(b"T05swbreak:;", false));
    let needle = host_send_rsp(b"s");
    assert!(contains(&tx, &needle));
    let last_dollar = rx.iter().rposition(|&b| b == b'$').unwrap();
    assert_eq!(rx[last_dollar + 1], b'T');
    let mut w = Wire::new(&rx);
    w.shake();
    let reply = w.transact(&cmd_step(None)).unwrap();
    match stop_reply(&reply).unwrap() {
        StopReply::TrapAt { signal, regs, reason } => {
            assert_eq!((signal, regs.len()), (5, 0));
            assert_eq!(reason.as_deref(), Some("swbreak:"));
        }
        _ => panic!("a trap"),
    }
    assert_eq!(w.tx, tx);
}

#[test]
fn resume_fire_and_forget() {
    let (mut tx, rx) = scenario_handshake();
    tx.extend_from_slice(&host_send_rsp(&cmd_continue(None)));
    let needle = host_send_rsp(b"c");
    assert!(contains(&tx, &needle));
    let (_, handshake_rx) = scenario_handshake();
    assert_eq!(rx, handshake_rx, "resume must not pre-load any extra rx");
    let mut w = Wire::new(&rx);
    w.shake();
    w.send(&cmd_continue(None));
    assert_eq!(w.tx, tx);
    assert_eq!(w.at, rx.len());
}

#[test]
fn local_codec_matches_known_goldens() {
    assert_eq!(encode_packet(b""), b"$#00");
    assert_eq!(encode_packet(b"OK"), b"$OK#04");
    assert_eq!(encode_packet(b"g"), b"$g#67");
    assert_eq!(encode_packet(b"abc"), b"$abc#60");
    // Escapes
    assert_eq!(encode_packet(b"#"), b"$}\x03#7e");
    assert_eq!(encode_packet(b"$"), b"$}\x04#79");
    assert_eq!(encode_packet(b"}"), b"$}\x5d#20");
    assert_eq!(encode_packet(b"*"), b"$}\x0a#77");
    // USB-WR envelope header bytes.
    assert_eq!(&encode_cmd(Opcode::UsbWr.code()), b"\x2B\xD4\x22\xDD");
    // Hex helpers.
    let mut v = Vec::new();
    push_hex_u32(&mut v, 0xFF8000);
    assert_eq!(v, b"ff8000");
    let mut v = Vec::new();
    push_hex_u32(&mut v, 0);
    assert_eq!(v, b"0");
}

#[test]
fn acknowledgements_go_back_after_replies() {
    let mut w = Wire::new(&cart_reply(b"OK", true));
    w.transact(&cmd_write_memory(0, &[0])).unwrap();
    let mut tx = host_send_rsp(b"M0,1:00");
    tx.extend_from_slice(&host_send_ack());
    assert_eq!(w.tx, tx);
}

#[test]
fn a_refused_switch_keeps_acknowledgements() {
    let mut rx = cart_reply(b"", true);
    rx.extend_from_slice(&cart_reply(b"", true));
    let mut w = Wire::new(&rx);
    w.shake();
    assert!(!w.sync.no_ack_mode);
}

#[test]
fn packets_are_sent_again_three_times() {
    for naks in 0..4usize {
        let mut rx = vec![b'-'; naks];
        rx.extend_from_slice(&cart_reply(b"OK", true));
        let mut w = Wire::new(&rx);
        assert!(w.transact(b"M0,1:00").is_ok());
        assert_eq!(w.sync.seq, 1);
    }
    let mut rx = vec![b'-'; 4];
    rx.extend_from_slice(&cart_reply(b"OK", true));
    let mut w = Wire::new(&rx);
    assert!(matches!(w.transact(b"M0,1:00"), Err(StubSyncError::MaxRetransmits)));
    let mut w = Wire::new(b"X");
    match w.transact(b"M0,1:00") {
        Err(StubSyncError::UnexpectedReply(b)) => assert_eq!(b, b"X"),
        _ => panic!("out of step"),
    }
}

#[test]
fn replies_are_found_behind_junk() {
    let mut w = Wire::new(b"+junk$OK#04");
    assert_eq!(w.transact(b"?").unwrap(), b"OK");
    let mut w = Wire::new(b"+$OK#00");
    match w.transact(b"?") {
        Err(e) => assert_eq!(e.message(), "rsp codec: bad checksum: got 0x00, expected 0x04"),
        Ok(_) => panic!("a bad checksum"),
    }
}

#[test]
fn acknowledgements_decide_what_comes_next() {
    assert!(matches!(on_ack(b'+', 3), AckOutcome::Proceed));
    assert!(matches!(on_ack(b'-', 2), AckOutcome::Resend(3)));
    assert!(matches!(on_ack(b'-', 3), AckOutcome::Fail(StubSyncError::MaxRetransmits)));
    let mut sync = StubSync::new();
    let reply = || WireEvent::Packet(encode_packet(b"OK"));
    assert!(matches!(sync.on_event(0, WireEvent::Sent), (0, WireAction::ReadAck)));
    assert!(matches!(sync.on_event(1, WireEvent::Ack(b'+')), (1, WireAction::ReadPacket)));
    assert!(matches!(sync.on_event(1, WireEvent::Ack(b'-')), (2, WireAction::Send)));
    assert!(matches!(
        sync.on_event(3, WireEvent::Ack(b'-')),
        (3, WireAction::Fail(StubSyncError::MaxRetransmits))
    ));
    match sync.on_event(0, WireEvent::Ack(b'x')) {
        (0, WireAction::Fail(StubSyncError::UnexpectedReply(b))) => assert_eq!(b, vec![b'x']),
        other => panic!("unexpected {other:?}"),
    }
    match sync.on_event(0, reply()) {
        (0, WireAction::Finish { payload, acknowledge }) => {
            assert_eq!((payload, acknowledge), (b"OK".to_vec(), true))
        }
        other => panic!("unexpected {other:?}"),
    }
    assert!(matches!(
        sync.on_event(0, WireEvent::Packet(b"$OK#00".to_vec())),
        (0, WireAction::Fail(StubSyncError::Rsp(_)))
    ));
    // Without acknowledgements none is read and none is sent.
    sync.handshake_done(b"OK");
    assert!(matches!(sync.on_event(0, WireEvent::Sent), (0, WireAction::ReadPacket)));
    assert!(matches!(
        sync.on_event(0, reply()),
        (0, WireAction::Finish { acknowledge: false, .. })
    ));
}
