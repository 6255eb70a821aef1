//! Dialogue with the debug stub: packets with acknowledgements, the breakpoint
//! table and what each reply means. The bytes travel outside.

use crate::emulator::memory::copy_bytes;
use crate::target::edpro::rsp::{
    addressed, cmd_query_start_no_ack_mode, cmd_query_supported, cmd_read_memory,
    cmd_write_memory, decode_packet, decode_result, encode_packet, hex_all, is_hex, lossy_form,
    lossy_text, not_expected, packet, parse_hex_bytes, parse_ok, parse_stop_reply, place_of,
    semicolon_joined, stop_result, text_bytes, try_parse_ack, unhex, views, AckByte, RspError,
    StopReply,
};
use crate::text::{debug_form, debug_text, hex, lower, lower_hex};
use std::collections::HashMap;
use vstd::prelude::*;
use vstd::string::*;
use vstd::utf8::*;

verus! {

broadcast use vstd::std_specs::hash::group_hash_axioms;

/// Most bytes of VRAM that one request reads.
pub const VRAM_CHUNK_MAX: u32 = 128;

/// Most retransmissions of a packet.
pub const MAX_RETRANSMITS: u32 = 3;

/// Why a dialogue failed.
#[derive(Debug)]
pub enum StubSyncError {
    Rsp(RspError),
    Transport(String),
    MaxRetransmits,
    UnexpectedReply(Vec<u8>),
}

impl StubSyncError {
    /// The error's message.
    pub open spec fn text(self) -> Seq<char> {
        match self {
            StubSyncError::Rsp(e) => "rsp codec: "@ + e.text(),
            StubSyncError::Transport(s) => "transport: "@ + s@,
            StubSyncError::MaxRetransmits => "stub NAKed > 3 times"@,
            StubSyncError::UnexpectedReply(b) => "unexpected reply: "@ + debug_form(
                lossy_form(b@),
            ),
        }
    }

    /// The error's message.
    pub fn message(&self) -> (r: String)
        ensures
            r@ == self.text(),
    {
        match self {
            StubSyncError::Rsp(e) => {
                let mut m = "rsp codec: ".to_owned();
                m.append(e.message().as_str());
                m
            },
            StubSyncError::Transport(s) => {
                let mut m = "transport: ".to_owned();
                m.append(s.as_str());
                m
            },
            StubSyncError::MaxRetransmits => "stub NAKed > 3 times".to_owned(),
            StubSyncError::UnexpectedReply(b) => {
                let mut m = "unexpected reply: ".to_owned();
                m.append(debug_text(lossy_text(b.as_slice()).as_str()).as_str());
                m
            },
        }
    }
}

/// The word that stands at a breakpoint: TRAP #1.
pub open spec fn trap_word() -> Seq<u8> {
    seq![0x4Eu8, 0x41u8]
}

/// Breakpoints by address, each with the word that it replaced.
#[derive(Debug)]
pub struct BreakpointTable {
    pub bps: HashMap<u32, [u8; 2]>,
}

impl View for BreakpointTable {
    type V = Map<u32, [u8; 2]>;

    open spec fn view(&self) -> Map<u32, [u8; 2]> {
        self.bps@
    }
}

/// Numbers ascend strictly.
pub open spec fn ascending(s: Seq<u32>) -> bool {
    forall|i: int, j: int| 0 <= i < j < s.len() ==> s[i] < s[j]
}

/// Whether `s` lists the addresses of a table, ascending.
pub open spec fn lists(s: Seq<u32>, table: Map<u32, [u8; 2]>) -> bool {
    &&& ascending(s)
    &&& s.len() == table.len()
    &&& forall|a: u32| #[trigger] s.contains(a) <==> table.dom().contains(a)
}

/// Puts `n` in its place among ascending numbers, where it is not yet.
fn insert_ascending(v: &mut Vec<u32>, n: u32)
    requires
        ascending(old(v)@),
        !old(v)@.contains(n),
    ensures
        ascending(final(v)@),
        final(v)@.len() == old(v)@.len() + 1,
        forall|a: u32| #[trigger] final(v)@.contains(a) <==> a == n || old(v)@.contains(a),
{
    let ghost s = v@;
    let mut p: usize = 0;
    while p < v.len() && v[p] < n
        invariant
            p <= v@.len(),
            v@ == s,
            forall|i: int| 0 <= i < p ==> v@[i] < n,
        decreases v@.len() - p,
    {
        p += 1;
    }
    v.insert(p, n);
    proof {
        let t = v@;
        assert(t[p as int] == n);
        if p < s.len() {
            assert(s.contains(s[p as int]));
        }
        assert forall|i: int, j: int| 0 <= i < j < t.len() implies t[i] < t[j] by {
            let a = if i < p { i } else { i - 1 };
            let b = if j < p { j } else { j - 1 };
            if i != p && j != p {
                assert(s[a] < s[b]);
            } else if i == p {
                assert(s[p as int] <= s[b]);
            }
        }
        assert forall|a: u32| #[trigger] t.contains(a) <==> a == n || s.contains(a) by {
            if t.contains(a) && a != n {
                let k = choose|k: int| 0 <= k < t.len() && t[k] == a;
                assert(s[if k < p { k } else { k - 1 }] == a);
            }
            if s.contains(a) {
                let k = choose|k: int| 0 <= k < s.len() && s[k] == a;
                assert(t[if k < p { k } else { k + 1 }] == a);
            }
        }
    }
}

impl Default for BreakpointTable {
    /// No breakpoints.
    fn default() -> (r: Self)
        ensures
            r@ == Map::<u32, [u8; 2]>::empty(),
    {
        BreakpointTable { bps: HashMap::new() }
    }
}

impl BreakpointTable {
    /// No breakpoints.
    pub fn new() -> (r: Self)
        ensures
            r@ == Map::<u32, [u8; 2]>::empty(),
    {
        BreakpointTable::default()
    }

    /// Saves a word for an address, in place of an earlier one.
    pub fn insert(&mut self, addr: u32, original: [u8; 2])
        ensures
            final(self)@ == old(self)@.insert(addr, original),
    {
        self.bps.insert(addr, original);
    }

    /// The word saved for an address.
    pub fn get(&self, addr: u32) -> (r: Option<[u8; 2]>)
        ensures
            r == if self@.dom().contains(addr) {
                Some(self@[addr])
            } else {
                None
            },
    {
        match self.bps.get(&addr) {
            Some(w) => Some(*w),
            None => None,
        }
    }

    /// Forgets an address; gives the word that was saved for it.
    pub fn remove(&mut self, addr: u32) -> (r: Option<[u8; 2]>)
        ensures
            r == if old(self)@.dom().contains(addr) {
                Some(old(self)@[addr])
            } else {
                None
            },
            final(self)@ == old(self)@.remove(addr),
    {
        self.bps.remove(&addr)
    }

    /// Number of breakpoints.
    pub fn len(&self) -> (r: usize)
        ensures
            r == self@.len(),
    {
        self.bps.len()
    }

    /// Whether there are none.
    pub fn is_empty(&self) -> (r: bool)
        ensures
            r == (self@.len() == 0),
    {
        self.bps.len() == 0
    }

    /// Whether a breakpoint is set at an address.
    pub fn contains(&self, addr: u32) -> (r: bool)
        ensures
            r == self@.dom().contains(addr),
    {
        self.bps.contains_key(&addr)
    }

    /// The addresses, ascending.
    pub fn addresses(&self) -> (r: Vec<u32>)
        ensures
            lists(r@, self@),
    {
        let mut out: Vec<u32> = Vec::new();
        for k in it: self.bps.keys()
            invariant
                it.seq().unref().to_set() == self@.dom(),
                it.seq().no_duplicates(),
                it.seq().len() == self@.len(),
                ascending(out@),
                out@.len() == it.index(),
                forall|a: u32|
                    #[trigger] out@.contains(a) <==> exists|j: int|
                        0 <= j < it.index() && *it.seq()[j] == a,
                forall|a: u32| #[trigger] out@.contains(a) ==> self@.dom().contains(a),
        {
            assert(it.seq().unref()[it.index() as int] == *k);
            assert(it.seq().unref().to_set().contains(*k));
            insert_ascending(&mut out, *k);
        }
        proof {
            let listed = out@.to_set();
            assert(out@.no_duplicates());
            out@.unique_seq_to_set();
            assert(listed.subset_of(self@.dom()));
            vstd::set_lib::lemma_subset_equality(listed, self@.dom());
            assert forall|a: u32| #[trigger] out@.contains(a) <==> self@.dom().contains(a) by {
                assert(listed.contains(a) <==> out@.contains(a));
            }
        }
        out
    }
}

/// What to do after an acknowledgement byte.
#[derive(Debug)]
pub enum AckOutcome {
    /// Read the reply.
    Proceed,
    /// Send the packet again; carries the retransmissions so far.
    Resend(u32),
    Fail(StubSyncError),
}

/// What an acknowledgement byte means after `attempts` retransmissions.
pub fn on_ack(byte: u8, attempts: u32) -> (r: AckOutcome)
    requires
        attempts <= MAX_RETRANSMITS,
    ensures
        if byte == 43 {
            r is Proceed
        } else if byte == 45 {
            if attempts + 1 > MAX_RETRANSMITS {
                r matches AckOutcome::Fail(e) && e is MaxRetransmits
            } else {
                r matches AckOutcome::Resend(n) && n == attempts + 1
            }
        } else {
            r matches AckOutcome::Fail(StubSyncError::UnexpectedReply(b)) && b@ == seq![byte]
        },
{
    match try_parse_ack(byte) {
        Some(AckByte::Accept) => AckOutcome::Proceed,
        Some(AckByte::Retransmit) => if attempts + 1 > MAX_RETRANSMITS {
            AckOutcome::Fail(StubSyncError::MaxRetransmits)
        } else {
            AckOutcome::Resend(attempts + 1)
        },
        None => {
            let mut b: Vec<u8> = Vec::new();
            b.push(byte);
            proof {
                assert(b@ =~= seq![byte]);
            }
            AckOutcome::Fail(StubSyncError::UnexpectedReply(b))
        },
    }
}

/// Collects a packet from a byte stream.
pub struct PacketReader {
    /// The packet so far, from its `$` on.
    pub buf: Vec<u8>,
    /// 0 before the `$`, 1 in the payload, 2 and 3 before the checksum digits,
    /// 4 when the packet is complete.
    pub stage: u8,
    /// Every byte that was fed.
    pub fed: Ghost<Seq<u8>>,
}

impl PacketReader {
    /// Where the packet starts in the stream.
    pub open spec fn start(self) -> int {
        place_of(self.fed@, 36, 0)
    }

    /// Where its payload ends in the stream.
    pub open spec fn hash(self) -> int {
        place_of(self.fed@, 35, self.start() + 1)
    }

    /// The buffer holds the stream from the first `$` on, and the stage tells
    /// how far the packet is.
    pub open spec fn wf(self) -> bool {
        let fed = self.fed@;
        let n = fed.len();
        &&& self.stage <= 4
        &&& self.stage == 0 <==> self.start() >= n
        &&& self.stage == 0 ==> self.buf@.len() == 0 && forall|i: int|
            0 <= i < n ==> fed[i] != 36
        &&& self.stage > 0 ==> {
            &&& 0 <= self.start() < n
            &&& fed[self.start()] == 36
            &&& forall|i: int| 0 <= i < self.start() ==> fed[i] != 36
            &&& self.buf@ == fed.skip(self.start())
        }
        &&& self.stage == 1 ==> forall|i: int| self.start() < i < n ==> fed[i] != 35
        &&& self.stage > 1 ==> {
            let h = n - (self.stage - 1);
            &&& self.start() < h
            &&& fed[h] == 35
            &&& self.hash() == h
            &&& forall|i: int| self.start() < i < h ==> fed[i] != 35
        }
    }

    /// Nothing read yet.
    pub fn new() -> (r: Self)
        ensures
            r.wf(),
            r.fed@.len() == 0,
            r.stage == 0,
    {
        PacketReader { buf: Vec::new(), stage: 0, fed: Ghost(Seq::empty()) }
    }

    /// Feeds a byte; tells whether the packet is complete.
    pub fn push(&mut self, b: u8) -> (complete: bool)
        requires
            old(self).wf(),
            old(self).stage < 4,
        ensures
            final(self).wf(),
            final(self).fed@ == old(self).fed@.push(b),
            complete == (final(self).stage == 4),
            complete <==> final(self).start() < final(self).fed@.len() && final(self).hash() + 2
                < final(self).fed@.len(),
            complete ==> final(self).buf@ == final(self).fed@.subrange(
                final(self).start(),
                final(self).hash() + 3,
            ),
    {
        let ghost before = self.fed@;
        let ghost st = self.start();
        self.fed = Ghost(before.push(b));
        proof {
            let fed = self.fed@;
            assert forall|i: int| 0 <= i < before.len() implies fed[i] == before[i] by {}
            if self.stage == 0 {
                crate::target::edpro::rsp::lemma_place_of(fed, 36, 0, before.len() as int);
            } else {
                crate::target::edpro::rsp::lemma_place_of(fed, 36, 0, st);
            }
            if self.stage == 1 {
                crate::target::edpro::rsp::lemma_place_of(fed, 35, st + 1, before.len() as int);
            }
            if self.stage > 1 {
                crate::target::edpro::rsp::lemma_place_of(fed, 35, st + 1, before.len() - (self.stage - 1));
            }
        }
        if self.stage == 0 {
            if b == 36 {
                self.buf.push(b);
                self.stage = 1;
                proof {
                    assert(self.buf@ =~= self.fed@.skip(before.len() as int));
                    crate::target::edpro::rsp::lemma_place_of(self.fed@, 35, before.len() as int + 1, before.len() as int + 1);
                }
            } else {
                proof {
                    crate::target::edpro::rsp::lemma_place_of(self.fed@, 36, 0, self.fed@.len() as int);
                }
            }
        } else {
            self.buf.push(b);
            proof {
                assert(self.buf@ =~= self.fed@.skip(st));
            }
            if self.stage == 1 {
                if b == 35 {
                    self.stage = 2;
                } else {
                    proof {
                        crate::target::edpro::rsp::lemma_place_of(self.fed@, 35, st + 1, self.fed@.len() as int);
                    }
                }
            } else {
                self.stage = self.stage + 1;
            }
        }
        let done = self.stage == 4;
        proof {
            if done {
                assert(self.buf@ =~= self.fed@.subrange(self.start(), self.hash() + 3));
            }
        }
        done
    }
}

/// A complete packet decodes in the same way on its own as at the end of the
/// stream that it was read from.
pub proof fn law_reader_agrees(
    reader: PacketReader,
    alone: Result<(Vec<u8>, usize), RspError>,
    in_stream: Result<(Vec<u8>, usize), RspError>,
)
    requires
        reader.wf(),
        reader.stage == 4,
        decode_result(reader.buf@, alone),
        decode_result(reader.fed@, in_stream),
    ensures
        match (alone, in_stream) {
            (Ok(a), Ok(s)) => a.0@ == s.0@ && a.1 + reader.start() == s.1,
            (Err(RspError::BadChecksum { got, expected }), Err(e)) => e == (RspError::BadChecksum {
                got,
                expected,
            }),
            (Err(RspError::BadEscape), Err(e)) => e is BadEscape,
            (Err(RspError::BadHex), Err(e)) => e is BadHex,
            _ => false,
        },
{
    let fed = reader.fed@;
    let buf = reader.buf@;
    let st = reader.start();
    let h = reader.hash();
    assert(fed.len() == h + 3);
    assert(buf[0] == fed[st]);
    crate::target::edpro::rsp::lemma_place_of(buf, 36, 0, 0);
    assert forall|i: int| 1 <= i < h - st implies buf[i] != 35 by {
        assert(buf[i] == fed[st + i]);
    }
    assert(buf[h - st] == fed[h]);
    crate::target::edpro::rsp::lemma_place_of(buf, 35, 1, h - st);
    assert(buf.subrange(1, h - st) =~= fed.subrange(st + 1, h));
    assert(buf[h - st + 1] == fed[h + 1]);
    assert(buf[h - st + 2] == fed[h + 2]);
}

/// What a reply of hex digits gives; `E` with a two-digit code is refused.
pub open spec fn hex_reply(reply: Seq<u8>, r: Result<Vec<u8>, StubSyncError>) -> bool {
    if reply.len() == 3 && reply[0] == 69 {
        r matches Err(StubSyncError::UnexpectedReply(b)) && b@ == reply
    } else if is_hex(reply) {
        r matches Ok(v) && v@ == unhex(reply)
    } else {
        r matches Err(StubSyncError::Rsp(e)) && e is BadHex
    }
}

/// The bytes of a reply of hex digits.
pub fn decode_hex_payload(reply: &[u8]) -> (r: Result<Vec<u8>, StubSyncError>)
    ensures
        hex_reply(reply@, r),
{
    if reply.len() == 3 && reply[0] == 69 {
        return Err(
            StubSyncError::UnexpectedReply(copy_bytes(reply)),
        );
    }
    match parse_hex_bytes(reply) {
        Ok(v) => Ok(v),
        Err(e) => Err(StubSyncError::Rsp(e)),
    }
}

/// What a reply of a fixed number of bytes gives.
pub open spec fn sized_reply(reply: Seq<u8>, n: int, r: Result<Vec<u8>, StubSyncError>) -> bool {
    if !(reply.len() == 3 && reply[0] == 69) && is_hex(reply) && unhex(reply).len() != n {
        r matches Err(StubSyncError::UnexpectedReply(b)) && b@ == unhex(reply)
    } else {
        hex_reply(reply, r)
    }
}

/// The bytes of a reply that must have `n` of them.
pub fn decode_sized_payload(reply: &[u8], n: usize) -> (r: Result<Vec<u8>, StubSyncError>)
    ensures
        sized_reply(reply@, n as int, r),
{
    match decode_hex_payload(reply) {
        Err(e) => Err(e),
        Ok(v) => if v.len() != n {
            Err(StubSyncError::UnexpectedReply(v))
        } else {
            Ok(v)
        },
    }
}

/// Reply to a CRAM request: 128 bytes.
pub fn cram_reply(reply: &[u8]) -> (r: Result<Vec<u8>, StubSyncError>)
    ensures
        sized_reply(reply@, 128, r),
{
    decode_sized_payload(reply, 128)
}

/// Reply to a VSRAM request: 80 bytes.
pub fn vsram_reply(reply: &[u8]) -> (r: Result<Vec<u8>, StubSyncError>)
    ensures
        sized_reply(reply@, 80, r),
{
    decode_sized_payload(reply, 80)
}

/// Reply to a VDP status request: one big-endian word.
pub fn vdp_status_reply(reply: &[u8]) -> (r: Result<u16, StubSyncError>)
    ensures
        match r {
            Ok(w) => is_hex(reply@) && unhex(reply@).len() == 2 && w == 256 * unhex(reply@)[0]
                + unhex(reply@)[1],
            Err(e) => sized_reply(reply@, 2, Err::<Vec<u8>, StubSyncError>(e)),
        },
{
    match decode_sized_payload(reply, 2) {
        Err(e) => Err(e),
        Ok(v) => Ok(256 * (v[0] as u16) + v[1] as u16),
    }
}

/// What a reply that must be `OK` gives.
pub open spec fn ok_reply(reply: Seq<u8>, r: Result<(), StubSyncError>) -> bool {
    match r {
        Ok(_) => reply == seq![79u8, 75u8],
        Err(StubSyncError::Rsp(e)) => reply != seq![79u8, 75u8] && not_expected(e, "OK"@, reply),
        Err(_) => false,
    }
}

/// Checks a reply that must be `OK`.
pub fn check_ok(reply: &[u8]) -> (r: Result<(), StubSyncError>)
    ensures
        ok_reply(reply@, r),
{
    match parse_ok(reply) {
        Ok(()) => Ok(()),
        Err(e) => Err(StubSyncError::Rsp(e)),
    }
}

/// A stop reply.
pub fn stop_reply(reply: &[u8]) -> (r: Result<StopReply, StubSyncError>)
    ensures
        match r {
            Ok(s) => stop_result(reply@, Ok(s)),
            Err(StubSyncError::Rsp(e)) => stop_result(reply@, Err(e)),
            Err(_) => false,
        },
{
    match parse_stop_reply(reply) {
        Ok(s) => Ok(s),
        Err(e) => Err(StubSyncError::Rsp(e)),
    }
}

/// State of the dialogue with the stub.
pub struct StubSync {
    pub bps: BreakpointTable,
    /// Whether acknowledgements are switched off.
    pub no_ack_mode: bool,
    /// Number of packets sent, modulo 2^64.
    pub seq: u64,
}

/// The request that writes a word.
pub open spec fn word_write(addr: u32, word: Seq<u8>) -> Seq<u8> {
    addressed("M"@, addr, 2) + seq![58u8] + hex_all(word)
}

/// What happened on the wire.
#[derive(Debug)]
pub enum WireEvent {
    /// The packet went out.
    Sent,
    /// An acknowledgement byte came in.
    Ack(u8),
    /// A packet came in.
    Packet(Vec<u8>),
}

/// What to do on the wire.
#[derive(Debug)]
pub enum WireAction {
    /// Send the packet, once more.
    Send,
    /// Read an acknowledgement byte.
    ReadAck,
    /// Read a packet.
    ReadPacket,
    /// Send a `+` if `acknowledge` is set; the exchange then gave `payload`.
    Finish { payload: Vec<u8>, acknowledge: bool },
    Fail(StubSyncError),
}

/// What follows an event of an exchange.
pub open spec fn stepped(
    sync: StubSync,
    attempts: u32,
    event: WireEvent,
    next: u32,
    action: WireAction,
) -> bool {
    match event {
        WireEvent::Sent => next == attempts && if sync.no_ack_mode {
            action is ReadPacket
        } else {
            action is ReadAck
        },
        WireEvent::Ack(byte) => if byte == 43 {
            next == attempts && action is ReadPacket
        } else if byte != 45 {
            next == attempts && (action matches WireAction::Fail(StubSyncError::UnexpectedReply(b))
                && b@ == seq![byte])
        } else if attempts == MAX_RETRANSMITS {
            next == attempts && (action matches WireAction::Fail(e) && e is MaxRetransmits)
        } else {
            next == attempts + 1 && action is Send
        },
        WireEvent::Packet(raw) => next == attempts && match action {
            WireAction::Finish { payload, acknowledge } => acknowledge == !sync.no_ack_mode
                && exists|n: usize| decode_result(raw@, #[trigger] decoded(payload, n)),
            WireAction::Fail(StubSyncError::Rsp(e)) => decode_result(raw@, Err(e)),
            _ => false,
        },
    }
}

/// A payload, and how many bytes its packet took.
pub open spec fn decoded(payload: Vec<u8>, n: usize) -> Result<(Vec<u8>, usize), RspError> {
    Ok((payload, n))
}

impl StubSync {
    /// A new dialogue, with acknowledgements.
    pub fn new() -> (r: Self)
        ensures
            !r.no_ack_mode,
            r.seq == 0,
            r.bps@ == Map::<u32, [u8; 2]>::empty(),
    {
        StubSync { bps: BreakpointTable::new(), no_ack_mode: false, seq: 0 }
    }

    /// The packet of a request; it is counted.
    pub fn request(&mut self, payload: &[u8]) -> (r: Vec<u8>)
        ensures
            final(self).bps == old(self).bps,
            final(self).no_ack_mode == old(self).no_ack_mode,
            final(self).seq == (old(self).seq + 1) % 0x1_0000_0000_0000_0000,
            r@ == packet(payload@),
    {
        self.seq = if self.seq == u64::MAX {
            0
        } else {
            self.seq + 1
        };
        encode_packet(payload)
    }

    /// The payload of a reply packet, and how many bytes the packet took.
    pub fn reply(&self, raw: &[u8]) -> (r: Result<(Vec<u8>, usize), StubSyncError>)
        ensures
            match r {
                Ok(v) => decode_result(raw@, Ok(v)),
                Err(StubSyncError::Rsp(e)) => decode_result(raw@, Err(e)),
                Err(_) => false,
            },
    {
        match decode_packet(raw) {
            Ok(v) => Ok(v),
            Err(e) => Err(StubSyncError::Rsp(e)),
        }
    }

    /// What comes next in an exchange, after `attempts` retransmissions: the
    /// retransmissions from then on, and what to do. Without acknowledgements
    /// none is read and none is sent.
    pub fn on_event(&self, attempts: u32, event: WireEvent) -> (r: (u32, WireAction))
        requires
            attempts <= MAX_RETRANSMITS,
        ensures
            r.0 <= MAX_RETRANSMITS,
            stepped(*self, attempts, event, r.0, r.1),
    {
        match event {
            WireEvent::Sent => if self.no_ack_mode {
                (attempts, WireAction::ReadPacket)
            } else {
                (attempts, WireAction::ReadAck)
            },
            WireEvent::Ack(byte) => match on_ack(byte, attempts) {
                AckOutcome::Proceed => (attempts, WireAction::ReadPacket),
                AckOutcome::Resend(n) => (n, WireAction::Send),
                AckOutcome::Fail(e) => (attempts, WireAction::Fail(e)),
            },
            WireEvent::Packet(raw) => match self.reply(raw.as_slice()) {
                Ok(v) => {
                    proof {
                        assert(decode_result(raw@, decoded(v.0, v.1)));
                    }
                    (attempts, WireAction::Finish { payload: v.0, acknowledge: !self.no_ack_mode })
                },
                Err(e) => (attempts, WireAction::Fail(e)),
            },
        }
    }

    /// The two requests of the handshake.
    pub fn handshake_requests() -> (r: (Vec<u8>, Vec<u8>))
        ensures
            r.0@ == encode_utf8("qSupported"@) + (seq![58u8]
                + semicolon_joined(seq!["swbreak+"@, "hwbreak+"@])),
            r.1@ == encode_utf8("QStartNoAckMode"@),
    {
        let features: [&str; 2] = ["swbreak+", "hwbreak+"];
        proof {
            assert(views(features@) =~= seq!["swbreak+"@, "hwbreak+"@]);
        }
        (cmd_query_supported(features.as_slice()), cmd_query_start_no_ack_mode())
    }

    /// Takes the reply to the second request of the handshake: `OK` switches
    /// acknowledgements off.
    pub fn handshake_done(&mut self, reply: &[u8])
        ensures
            final(self).bps == old(self).bps,
            final(self).seq == old(self).seq,
            final(self).no_ack_mode == (old(self).no_ack_mode || reply@ == seq![79u8, 75u8]),
    {
        if parse_ok(reply).is_ok() {
            self.no_ack_mode = true;
        }
    }

    /// The addresses of the breakpoints, ascending.
    pub fn list_breakpoints(&self) -> (r: Vec<u32>)
        ensures
            lists(r@, self.bps@),
    {
        self.bps.addresses()
    }

    /// The first request of setting a breakpoint, which reads the word to be
    /// replaced. `None` when the breakpoint is already set.
    pub fn set_breakpoint_start(&self, addr: u32) -> (r: Option<Vec<u8>>)
        ensures
            r is None <==> self.bps@.dom().contains(addr),
            r matches Some(p) ==> p@ == addressed("m"@, addr, 2),
    {
        if self.bps.contains(addr) {
            return None;
        }
        Some(cmd_read_memory(addr, 2))
    }

    /// The second request of setting a breakpoint, which writes the trap, and
    /// the word that it replaces; `reply` answers the first request.
    pub fn set_breakpoint_patch(&self, addr: u32, reply: &[u8]) -> (r: Result<
        ([u8; 2], Vec<u8>),
        StubSyncError,
    >)
        ensures
            match r {
                Ok(next) => is_hex(reply@) && unhex(reply@) == next.0@ && next.1@ == word_write(
                    addr,
                    trap_word(),
                ),
                Err(e) => sized_reply(reply@, 2, Err::<Vec<u8>, StubSyncError>(e)),
            },
    {
        match decode_sized_payload(reply, 2) {
            Err(e) => Err(e),
            Ok(v) => {
                let saved: [u8; 2] = [v[0], v[1]];
                let trap: [u8; 2] = [0x4E, 0x41];
                proof {
                    assert(saved@ =~= unhex(reply@));
                    assert(trap@ =~= trap_word());
                }
                Ok((saved, cmd_write_memory(addr, trap.as_slice())))
            },
        }
    }

    /// Completes setting a breakpoint; `reply` answers the second request.
    pub fn set_breakpoint_done(&mut self, addr: u32, saved: [u8; 2], reply: &[u8]) -> (r: Result<
        (),
        StubSyncError,
    >)
        ensures
            ok_reply(reply@, r),
            final(self).no_ack_mode == old(self).no_ack_mode,
            final(self).seq == old(self).seq,
            final(self).bps@ == if r is Ok {
                old(self).bps@.insert(addr, saved)
            } else {
                old(self).bps@
            },
    {
        match check_ok(reply) {
            Err(e) => Err(e),
            Ok(()) => {
                self.bps.insert(addr, saved);
                Ok(())
            },
        }
    }

    /// The request that puts the saved word back at a breakpoint to be cleared;
    /// `None` when none is set there.
    pub fn restore_request(&self, addr: u32) -> (r: Option<Vec<u8>>)
        ensures
            r is Some <==> self.bps@.dom().contains(addr),
            r matches Some(p) ==> p@ == word_write(addr, self.bps@[addr]@),
    {
        match self.bps.get(addr) {
            None => None,
            Some(saved) => Some(cmd_write_memory(addr, saved.as_slice())),
        }
    }

    /// The request that puts the saved word back at a breakpoint that was hit, so
    /// that the 68k can run over it. The breakpoint stays in the table.
    pub fn on_breakpoint_hit(&self, addr: u32) -> (r: Result<Vec<u8>, StubSyncError>)
        ensures
            match r {
                Ok(p) => self.bps@.dom().contains(addr) && p@ == word_write(
                    addr,
                    self.bps@[addr]@,
                ),
                Err(StubSyncError::UnexpectedReply(b)) => !self.bps@.dom().contains(addr) && b@
                    == encode_utf8("no bp at 0x"@ + lower(hex(addr as nat, 1))),
                Err(_) => false,
            },
    {
        match self.restore_request(addr) {
            Some(p) => Ok(p),
            None => {
                let mut m = "no bp at 0x".to_owned();
                m.append(lower_hex(addr as u64, 1).as_str());
                Err(StubSyncError::UnexpectedReply(text_bytes(m.as_str())))
            },
        }
    }

    /// Completes clearing a breakpoint; `reply` answers the request.
    pub fn clear_breakpoint_done(&mut self, addr: u32, reply: &[u8]) -> (r: Result<
        (),
        StubSyncError,
    >)
        ensures
            ok_reply(reply@, r),
            final(self).no_ack_mode == old(self).no_ack_mode,
            final(self).seq == old(self).seq,
            final(self).bps@ == if r is Ok {
                old(self).bps@.remove(addr)
            } else {
                old(self).bps@
            },
    {
        match check_ok(reply) {
            Err(e) => Err(e),
            Ok(()) => {
                let _ = self.bps.remove(addr);
                Ok(())
            },
        }
    }
}

/// Clearing a breakpoint undoes setting it: what is written back is the word
/// that was read before the trap went in, and the table is what it was.
pub proof fn law_clear_undoes_set(
    before: StubSync,
    addr: u32,
    reply: Seq<u8>,
    saved: [u8; 2],
    set: StubSync,
    cleared: StubSync,
)
    requires
        !before.bps@.dom().contains(addr),
        is_hex(reply),
        unhex(reply) == saved@,
        set.bps@ == before.bps@.insert(addr, saved),
        cleared.bps@ == set.bps@.remove(addr),
    ensures
        set.bps@.dom().contains(addr),
        word_write(addr, set.bps@[addr]@) == word_write(addr, unhex(reply)),
        unhex(hex_all(set.bps@[addr]@)) == unhex(reply),
        cleared.bps@ == before.bps@,
{
    crate::target::edpro::rsp::law_hex_round_trip(unhex(reply));
    assert(cleared.bps@ =~= before.bps@);
}

/// The word at a breakpoint is the 68k's TRAP with the number 1.
pub proof fn law_trap_word()
    ensures
        trap_word().len() == 2,
        256 * trap_word()[0] + trap_word()[1] == 0x4E40 + 1,
{
}

/// A word is written as two bytes at its address, in hex behind a `:`.
pub proof fn law_word_write(addr: u32, word: Seq<u8>)
    requires
        word.len() == 2,
    ensures
        ({
            let w = word_write(addr, word);
            let n = w.len() as int;
            &&& w.take(n - 5) == addressed("M"@, addr, 2)
            &&& w[n - 5] == ':' as u8
            &&& is_hex(w.skip(n - 4))
            &&& unhex(w.skip(n - 4)) == word
        }),
{
    let w = word_write(addr, word);
    let n = w.len() as int;
    crate::target::edpro::rsp::law_hex_round_trip(word);
    assert(hex_all(word).len() == 4);
    assert(w.take(n - 5) =~= addressed("M"@, addr, 2));
    assert(w.skip(n - 4) =~= hex_all(word));
}

/// A reply in hex gives the bytes it was made of, where their number is right; an
/// error reply gives none.
pub proof fn law_hex_reply(
    v: Seq<u8>,
    n: int,
    any: Result<Vec<u8>, StubSyncError>,
    sized: Result<Vec<u8>, StubSyncError>,
    code: (u8, u8),
    refused: Result<Vec<u8>, StubSyncError>,
)
    requires
        hex_reply(hex_all(v), any),
        sized_reply(hex_all(v), n, sized),
        hex_reply(seq!['E' as u8, code.0, code.1], refused),
    ensures
        any matches Ok(got) && got@ == v,
        sized is Ok <==> v.len() == n,
        sized matches Ok(got) ==> got@ == v,
        refused is Err,
{
    crate::target::edpro::rsp::law_hex_round_trip(v);
    assert(hex_all(v).len() == 2 * v.len());
}

/// `OK` and nothing else is success.
pub proof fn law_ok_reply(reply: Seq<u8>, r: Result<(), StubSyncError>)
    requires
        ok_reply(reply, r),
    ensures
        r is Ok <==> reply.len() == 2 && reply[0] == 'O' as u8 && reply[1] == 'K' as u8,
{
    if reply.len() == 2 && reply[0] == 79 && reply[1] == 75 {
        assert(reply =~= seq![79u8, 75u8]);
    }
}

/// A `-` sends the packet again, three times at most; a `+` reads the reply, and any
/// other byte ends the exchange. Without acknowledgements the reply is read at once
/// and not acknowledged.
pub proof fn law_exchange(
    sync: StubSync,
    attempts: u32,
    event: WireEvent,
    next: u32,
    action: WireAction,
)
    requires
        attempts <= 3,
        stepped(sync, attempts, event, next, action),
    ensures
        event is Sent ==> (action is ReadPacket <==> sync.no_ack_mode) && (action is ReadAck
            <==> !sync.no_ack_mode),
        event matches WireEvent::Ack(b) ==> {
            &&& action is ReadPacket <==> b == '+' as u8
            &&& action is Send <==> b == '-' as u8 && attempts < 3
            &&& action is Fail <==> b != '+' as u8 && !(b == '-' as u8 && attempts < 3)
        },
        next == attempts + if action is Send {
            1int
        } else {
            0
        },
        action matches WireAction::Finish { payload, acknowledge } ==> acknowledge
            == !sync.no_ack_mode,
        event is Packet <==> action is Finish || (action is Fail && !(event is Ack)),
{
}

} // verus!
