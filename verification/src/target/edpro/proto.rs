//! Commands of the cartridge's microcontroller.
//!
//! Memory commands work on the cartridge's own bus: the ROM image at 0, save RAM
//! at 0x100_0000, battery RAM at 0x108_0000, the configuration at 0x180_0000,
//! the mailbox at 0x181_0000 and the mapper at 0x183_0000. The memory of the
//! running 68k can only be reached through the debug stub.

use crate::target::edpro::framing::{encode_cmd, frame};
use crate::text::{dec, hex, lower, lower_hex, push_dec, push_hex};
use vstd::prelude::*;
use vstd::string::*;

verus! {

/// An address on the cartridge's bus.
#[derive(Debug, Clone, Copy, PartialEq, Eq, PartialOrd, Ord, Hash, Structural)]
pub struct PiBusAddr(pub u32);

impl PiBusAddr {
    /// The bare address.
    pub fn raw(self) -> (r: u32)
        ensures
            r == self.0,
    {
        self.0
    }
}

/// An address on the 68k's bus.
#[derive(Debug, Clone, Copy, PartialEq, Eq, PartialOrd, Ord, Hash, Structural)]
pub struct M68kBusAddr(pub u32);

impl M68kBusAddr {
    /// The bare address.
    pub fn raw(self) -> (r: u32)
        ensures
            r == self.0,
    {
        self.0
    }
}

/// ROM image (16 MB).
pub const PI_ROM_BASE: u32 = 0x000_0000;

/// Save RAM (512 KB).
pub const PI_SRAM_BASE: u32 = 0x100_0000;

/// Battery RAM (512 KB).
pub const PI_BRAM_BASE: u32 = 0x108_0000;

/// Configuration; writes from here on are not acknowledged.
pub const PI_CFG_BASE: u32 = 0x180_0000;

/// Mailbox.
pub const PI_FIFO_BASE: u32 = 0x181_0000;

/// Mapper registers.
pub const PI_MAP_BASE: u32 = 0x183_0000;

/// Commands.
#[derive(Debug, Clone, Copy, PartialEq, Eq, Structural)]
pub enum Opcode {
    Status,
    MemRd,
    MemWr,
    UsbWr,
    HostRst,
}

impl Opcode {
    /// The command's byte.
    pub open spec fn byte(self) -> u8 {
        match self {
            Opcode::Status => 0x10,
            Opcode::MemRd => 0x19,
            Opcode::MemWr => 0x1A,
            Opcode::UsbWr => 0x22,
            Opcode::HostRst => 0x29,
        }
    }

    /// The command's byte.
    pub fn code(self) -> (r: u8)
        ensures
            r == self.byte(),
    {
        match self {
            Opcode::Status => 0x10,
            Opcode::MemRd => 0x19,
            Opcode::MemWr => 0x1A,
            Opcode::UsbWr => 0x22,
            Opcode::HostRst => 0x29,
        }
    }

    /// The command of a byte; other bytes are given back.
    pub fn from_code(v: u8) -> (r: Result<Opcode, u8>)
        ensures
            r matches Ok(op) ==> op.byte() == v,
            r matches Err(b) ==> b == v && forall|op: Opcode| #[trigger] op.byte() != v,
    {
        match v {
            0x10 => Ok(Opcode::Status),
            0x19 => Ok(Opcode::MemRd),
            0x1A => Ok(Opcode::MemWr),
            0x22 => Ok(Opcode::UsbWr),
            0x29 => Ok(Opcode::HostRst),
            _ => Err(v),
        }
    }
}

/// A command's byte stands for that command alone.
pub proof fn law_opcodes_distinct(a: Opcode, b: Opcode)
    ensures
        a.byte() == b.byte() ==> a == b,
{
}

/// Reply to a status command.
#[derive(Debug, Clone, Copy, PartialEq, Eq, Structural)]
pub struct StatusReply {
    pub key: u8,
    pub code: u8,
}

/// First byte of every status reply.
pub const STATUS_KEY: u8 = 0xA5;

/// Bytes of an acknowledged write that go out at a time.
pub const MEM_WR_BLOCK: usize = 1024;

/// Why a command failed.
#[derive(Debug, Clone, Copy, PartialEq, Eq, Structural)]
pub enum ProtoError {
    /// A status reply that does not start with the key.
    BadStatusKey(u8),
    /// The cartridge refused a chunk of a write.
    Nak { ack: u8, addr: u32 },
    /// A mailbox message longer than its length field allows.
    TooLarge(usize),
}

impl ProtoError {
    /// The error's message.
    pub open spec fn text(self) -> Seq<char> {
        match self {
            ProtoError::BadStatusKey(b) => "status: bad key byte 0x"@ + hex(b as nat, 2)
                + " (want 0xA5)"@,
            ProtoError::Nak { ack, addr } => "mem_write: cart NAK 0x"@ + hex(ack as nat, 2)
                + " on chunk @ pi:0x"@ + lower(hex(addr as nat, 1)),
            ProtoError::TooLarge(n) => "usb_write: payload too large ("@ + dec(n as nat)
                + " bytes)"@,
        }
    }

    /// The error's message.
    pub fn message(&self) -> (r: String)
        ensures
            r@ == self.text(),
    {
        match *self {
            ProtoError::BadStatusKey(b) => {
                let mut m = "status: bad key byte 0x".to_owned();
                push_hex(&mut m, b as u64, 2);
                m.append(" (want 0xA5)");
                m
            },
            ProtoError::Nak { ack, addr } => {
                let mut m = "mem_write: cart NAK 0x".to_owned();
                push_hex(&mut m, ack as u64, 2);
                m.append(" on chunk @ pi:0x");
                m.append(lower_hex(addr as u64, 1).as_str());
                m
            },
            ProtoError::TooLarge(n) => {
                let mut m = "usb_write: payload too large (".to_owned();
                push_dec(&mut m, n as u128);
                m.append(" bytes)");
                m
            },
        }
    }
}

/// Four bytes, most significant first.
pub open spec fn be32(n: u32) -> Seq<u8> {
    seq![
        (n as int / 16777216) as u8,
        (n as int / 65536 % 256) as u8,
        (n as int / 256 % 256) as u8,
        (n as int % 256) as u8,
    ]
}

fn push_be32(out: &mut Vec<u8>, n: u32)
    ensures
        final(out)@ == old(out)@ + be32(n),
{
    out.push((n / 16777216) as u8);
    out.push((n / 65536 % 256) as u8);
    out.push((n / 256 % 256) as u8);
    out.push((n % 256) as u8);
    proof {
        assert(out@ =~= old(out)@ + be32(n));
    }
}

fn command(op: Opcode) -> (r: Vec<u8>)
    ensures
        r@ == frame(op.byte()),
{
    let f = encode_cmd(op.code());
    let mut out: Vec<u8> = Vec::new();
    out.push(f[0]);
    out.push(f[1]);
    out.push(f[2]);
    out.push(f[3]);
    proof {
        assert(out@ =~= frame(op.byte()));
    }
    out
}

/// The status command.
pub fn status_request() -> (r: Vec<u8>)
    ensures
        r@ == frame(0x10),
{
    command(Opcode::Status)
}

/// Checks a status reply.
pub fn status_reply(buf: &[u8; 2]) -> (r: Result<StatusReply, ProtoError>)
    ensures
        r == if buf@[0] == STATUS_KEY {
            Ok::<StatusReply, ProtoError>(StatusReply { key: buf@[0], code: buf@[1] })
        } else {
            Err(ProtoError::BadStatusKey(buf@[0]))
        },
{
    if buf[0] != STATUS_KEY {
        return Err(ProtoError::BadStatusKey(buf[0]));
    }
    Ok(StatusReply { key: buf[0], code: buf[1] })
}

/// The command that reads `len` bytes at `addr`; as many bytes come back.
pub fn mem_read_request(addr: PiBusAddr, len: u32) -> (r: Vec<u8>)
    ensures
        r@ == frame(0x19) + be32(addr.0) + be32(len),
{
    let mut out = command(Opcode::MemRd);
    push_be32(&mut out, addr.0);
    push_be32(&mut out, len);
    out
}

/// Whether writes to an address are acknowledged chunk by chunk.
pub open spec fn acknowledged(addr: u32) -> bool {
    addr < PI_CFG_BASE
}

/// The header of a write; its last byte asks for acknowledgements or not. The
/// length field has 32 bits.
pub open spec fn write_header(addr: u32, len: int) -> Seq<u8> {
    frame(0x1A) + be32(addr) + be32((len % 0x1_0000_0000) as u32) + seq![
        if acknowledged(addr) {
            0xAAu8
        } else {
            0
        },
    ]
}

/// A write under way. The header goes out first, then the data in chunks; in
/// acknowledged mode the cartridge sends a byte before each chunk.
pub struct MemWrite {
    pub addr: u32,
    pub data: Vec<u8>,
    /// How many bytes of the data are out.
    pub sent: usize,
}

impl MemWrite {
    /// No more than the data are out, and whole chunks unless all are.
    pub open spec fn wf(self) -> bool {
        self.sent <= self.data@.len() && (self.sent == self.data@.len() || self.sent as int % 1024
            == 0)
    }

    /// Where the next chunk ends.
    pub open spec fn chunk_end(self) -> int {
        if self.data@.len() - self.sent > 1024 {
            self.sent + 1024
        } else {
            self.data@.len() as int
        }
    }

    /// Starts a write and gives its header.
    pub fn begin(addr: PiBusAddr, data: Vec<u8>) -> (r: (MemWrite, Vec<u8>))
        ensures
            r.0.wf(),
            r.0.addr == addr.0,
            r.0.data == data,
            r.0.sent == 0,
            r.1@ == write_header(addr.0, data@.len() as int),
    {
        let len: u32 = (data.len() as u64 % 0x1_0000_0000) as u32;
        let mut header = command(Opcode::MemWr);
        push_be32(&mut header, addr.0);
        push_be32(&mut header, len);
        header.push(
            if addr.0 < PI_CFG_BASE {
                0xAA
            } else {
                0x00
            },
        );
        proof {
            assert(header@ =~= write_header(addr.0, data@.len() as int));
        }
        (MemWrite { addr: addr.0, data, sent: 0 }, header)
    }

    /// Whether everything is out.
    pub fn finished(&self) -> (r: bool)
        ensures
            r == (self.sent == self.data@.len()),
    {
        self.sent == self.data.len()
    }

    /// Whether an acknowledgement has to be read before the next chunk.
    pub fn wants_ack(&self) -> (r: bool)
        ensures
            r == (acknowledged(self.addr) && self.sent < self.data@.len()),
    {
        self.addr < PI_CFG_BASE && self.sent < self.data.len()
    }

    /// The next chunk. `ack` is the acknowledgement that was read; it counts in
    /// acknowledged mode only, and anything but 0 ends the write.
    pub fn next_chunk(&mut self, ack: u8) -> (r: Result<Vec<u8>, ProtoError>)
        requires
            old(self).wf(),
            old(self).sent < old(self).data@.len(),
        ensures
            final(self).wf(),
            final(self).addr == old(self).addr,
            final(self).data == old(self).data,
            if acknowledged(old(self).addr) && ack != 0 {
                final(self).sent == old(self).sent && r == Err::<Vec<u8>, ProtoError>(
                    ProtoError::Nak { ack, addr: old(self).addr },
                )
            } else {
                final(self).sent == old(self).chunk_end() && (r matches Ok(chunk) && chunk@
                    == old(self).data@.subrange(old(self).sent as int, old(self).chunk_end()))
            },
    {
        if self.addr < PI_CFG_BASE && ack != 0 {
            return Err(ProtoError::Nak { ack, addr: self.addr });
        }
        let end: usize = if self.data.len() - self.sent > MEM_WR_BLOCK {
            self.sent + MEM_WR_BLOCK
        } else {
            self.data.len()
        };
        let chunk = crate::emulator::memory::copy_bytes(
            vstd::slice::slice_subrange(self.data.as_slice(), self.sent, end),
        );
        self.sent = end;
        Ok(chunk)
    }
}

/// The chunks of `data` from `from` on, one after the other.
pub open spec fn all_chunks(data: Seq<u8>, from: int) -> Seq<u8>
    decreases data.len() - from,
{
    if from >= data.len() {
        seq![]
    } else {
        let end = if data.len() - from > 1024 {
            from + 1024
        } else {
            data.len() as int
        };
        data.subrange(from, end) + all_chunks(data, end)
    }
}

/// The chunks of a write are its data, in order and complete.
pub proof fn law_chunks_are_the_data(data: Seq<u8>, from: int)
    requires
        0 <= from <= data.len(),
    ensures
        all_chunks(data, from) == data.skip(from),
    decreases data.len() - from,
{
    if from < data.len() {
        let end = if data.len() - from > 1024 {
            from + 1024
        } else {
            data.len() as int
        };
        law_chunks_are_the_data(data, end);
        assert(data.subrange(from, end) + data.skip(end) =~= data.skip(from));
    } else {
        assert(data.skip(from) =~= seq![]);
    }
}

/// The mailbox message of a payload, with its length in two bytes, most
/// significant first.
pub fn usb_write_request(payload: &[u8]) -> (r: Result<Vec<u8>, ProtoError>)
    ensures
        if payload@.len() > 0xFFFF {
            r == Err::<Vec<u8>, ProtoError>(ProtoError::TooLarge(payload@.len() as usize))
        } else {
            r matches Ok(out) && out@ == frame(0x22) + seq![
                (payload@.len() / 256) as u8,
                (payload@.len() % 256) as u8,
            ] + payload@
        },
{
    let n: usize = payload.len();
    if n > 0xFFFF {
        return Err(ProtoError::TooLarge(n));
    }
    let mut out = command(Opcode::UsbWr);
    out.push((n / 256) as u8);
    out.push((n % 256) as u8);
    let ghost head = out@;
    let mut i: usize = 0;
    while i < payload.len()
        invariant
            i <= payload@.len(),
            out@ == head + payload@.take(i as int),
        decreases payload@.len() - i,
    {
        out.push(payload[i]);
        i += 1;
        proof {
            assert(out@ =~= head + payload@.take(i as int));
        }
    }
    proof {
        assert(payload@.take(payload@.len() as int) =~= payload@);
        assert(out@ =~= frame(0x22) + seq![
            (payload@.len() / 256) as u8,
            (payload@.len() % 256) as u8,
        ] + payload@);
    }
    Ok(out)
}

/// Reset modes.
#[derive(Debug, Clone, Copy, PartialEq, Eq, Structural)]
pub enum ResetMode {
    /// Let the CPU run.
    Off,
    /// Hold the CPU at its reset vector.
    Soft,
    Hard,
}

/// The reset command.
pub fn host_reset_request(mode: ResetMode) -> (r: Vec<u8>)
    ensures
        r@ == frame(0x29) + seq![
            match mode {
                ResetMode::Off => 0u8,
                ResetMode::Soft => 1,
                ResetMode::Hard => 2,
            },
        ],
{
    let mut out = command(Opcode::HostRst);
    out.push(
        match mode {
            ResetMode::Off => 0,
            ResetMode::Soft => 1,
            ResetMode::Hard => 2,
        },
    );
    out
}

/// The bytes of the commands, and the key of a status reply.
pub proof fn law_command_bytes()
    ensures
        Opcode::Status.byte() == 16,
        Opcode::MemRd.byte() == 25,
        Opcode::MemWr.byte() == 26,
        Opcode::UsbWr.byte() == 34,
        Opcode::HostRst.byte() == 41,
        STATUS_KEY == 165,
        MEM_WR_BLOCK == 1024,
{
}

/// The parts of the bus in megabytes and kilobytes: 16 MB of ROM at its start, then
/// save RAM and battery RAM, the second 512 KB behind the first, and the
/// configuration at 24 MB with the mailbox and the mapper 64 KB and 192 KB on.
pub proof fn law_bus_parts()
    ensures
        PI_ROM_BASE == 0,
        PI_SRAM_BASE == 16 * 1024 * 1024,
        PI_BRAM_BASE == PI_SRAM_BASE + 512 * 1024,
        PI_CFG_BASE == 24 * 1024 * 1024,
        PI_FIFO_BASE == PI_CFG_BASE + 64 * 1024,
        PI_MAP_BASE == PI_CFG_BASE + 192 * 1024,
{
}

/// Four bytes stand for the number that they were made of, the first one counting
/// most.
pub proof fn law_be32_value(n: u32)
    ensures
        be32(n).len() == 4,
        16777216 * be32(n)[0] + 65536 * be32(n)[1] + 256 * be32(n)[2] + be32(n)[3] == n,
{
}

/// The header of a write: the command, the address, the length and a byte that is
/// 0xAA where the cartridge acknowledges each chunk, which it does below the
/// configuration alone.
pub proof fn law_write_header(addr: u32, len: u32)
    ensures
        ({
            let h = write_header(addr, len as int);
            &&& h.len() == 13
            &&& h.subrange(0, 4) == seq![43u8, 212, 26, 229]
            &&& 16777216 * h[4] + 65536 * h[5] + 256 * h[6] + h[7] == addr
            &&& 16777216 * h[8] + 65536 * h[9] + 256 * h[10] + h[11] == len
            &&& h[12] == 0xAA <==> addr < 24 * 1024 * 1024
            &&& h[12] == 0 <==> addr >= 24 * 1024 * 1024
        }),
{
    let h = write_header(addr, len as int);
    law_be32_value(addr);
    law_be32_value(len);
    assert(h.subrange(0, 4) =~= seq![43u8, 212, 26, 229]);
    let a = h.subrange(4, 8);
    assert(a =~= be32(addr));
    assert(h[4] == a[0] && h[5] == a[1] && h[6] == a[2] && h[7] == a[3]);
    let n = h.subrange(8, 12);
    assert(n =~= be32(len));
    assert(h[8] == n[0] && h[9] == n[1] && h[10] == n[2] && h[11] == n[3]);
}

/// Chunks are 1024 bytes, but for the last, which is what is left.
pub proof fn law_chunk_size(w: MemWrite)
    requires
        w.wf(),
        w.sent < w.data@.len(),
    ensures
        0 < w.chunk_end() - w.sent <= 1024,
        w.chunk_end() <= w.data@.len(),
        w.chunk_end() - w.sent < 1024 ==> w.chunk_end() == w.data@.len(),
{
}

} // verus!
