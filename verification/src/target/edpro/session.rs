//! What the cartridge target knows and which requests it allows.

use crate::emulator::memory::push_all;
use crate::target::edpro::elf_parse::SgdkSymbols;
use crate::target::edpro::stub_blob::{be_at, be_u32, header_of, parse_header, STUB_LOAD_ADDR};
use crate::target::edpro::stub_sync::{lists, StubSync, VRAM_CHUNK_MAX};
use crate::target::{EdProConfig, TargetKind, DEFAULT_BAUD, NOT_SUPPORTED};
use crate::text::{dec, has_part, hex, lower, lower_hex, push_dec};
use crate::tools::{is_classified, ToolReply};
use vstd::prelude::*;
use vstd::string::*;

verus! {

/// 68k registers of the cartridge target.
#[derive(Debug, Clone, Copy)]
pub struct EdProM68kRegisters {
    pub d: [u32; 8],
    pub a: [u32; 8],
    pub pc: u32,
    pub sr: u16,
    pub usp: u32,
    pub ssp: u32,
}

/// Whether `r` holds the registers of a register reply: D0 to D7, A0 to A7, the
/// status in the low half of a long, PC, and USP and SSP where they are sent,
/// all big-endian.
pub open spec fn g_reply(buf: Seq<u8>, r: EdProM68kRegisters) -> bool {
    &&& forall|i: int| 0 <= i < 8 ==> #[trigger] r.d@[i] == be_at(buf, 4 * i)
    &&& forall|i: int| 0 <= i < 8 ==> #[trigger] r.a@[i] == be_at(buf, 32 + 4 * i)
    &&& r.sr == be_at(buf, 64) % 65536
    &&& r.pc == be_at(buf, 68)
    &&& r.usp == if buf.len() >= 76 {
        be_at(buf, 72)
    } else {
        0
    }
    &&& r.ssp == if buf.len() >= 80 {
        be_at(buf, 76)
    } else {
        0
    }
}

/// Decodes a register reply; it has 18 longs at least.
pub fn decode_g_reply_be(buf: &[u8]) -> (r: Result<EdProM68kRegisters, String>)
    ensures
        match r {
            Ok(regs) => buf@.len() >= 72 && g_reply(buf@, regs),
            Err(m) => buf@.len() < 72 && m@ == "g reply too short: "@ + dec(buf@.len())
                + " bytes"@,
        },
{
    let n: usize = buf.len();
    if n < 72 {
        let mut m = "g reply too short: ".to_owned();
        push_dec(&mut m, n as u128);
        m.append(" bytes");
        return Err(m);
    }
    let mut d: [u32; 8] = [0; 8];
    let mut a: [u32; 8] = [0; 8];
    let mut i: usize = 0;
    while i < 8
        invariant
            i <= 8,
            buf@.len() >= 72,
            forall|j: int| 0 <= j < i ==> #[trigger] d@[j] == be_at(buf@, 4 * j),
            forall|j: int| 0 <= j < i ==> #[trigger] a@[j] == be_at(buf@, 32 + 4 * j),
        decreases 8 - i,
    {
        d[i] = be_u32(buf, 4 * i);
        a[i] = be_u32(buf, 32 + 4 * i);
        i += 1;
    }
    Ok(
        EdProM68kRegisters {
            d,
            a,
            pc: be_u32(buf, 68),
            sr: (be_u32(buf, 64) % 65536) as u16,
            usp: if n >= 76 {
                be_u32(buf, 72)
            } else {
                0
            },
            ssp: if n >= 80 {
                be_u32(buf, 76)
            } else {
                0
            },
        },
    )
}

/// The cartridge target.
pub struct EdProTarget {
    pub cfg: EdProConfig,
    /// The dialogue with the stub, once it is connected.
    pub sync: Option<StubSync>,
    /// What the stub said it supports.
    pub features: Vec<(String, String)>,
    /// Entry of the stub's vertical blank hook, 0 while it is not known.
    pub entry_vbl: u32,
    pub blob_load_addr: u32,
    /// The handler to restore while paused.
    pub paused: Option<u32>,
    pub symbols: Option<SgdkSymbols>,
}

/// Liveness of the cartridge target.
#[derive(Debug)]
pub struct EdProStatus {
    pub connected: bool,
    pub port: String,
    pub bp_count: usize,
}

/// What is said when no cartridge is connected.
pub open spec fn not_connected() -> Seq<char> {
    "not_supported_on_target: edpro target not connected"@
}

impl EdProTarget {
    /// The port, or `<unset>`.
    pub open spec fn port_name(self) -> Seq<char> {
        match self.cfg.port {
            Some(p) => p@,
            None => "<unset>"@,
        }
    }

    /// Not connected.
    pub fn new(cfg: EdProConfig) -> (r: Self)
        ensures
            r.cfg == cfg,
            r.sync is None,
            r.features@.len() == 0,
            r.entry_vbl == 0,
            r.blob_load_addr == STUB_LOAD_ADDR,
            r.paused is None,
            r.symbols is None,
    {
        EdProTarget {
            cfg,
            sync: None,
            features: Vec::new(),
            entry_vbl: 0,
            blob_load_addr: STUB_LOAD_ADDR,
            paused: None,
            symbols: None,
        }
    }

    /// The shadow variables, if an ELF was read.
    pub fn symbols(&self) -> (r: Option<SgdkSymbols>)
        ensures
            r == self.symbols,
    {
        self.symbols
    }

    /// The kind of target.
    pub fn kind(&self) -> (r: TargetKind)
        ensures
            r == TargetKind::EdPro,
    {
        TargetKind::EdPro
    }

    /// Whether the stub is connected.
    pub fn connected(&self) -> (r: bool)
        ensures
            r == self.sync is Some,
    {
        self.sync.is_some()
    }

    /// The port, or `<unset>`.
    pub fn port_str(&self) -> (r: String)
        ensures
            r@ == self.port_name(),
    {
        match &self.cfg.port {
            Some(p) => p.as_str().to_owned(),
            None => "<unset>".to_owned(),
        }
    }

    /// What the stub said it supports.
    pub fn features(&self) -> (r: &Vec<(String, String)>)
        ensures
            *r == self.features,
    {
        &self.features
    }

    /// Port and baud rate to connect with; a rate of 0 stands for the default.
    pub fn connect_request(&self) -> (r: Result<(String, u32), String>)
        ensures
            match self.cfg.port {
                Some(p) => r matches Ok(c) && c.0@ == p@ && c.1 == if self.cfg.baud == 0 {
                    DEFAULT_BAUD
                } else {
                    self.cfg.baud
                },
                None => r matches Err(m) && m@
                    == "not_supported_on_target: edpro port required (set --edpro-port=/dev/ttyACM0 or equivalent)"@,
            },
    {
        match &self.cfg.port {
            None => Err(
                "not_supported_on_target: edpro port required (set --edpro-port=/dev/ttyACM0 or equivalent)".to_owned(),
            ),
            Some(p) => Ok(
                (
                    p.as_str().to_owned(),
                    if self.cfg.baud == 0 {
                        DEFAULT_BAUD
                    } else {
                        self.cfg.baud
                    },
                ),
            ),
        }
    }

    /// Takes a dialogue whose handshake is done. The stub's vertical blank hook
    /// is read from its header, where that is valid; shadow variables are kept
    /// where an ELF gave some.
    pub fn attach(
        &mut self,
        sync: StubSync,
        features: Vec<(String, String)>,
        blob: &[u8],
        symbols: Option<SgdkSymbols>,
    )
        ensures
            *final(self) == (EdProTarget {
                sync: Some(sync),
                features,
                entry_vbl: match header_of(blob@) {
                    Ok(h) => h.entry_vbl,
                    Err(_) => old(self).entry_vbl,
                },
                symbols: match symbols {
                    Some(s) => Some(s),
                    None => old(self).symbols,
                },
                ..*old(self)
            }),
    {
        self.features = features;
        self.sync = Some(sync);
        match parse_header(blob) {
            Ok(h) => {
                self.entry_vbl = h.entry_vbl;
            },
            Err(_) => {},
        }
        if symbols.is_some() {
            self.symbols = symbols;
        }
    }

    /// Whether requests can go out.
    pub fn check_connected(&self) -> (r: Result<(), String>)
        ensures
            r is Ok <==> self.sync is Some,
            r matches Err(m) ==> m@ == not_connected(),
    {
        if self.sync.is_some() {
            Ok(())
        } else {
            Err("not_supported_on_target: edpro target not connected".to_owned())
        }
    }

    /// What asking for a pause gives.
    pub open spec fn pause_result(self, r: Result<(u32, u32), String>) -> bool {
        if self.paused is Some {
            r matches Err(m) && m@ == "pause: already paused \u{2014} call mega_resume first"@
        } else if self.sync is None {
            r matches Err(m) && m@ == not_connected()
        } else if self.entry_vbl == 0 {
            r matches Err(m) && m@
                == "pause: stub VBL entry not cached (header parse failed at connect-time)"@
        } else {
            r == Ok::<(u32, u32), String>((self.blob_load_addr, self.entry_vbl))
        }
    }

    /// Where the stub lies and which entry hooks the vertical blank, when a
    /// pause is possible now: not paused yet, connected, and the entry known.
    pub fn pause_request(&self) -> (r: Result<(u32, u32), String>)
        ensures
            self.pause_result(r),
    {
        if self.paused.is_some() {
            return Err("pause: already paused \u{2014} call mega_resume first".to_owned());
        }
        match self.check_connected() {
            Err(m) => {
                return Err(m);
            },
            Ok(()) => {},
        }
        if self.entry_vbl == 0 {
            return Err(
                "pause: stub VBL entry not cached (header parse failed at connect-time)".to_owned(),
            );
        }
        Ok((self.blob_load_addr, self.entry_vbl))
    }

    /// Remembers the handler that a pause replaced.
    pub fn pause_done(&mut self, original_vbl: u32)
        ensures
            *final(self) == (EdProTarget { paused: Some(original_vbl), ..*old(self) }),
    {
        self.paused = Some(original_vbl);
    }

    /// The handler that a resume has to restore first, if paused; the target is
    /// no longer paused then.
    pub fn resume_request(&mut self) -> (r: Option<u32>)
        ensures
            r == old(self).paused,
            *final(self) == (EdProTarget { paused: None, ..*old(self) }),
    {
        let p = self.paused;
        self.paused = None;
        p
    }

    /// What asking for the register copies gives.
    pub open spec fn vdp_result(self, r: Result<u32, String>) -> bool {
        if self.sync is None {
            r matches Err(m) && m@ == not_connected()
        } else {
            match self.symbols {
                Some(s) => r == Ok::<u32, String>(s.reg_values),
                None => r matches Err(m) && m@
                    == "not_supported_on_target: VDP regs unavailable: ELF symbols not loaded \u{2014} pass --edpro-elf <path> at startup or rebuild ROM with debug + .symtab"@,
            }
        }
    }

    /// Where the register copies lie, 19 bytes.
    pub fn vdp_registers_addr(&self) -> (r: Result<u32, String>)
        ensures
            self.vdp_result(r),
    {
        match self.check_connected() {
            Err(m) => Err(m),
            Ok(()) => match &self.symbols {
                Some(s) => Ok(s.reg_values),
                None => Err(
                    "not_supported_on_target: VDP regs unavailable: ELF symbols not loaded \u{2014} pass --edpro-elf <path> at startup or rebuild ROM with debug + .symtab".to_owned(),
                ),
            },
        }
    }

    /// What asking for the sprite table gives.
    pub open spec fn sprites_result(self, r: Result<u32, String>) -> bool {
        if self.sync is None {
            r matches Err(m) && m@ == not_connected()
        } else {
            match self.symbols {
                Some(s) => r == Ok::<u32, String>(s.slist_addr),
                None => r matches Err(m) && m@
                    == "not_supported_on_target: sprite table unavailable: ELF symbols not loaded \u{2014} pass --edpro-elf <path> at startup or rebuild ROM with debug + .symtab"@,
            }
        }
    }

    /// Where the VRAM address of the sprite table lies, two bytes.
    pub fn sprite_table_addr(&self) -> (r: Result<u32, String>)
        ensures
            self.sprites_result(r),
    {
        match self.check_connected() {
            Err(m) => Err(m),
            Ok(()) => match &self.symbols {
                Some(s) => Ok(s.slist_addr),
                None => Err(
                    "not_supported_on_target: sprite table unavailable: ELF symbols not loaded \u{2014} pass --edpro-elf <path> at startup or rebuild ROM with debug + .symtab".to_owned(),
                ),
            },
        }
    }

    /// Frames, save states, ROM files and controllers: not on the cartridge.
    pub fn unsupported(&self) -> (r: String)
        ensures
            r@ == NOT_SUPPORTED@,
    {
        NOT_SUPPORTED.to_owned()
    }

    /// Z80 registers: the stub runs on the 68k only.
    pub fn get_z80_registers(&self) -> (r: String)
        ensures
            r@ == "not_supported_on_target: Z80 not exposed by 68k stub"@,
    {
        "not_supported_on_target: Z80 not exposed by 68k stub".to_owned()
    }

    /// Screenshots are not wired to the target yet.
    pub fn screenshot(&self) -> (r: String)
        ensures
            r@
                == "not_supported_on_target: screenshot needs VDP reg shadow for plane A/B addrs + scroll regs; deferred to M5.8"@,
    {
        "not_supported_on_target: screenshot needs VDP reg shadow for plane A/B addrs + scroll regs; deferred to M5.8".to_owned()
    }

    /// Addresses of the breakpoints, ascending; none while not connected.
    pub fn list_breakpoints(&self) -> (r: Vec<u32>)
        ensures
            match self.sync {
                Some(s) => lists(r@, s.bps@),
                None => r@.len() == 0,
            },
    {
        match &self.sync {
            Some(s) => s.list_breakpoints(),
            None => Vec::new(),
        }
    }

    /// Liveness.
    pub fn get_status(&self) -> (r: EdProStatus)
        ensures
            r.connected == self.sync is Some,
            r.port@ == self.port_name(),
            r.bp_count == match self.sync {
                Some(s) => s.bps@.len(),
                None => 0,
            },
    {
        EdProStatus {
            connected: self.sync.is_some(),
            port: self.port_str(),
            bp_count: self.list_breakpoints().len(),
        }
    }
}

/// A cartridge that is not connected and not paused refuses every request with
/// an error that tools report as a missing connection.
pub proof fn law_disconnected_is_reported(
    t: EdProTarget,
    pause: Result<(u32, u32), String>,
    vdp: Result<u32, String>,
    sprites: Result<u32, String>,
    tool: Seq<char>,
    reply: ToolReply,
)
    requires
        t.sync is None,
        t.paused is None,
        t.pause_result(pause),
        t.vdp_result(vdp),
        t.sprites_result(sprites),
    ensures
        pause is Err && (is_classified(reply, tool, pause->Err_0@) ==> reply is NotConnected),
        vdp is Err && (is_classified(reply, tool, vdp->Err_0@) ==> reply is NotConnected),
        sprites is Err && (is_classified(reply, tool, sprites->Err_0@) ==> reply is NotConnected),
{
    reveal_strlit("not_supported_on_target: edpro target not connected");
    reveal_strlit("not connected");
    let n = "not connected"@.len() as int;
    assert(not_connected().subrange(38, 38 + n) =~= "not connected"@);
    assert(has_part(not_connected(), "not connected"@));
}

/// The big-endian word that a read of the sprite table's address gave.
pub fn sprite_table_offset(raw: &[u8]) -> (r: Result<u32, String>)
    ensures
        match r {
            Ok(w) => raw@.len() == 2 && w == 256 * raw@[0] + raw@[1],
            Err(m) => raw@.len() != 2 && m@ == "get_sprites: slist_addr read returned "@ + dec(
                raw@.len(),
            ) + " bytes (expected 2)"@,
        },
{
    if raw.len() != 2 {
        let mut m = "get_sprites: slist_addr read returned ".to_owned();
        push_dec(&mut m, raw.len() as u128);
        m.append(" bytes (expected 2)");
        return Err(m);
    }
    Ok(256 * (raw[0] as u32) + raw[1] as u32)
}

/// Size of the sprite table.
pub const SAT_TOTAL: u32 = 640;

/// Size of VRAM.
pub const VRAM_TOTAL: u32 = 0x1_0000;

/// A read of VRAM in chunks.
pub struct VramRead {
    /// Where the read starts.
    pub base: u32,
    pub total: u32,
    /// What has been read.
    pub data: Vec<u8>,
}

/// A chunk that has not the length that was asked for.
#[derive(Debug, Clone, Copy, PartialEq, Eq, Structural)]
pub struct ShortChunk {
    pub got: usize,
    pub expected: u32,
    pub offset: u32,
}

impl ShortChunk {
    /// The error's message.
    pub fn message(&self) -> (r: String)
        ensures
            r@ == "get_sprites: short VRAM chunk: got "@ + dec(self.got as nat) + " expected "@
                + dec(self.expected as nat) + " at offset "@ + dec(self.offset as nat),
    {
        let mut m = "get_sprites: short VRAM chunk: got ".to_owned();
        push_dec(&mut m, self.got as u128);
        m.append(" expected ");
        push_dec(&mut m, self.expected as u128);
        m.append(" at offset ");
        push_dec(&mut m, self.offset as u128);
        m
    }

    /// The error's message where all of VRAM was read.
    pub fn whole_message(&self) -> (r: String)
        ensures
            r@ == "read_vram@0x"@ + lower(hex(self.offset as nat, 1)) + ": short chunk ("@ + dec(
                self.got as nat,
            ) + " of "@ + dec(self.expected as nat) + ")"@,
    {
        let mut m = "read_vram@0x".to_owned();
        m.append(lower_hex(self.offset as u64, 1).as_str());
        m.append(": short chunk (");
        push_dec(&mut m, self.got as u128);
        m.append(" of ");
        push_dec(&mut m, self.expected as u128);
        m.append(")");
        m
    }
}

impl VramRead {
    /// No more than asked for has been read.
    pub open spec fn wf(self) -> bool {
        self.data@.len() <= self.total
    }

    /// Length of the next chunk.
    pub open spec fn chunk_len(self) -> int {
        if self.total - self.data@.len() > 128 {
            128
        } else {
            self.total - self.data@.len()
        }
    }

    /// Starts a read.
    pub fn new(base: u32, total: u32) -> (r: Self)
        ensures
            r.wf(),
            r.base == base,
            r.total == total,
            r.data@.len() == 0,
    {
        VramRead { base, total, data: Vec::new() }
    }

    fn next_len(&self) -> (r: u32)
        requires
            self.wf(),
        ensures
            r == self.chunk_len(),
    {
        let left: u32 = self.total - self.data.len() as u32;
        if left > VRAM_CHUNK_MAX {
            VRAM_CHUNK_MAX
        } else {
            left
        }
    }

    /// Address and length of the next chunk; `None` when all is read. Addresses
    /// wrap around.
    pub fn next_request(&self) -> (r: Option<(u32, u32)>)
        requires
            self.wf(),
        ensures
            r is None <==> self.data@.len() == self.total,
            r matches Some(q) ==> q.0 == (self.base + self.data@.len()) % 0x1_0000_0000 && q.1
                == self.chunk_len(),
    {
        let off: u32 = self.data.len() as u32;
        if off == self.total {
            return None;
        }
        let addr: u32 = ((self.base as u64 + off as u64) % 0x1_0000_0000) as u32;
        Some((addr, self.next_len()))
    }

    /// Takes the bytes of the next chunk; another number of bytes than asked for
    /// is refused.
    pub fn accept(&mut self, chunk: &[u8]) -> (r: Result<(), ShortChunk>)
        requires
            old(self).wf(),
        ensures
            final(self).wf(),
            final(self).base == old(self).base,
            final(self).total == old(self).total,
            match r {
                Ok(_) => chunk@.len() == old(self).chunk_len() && final(self).data@
                    == old(self).data@ + chunk@,
                Err(e) => chunk@.len() != old(self).chunk_len() && final(self).data@
                    == old(self).data@ && e == (ShortChunk {
                    got: chunk@.len() as usize,
                    expected: old(self).chunk_len() as u32,
                    offset: old(self).data@.len() as u32,
                }),
            },
    {
        let len: u32 = self.next_len();
        if chunk.len() as u64 != len as u64 {
            return Err(
                ShortChunk { got: chunk.len(), expected: len, offset: self.data.len() as u32 },
            );
        }
        push_all(&mut self.data, chunk);
        Ok(())
    }
}

/// VRAM address of a tile; it wraps around.
pub fn tile_address(index: u32) -> (r: u32)
    ensures
        r == (index * 32) % 0x1_0000_0000,
{
    ((index as u64 * 32) % 0x1_0000_0000) as u32
}

/// A register reply can be put together again from its registers, most significant
/// byte first: D0 to D7, A0 to A7, a long whose low half is the status, PC, and USP
/// and SSP where they were sent.
pub proof fn law_reply_keeps_registers(buf: Seq<u8>, r: EdProM68kRegisters, i: int)
    requires
        buf.len() >= 72,
        g_reply(buf, r),
        0 <= i < 8,
    ensures
        holds_be(buf, 4 * i, r.d@[i]),
        holds_be(buf, 4 * (8 + i), r.a@[i]),
        256 * buf[66] + buf[67] == r.sr,
        holds_be(buf, 68, r.pc),
        buf.len() >= 76 ==> holds_be(buf, 72, r.usp),
        buf.len() < 76 ==> r.usp == 0,
        buf.len() >= 80 ==> holds_be(buf, 76, r.ssp),
        buf.len() < 80 ==> r.ssp == 0,
{
    assert(r.d@[i] == be_at(buf, 4 * i));
    assert(r.a@[i] == be_at(buf, 32 + 4 * i));
    assert(4 * (8 + i) == 32 + 4 * i);
    let status = 16777216 * buf[64] + 65536 * buf[65] + 256 * buf[66] + buf[67];
    assert(be_at(buf, 64) == status);
    assert(status % 65536 == 256 * buf[66] + buf[67]);
}

/// Whether the four bytes at `at` are `n`, most significant byte first.
pub open spec fn holds_be(s: Seq<u8>, at: int, n: u32) -> bool {
    16777216 * s[at] + 65536 * s[at + 1] + 256 * s[at + 2] + s[at + 3] == n
}

/// VRAM is read 128 bytes at a time, but for the last chunk, which is what is left.
pub proof fn law_vram_chunks(r: VramRead)
    requires
        r.wf(),
        r.data@.len() < r.total,
    ensures
        0 < r.chunk_len() <= 128,
        r.data@.len() + r.chunk_len() <= r.total,
        r.chunk_len() < 128 ==> r.data@.len() + r.chunk_len() == r.total,
        SAT_TOTAL == 8 * 80,
        VRAM_TOTAL == 64 * 1024,
{
}

/// A pause is possible exactly while the cartridge is connected, the stub's hook is
/// known and no pause is on; it is for that hook and that stub.
pub proof fn law_pause_when_possible(t: EdProTarget, r: Result<(u32, u32), String>)
    requires
        t.pause_result(r),
    ensures
        r is Ok <==> t.sync is Some && t.entry_vbl != 0 && t.paused is None,
        r matches Ok(q) ==> q.0 == t.blob_load_addr && q.1 == t.entry_vbl,
{
}

/// The register copies and the sprite table are found through the shadow variables
/// of their names, once connected.
pub proof fn law_shadow_addresses(
    t: EdProTarget,
    vdp: Result<u32, String>,
    sprites: Result<u32, String>,
)
    requires
        t.vdp_result(vdp),
        t.sprites_result(sprites),
    ensures
        vdp is Ok <==> t.sync is Some && t.symbols is Some,
        sprites is Ok <==> t.sync is Some && t.symbols is Some,
        vdp matches Ok(a) ==> t.symbols matches Some(s) && a == s.reg_values,
        sprites matches Ok(a) ==> t.symbols matches Some(s) && a == s.slist_addr,
{
}

} // verus!
