//! A session on a ROM alone, without a core behind it.

use crate::checksum::{crc32, crc32_bitwise};
use crate::emulator::memory::{copy_bytes, push_span, span_text};
use crate::text::{
    ascii_lower, chars_of, debug_form, debug_text, dec, lower, push_dec, spaces, starts_with_text,
    text_eq, text_of, text_or_empty, trim_end, trimmed_end, utf8_or_empty,
};
use vstd::prelude::*;
use vstd::slice::slice_subrange;
use vstd::string::*;
use vstd::utf8::*;

verus! {

/// Address spaces that a client can name.
#[derive(Debug, Clone, Copy, PartialEq, Eq, Structural)]
pub enum MemorySpace {
    Ram,
    Vram,
    Cram,
    Vsram,
    Rom,
    Z80,
    Saveram,
}

impl MemorySpace {
    /// The space that a lower-case name stands for.
    pub open spec fn named(s: Seq<char>) -> Option<MemorySpace> {
        if s == "ram"@ {
            Some(MemorySpace::Ram)
        } else if s == "vram"@ {
            Some(MemorySpace::Vram)
        } else if s == "cram"@ {
            Some(MemorySpace::Cram)
        } else if s == "vsram"@ {
            Some(MemorySpace::Vsram)
        } else if s == "rom"@ {
            Some(MemorySpace::Rom)
        } else if s == "z80"@ {
            Some(MemorySpace::Z80)
        } else if s == "saveram"@ {
            Some(MemorySpace::Saveram)
        } else {
            None
        }
    }

    /// The variant's name.
    pub open spec fn variant(self) -> Seq<char> {
        match self {
            MemorySpace::Ram => "Ram"@,
            MemorySpace::Vram => "Vram"@,
            MemorySpace::Cram => "Cram"@,
            MemorySpace::Vsram => "Vsram"@,
            MemorySpace::Rom => "Rom"@,
            MemorySpace::Z80 => "Z80"@,
            MemorySpace::Saveram => "Saveram"@,
        }
    }

    /// The variant's name, as error messages show it.
    pub fn variant_name(self) -> (r: &'static str)
        ensures
            r@ == self.variant(),
    {
        match self {
            MemorySpace::Ram => "Ram",
            MemorySpace::Vram => "Vram",
            MemorySpace::Cram => "Cram",
            MemorySpace::Vsram => "Vsram",
            MemorySpace::Rom => "Rom",
            MemorySpace::Z80 => "Z80",
            MemorySpace::Saveram => "Saveram",
        }
    }
}

/// Parses a space name, ignoring ASCII case; the error tells the name.
pub fn parse_space(s: &str) -> (r: Result<MemorySpace, String>)
    ensures
        match MemorySpace::named(lower(s@)) {
            Some(space) => r == Ok::<MemorySpace, String>(space),
            None => r matches Err(m) && m@ == "unknown memory space: "@ + debug_form(lower(s@)),
        },
{
    let name = ascii_lower(s);
    let n = name.as_str();
    if text_eq(n, "ram") {
        Ok(MemorySpace::Ram)
    } else if text_eq(n, "vram") {
        Ok(MemorySpace::Vram)
    } else if text_eq(n, "cram") {
        Ok(MemorySpace::Cram)
    } else if text_eq(n, "vsram") {
        Ok(MemorySpace::Vsram)
    } else if text_eq(n, "rom") {
        Ok(MemorySpace::Rom)
    } else if text_eq(n, "z80") {
        Ok(MemorySpace::Z80)
    } else if text_eq(n, "saveram") {
        Ok(MemorySpace::Saveram)
    } else {
        let mut m = "unknown memory space: ".to_owned();
        m.append(debug_text(n).as_str());
        Err(m)
    }
}

/// What loading a ROM tells about it.
#[derive(Debug)]
pub struct RomInfo {
    pub size: u64,
    pub crc32: u32,
    pub header_name: String,
}

/// Why a request failed.
#[derive(Debug)]
pub enum SessionError {
    /// Shorter than a header; carries the size.
    TooSmall(usize),
    /// The system name does not begin with `SEGA`; carries it, without the
    /// white space at its end.
    MissingMagic(String),
    /// A read longer than the cap.
    TooLong(u32),
    NoRom,
    Overflow,
    OutOfBounds { start: usize, end: usize, size: usize },
    /// A space that needs a core.
    NeedsCore(MemorySpace),
}

impl SessionError {
    /// The error's message.
    pub open spec fn text(self) -> Seq<char> {
        match self {
            SessionError::TooSmall(n) => "ROM too small: "@ + dec(n as nat)
                + " bytes (need \u{2265}0x200)"@,
            SessionError::MissingMagic(name) => "missing SEGA magic at 0x100 (got: "@ + debug_form(
                name@,
            ) + ")"@,
            SessionError::TooLong(n) => "length "@ + dec(n as nat)
                + " exceeds sanity cap (16 MiB)"@,
            SessionError::NoRom => "no ROM loaded"@,
            SessionError::Overflow => "addr+length overflow"@,
            SessionError::OutOfBounds { start, end, size } => "out-of-bounds ROM read: "@
                + span_text(start, end) + " (rom is "@ + dec(size as nat) + " bytes)"@,
            SessionError::NeedsCore(space) => "memory space "@ + space.variant()
                + " not implemented in M1 (deferred to M2)"@,
        }
    }

    /// The error's message.
    pub fn message(&self) -> (r: String)
        ensures
            r@ == self.text(),
    {
        match self {
            SessionError::TooSmall(n) => {
                let mut m = "ROM too small: ".to_owned();
                push_dec(&mut m, *n as u128);
                m.append(" bytes (need \u{2265}0x200)");
                m
            },
            SessionError::MissingMagic(name) => {
                let mut m = "missing SEGA magic at 0x100 (got: ".to_owned();
                m.append(debug_text(name.as_str()).as_str());
                m.append(")");
                m
            },
            SessionError::TooLong(n) => {
                let mut m = "length ".to_owned();
                push_dec(&mut m, *n as u128);
                m.append(" exceeds sanity cap (16 MiB)");
                m
            },
            SessionError::NoRom => "no ROM loaded".to_owned(),
            SessionError::Overflow => "addr+length overflow".to_owned(),
            SessionError::OutOfBounds { start, end, size } => {
                let mut m = "out-of-bounds ROM read: ".to_owned();
                push_span(&mut m, *start, *end);
                m.append(" (rom is ");
                push_dec(&mut m, *size as u128);
                m.append(" bytes)");
                m
            },
            SessionError::NeedsCore(space) => {
                let mut m = "memory space ".to_owned();
                m.append(space.variant_name());
                m.append(" not implemented in M1 (deferred to M2)");
                m
            },
        }
    }
}

/// The system name of a ROM header, at 0x100.
pub open spec fn system_name(rom: Seq<u8>) -> Seq<char> {
    text_or_empty(rom.subrange(0x100, 0x110))
}

/// The overseas title of a ROM header, without the white space at its end.
pub open spec fn title(rom: Seq<u8>) -> Seq<char> {
    trimmed_end(text_or_empty(rom.subrange(0x150, 0x180)))
}

/// The longest read in bytes (16 MiB).
pub const MAX_READ: u32 = 16_777_216;

/// A ROM-only session.
pub struct EmulatorActor {
    pub rom_bytes: Option<Vec<u8>>,
    pub paused: bool,
    pub frame: u64,
}

impl EmulatorActor {
    /// No ROM yet.
    pub fn new() -> (r: Self)
        ensures
            r.rom_bytes is None,
            !r.paused,
            r.frame == 0,
    {
        EmulatorActor { rom_bytes: None, paused: false, frame: 0 }
    }

    /// Loads a ROM: it needs room for a header and a system name that begins
    /// with `SEGA`.
    pub fn load_rom(&mut self, bytes: Vec<u8>) -> (r: Result<RomInfo, SessionError>)
        ensures
            if bytes@.len() < 0x200 {
                *final(self) == *old(self) && (r matches Err(SessionError::TooSmall(n)) && n
                    == bytes@.len())
            } else if !"SEGA"@.is_prefix_of(system_name(bytes@)) {
                *final(self) == *old(self) && (r matches Err(SessionError::MissingMagic(name))
                    && name@ == trimmed_end(system_name(bytes@)))
            } else {
                &&& final(self).rom_bytes == Some(bytes)
                &&& !final(self).paused
                &&& final(self).frame == 0
                &&& r matches Ok(info)
                &&& info.size == bytes@.len()
                &&& info.crc32 == crc32(bytes@)
                &&& info.header_name@ == title(bytes@)
            },
    {
        if bytes.len() < 0x200 {
            return Err(SessionError::TooSmall(bytes.len()));
        }
        let name = utf8_or_empty(slice_subrange(bytes.as_slice(), 0x100, 0x110));
        if !starts_with_text(name.as_str(), "SEGA") {
            let mut chars = chars_of(name.as_str());
            trim_end(&mut chars);
            return Err(SessionError::MissingMagic(text_of(&chars)));
        }
        let crc: u32 = crc32_ieee(bytes.as_slice());
        let size: u64 = bytes.len() as u64;
        let field = utf8_or_empty(slice_subrange(bytes.as_slice(), 0x150, 0x180));
        let mut chars = chars_of(field.as_str());
        trim_end(&mut chars);
        self.rom_bytes = Some(bytes);
        self.paused = false;
        self.frame = 0;
        Ok(RomInfo { size, crc32: crc, header_name: text_of(&chars) })
    }

    /// Toggles the pause; gives the frame counter.
    pub fn pause(&mut self) -> (r: u64)
        ensures
            final(self).paused == !old(self).paused,
            final(self).rom_bytes == old(self).rom_bytes,
            final(self).frame == old(self).frame,
            r == old(self).frame,
    {
        self.paused = !self.paused;
        self.frame
    }

    /// Reads the ROM; the other spaces need a core.
    pub fn read_memory(&self, space: MemorySpace, addr: u32, length: u32) -> (r: Result<
        Vec<u8>,
        SessionError,
    >)
        ensures
            if length == 0 {
                r matches Ok(b) && b@.len() == 0
            } else if length > MAX_READ {
                r matches Err(SessionError::TooLong(n)) && n == length
            } else if space != MemorySpace::Rom {
                r matches Err(SessionError::NeedsCore(s)) && s == space
            } else {
                match self.rom_bytes {
                    None => r matches Err(SessionError::NoRom),
                    Some(rom) => if addr + length > usize::MAX {
                        r matches Err(SessionError::Overflow)
                    } else if addr + length > rom@.len() {
                        r matches Err(SessionError::OutOfBounds { start, end, size }) && start
                            == addr && end == addr + length && size == rom@.len()
                    } else {
                        r matches Ok(b) && b@ == rom@.subrange(addr as int, addr + length)
                    },
                }
            },
    {
        if length == 0 {
            return Ok(Vec::new());
        }
        if length > MAX_READ {
            return Err(SessionError::TooLong(length));
        }
        if space != MemorySpace::Rom {
            return Err(SessionError::NeedsCore(space));
        }
        match &self.rom_bytes {
            None => Err(SessionError::NoRom),
            Some(rom) => {
                let start: usize = addr as usize;
                match start.checked_add(length as usize) {
                    None => Err(SessionError::Overflow),
                    Some(end) => if end > rom.len() {
                        Err(SessionError::OutOfBounds { start, end, size: rom.len() })
                    } else {
                        Ok(copy_bytes(slice_subrange(rom.as_slice(), start, end)))
                    },
                }
            },
        }
    }
}

/// CRC-32/IEEE, one bit at a time.
pub fn crc32_ieee(data: &[u8]) -> (r: u32)
    ensures
        r == crc32(data@),
{
    crc32_bitwise(data)
}

/// Title and system name are the text of 48 bytes at 0x150 and of 16 bytes at
/// 0x100; the title comes without the spaces that pad it.
pub proof fn law_header_reads_back(rom: Seq<u8>, t: Seq<char>, pad: nat, system: Seq<char>)
    requires
        rom.len() >= 0x200,
        t.len() > 0 ==> 0x21 <= t.first() as u32 <= 0x7E && 0x21 <= t.last() as u32 <= 0x7E,
        rom.subrange(0x150, 0x180) == encode_utf8(t + spaces(pad)),
        rom.subrange(0x100, 0x110) == encode_utf8(system),
    ensures
        title(rom) == t,
        system_name(rom) == system,
{
    encode_utf8_valid_utf8(t + spaces(pad));
    encode_utf8_decode_utf8(t + spaces(pad));
    encode_utf8_valid_utf8(system);
    encode_utf8_decode_utf8(system);
    crate::text::law_trims_padding(t, 0, pad);
}

/// Both kinds of session read the same header.
pub proof fn law_headers_agree(rom: Seq<u8>)
    requires
        rom.len() >= 0x200,
    ensures
        title(rom) == crate::emulator::rom::title(rom),
        system_name(rom) == crate::emulator::rom::system_name(rom),
{
}

/// Every space is found under its own name, in any case, and under no other.
pub proof fn law_space_names(name: Seq<char>)
    ensures
        MemorySpace::named(lower(name)) == Some(MemorySpace::Ram) <==> lower(name) == "ram"@,
        MemorySpace::named(lower(name)) == Some(MemorySpace::Vram) <==> lower(name) == "vram"@,
        MemorySpace::named(lower(name)) == Some(MemorySpace::Cram) <==> lower(name) == "cram"@,
        MemorySpace::named(lower(name)) == Some(MemorySpace::Vsram) <==> lower(name) == "vsram"@,
        MemorySpace::named(lower(name)) == Some(MemorySpace::Rom) <==> lower(name) == "rom"@,
        MemorySpace::named(lower(name)) == Some(MemorySpace::Z80) <==> lower(name) == "z80"@,
        MemorySpace::named(lower(name)) == Some(MemorySpace::Saveram) <==> lower(name)
            == "saveram"@,
{
    reveal_strlit("ram");
    reveal_strlit("vram");
    reveal_strlit("cram");
    reveal_strlit("vsram");
    reveal_strlit("rom");
    reveal_strlit("saveram");
    reveal_strlit("z80");
    assert("ram"@[1] == 'a' && "rom"@[1] == 'o' && "z80"@[1] == '8');
    assert("vram"@[0] == 'v' && "cram"@[0] == 'c');
    assert("ram"@.len() == 3 && "rom"@.len() == 3 && "z80"@.len() == 3);
    assert("vram"@.len() == 4 && "cram"@.len() == 4 && "vsram"@.len() == 5);
    assert("saveram"@.len() == 7);
}

/// The name of a space in messages, in lower case, is the name that a client gives.
pub proof fn law_variant_names(space: MemorySpace)
    ensures
        MemorySpace::named(lower(space.variant())) == Some(space),
{
    law_space_names(space.variant());
    reveal_strlit("Ram");
    reveal_strlit("Vram");
    reveal_strlit("Cram");
    reveal_strlit("Vsram");
    reveal_strlit("Rom");
    reveal_strlit("Z80");
    reveal_strlit("Saveram");
    reveal_strlit("ram");
    reveal_strlit("vram");
    reveal_strlit("cram");
    reveal_strlit("vsram");
    reveal_strlit("rom");
    reveal_strlit("z80");
    reveal_strlit("saveram");
    let n = lower(space.variant());
    match space {
        MemorySpace::Ram => assert(n =~= "ram"@),
        MemorySpace::Vram => assert(n =~= "vram"@),
        MemorySpace::Cram => assert(n =~= "cram"@),
        MemorySpace::Vsram => assert(n =~= "vsram"@),
        MemorySpace::Rom => assert(n =~= "rom"@),
        MemorySpace::Z80 => assert(n =~= "z80"@),
        MemorySpace::Saveram => assert(n =~= "saveram"@),
    }
}

/// The longest read is 16 MiB, in both kinds of session.
pub proof fn law_read_cap()
    ensures
        MAX_READ == 16 * 1024 * 1024,
        MAX_READ == crate::emulator::runner::MAX_READ,
{
}

} // verus!
