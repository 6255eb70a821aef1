//! Mega Drive ROM images: checks, identification and header fields.

use crate::checksum::{crc32, crc32_hash};
use crate::text::{
    chars_of, debug_form, debug_text, dec, push_dec, spaces, starts_with_text, text_of,
    text_or_empty, text_trimmed_start, trim_end, trim_end_nul, trimmed_end, trimmed_start,
    utf8_or_empty, without_trailing_nul,
};
use vstd::prelude::*;
use vstd::slice::slice_subrange;
use vstd::string::*;
use vstd::utf8::*;

verus! {

/// What loading a ROM tells about it.
#[derive(Debug)]
pub struct RomInfo {
    pub size: u64,
    pub crc32: u32,
    pub header_name: String,
    pub region: String,
}

/// CRC-32/IEEE (polynomial 0xEDB88320) of a ROM.
pub fn crc32_ieee(data: &[u8]) -> (r: u32)
    ensures
        r == crc32(data@),
{
    crc32_hash(data)
}

/// The region letters of a ROM header: the text at 0x1F0, without trailing NULs
/// and without white space around it; `?` when there is none.
pub open spec fn region_letters(rom: Seq<u8>) -> Seq<char> {
    if rom.len() < 0x1F4 {
        "?"@
    } else {
        let t = trimmed_start(
            trimmed_end(without_trailing_nul(text_or_empty(rom.subrange(0x1F0, 0x1F4)))),
        );
        if t.len() == 0 {
            "?"@
        } else {
            t
        }
    }
}

/// Best-effort region of a ROM header.
pub fn region_from_header(rom: &[u8]) -> (r: String)
    ensures
        r@ == region_letters(rom@),
{
    if rom.len() < 0x1F4 {
        return "?".to_owned();
    }
    let field = utf8_or_empty(slice_subrange(rom, 0x1F0, 0x1F4));
    let mut chars = chars_of(field.as_str());
    trim_end_nul(&mut chars);
    trim_end(&mut chars);
    let text = text_trimmed_start(&chars);
    if text.as_str().is_empty() {
        "?".to_owned()
    } else {
        text
    }
}

/// The overseas title of a ROM header: the text at 0x150 without the white
/// space at its end; nothing when the ROM ends before it does.
pub open spec fn title(rom: Seq<u8>) -> Seq<char> {
    if rom.len() < 0x180 {
        seq![]
    } else {
        trimmed_end(text_or_empty(rom.subrange(0x150, 0x180)))
    }
}

/// The overseas title of a ROM header.
pub fn header_name(rom: &[u8]) -> (r: String)
    ensures
        r@ == title(rom@),
{
    if rom.len() < 0x180 {
        return String::new();
    }
    let field = utf8_or_empty(slice_subrange(rom, 0x150, 0x180));
    let mut chars = chars_of(field.as_str());
    trim_end(&mut chars);
    text_of(&chars)
}

/// The system name of a ROM header, at 0x100.
pub open spec fn system_name(rom: Seq<u8>) -> Seq<char> {
    text_or_empty(rom.subrange(0x100, 0x110))
}

/// A ROM is accepted when it is large enough for a header whose system name
/// begins with `SEGA`.
pub open spec fn acceptable(rom: Seq<u8>) -> bool {
    rom.len() >= 0x200 && "SEGA"@.is_prefix_of(system_name(rom))
}

/// Why a ROM was not accepted.
#[derive(Debug)]
pub enum RomError {
    /// Shorter than a header; carries the size.
    TooSmall(usize),
    /// The system name does not begin with `SEGA`; carries it.
    MissingMagic(String),
}

impl RomError {
    /// The error's message.
    pub open spec fn text(self) -> Seq<char> {
        match self {
            RomError::TooSmall(n) => "ROM too small ("@ + dec(n as nat) + " bytes)"@,
            RomError::MissingMagic(name) => "missing SEGA magic at 0x100 (got "@ + debug_form(name@)
                + ")"@,
        }
    }

    /// The error's message.
    pub fn message(&self) -> (r: String)
        ensures
            r@ == self.text(),
    {
        match self {
            RomError::TooSmall(n) => {
                let mut m = "ROM too small (".to_owned();
                push_dec(&mut m, *n as u128);
                m.append(" bytes)");
                m
            },
            RomError::MissingMagic(name) => {
                let mut m = "missing SEGA magic at 0x100 (got ".to_owned();
                m.append(debug_text(name.as_str()).as_str());
                m.append(")");
                m
            },
        }
    }
}

/// What checking a ROM gives.
pub open spec fn check_result(rom: Seq<u8>, r: Result<(), RomError>) -> bool {
    if rom.len() < 0x200 {
        r matches Err(RomError::TooSmall(n)) && n == rom.len()
    } else if !"SEGA"@.is_prefix_of(system_name(rom)) {
        r matches Err(RomError::MissingMagic(name)) && name@ == system_name(rom)
    } else {
        r is Ok
    }
}

/// Checks a ROM's size and system name.
pub fn check_rom(rom: &[u8]) -> (r: Result<(), RomError>)
    ensures
        check_result(rom@, r),
        r is Ok <==> acceptable(rom@),
{
    if rom.len() < 0x200 {
        return Err(RomError::TooSmall(rom.len()));
    }
    let name = utf8_or_empty(slice_subrange(rom, 0x100, 0x110));
    if !starts_with_text(name.as_str(), "SEGA") {
        return Err(RomError::MissingMagic(name));
    }
    Ok(())
}

/// Whether `info` describes `rom`.
pub open spec fn describes(info: RomInfo, rom: Seq<u8>) -> bool {
    &&& info.size == rom.len()
    &&& info.crc32 == crc32(rom)
    &&& info.header_name@ == title(rom)
    &&& info.region@ == region_letters(rom)
}

/// Identifies a ROM.
pub fn rom_info(rom: &[u8]) -> (r: RomInfo)
    ensures
        describes(r, rom@),
{
    RomInfo {
        size: rom.len() as u64,
        crc32: crc32_ieee(rom),
        header_name: header_name(rom),
        region: region_from_header(rom),
    }
}

/// A title that the header pads with spaces comes out as it was put in: the 48
/// bytes at 0x150.
pub proof fn law_title_reads_back(rom: Seq<u8>, t: Seq<char>, pad: nat)
    requires
        rom.len() >= 0x180,
        t.len() > 0 ==> 0x21 <= t.first() as u32 <= 0x7E && 0x21 <= t.last() as u32 <= 0x7E,
        rom.subrange(0x150, 0x180) == encode_utf8(t + spaces(pad)),
    ensures
        title(rom) == t,
{
    encode_utf8_valid_utf8(t + spaces(pad));
    encode_utf8_decode_utf8(t + spaces(pad));
    crate::text::law_trims_padding(t, 0, pad);
}

/// Region letters come out of the spaces around them and the NULs behind: the
/// four bytes at 0x1F0. With no letters the region is `?`.
pub proof fn law_region_reads_back(rom: Seq<u8>, t: Seq<char>, before: nat, after: nat, nuls: nat)
    requires
        rom.len() >= 0x1F4,
        t.len() > 0 ==> 0x21 <= t.first() as u32 <= 0x7E && 0x21 <= t.last() as u32 <= 0x7E,
        rom.subrange(0x1F0, 0x1F4) == encode_utf8(
            spaces(before) + t + spaces(after) + Seq::new(nuls, |i: int| '\0'),
        ),
    ensures
        t.len() > 0 ==> region_letters(rom) == t,
        t.len() == 0 ==> region_letters(rom) == "?"@,
{
    let word = spaces(before) + t + spaces(after);
    let field = word + Seq::new(nuls, |i: int| '\0');
    encode_utf8_valid_utf8(field);
    encode_utf8_decode_utf8(field);
    if word.len() > 0 && after == 0 && t.len() > 0 {
        assert(word.last() == t.last());
    }
    crate::text::law_drops_nuls(word, nuls);
    crate::text::law_trims_padding(t, before, after);
}

/// A ROM of 512 bytes or more is accepted exactly when the 16 bytes of its system
/// name are text that starts with `SEGA`; a shorter one never is.
pub proof fn law_accepts_sega(rom: Seq<u8>, name: Seq<char>, r: Result<(), RomError>)
    requires
        rom.len() >= 0x110,
        rom.subrange(0x100, 0x110) == encode_utf8(name),
        check_result(rom, r),
    ensures
        r is Ok <==> rom.len() >= 512 && name.len() >= 4 && name[0] == 'S' && name[1] == 'E'
            && name[2] == 'G' && name[3] == 'A',
        r matches Err(RomError::TooSmall(n)) ==> n == rom.len() && n < 512,
        r matches Err(RomError::MissingMagic(got)) ==> got@ == name && rom.len() >= 512,
{
    encode_utf8_valid_utf8(name);
    encode_utf8_decode_utf8(name);
    reveal_strlit("SEGA");
    let magic = "SEGA"@;
    if name.len() >= 4 && name[0] == 'S' && name[1] == 'E' && name[2] == 'G' && name[3] == 'A' {
        assert(name.subrange(0, 4) =~= magic);
    }
    if magic.is_prefix_of(name) {
        assert(name.subrange(0, 4)[0] == 'S' && name.subrange(0, 4)[1] == 'E' && name.subrange(
            0,
            4,
        )[2] == 'G' && name.subrange(0, 4)[3] == 'A');
    }
}

} // verus!
