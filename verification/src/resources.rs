//! The `mega://` resource catalogue and what reading a resource gives.

use crate::codec::{b64, b64_encode, MAX_ENCODE};
use crate::emulator::breakpoints::Breakpoint;
use crate::emulator::decode::{
    decode_m68k, decode_sprites, decode_vdp_registers, decode_z80, m68k_of, sprite_walk, vdp_file,
    vdp_summary, z80_of, M68kRegisters, Sprite, VdpRegisters, Z80Registers,
};
use crate::emulator::memory::MemorySpace;
use crate::text::{text_eq, text_or_empty, utf8_or_empty};
use vstd::prelude::*;
use vstd::string::*;

verus! {

/// Where a resource's content comes from.
#[derive(Debug, Clone, Copy, PartialEq, Eq, Structural)]
pub enum ResourceSource {
    Region(MemorySpace),
    /// Decoded VDP register dump.
    VdpRegistersJson,
    /// Decoded sprite attribute table.
    SpritesJson,
    /// Decoded 68k register snapshot.
    M68kJson,
    /// Decoded Z80 register snapshot.
    Z80Json,
    /// The breakpoint table.
    BreakpointsJson,
    /// The framebuffer.
    FramebufferPng,
}

/// A catalogue entry.
#[derive(Debug, Clone, Copy)]
pub struct ResourceDef {
    pub uri: &'static str,
    pub name: &'static str,
    pub description: &'static str,
    pub mime_type: &'static str,
    pub source: ResourceSource,
}

/// Number of resources.
pub const CATALOGUE_LEN: u32 = 9;

/// URI of resource `i`.
pub open spec fn uri_of(i: int) -> Seq<char> {
    if i == 0 {
        "mega://vram"@
    } else if i == 1 {
        "mega://cram"@
    } else if i == 2 {
        "mega://vsram"@
    } else if i == 3 {
        "mega://vdp/registers"@
    } else if i == 4 {
        "mega://sprites"@
    } else if i == 5 {
        "mega://m68k/registers"@
    } else if i == 6 {
        "mega://z80/registers"@
    } else if i == 7 {
        "mega://breakpoints"@
    } else {
        "mega://framebuffer"@
    }
}

/// Source of resource `i`.
pub open spec fn source_of(i: int) -> ResourceSource {
    if i == 0 {
        ResourceSource::Region(MemorySpace::Vram)
    } else if i == 1 {
        ResourceSource::Region(MemorySpace::Cram)
    } else if i == 2 {
        ResourceSource::Region(MemorySpace::Vsram)
    } else if i == 3 {
        ResourceSource::VdpRegistersJson
    } else if i == 4 {
        ResourceSource::SpritesJson
    } else if i == 5 {
        ResourceSource::M68kJson
    } else if i == 6 {
        ResourceSource::Z80Json
    } else if i == 7 {
        ResourceSource::BreakpointsJson
    } else {
        ResourceSource::FramebufferPng
    }
}

/// Name of resource `i`.
pub open spec fn name_of(i: int) -> Seq<char> {
    if i == 0 {
        "VRAM"@
    } else if i == 1 {
        "CRAM"@
    } else if i == 2 {
        "VSRAM"@
    } else if i == 3 {
        "VDP registers"@
    } else if i == 4 {
        "Sprite attribute table"@
    } else if i == 5 {
        "68k registers"@
    } else if i == 6 {
        "Z80 registers"@
    } else if i == 7 {
        "Breakpoints"@
    } else {
        "Framebuffer"@
    }
}

/// Description of resource `i`.
pub open spec fn description_of(i: int) -> Seq<char> {
    if i == 0 {
        "65,536 bytes of VRAM (tiles + nametables + sprite attribute table)."@
    } else if i == 1 {
        "128 bytes of colour RAM (4 palette lines \u{d7} 16 colours \u{d7} 9-bit BGR)."@
    } else if i == 2 {
        "80 bytes of vertical scroll RAM."@
    } else if i == 3 {
        "VDP register file (24 regs) + decoded plane / sprite / hscroll bases."@
    } else if i == 4 {
        "Decoded sprite list walked from VDP register #5."@
    } else if i == 5 {
        "D0..D7, A0..A7, PC, SR, USP, SSP from the m68k_state blob."@
    } else if i == 6 {
        "AF, BC, DE, HL, IX, IY, PC, SP and the bus lines from the z80 blobs."@
    } else if i == 7 {
        "Active breakpoints and their hit counts."@
    } else {
        "PNG-encoded current framebuffer (M3)."@
    }
}

/// The MIME type that goes with a source.
pub open spec fn mime_of(source: ResourceSource) -> Seq<char> {
    match source {
        ResourceSource::Region(_) => "application/octet-stream"@,
        ResourceSource::FramebufferPng => "image/png"@,
        _ => "application/json"@,
    }
}

/// Whether `d` is the catalogue entry `i`.
pub open spec fn is_entry(d: ResourceDef, i: int) -> bool {
    &&& 0 <= i < 9
    &&& d.uri@ == uri_of(i)
    &&& d.name@ == name_of(i)
    &&& d.description@ == description_of(i)
    &&& d.source == source_of(i)
    &&& d.mime_type@ == mime_of(source_of(i))
}

/// The catalogue entry `i`.
pub fn catalogue_entry(i: u32) -> (r: ResourceDef)
    requires
        i < CATALOGUE_LEN,
    ensures
        is_entry(r, i as int),
{
    match i {
        0 => ResourceDef {
            uri: "mega://vram",
            name: "VRAM",
            description: "65,536 bytes of VRAM (tiles + nametables + sprite attribute table).",
            mime_type: "application/octet-stream",
            source: ResourceSource::Region(MemorySpace::Vram),
        },
        1 => ResourceDef {
            uri: "mega://cram",
            name: "CRAM",
            description: "128 bytes of colour RAM (4 palette lines \u{d7} 16 colours \u{d7} 9-bit BGR).",
            mime_type: "application/octet-stream",
            source: ResourceSource::Region(MemorySpace::Cram),
        },
        2 => ResourceDef {
            uri: "mega://vsram",
            name: "VSRAM",
            description: "80 bytes of vertical scroll RAM.",
            mime_type: "application/octet-stream",
            source: ResourceSource::Region(MemorySpace::Vsram),
        },
        3 => ResourceDef {
            uri: "mega://vdp/registers",
            name: "VDP registers",
            description: "VDP register file (24 regs) + decoded plane / sprite / hscroll bases.",
            mime_type: "application/json",
            source: ResourceSource::VdpRegistersJson,
        },
        4 => ResourceDef {
            uri: "mega://sprites",
            name: "Sprite attribute table",
            description: "Decoded sprite list walked from VDP register #5.",
            mime_type: "application/json",
            source: ResourceSource::SpritesJson,
        },
        5 => ResourceDef {
            uri: "mega://m68k/registers",
            name: "68k registers",
            description: "D0..D7, A0..A7, PC, SR, USP, SSP from the m68k_state blob.",
            mime_type: "application/json",
            source: ResourceSource::M68kJson,
        },
        6 => ResourceDef {
            uri: "mega://z80/registers",
            name: "Z80 registers",
            description: "AF, BC, DE, HL, IX, IY, PC, SP and the bus lines from the z80 blobs.",
            mime_type: "application/json",
            source: ResourceSource::Z80Json,
        },
        7 => ResourceDef {
            uri: "mega://breakpoints",
            name: "Breakpoints",
            description: "Active breakpoints and their hit counts.",
            mime_type: "application/json",
            source: ResourceSource::BreakpointsJson,
        },
        _ => ResourceDef {
            uri: "mega://framebuffer",
            name: "Framebuffer",
            description: "PNG-encoded current framebuffer (M3).",
            mime_type: "image/png",
            source: ResourceSource::FramebufferPng,
        },
    }
}

/// The whole catalogue, in order.
pub fn list_resources() -> (r: Vec<ResourceDef>)
    ensures
        r@.len() == 9,
        forall|i: int| 0 <= i < 9 ==> is_entry(#[trigger] r@[i], i),
{
    let mut out: Vec<ResourceDef> = Vec::new();
    let mut i: u32 = 0;
    while i < CATALOGUE_LEN
        invariant
            i <= CATALOGUE_LEN,
            out@.len() == i,
            forall|j: int| 0 <= j < i ==> is_entry(#[trigger] out@[j], j),
        decreases CATALOGUE_LEN - i,
    {
        out.push(catalogue_entry(i));
        i += 1;
    }
    out
}

/// The place of a URI in the catalogue.
pub fn find_index(uri: &str) -> (r: Option<u32>)
    ensures
        r matches Some(i) ==> i < 9 && uri_of(i as int) == uri@,
        r is None ==> forall|i: int| 0 <= i < 9 ==> #[trigger] uri_of(i) != uri@,
{
    let mut i: u32 = 0;
    while i < CATALOGUE_LEN
        invariant
            i <= CATALOGUE_LEN,
            forall|j: int| 0 <= j < i ==> #[trigger] uri_of(j) != uri@,
        decreases CATALOGUE_LEN - i,
    {
        if text_eq(catalogue_entry(i).uri, uri) {
            return Some(i);
        }
        i += 1;
    }
    None
}

/// The catalogue entry of a URI.
pub fn find(uri: &str) -> (r: Option<ResourceDef>)
    ensures
        r matches Some(d) ==> d.uri@ == uri@ && exists|i: int| #[trigger] is_entry(d, i),
        r is None ==> forall|i: int| 0 <= i < 9 ==> #[trigger] uri_of(i) != uri@,
{
    match find_index(uri) {
        None => None,
        Some(i) => {
            let d = catalogue_entry(i);
            proof {
                assert(is_entry(d, i as int));
            }
            Some(d)
        },
    }
}

/// No two resources share a URI.
pub proof fn law_uris_distinct(i: int, j: int)
    requires
        0 <= i < j < 9,
    ensures
        uri_of(i) != uri_of(j),
{
    reveal_strlit("mega://vram");
    reveal_strlit("mega://cram");
    reveal_strlit("mega://vsram");
    reveal_strlit("mega://vdp/registers");
    reveal_strlit("mega://sprites");
    reveal_strlit("mega://m68k/registers");
    reveal_strlit("mega://z80/registers");
    reveal_strlit("mega://breakpoints");
    reveal_strlit("mega://framebuffer");
    if uri_of(i).len() == uri_of(j).len() {
        assert(uri_of(i)[7] != uri_of(j)[7]);
    }
}

/// The spaces whose bytes reading a resource takes, in order.
pub fn spaces_needed(source: ResourceSource) -> (r: (Option<MemorySpace>, Option<MemorySpace>))
    ensures
        r == match source {
            ResourceSource::Region(space) => (Some(space), None::<MemorySpace>),
            ResourceSource::VdpRegistersJson => (Some(MemorySpace::VdpState), None),
            ResourceSource::SpritesJson => (Some(MemorySpace::VdpState), Some(MemorySpace::Vram)),
            ResourceSource::M68kJson => (Some(MemorySpace::M68kState), None),
            ResourceSource::Z80Json => (Some(MemorySpace::Z80), Some(MemorySpace::Z80Bus)),
            ResourceSource::BreakpointsJson => (None, None),
            ResourceSource::FramebufferPng => (None, None),
        },
{
    match source {
        ResourceSource::Region(space) => (Some(space), None),
        ResourceSource::VdpRegistersJson => (Some(MemorySpace::VdpState), None),
        ResourceSource::SpritesJson => (Some(MemorySpace::VdpState), Some(MemorySpace::Vram)),
        ResourceSource::M68kJson => (Some(MemorySpace::M68kState), None),
        ResourceSource::Z80Json => (Some(MemorySpace::Z80), Some(MemorySpace::Z80Bus)),
        ResourceSource::BreakpointsJson => (None, None),
        ResourceSource::FramebufferPng => (None, None),
    }
}

/// Content of a resource. All but the blobs are sent as JSON.
#[derive(Debug)]
pub enum ResourceBody {
    /// Base64 text.
    Blob(String),
    Vdp(VdpRegisters),
    Sprites(Vec<Sprite>),
    M68k(M68kRegisters),
    Z80(Z80Registers),
    Breakpoints(Vec<Breakpoint>),
    /// JSON text.
    Json(String),
}

/// What reading a resource gives: its content under its URI and MIME type.
#[derive(Debug)]
pub struct ResourceContents {
    pub uri: &'static str,
    pub mime_type: &'static str,
    pub body: ResourceBody,
}

/// Whether all registers are 0.
pub open spec fn m68k_zero(r: M68kRegisters) -> bool {
    &&& forall|i: int| 0 <= i < 8 ==> #[trigger] r.d@[i] == 0
    &&& forall|i: int| 0 <= i < 8 ==> #[trigger] r.a@[i] == 0
    &&& r.pc == 0
    &&& r.sr == 0
    &&& r.usp == 0
    &&& r.ssp == 0
}

/// The Z80 registers shown while no Z80 state can be read.
pub open spec fn z80_zero() -> Z80Registers {
    Z80Registers {
        af: 0,
        bc: 0,
        de: 0,
        hl: 0,
        ix: 0,
        iy: 0,
        pc: 0,
        sp: 0,
        halt: false,
        iff1: false,
        iff2: false,
        im: 0,
        cycles: 0,
        bus_requested: false,
        bus_reset: false,
    }
}

/// Whether `body` is the content of a resource, given the bytes of the spaces
/// it needs and the breakpoint table.
pub open spec fn body_of(
    source: ResourceSource,
    first: Seq<u8>,
    second: Seq<u8>,
    breakpoints: Seq<Breakpoint>,
    body: ResourceBody,
) -> bool {
    match source {
        ResourceSource::Region(_) => body matches ResourceBody::Blob(text) && text@ == b64(first),
        ResourceSource::VdpRegistersJson => body matches ResourceBody::Vdp(v) && v.regs@
            == vdp_file(first) && v.decoded == vdp_summary(vdp_file(first)),
        ResourceSource::SpritesJson => body matches ResourceBody::Sprites(s) && s@ == sprite_walk(
            second,
            vdp_summary(vdp_file(first)).sprite_table as int,
            0,
            0,
            80,
        ),
        ResourceSource::M68kJson => body matches ResourceBody::M68k(r) && if first.len() >= 78 {
            m68k_of(first, r)
        } else {
            m68k_zero(r)
        },
        ResourceSource::Z80Json => body matches ResourceBody::Z80(r) && r == if first.len() >= 30 {
            z80_of(first, second)
        } else {
            z80_zero()
        },
        ResourceSource::BreakpointsJson => body matches ResourceBody::Breakpoints(l) && l@
            == breakpoints,
        ResourceSource::FramebufferPng => body matches ResourceBody::Blob(text) && text@ == b64(
            seq![],
        ),
    }
}

/// Whether `r` is labelled as the catalogue entry says.
pub open spec fn labelled(def: ResourceDef, r: ResourceContents) -> bool {
    r.uri@ == def.uri@ && r.mime_type@ == def.mime_type@
}

/// The content of a resource. `first` and `second` are the bytes of the spaces
/// that `spaces_needed` gives, empty where they cannot be read. The framebuffer
/// is an empty image.
pub fn read_contents(
    def: &ResourceDef,
    first: &[u8],
    second: &[u8],
    breakpoints: Vec<Breakpoint>,
) -> (r: ResourceContents)
    requires
        def.source is Region ==> first@.len() <= MAX_ENCODE,
    ensures
        labelled(*def, r),
        body_of(def.source, first@, second@, breakpoints@, r.body),
{
    let body = match def.source {
        ResourceSource::Region(_) => ResourceBody::Blob(b64_encode(first)),
        ResourceSource::VdpRegistersJson => ResourceBody::Vdp(decode_vdp_registers(first)),
        ResourceSource::SpritesJson => {
            let regs = decode_vdp_registers(first);
            ResourceBody::Sprites(decode_sprites(second, regs.decoded.sprite_table, 80))
        },
        ResourceSource::M68kJson => match decode_m68k(first) {
            Some(r) => ResourceBody::M68k(r),
            None => ResourceBody::M68k(M68kRegisters::default()),
        },
        ResourceSource::Z80Json => match decode_z80(first, second) {
            Some(r) => ResourceBody::Z80(r),
            None => ResourceBody::Z80(Z80Registers::default()),
        },
        ResourceSource::BreakpointsJson => ResourceBody::Breakpoints(breakpoints),
        ResourceSource::FramebufferPng => {
            let empty: Vec<u8> = Vec::new();
            proof {
                assert(empty@ =~= seq![]);
            }
            ResourceBody::Blob(b64_encode(empty.as_slice()))
        },
    };
    ResourceContents { uri: def.uri, mime_type: def.mime_type, body }
}

/// Whether a resource's payload goes out as Base64.
pub open spec fn is_blob(source: ResourceSource) -> bool {
    source is Region || source is FramebufferPng
}

/// Content of a resource whose newest payload is at hand: region bytes and
/// images go out as Base64, JSON as it is.
pub fn cached_contents(def: &ResourceDef, payload: &[u8]) -> (r: ResourceContents)
    requires
        is_blob(def.source) ==> payload@.len() <= MAX_ENCODE,
    ensures
        labelled(*def, r),
        if is_blob(def.source) {
            r.body matches ResourceBody::Blob(text) && text@ == b64(payload@)
        } else {
            r.body matches ResourceBody::Json(text) && text@ == text_or_empty(payload@)
        },
{
    let body = match def.source {
        ResourceSource::Region(_) => ResourceBody::Blob(b64_encode(payload)),
        ResourceSource::FramebufferPng => ResourceBody::Blob(b64_encode(payload)),
        _ => ResourceBody::Json(utf8_or_empty(payload)),
    };
    ResourceContents { uri: def.uri, mime_type: def.mime_type, body }
}

/// Every catalogue entry serves what its URI names, under the MIME type of that.
pub proof fn law_uri_names_source(d: ResourceDef, i: int)
    requires
        is_entry(d, i),
    ensures
        d.uri@ == "mega://vram"@ <==> d.source == ResourceSource::Region(MemorySpace::Vram),
        d.uri@ == "mega://cram"@ <==> d.source == ResourceSource::Region(MemorySpace::Cram),
        d.uri@ == "mega://vsram"@ <==> d.source == ResourceSource::Region(MemorySpace::Vsram),
        d.uri@ == "mega://vdp/registers"@ <==> d.source == ResourceSource::VdpRegistersJson,
        d.uri@ == "mega://sprites"@ <==> d.source == ResourceSource::SpritesJson,
        d.uri@ == "mega://m68k/registers"@ <==> d.source == ResourceSource::M68kJson,
        d.uri@ == "mega://z80/registers"@ <==> d.source == ResourceSource::Z80Json,
        d.uri@ == "mega://breakpoints"@ <==> d.source == ResourceSource::BreakpointsJson,
        d.uri@ == "mega://framebuffer"@ <==> d.source == ResourceSource::FramebufferPng,
        d.uri@ == "mega://vram"@ ==> d.name@ == "VRAM"@,
        d.uri@ == "mega://cram"@ ==> d.name@ == "CRAM"@,
        d.uri@ == "mega://vsram"@ ==> d.name@ == "VSRAM"@,
        d.uri@ == "mega://vdp/registers"@ ==> d.name@ == "VDP registers"@,
        d.uri@ == "mega://sprites"@ ==> d.name@ == "Sprite attribute table"@,
        d.uri@ == "mega://m68k/registers"@ ==> d.name@ == "68k registers"@,
        d.uri@ == "mega://z80/registers"@ ==> d.name@ == "Z80 registers"@,
        d.uri@ == "mega://breakpoints"@ ==> d.name@ == "Breakpoints"@,
        d.uri@ == "mega://framebuffer"@ ==> d.name@ == "Framebuffer"@,
        d.source is Region ==> d.mime_type@ == "application/octet-stream"@,
        d.source is FramebufferPng ==> d.mime_type@ == "image/png"@,
        !(d.source is Region) && !(d.source is FramebufferPng) ==> d.mime_type@
            == "application/json"@,
{
    reveal_strlit("mega://vram");
    reveal_strlit("mega://cram");
    reveal_strlit("mega://vsram");
    reveal_strlit("mega://vdp/registers");
    reveal_strlit("mega://sprites");
    reveal_strlit("mega://m68k/registers");
    reveal_strlit("mega://z80/registers");
    reveal_strlit("mega://breakpoints");
    reveal_strlit("mega://framebuffer");
    assert forall|j: int| 0 <= j < 9 && j != i implies #[trigger] uri_of(j) != uri_of(i) by {
        if i < j {
            law_uris_distinct(i, j);
        } else {
            law_uris_distinct(j, i);
        }
    }
    assert(uri_of(0) == "mega://vram"@ && uri_of(1) == "mega://cram"@ && uri_of(2)
        == "mega://vsram"@ && uri_of(3) == "mega://vdp/registers"@ && uri_of(4)
        == "mega://sprites"@ && uri_of(5) == "mega://m68k/registers"@ && uri_of(6)
        == "mega://z80/registers"@ && uri_of(7) == "mega://breakpoints"@ && uri_of(8)
        == "mega://framebuffer"@);
}

/// The sprite resource lists the sprites from the table that register 5 points to,
/// in steps of 512 bytes, all of them; registers that cannot be read show as 0.
pub proof fn law_resource_contents(
    vdp: Seq<u8>,
    vram: Seq<u8>,
    blob: Seq<u8>,
    breakpoints: Seq<Breakpoint>,
    sprites: ResourceBody,
    m68k: ResourceBody,
    z80: ResourceBody,
    i: int,
)
    requires
        vdp.len() >= 24,
        0 <= i < 8,
        body_of(ResourceSource::SpritesJson, vdp, vram, breakpoints, sprites),
        body_of(ResourceSource::M68kJson, blob, seq![], breakpoints, m68k),
        body_of(ResourceSource::Z80Json, blob, seq![], breakpoints, z80),
    ensures
        sprites matches ResourceBody::Sprites(l) && l@ == sprite_walk(
            vram,
            512 * (vdp[5] as int % 128),
            0,
            0,
            80,
        ),
        blob.len() < 78 ==> (m68k matches ResourceBody::M68k(r) && r.pc == 0 && r.sr == 0 && r.usp
            == 0 && r.ssp == 0 && r.d@[i] == 0 && r.a@[i] == 0),
        blob.len() < 30 ==> (z80 matches ResourceBody::Z80(r) && r.af == 0 && r.bc == 0 && r.de == 0
            && r.hl == 0 && r.ix == 0 && r.iy == 0 && r.pc == 0 && r.sp == 0 && r.cycles == 0
            && !r.iff2 && r.im == 0 && !r.halt && !r.iff1 && !r.bus_requested && !r.bus_reset),
        blob.len() >= 30 ==> (z80 matches ResourceBody::Z80(r) && r.im == 1),
{
    assert(vdp_file(vdp)[5] == vdp[5]);
}

} // verus!
