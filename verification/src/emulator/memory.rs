//! Memory spaces and bounded access to the core's memory regions.

use crate::ffi::{
    LIBRA_MEMORY_CRAM, LIBRA_MEMORY_M68K, LIBRA_MEMORY_VDP_STATE, LIBRA_MEMORY_VSRAM,
    LIBRA_MEMORY_Z80, LIBRA_MEMORY_Z80BUS, LIBRA_MEMORY_Z80RAM, RETRO_MEMORY_SAVE_RAM,
    RETRO_MEMORY_SYSTEM_RAM, RETRO_MEMORY_VIDEO_RAM,
};
use crate::text::{ascii_lower, dec, hex, lower, push_dec, push_hex, text_eq};
use std::collections::HashMap;
use vstd::prelude::*;
use vstd::string::*;

verus! {

broadcast use vstd::std_specs::hash::group_hash_axioms;

/// Address spaces that a client can name.
#[derive(Debug, Clone, Copy, PartialEq, Eq, Structural)]
pub enum MemorySpace {
    Ram,
    Vram,
    Cram,
    Vsram,
    Rom,
    Saveram,
    /// VDP register and state blob.
    VdpState,
    /// 68k register blob.
    M68kState,
    /// Z80 register blob.
    Z80,
    /// Z80 work RAM.
    Z80Ram,
    /// Z80 bus-request and reset lines.
    Z80Bus,
}

impl MemorySpace {
    /// The space that a lower-case name stands for.
    pub open spec fn named(s: Seq<char>) -> Option<MemorySpace> {
        if s == "ram"@ {
            Some(MemorySpace::Ram)
        } else if s == "vram"@ {
            Some(MemorySpace::Vram)
        } else if s == "cram"@ {
            Some(MemorySpace::Cram)
        } else if s == "vsram"@ {
            Some(MemorySpace::Vsram)
        } else if s == "rom"@ {
            Some(MemorySpace::Rom)
        } else if s == "saveram"@ {
            Some(MemorySpace::Saveram)
        } else if s == "vdp_state"@ {
            Some(MemorySpace::VdpState)
        } else if s == "m68k_state"@ {
            Some(MemorySpace::M68kState)
        } else if s == "z80"@ {
            Some(MemorySpace::Z80)
        } else if s == "z80ram"@ {
            Some(MemorySpace::Z80Ram)
        } else if s == "z80bus"@ {
            Some(MemorySpace::Z80Bus)
        } else {
            None
        }
    }

    /// The core's region id of a space; the ROM has none, it is served from
    /// the cached ROM bytes.
    pub open spec fn region_id(self) -> Option<u32> {
        match self {
            MemorySpace::Ram => Some(RETRO_MEMORY_SYSTEM_RAM),
            MemorySpace::Vram => Some(RETRO_MEMORY_VIDEO_RAM),
            MemorySpace::Saveram => Some(RETRO_MEMORY_SAVE_RAM),
            MemorySpace::Cram => Some(LIBRA_MEMORY_CRAM),
            MemorySpace::Vsram => Some(LIBRA_MEMORY_VSRAM),
            MemorySpace::VdpState => Some(LIBRA_MEMORY_VDP_STATE),
            MemorySpace::M68kState => Some(LIBRA_MEMORY_M68K),
            MemorySpace::Z80 => Some(LIBRA_MEMORY_Z80),
            MemorySpace::Z80Ram => Some(LIBRA_MEMORY_Z80RAM),
            MemorySpace::Z80Bus => Some(LIBRA_MEMORY_Z80BUS),
            MemorySpace::Rom => None,
        }
    }

    /// Parses a space name, ignoring ASCII case.
    pub fn parse(s: &str) -> (r: Option<MemorySpace>)
        ensures
            r == MemorySpace::named(lower(s@)),
    {
        let name = ascii_lower(s);
        let n = name.as_str();
        if text_eq(n, "ram") {
            Some(MemorySpace::Ram)
        } else if text_eq(n, "vram") {
            Some(MemorySpace::Vram)
        } else if text_eq(n, "cram") {
            Some(MemorySpace::Cram)
        } else if text_eq(n, "vsram") {
            Some(MemorySpace::Vsram)
        } else if text_eq(n, "rom") {
            Some(MemorySpace::Rom)
        } else if text_eq(n, "saveram") {
            Some(MemorySpace::Saveram)
        } else if text_eq(n, "vdp_state") {
            Some(MemorySpace::VdpState)
        } else if text_eq(n, "m68k_state") {
            Some(MemorySpace::M68kState)
        } else if text_eq(n, "z80") {
            Some(MemorySpace::Z80)
        } else if text_eq(n, "z80ram") {
            Some(MemorySpace::Z80Ram)
        } else if text_eq(n, "z80bus") {
            Some(MemorySpace::Z80Bus)
        } else {
            None
        }
    }

    /// The core's region id of a space; `None` for the ROM.
    pub fn libretro_id(self) -> (r: Option<u32>)
        ensures
            r == self.region_id(),
            self == MemorySpace::Ram ==> r == Some(RETRO_MEMORY_SYSTEM_RAM),
            self == MemorySpace::Vram ==> r == Some(RETRO_MEMORY_VIDEO_RAM),
            self == MemorySpace::Saveram ==> r == Some(RETRO_MEMORY_SAVE_RAM),
            self == MemorySpace::Cram ==> r == Some(LIBRA_MEMORY_CRAM),
            self == MemorySpace::Vsram ==> r == Some(LIBRA_MEMORY_VSRAM),
            self == MemorySpace::VdpState ==> r == Some(LIBRA_MEMORY_VDP_STATE),
            self == MemorySpace::M68kState ==> r == Some(LIBRA_MEMORY_M68K),
            self == MemorySpace::Z80 ==> r == Some(LIBRA_MEMORY_Z80),
            self == MemorySpace::Z80Ram ==> r == Some(LIBRA_MEMORY_Z80RAM),
            self == MemorySpace::Z80Bus ==> r == Some(LIBRA_MEMORY_Z80BUS),
            self == MemorySpace::Rom ==> r is None,
    {
        match self {
            MemorySpace::Ram => Some(RETRO_MEMORY_SYSTEM_RAM),
            MemorySpace::Vram => Some(RETRO_MEMORY_VIDEO_RAM),
            MemorySpace::Saveram => Some(RETRO_MEMORY_SAVE_RAM),
            MemorySpace::Cram => Some(LIBRA_MEMORY_CRAM),
            MemorySpace::Vsram => Some(LIBRA_MEMORY_VSRAM),
            MemorySpace::VdpState => Some(LIBRA_MEMORY_VDP_STATE),
            MemorySpace::M68kState => Some(LIBRA_MEMORY_M68K),
            MemorySpace::Z80 => Some(LIBRA_MEMORY_Z80),
            MemorySpace::Z80Ram => Some(LIBRA_MEMORY_Z80RAM),
            MemorySpace::Z80Bus => Some(LIBRA_MEMORY_Z80BUS),
            MemorySpace::Rom => None,
        }
    }

    /// The variant's name.
    pub open spec fn variant(self) -> Seq<char> {
        match self {
            MemorySpace::Ram => "Ram"@,
            MemorySpace::Vram => "Vram"@,
            MemorySpace::Cram => "Cram"@,
            MemorySpace::Vsram => "Vsram"@,
            MemorySpace::Rom => "Rom"@,
            MemorySpace::Saveram => "Saveram"@,
            MemorySpace::VdpState => "VdpState"@,
            MemorySpace::M68kState => "M68kState"@,
            MemorySpace::Z80 => "Z80"@,
            MemorySpace::Z80Ram => "Z80Ram"@,
            MemorySpace::Z80Bus => "Z80Bus"@,
        }
    }

    /// The variant's name, as error messages show it.
    pub fn variant_name(self) -> (r: &'static str)
        ensures
            r@ == self.variant(),
    {
        match self {
            MemorySpace::Ram => "Ram",
            MemorySpace::Vram => "Vram",
            MemorySpace::Cram => "Cram",
            MemorySpace::Vsram => "Vsram",
            MemorySpace::Rom => "Rom",
            MemorySpace::Saveram => "Saveram",
            MemorySpace::VdpState => "VdpState",
            MemorySpace::M68kState => "M68kState",
            MemorySpace::Z80 => "Z80",
            MemorySpace::Z80Ram => "Z80Ram",
            MemorySpace::Z80Bus => "Z80Bus",
        }
    }
}

/// Why a region access was refused.
#[derive(Debug, Clone, Copy, PartialEq, Eq, Structural)]
pub enum RegionError {
    /// The core has no region under the id.
    Unmapped,
    /// `addr + length` is not a machine address.
    Overflow,
    /// A read past the end of the region.
    ReadOutOfBounds { start: usize, end: usize, size: usize },
    /// A write past the end of the region.
    WriteOutOfBounds { start: usize, end: usize, size: usize },
}

/// `0x<start>..0x<end>`, eight digits or more each.
pub open spec fn span_text(start: usize, end: usize) -> Seq<char> {
    "0x"@ + hex(start as nat, 8) + "..0x"@ + hex(end as nat, 8)
}

impl RegionError {
    /// The error's message.
    pub open spec fn text(self) -> Seq<char> {
        match self {
            RegionError::Unmapped => "region unmapped"@,
            RegionError::Overflow => "addr+length overflow"@,
            RegionError::ReadOutOfBounds { start, end, size } => "out-of-bounds read "@ + span_text(
                start,
                end,
            ) + " (region is "@ + dec(size as nat) + " bytes)"@,
            RegionError::WriteOutOfBounds { start, end, size } => "out-of-bounds write "@
                + span_text(start, end) + " (region is "@ + dec(size as nat) + " bytes)"@,
        }
    }

    /// The error's message.
    pub fn message(&self) -> (r: String)
        ensures
            r@ == self.text(),
    {
        match *self {
            RegionError::Unmapped => "region unmapped".to_owned(),
            RegionError::Overflow => "addr+length overflow".to_owned(),
            RegionError::ReadOutOfBounds { start, end, size } => {
                let mut m = "out-of-bounds read ".to_owned();
                push_span(&mut m, start, end);
                m.append(" (region is ");
                push_dec(&mut m, size as u128);
                m.append(" bytes)");
                m
            },
            RegionError::WriteOutOfBounds { start, end, size } => {
                let mut m = "out-of-bounds write ".to_owned();
                push_span(&mut m, start, end);
                m.append(" (region is ");
                push_dec(&mut m, size as u128);
                m.append(" bytes)");
                m
            },
        }
    }
}

/// Appends an address span.
pub fn push_span(out: &mut String, start: usize, end: usize)
    ensures
        final(out)@ == old(out)@ + span_text(start, end),
{
    out.append("0x");
    push_hex(out, start as u64, 8);
    out.append("..0x");
    push_hex(out, end as u64, 8);
    proof {
        assert(out@ =~= old(out)@ + span_text(start, end));
    }
}

/// The memory regions that the core exposes, by region id.
pub struct CoreMemory {
    pub regions: HashMap<u32, Vec<u8>>,
}

impl View for CoreMemory {
    type V = Map<u32, Seq<u8>>;

    open spec fn view(&self) -> Map<u32, Seq<u8>> {
        self.regions@.map_values(|v: Vec<u8>| v@)
    }
}

impl CoreMemory {
    /// A core without regions.
    pub fn new() -> (r: Self)
        ensures
            r@ == Map::<u32, Seq<u8>>::empty(),
    {
        let r = CoreMemory { regions: HashMap::new() };
        proof {
            assert(r@ =~= Map::<u32, Seq<u8>>::empty());
        }
        r
    }

    /// Makes `bytes` the content of region `id`.
    pub fn map_region(&mut self, id: u32, bytes: Vec<u8>)
        ensures
            final(self)@ == old(self)@.insert(id, bytes@),
    {
        self.regions.insert(id, bytes);
        proof {
            assert(self@ =~= old(self)@.insert(id, bytes@));
        }
    }
}

/// A copy of a region; `None` when the core has not registered the id.
pub fn snapshot_region(ctx: &CoreMemory, id: u32) -> (r: Option<Vec<u8>>)
    ensures
        r is Some <==> ctx@.dom().contains(id),
        r matches Some(bytes) ==> bytes@ == ctx@[id],
{
    match ctx.regions.get(&id) {
        None => None,
        Some(v) => {
            let copy = copy_bytes(v.as_slice());
            Some(copy)
        },
    }
}

/// A copy of `bytes`.
pub fn copy_bytes(bytes: &[u8]) -> (r: Vec<u8>)
    ensures
        r@ == bytes@,
{
    vstd::slice::slice_to_vec(bytes)
}

/// Appends `part`.
pub fn push_all(out: &mut Vec<u8>, part: &[u8])
    ensures
        final(out)@ == old(out)@ + part@,
{
    let ghost head = out@;
    let mut i: usize = 0;
    while i < part.len()
        invariant
            i <= part@.len(),
            out@ == head + part@.take(i as int),
        decreases part@.len() - i,
    {
        out.push(part[i]);
        i += 1;
        proof {
            assert(out@ =~= head + part@.take(i as int));
        }
    }
    proof {
        assert(part@.take(part@.len() as int) =~= part@);
    }
}

/// What reading `length` bytes at `addr` of a region gives.
pub open spec fn read_result(
    ctx: Map<u32, Seq<u8>>,
    id: u32,
    addr: u32,
    length: u32,
    r: Result<Option<Vec<u8>>, RegionError>,
) -> bool {
    let start = addr as int;
    let end = addr + length;
    if !ctx.dom().contains(id) {
        r matches Ok(None)
    } else if end > usize::MAX {
        r == Err::<Option<Vec<u8>>, RegionError>(RegionError::Overflow)
    } else if end > ctx[id].len() {
        r == Err::<Option<Vec<u8>>, RegionError>(
            RegionError::ReadOutOfBounds {
                start: start as usize,
                end: end as usize,
                size: ctx[id].len() as usize,
            },
        )
    } else {
        r matches Ok(Some(bytes)) && bytes@ == ctx[id].subrange(start, end)
    }
}

/// Reads part of a region. `Ok(None)` when the region is not mapped.
pub fn read_region(ctx: &CoreMemory, id: u32, addr: u32, length: u32) -> (r: Result<
    Option<Vec<u8>>,
    RegionError,
>)
    ensures
        read_result(ctx@, id, addr, length, r),
{
    match ctx.regions.get(&id) {
        None => Ok(None),
        Some(v) => {
            let size: usize = v.len();
            let start: usize = addr as usize;
            match start.checked_add(length as usize) {
                None => Err(RegionError::Overflow),
                Some(end) => if end > size {
                    Err(RegionError::ReadOutOfBounds { start, end, size })
                } else {
                    Ok(Some(copy_bytes(vstd::slice::slice_subrange(v.as_slice(), start, end))))
                },
            }
        },
    }
}

/// `region` with `bytes` laid over it from `start` on.
pub open spec fn overlay(region: Seq<u8>, start: int, bytes: Seq<u8>) -> Seq<u8> {
    region.subrange(0, start) + bytes + region.subrange(start + bytes.len(), region.len() as int)
}

/// What writing `bytes` at `addr` of a region does.
pub open spec fn write_result(
    before: Map<u32, Seq<u8>>,
    id: u32,
    addr: u32,
    bytes: Seq<u8>,
    after: Map<u32, Seq<u8>>,
    r: Result<(), RegionError>,
) -> bool {
    let start = addr as int;
    let end = addr + bytes.len();
    if !before.dom().contains(id) {
        after == before && r == Err::<(), RegionError>(RegionError::Unmapped)
    } else if end > usize::MAX {
        after == before && r == Err::<(), RegionError>(RegionError::Overflow)
    } else if end > before[id].len() {
        after == before && r == Err::<(), RegionError>(
            RegionError::WriteOutOfBounds {
                start: start as usize,
                end: end as usize,
                size: before[id].len() as usize,
            },
        )
    } else {
        after == before.insert(id, overlay(before[id], start, bytes)) && r == Ok::<(), RegionError>(
            (),
        )
    }
}

/// Writes part of a region.
pub fn write_region(ctx: &mut CoreMemory, id: u32, addr: u32, bytes: &[u8]) -> (r: Result<
    (),
    RegionError,
>)
    ensures
        write_result(old(ctx)@, id, addr, bytes@, final(ctx)@, r),
{
    let (size, start) = match ctx.regions.get(&id) {
        None => {
            return Err(RegionError::Unmapped);
        },
        Some(v) => (v.len(), addr as usize),
    };
    let end: usize = match start.checked_add(bytes.len()) {
        None => {
            return Err(RegionError::Overflow);
        },
        Some(e) => e,
    };
    if end > size {
        return Err(RegionError::WriteOutOfBounds { start, end, size });
    }
    let taken = ctx.regions.remove(&id);
    if let Some(mut v) = taken {
        let ghost before = v@;
        let mut i: usize = 0;
        while i < bytes.len()
            invariant
                i <= bytes@.len(),
                end == start + bytes@.len(),
                end <= before.len(),
                v@.len() == before.len(),
                v@ == overlay(before, start as int, bytes@.take(i as int)),
            decreases bytes@.len() - i,
        {
            v.set(start + i, bytes[i]);
            i += 1;
            proof {
                assert(v@ =~= overlay(before, start as int, bytes@.take(i as int)));
            }
        }
        proof {
            assert(bytes@.take(bytes@.len() as int) =~= bytes@);
        }
        ctx.regions.insert(id, v);
        proof {
            assert(ctx@ =~= old(ctx)@.insert(id, overlay(before, start as int, bytes@)));
        }
    }
    Ok(())
}

/// Reading back what was just written gives the written bytes.
pub proof fn law_read_after_write(
    before: Map<u32, Seq<u8>>,
    id: u32,
    addr: u32,
    bytes: Seq<u8>,
    after: Map<u32, Seq<u8>>,
    read: Result<Option<Vec<u8>>, RegionError>,
)
    requires
        bytes.len() <= u32::MAX,
        write_result(before, id, addr, bytes, after, Ok(())),
        read_result(after, id, addr, bytes.len() as u32, read),
    ensures
        read matches Ok(Some(got)) && got@ == bytes,
{
    let start = addr as int;
    assert(overlay(before[id], start, bytes).subrange(start, start + bytes.len()) =~= bytes);
}

/// A write leaves every byte outside its span, and every other region, as it
/// was; a refused write leaves everything.
pub proof fn law_write_is_local(
    before: Map<u32, Seq<u8>>,
    id: u32,
    addr: u32,
    bytes: Seq<u8>,
    after: Map<u32, Seq<u8>>,
    r: Result<(), RegionError>,
    other: u32,
    at: int,
)
    requires
        write_result(before, id, addr, bytes, after, r),
        before.dom().contains(other),
        0 <= at < before[other].len(),
        other != id || at < addr || at >= addr + bytes.len(),
    ensures
        after.dom() == before.dom(),
        after[other].len() == before[other].len(),
        after[other][at] == before[other][at],
        r is Err ==> after == before,
{
    assert(after.dom() =~= before.dom());
}

/// Spaces other than the ROM have distinct region ids.
pub proof fn law_region_ids_distinct(a: MemorySpace, b: MemorySpace)
    ensures
        a.region_id() is None <==> a == MemorySpace::Rom,
        a.region_id() == b.region_id() ==> a == b,
{
}

/// Every space reads the core's region of its own name: the libretro regions 0, 2
/// and 3 for save RAM, work RAM and video RAM, the core's own ones for the rest,
/// and no region for the ROM.
pub proof fn law_spaces_have_their_regions(space: MemorySpace)
    ensures
        space.region_id() == Some(0u32) <==> space == MemorySpace::Saveram,
        space.region_id() == Some(2u32) <==> space == MemorySpace::Ram,
        space.region_id() == Some(3u32) <==> space == MemorySpace::Vram,
        space.region_id() == Some(LIBRA_MEMORY_CRAM) <==> space == MemorySpace::Cram,
        space.region_id() == Some(LIBRA_MEMORY_VSRAM) <==> space == MemorySpace::Vsram,
        space.region_id() == Some(LIBRA_MEMORY_VDP_STATE) <==> space == MemorySpace::VdpState,
        space.region_id() == Some(LIBRA_MEMORY_M68K) <==> space == MemorySpace::M68kState,
        space.region_id() == Some(LIBRA_MEMORY_Z80) <==> space == MemorySpace::Z80,
        space.region_id() == Some(LIBRA_MEMORY_Z80RAM) <==> space == MemorySpace::Z80Ram,
        space.region_id() == Some(LIBRA_MEMORY_Z80BUS) <==> space == MemorySpace::Z80Bus,
        space.region_id() is None <==> space == MemorySpace::Rom,
{
}

/// Every space is found under its own name, in any case, and under no other; the
/// two register blobs have `_state` behind theirs.
pub proof fn law_space_names(name: Seq<char>)
    ensures
        MemorySpace::named(lower(name)) == Some(MemorySpace::Ram) <==> lower(name) == "ram"@,
        MemorySpace::named(lower(name)) == Some(MemorySpace::Vram) <==> lower(name) == "vram"@,
        MemorySpace::named(lower(name)) == Some(MemorySpace::Cram) <==> lower(name) == "cram"@,
        MemorySpace::named(lower(name)) == Some(MemorySpace::Vsram) <==> lower(name) == "vsram"@,
        MemorySpace::named(lower(name)) == Some(MemorySpace::Rom) <==> lower(name) == "rom"@,
        MemorySpace::named(lower(name)) == Some(MemorySpace::Saveram) <==> lower(name)
            == "saveram"@,
        MemorySpace::named(lower(name)) == Some(MemorySpace::VdpState) <==> lower(name)
            == "vdp_state"@,
        MemorySpace::named(lower(name)) == Some(MemorySpace::M68kState) <==> lower(name)
            == "m68k_state"@,
        MemorySpace::named(lower(name)) == Some(MemorySpace::Z80) <==> lower(name) == "z80"@,
        MemorySpace::named(lower(name)) == Some(MemorySpace::Z80Ram) <==> lower(name) == "z80ram"@,
        MemorySpace::named(lower(name)) == Some(MemorySpace::Z80Bus) <==> lower(name) == "z80bus"@,
{
    reveal_strlit("ram");
    reveal_strlit("vram");
    reveal_strlit("cram");
    reveal_strlit("vsram");
    reveal_strlit("rom");
    reveal_strlit("saveram");
    reveal_strlit("vdp_state");
    reveal_strlit("m68k_state");
    reveal_strlit("z80");
    reveal_strlit("z80ram");
    reveal_strlit("z80bus");
    assert("ram"@[1] == 'a' && "rom"@[1] == 'o' && "z80"@[1] == '8');
    assert("vram"@[0] == 'v' && "cram"@[0] == 'c');
    assert("z80ram"@[3] == 'r' && "z80bus"@[3] == 'b');
    assert("ram"@.len() == 3 && "rom"@.len() == 3 && "z80"@.len() == 3);
    assert("vram"@.len() == 4 && "cram"@.len() == 4 && "vsram"@.len() == 5);
    assert("z80ram"@.len() == 6 && "z80bus"@.len() == 6 && "saveram"@.len() == 7);
    assert("vdp_state"@.len() == 9 && "m68k_state"@.len() == 10);
}

/// The name of a space in messages is its variant's, so that in lower case it is
/// the name that a client gives, but for the `_` of the two register blobs.
pub proof fn law_variant_names(space: MemorySpace)
    requires
        space != MemorySpace::VdpState,
        space != MemorySpace::M68kState,
    ensures
        MemorySpace::named(lower(space.variant())) == Some(space),
{
    law_space_names(space.variant());
    reveal_strlit("Ram");
    reveal_strlit("Vram");
    reveal_strlit("Cram");
    reveal_strlit("Vsram");
    reveal_strlit("Rom");
    reveal_strlit("Saveram");
    reveal_strlit("Z80");
    reveal_strlit("Z80Ram");
    reveal_strlit("Z80Bus");
    reveal_strlit("ram");
    reveal_strlit("vram");
    reveal_strlit("cram");
    reveal_strlit("vsram");
    reveal_strlit("rom");
    reveal_strlit("saveram");
    reveal_strlit("z80");
    reveal_strlit("z80ram");
    reveal_strlit("z80bus");
    let n = lower(space.variant());
    match space {
        MemorySpace::Ram => assert(n =~= "ram"@),
        MemorySpace::Vram => assert(n =~= "vram"@),
        MemorySpace::Cram => assert(n =~= "cram"@),
        MemorySpace::Vsram => assert(n =~= "vsram"@),
        MemorySpace::Rom => assert(n =~= "rom"@),
        MemorySpace::Saveram => assert(n =~= "saveram"@),
        MemorySpace::Z80 => assert(n =~= "z80"@),
        MemorySpace::Z80Ram => assert(n =~= "z80ram"@),
        MemorySpace::Z80Bus => assert(n =~= "z80bus"@),
        _ => {},
    }
}

/// A write succeeds exactly when the region is mapped and its span lies inside, and
/// each byte then stands where it was written.
pub proof fn law_write_places_bytes(
    before: Map<u32, Seq<u8>>,
    id: u32,
    addr: u32,
    bytes: Seq<u8>,
    after: Map<u32, Seq<u8>>,
    r: Result<(), RegionError>,
    i: int,
)
    requires
        write_result(before, id, addr, bytes, after, r),
        before.dom().contains(id) ==> before[id].len() <= usize::MAX,
        0 <= i < bytes.len(),
    ensures
        r is Ok <==> before.dom().contains(id) && addr + bytes.len() <= before[id].len(),
        r is Ok ==> after[id].len() == before[id].len() && after[id][addr + i] == bytes[i],
        !before.dom().contains(id) ==> r == Err::<(), RegionError>(RegionError::Unmapped),
        r matches Err(RegionError::WriteOutOfBounds { start, end, size }) ==> start == addr && end
            == addr + bytes.len() && size == before[id].len() && end > size,
        !(r matches Err(RegionError::ReadOutOfBounds { start, end, size })),
{
}

/// A read succeeds exactly when its span lies inside the region, and each byte is
/// the one at its place; a region that is not mapped gives nothing.
pub proof fn law_read_takes_bytes(
    ctx: Map<u32, Seq<u8>>,
    id: u32,
    addr: u32,
    length: u32,
    r: Result<Option<Vec<u8>>, RegionError>,
    i: int,
)
    requires
        read_result(ctx, id, addr, length, r),
        ctx.dom().contains(id) ==> ctx[id].len() <= usize::MAX,
    ensures
        !ctx.dom().contains(id) ==> (r matches Ok(None)),
        ctx.dom().contains(id) ==> (r is Ok <==> addr + length <= ctx[id].len()),
        r matches Ok(Some(b)) ==> b@.len() == length && (0 <= i < length ==> b@[i] == ctx[id][addr
            + i]),
        r matches Err(RegionError::ReadOutOfBounds { start, end, size }) ==> start == addr && end
            == addr + length && size == ctx[id].len() && end > size,
        !(r matches Err(RegionError::WriteOutOfBounds { start, end, size })),
        !(r matches Err(RegionError::Unmapped)),
{
}

/// A span is told by its first address and the one behind its last, both with `0x`
/// and eight digits or more, and `..` between them.
pub proof fn law_span_text(start: usize, end: usize)
    ensures
        span_text(start, end) == seq!['0', 'x'] + hex(start as nat, 8) + seq!['.', '.', '0', 'x']
            + hex(end as nat, 8),
{
    reveal_strlit("0x");
    reveal_strlit("..0x");
    assert("0x"@ =~= seq!['0', 'x']);
    assert("..0x"@ =~= seq!['.', '.', '0', 'x']);
}

} // verus!
