//! Decoders for the core's state blobs and the video memory. Blobs of an
//! unknown shape give `None` or zeros.

use vstd::prelude::*;

verus! {

/// A byte of `s`, or 0 past its end.
pub open spec fn byte_at(s: Seq<u8>, i: int) -> u8 {
    if 0 <= i < s.len() {
        s[i]
    } else {
        0
    }
}

/// Little-endian 16-bit value at `i`.
pub open spec fn le16(s: Seq<u8>, i: int) -> int {
    s[i] + 256 * s[i + 1]
}

/// Big-endian 16-bit value at `i`.
pub open spec fn be16(s: Seq<u8>, i: int) -> int {
    256 * s[i] + s[i + 1]
}

/// Little-endian 32-bit value at `i`.
pub open spec fn le32(s: Seq<u8>, i: int) -> int {
    s[i] + 256 * s[i + 1] + 65536 * s[i + 2] + 16777216 * s[i + 3]
}

fn get_byte(s: &[u8], i: usize) -> (r: u8)
    ensures
        r == byte_at(s@, i as int),
{
    if i < s.len() {
        s[i]
    } else {
        0
    }
}

fn get_be16(s: &[u8], i: usize) -> (r: u16)
    requires
        i + 1 < s@.len(),
    ensures
        r == be16(s@, i as int),
{
    256 * (s[i] as u16) + s[i + 1] as u16
}

fn get_le16(s: &[u8], i: usize) -> (r: u16)
    requires
        i + 1 < s@.len(),
    ensures
        r == le16(s@, i as int),
{
    s[i] as u16 + 256 * (s[i + 1] as u16)
}

fn get_le32(s: &[u8], i: usize) -> (r: u32)
    requires
        i + 3 < s@.len(),
    ensures
        r == le32(s@, i as int),
{
    s[i] as u32 + 256 * (s[i + 1] as u32) + 65536 * (s[i + 2] as u32) + 16777216 * (s[i
        + 3] as u32)
}

/// Summary of the VDP registers.
#[derive(Debug, Clone, Copy, PartialEq, Eq, Structural)]
pub struct VdpDecoded {
    /// Plane A nametable VRAM base.
    pub plane_a: u32,
    /// Plane B nametable VRAM base.
    pub plane_b: u32,
    /// Window plane VRAM base.
    pub window: u32,
    /// Sprite attribute table VRAM base.
    pub sprite_table: u32,
    /// Horizontal scroll table VRAM base.
    pub hscroll: u32,
    /// True for H40 (320 px), false for H32 (256 px).
    pub h40: bool,
    /// True for V30 (240 px), false for V28 (224 px).
    pub v30: bool,
    /// Display enabled (register 1, bit 6).
    pub display_enabled: bool,
    /// DMA enabled (register 1, bit 4).
    pub dma_enabled: bool,
}

impl Default for VdpDecoded {
    /// All bases 0, all flags off.
    fn default() -> (r: Self)
        ensures
            r == vdp_summary(Seq::new(24, |i: int| 0u8)),
    {
        VdpDecoded {
            plane_a: 0,
            plane_b: 0,
            window: 0,
            sprite_table: 0,
            hscroll: 0,
            h40: false,
            v30: false,
            display_enabled: false,
            dma_enabled: false,
        }
    }
}

/// VDP register dump: 24 bytes and their summary.
#[derive(Debug)]
pub struct VdpRegisters {
    /// Always 24 bytes.
    pub regs: Vec<u8>,
    pub decoded: VdpDecoded,
}

impl Clone for VdpRegisters {
    fn clone(&self) -> (r: Self)
        ensures
            r.regs@ == self.regs@,
            r.decoded == self.decoded,
    {
        VdpRegisters {
            regs: vstd::slice::slice_to_vec(self.regs.as_slice()),
            decoded: self.decoded,
        }
    }
}

/// The register file at the start of a VDP state blob; registers that the blob
/// does not reach are 0.
pub open spec fn vdp_file(blob: Seq<u8>) -> Seq<u8> {
    Seq::new(24, |i: int| byte_at(blob, i))
}

/// Whether bit `k` of `b` is set.
pub open spec fn bit_set(b: u8, weight: int) -> bool {
    b as int / weight % 2 == 1
}

/// The summary of a register file.
pub open spec fn vdp_summary(regs: Seq<u8>) -> VdpDecoded {
    VdpDecoded {
        plane_a: (regs[2] as int / 8 % 8 * 0x2000) as u32,
        plane_b: (regs[4] as int % 8 * 0x2000) as u32,
        window: (regs[3] as int / 2 % 32 * 0x800) as u32,
        sprite_table: (regs[5] as int % 128 * 0x200) as u32,
        hscroll: (regs[13] as int % 64 * 0x400) as u32,
        h40: bit_set(regs[12], 128) || bit_set(regs[12], 1),
        v30: bit_set(regs[1], 8),
        display_enabled: bit_set(regs[1], 64),
        dma_enabled: bit_set(regs[1], 16),
    }
}

/// Decodes the 24 registers at the start of a VDP state blob.
pub fn decode_vdp_registers(blob: &[u8]) -> (r: VdpRegisters)
    ensures
        r.regs@ == vdp_file(blob@),
        r.decoded == vdp_summary(vdp_file(blob@)),
{
    let mut regs: Vec<u8> = Vec::with_capacity(24);
    let mut i: usize = 0;
    while i < 24
        invariant
            i <= 24,
            regs@ == vdp_file(blob@).take(i as int),
        decreases 24 - i,
    {
        regs.push(get_byte(blob, i));
        i += 1;
        proof {
            assert(regs@ =~= vdp_file(blob@).take(i as int));
        }
    }
    proof {
        assert(regs@ =~= vdp_file(blob@));
    }
    let decoded = VdpDecoded {
        plane_a: (regs[2] as u32) / 8 % 8 * 0x2000,
        plane_b: (regs[4] as u32) % 8 * 0x2000,
        window: (regs[3] as u32) / 2 % 32 * 0x800,
        sprite_table: (regs[5] as u32) % 128 * 0x200,
        hscroll: (regs[13] as u32) % 64 * 0x400,
        h40: regs[12] / 128 % 2 == 1 || regs[12] % 2 == 1,
        v30: regs[1] / 8 % 2 == 1,
        display_enabled: regs[1] / 64 % 2 == 1,
        dma_enabled: regs[1] / 16 % 2 == 1,
    };
    VdpRegisters { regs, decoded }
}

/// An RGB colour.
#[derive(Debug, Clone, Copy, PartialEq, Eq, Structural)]
pub struct Rgb {
    pub r: u8,
    pub g: u8,
    pub b: u8,
}

/// A three-bit intensity widened to eight bits by repeating its leading bits.
pub open spec fn widen3(c: int) -> int {
    36 * c + c / 2
}

/// The colour of a CRAM word, `0000 BBB0 GGG0 RRR0`.
pub open spec fn cram_colour(word: int) -> Rgb {
    Rgb {
        r: widen3(word / 2 % 8) as u8,
        g: widen3(word / 32 % 8) as u8,
        b: widen3(word / 512 % 8) as u8,
    }
}

/// Decodes CRAM (64 words) into four lines of 16 colours; four empty lines when
/// it is shorter than 128 bytes.
pub fn decode_palettes(cram: &[u8]) -> (r: Vec<Vec<Rgb>>)
    ensures
        r@.len() == 4,
        cram@.len() < 128 ==> forall|l: int| 0 <= l < 4 ==> (#[trigger] r@[l])@.len() == 0,
        cram@.len() >= 128 ==> forall|l: int|
            0 <= l < 4 ==> (#[trigger] r@[l])@ == palette_line(cram@, l),
{
    let mut out: Vec<Vec<Rgb>> = Vec::with_capacity(4);
    let mut line: usize = 0;
    while line < 4
        invariant
            line <= 4,
            out@.len() == line,
            cram@.len() < 128 ==> forall|l: int| 0 <= l < line ==> (#[trigger] out@[l])@.len() == 0,
            cram@.len() >= 128 ==> forall|l: int|
                0 <= l < line ==> (#[trigger] out@[l])@ == palette_line(cram@, l),
        decreases 4 - line,
    {
        let mut colours: Vec<Rgb> = Vec::with_capacity(16);
        if cram.len() >= 128 {
            let mut entry: usize = 0;
            while entry < 16
                invariant
                    entry <= 16,
                    line < 4,
                    cram@.len() >= 128,
                    colours@ == palette_line(cram@, line as int).take(entry as int),
                decreases 16 - entry,
            {
                let word: u16 = get_be16(cram, (line * 16 + entry) * 2);
                let r: u16 = word / 2 % 8;
                let g: u16 = word / 32 % 8;
                let b: u16 = word / 512 % 8;
                colours.push(
                    Rgb {
                        r: (36 * r + r / 2) as u8,
                        g: (36 * g + g / 2) as u8,
                        b: (36 * b + b / 2) as u8,
                    },
                );
                entry += 1;
                proof {
                    assert(colours@ =~= palette_line(cram@, line as int).take(entry as int));
                }
            }
            proof {
                assert(colours@ =~= palette_line(cram@, line as int));
            }
        }
        out.push(colours);
        line += 1;
    }
    out
}

/// A palette line of a full CRAM.
pub open spec fn palette_line(cram: Seq<u8>, line: int) -> Seq<Rgb> {
    Seq::new(16, |e: int| cram_colour(be16(cram, (line * 16 + e) * 2)))
}

/// Widening keeps the ends of the scale and the order of intensities.
pub proof fn law_widen3(c: int, d: int)
    requires
        0 <= c < d < 8,
    ensures
        widen3(0) == 0,
        widen3(7) == 255,
        0 <= widen3(c) < widen3(d) <= 255,
{
}

/// Entry of the sprite attribute table.
#[derive(Debug, Clone, Copy, PartialEq, Eq, Structural)]
pub struct Sprite {
    pub index: u32,
    pub y: u16,
    pub x: u16,
    /// In tiles.
    pub width: u8,
    /// In tiles.
    pub height: u8,
    pub link: u8,
    pub priority: bool,
    pub palette: u8,
    pub vflip: bool,
    pub hflip: bool,
    pub tile_index: u16,
}

/// The eight-byte table entry at `off`, as the `index`-th sprite of the list.
pub open spec fn sprite_at(vram: Seq<u8>, off: int, index: int) -> Sprite {
    let attr = be16(vram, off + 4);
    Sprite {
        index: index as u32,
        y: (be16(vram, off) % 1024) as u16,
        x: (be16(vram, off + 6) % 512) as u16,
        width: (vram[off + 2] as int / 4 % 4 + 1) as u8,
        height: (vram[off + 2] as int % 4 + 1) as u8,
        link: (vram[off + 3] as int % 128) as u8,
        priority: attr / 32768 % 2 == 1,
        palette: (attr / 8192 % 4) as u8,
        vflip: attr / 4096 % 2 == 1,
        hflip: attr / 2048 % 2 == 1,
        tile_index: (attr % 2048) as u16,
    }
}

/// The sprites met when following the links from entry `cursor`, of which
/// `done` came before, up to `limit` in all. The walk ends at a link of 0 and
/// where an entry does not lie in VRAM.
pub open spec fn sprite_walk(vram: Seq<u8>, base: int, cursor: int, done: int, limit: int) -> Seq<
    Sprite,
>
    decreases limit - done,
{
    let off = base + cursor * 8;
    if done >= limit || off + 8 > vram.len() {
        seq![]
    } else {
        let s = sprite_at(vram, off, done);
        seq![s] + if s.link == 0 {
            seq![]
        } else {
            sprite_walk(vram, base, s.link as int, done + 1, limit)
        }
    }
}

/// How many sprites a walk may give.
pub open spec fn sprite_limit(max_sprites: usize) -> int {
    if max_sprites < 80 {
        max_sprites as int
    } else {
        80
    }
}

/// Decodes the sprite list that starts at the table's first entry. It follows
/// the links until a link of 0, at most `max_sprites` and never more than 80.
pub fn decode_sprites(vram: &[u8], sat_offset: u32, max_sprites: usize) -> (r: Vec<Sprite>)
    ensures
        r@ == sprite_walk(vram@, sat_offset as int, 0, 0, sprite_limit(max_sprites)),
{
    let mut out: Vec<Sprite> = Vec::new();
    let limit: u32 = if max_sprites < 80 {
        max_sprites as u32
    } else {
        80
    };
    let size: usize = vram.len();
    let len: u64 = size as u64;
    let base: u64 = sat_offset as u64;
    let mut cursor: u8 = 0;
    let mut steps: u32 = 0;
    let ghost all = sprite_walk(vram@, sat_offset as int, 0, 0, limit as int);
    proof {
        assert(out@ + all =~= all);
    }
    while steps < limit
        invariant_except_break
            out@ + sprite_walk(vram@, base as int, cursor as int, steps as int, limit as int) == all,
        invariant
            steps <= limit <= 80,
            len == size,
            size == vram@.len(),
            base == sat_offset,
        ensures
            out@ == all,
        decreases limit - steps,
    {
        let off64: u64 = base + (cursor as u64) * 8;
        if off64 + 8 > len {
            proof {
                assert(out@ =~= all);
            }
            break;
        }
        let off: usize = off64 as usize;
        let attr: u16 = get_be16(vram, off + 4);
        let link: u8 = vram[off + 3] % 128;
        let s = Sprite {
            index: steps,
            y: get_be16(vram, off) % 1024,
            x: get_be16(vram, off + 6) % 512,
            width: vram[off + 2] / 4 % 4 + 1,
            height: vram[off + 2] % 4 + 1,
            link,
            priority: attr / 32768 % 2 == 1,
            palette: (attr / 8192 % 4) as u8,
            vflip: attr / 4096 % 2 == 1,
            hflip: attr / 2048 % 2 == 1,
            tile_index: attr % 2048,
        };
        let ghost before = out@;
        out.push(s);
        proof {
            assert(s == sprite_at(vram@, off as int, steps as int));
        }
        if link == 0 {
            proof {
                assert(out@ =~= all);
            }
            break;
        }
        proof {
            assert(out@ + sprite_walk(
                vram@,
                base as int,
                link as int,
                steps + 1,
                limit as int,
            ) =~= before + sprite_walk(
                vram@,
                base as int,
                cursor as int,
                steps as int,
                limit as int,
            ));
        }
        steps += 1;
        cursor = link;
        proof {
            if steps >= limit {
                assert(out@ =~= all);
            }
        }
    }
    out
}

/// A walk gives at most as many sprites as are left, numbered in order, with
/// coordinates and sizes in their hardware ranges.
pub proof fn law_sprite_walk(
    vram: Seq<u8>,
    base: int,
    cursor: int,
    done: int,
    limit: int,
    i: int,
)
    requires
        0 <= base,
        0 <= cursor,
        0 <= done <= limit <= 80,
    ensures
        sprite_walk(vram, base, cursor, done, limit).len() <= limit - done,
        0 <= i < sprite_walk(vram, base, cursor, done, limit).len() ==> {
            let s = sprite_walk(vram, base, cursor, done, limit)[i];
            &&& s.index == done + i
            &&& s.y < 1024
            &&& s.x < 512
            &&& 1 <= s.width <= 4
            &&& 1 <= s.height <= 4
            &&& s.link < 128
            &&& s.palette < 4
            &&& s.tile_index < 2048
        },
    decreases limit - done,
{
    let off = base + cursor * 8;
    if done < limit && off + 8 <= vram.len() {
        let s = sprite_at(vram, off, done);
        if s.link != 0 {
            law_sprite_walk(vram, base, s.link as int, done + 1, limit, i - 1);
        }
    }
}

/// 68k registers.
#[derive(Debug, Clone, Copy)]
pub struct M68kRegisters {
    pub d: [u32; 8],
    pub a: [u32; 8],
    pub pc: u32,
    pub sr: u16,
    pub usp: u32,
    pub ssp: u32,
}

impl Default for M68kRegisters {
    /// All registers 0.
    fn default() -> (r: Self)
        ensures
            forall|i: int| 0 <= i < 8 ==> r.d@[i] == 0,
            forall|i: int| 0 <= i < 8 ==> r.a@[i] == 0,
            r.pc == 0,
            r.sr == 0,
            r.usp == 0,
            r.ssp == 0,
    {
        M68kRegisters { d: [0; 8], a: [0; 8], pc: 0, sr: 0, usp: 0, ssp: 0 }
    }
}

/// Whether `r` holds the registers of a 68k state blob, laid out as D0 to D7,
/// A0 to A7, PC, SR, USP and SSP, little-endian and without gaps.
pub open spec fn m68k_of(blob: Seq<u8>, r: M68kRegisters) -> bool {
    &&& forall|i: int| 0 <= i < 8 ==> #[trigger] r.d@[i] == le32(blob, 4 * i)
    &&& forall|i: int| 0 <= i < 8 ==> #[trigger] r.a@[i] == le32(blob, 32 + 4 * i)
    &&& r.pc == le32(blob, 64)
    &&& r.sr == le16(blob, 68)
    &&& r.usp == le32(blob, 70)
    &&& r.ssp == le32(blob, 74)
}

/// Decodes a 68k state blob; `None` when it is shorter than 78 bytes.
pub fn decode_m68k(blob: &[u8]) -> (r: Option<M68kRegisters>)
    ensures
        r is Some <==> blob@.len() >= 78,
        r matches Some(regs) ==> m68k_of(blob@, regs),
{
    if blob.len() < 78 {
        return None;
    }
    let mut d: [u32; 8] = [0; 8];
    let mut a: [u32; 8] = [0; 8];
    let mut i: usize = 0;
    while i < 8
        invariant
            i <= 8,
            blob@.len() >= 78,
            forall|j: int| 0 <= j < i ==> #[trigger] d@[j] == le32(blob@, 4 * j),
            forall|j: int| 0 <= j < i ==> #[trigger] a@[j] == le32(blob@, 32 + 4 * j),
        decreases 8 - i,
    {
        d[i] = get_le32(blob, 4 * i);
        a[i] = get_le32(blob, 32 + 4 * i);
        i += 1;
    }
    Some(
        M68kRegisters {
            d,
            a,
            pc: get_le32(blob, 64),
            sr: get_le16(blob, 68),
            usp: get_le32(blob, 70),
            ssp: get_le32(blob, 74),
        },
    )
}

/// Z80 register snapshot.
#[derive(Debug, Clone, Copy, PartialEq, Eq, Structural)]
pub struct Z80Registers {
    pub af: u16,
    pub bc: u16,
    pub de: u16,
    pub hl: u16,
    pub ix: u16,
    pub iy: u16,
    pub pc: u16,
    pub sp: u16,
    pub halt: bool,
    pub iff1: bool,
    pub iff2: bool,
    pub im: u8,
    pub cycles: u64,
    pub bus_requested: bool,
    pub bus_reset: bool,
}

impl Default for Z80Registers {
    /// All registers 0, all flags off.
    fn default() -> (r: Self)
        ensures
            r == (Z80Registers {
                af: 0,
                bc: 0,
                de: 0,
                hl: 0,
                ix: 0,
                iy: 0,
                pc: 0,
                sp: 0,
                halt: false,
                iff1: false,
                iff2: false,
                im: 0,
                cycles: 0,
                bus_requested: false,
                bus_reset: false,
            }),
    {
        Z80Registers {
            af: 0,
            bc: 0,
            de: 0,
            hl: 0,
            ix: 0,
            iy: 0,
            pc: 0,
            sp: 0,
            halt: false,
            iff1: false,
            iff2: false,
            im: 0,
            cycles: 0,
            bus_requested: false,
            bus_reset: false,
        }
    }
}

/// A little-endian pair of a Z80 blob, or 0 where the blob ends.
pub open spec fn z80_word(blob: Seq<u8>, i: int) -> int {
    if i + 2 <= blob.len() {
        le16(blob, i)
    } else {
        0
    }
}

/// Two neighbouring bytes of a Z80 blob as a register pair, high byte first.
pub open spec fn z80_pair(blob: Seq<u8>, i: int) -> int {
    256 * byte_at(blob, i) + byte_at(blob, i + 1)
}

/// The registers of a Z80 state blob and a bus blob. In blobs of 32 bytes or
/// more a padding byte follows the register mode; shorter ones are packed.
pub open spec fn z80_of(state: Seq<u8>, bus: Seq<u8>) -> Z80Registers {
    let o = if state.len() < 32 { 1int } else { 2 };
    Z80Registers {
        af: z80_pair(state, o + 6) as u16,
        bc: z80_pair(state, o + 8) as u16,
        de: z80_pair(state, o + 10) as u16,
        hl: z80_pair(state, o + 12) as u16,
        ix: z80_pair(state, o + 22) as u16,
        iy: z80_pair(state, o + 24) as u16,
        pc: z80_word(state, o + 2) as u16,
        sp: z80_word(state, o + 4) as u16,
        halt: false,
        iff1: byte_at(state, o + 28) != 0,
        iff2: byte_at(state, o + 28) != 0,
        im: 1,
        cycles: z80_word(state, o) as u64,
        bus_requested: byte_at(bus, 0) != 0,
        bus_reset: byte_at(bus, 1) != 0,
    }
}

fn get_z80_word(blob: &[u8], i: usize) -> (r: u16)
    requires
        i < 64,
    ensures
        r == z80_word(blob@, i as int),
{
    if i + 2 > blob.len() {
        0
    } else {
        get_le16(blob, i)
    }
}

fn get_z80_pair(blob: &[u8], i: usize) -> (r: u16)
    requires
        i < 64,
    ensures
        r == z80_pair(blob@, i as int),
{
    256 * (get_byte(blob, i) as u16) + get_byte(blob, i + 1) as u16
}

/// Decodes a Z80 state blob and the two-byte bus blob; either may be short.
/// `None` when the state blob has fewer than 30 bytes.
pub fn decode_z80(state_blob: &[u8], bus_blob: &[u8]) -> (r: Option<Z80Registers>)
    ensures
        r is Some <==> state_blob@.len() >= 30,
        r matches Some(regs) ==> regs == z80_of(state_blob@, bus_blob@),
{
    if state_blob.len() < 30 {
        return None;
    }
    let o: usize = if state_blob.len() < 32 {
        1
    } else {
        2
    };
    let enabled = get_byte(state_blob, o + 28) != 0;
    let pending = get_byte(state_blob, o + 29) != 0;
    let regs = Z80Registers {
        af: get_z80_pair(state_blob, o + 6),
        bc: get_z80_pair(state_blob, o + 8),
        de: get_z80_pair(state_blob, o + 10),
        hl: get_z80_pair(state_blob, o + 12),
        ix: get_z80_pair(state_blob, o + 22),
        iy: get_z80_pair(state_blob, o + 24),
        pc: get_z80_word(state_blob, o + 2),
        sp: get_z80_word(state_blob, o + 4),
        halt: false,
        iff1: enabled,
        iff2: enabled,
        im: 1,
        cycles: get_z80_word(state_blob, o) as u64,
        bus_requested: get_byte(bus_blob, 0) != 0,
        bus_reset: get_byte(bus_blob, 1) != 0,
    };
    Some(regs.with_pending(pending))
}

impl Z80Registers {
    /// A CPU with a pending interrupt is not halted.
    pub fn with_pending(self, pending: bool) -> (r: Self)
        ensures
            r == (Z80Registers {
                halt: if pending {
                    false
                } else {
                    self.halt
                },
                ..self
            }),
    {
        let mut out = self;
        if pending {
            out.halt = false;
        }
        out
    }
}

/// The 64 pixels of the tile at `off`, four bits each, high nibble first.
pub open spec fn tile_pixels(vram: Seq<u8>, off: int) -> Seq<u8> {
    Seq::new(
        64,
        |i: int|
            if i % 2 == 0 {
                vram[off + i / 2] / 16
            } else {
                vram[off + i / 2] % 16
            },
    )
}

/// Decodes an 8x8 tile into 64 palette indices; `None` when the tile does not
/// lie in VRAM.
pub fn decode_tile_8x8(vram: &[u8], tile_index: u32) -> (r: Option<Vec<u8>>)
    ensures
        r is Some <==> tile_index * 32 + 32 <= vram@.len(),
        r matches Some(p) ==> p@ == tile_pixels(vram@, tile_index * 32),
{
    let off64: u64 = (tile_index as u64) * 32;
    let size: usize = vram.len();
    if off64 + 32 > size as u64 {
        return None;
    }
    let off: usize = off64 as usize;
    let mut bitmap: Vec<u8> = Vec::with_capacity(64);
    let mut i: usize = 0;
    while i < 32
        invariant
            i <= 32,
            off + 32 <= size,
            size == vram@.len(),
            bitmap@ == tile_pixels(vram@, off as int).take(2 * i),
        decreases 32 - i,
    {
        let b: u8 = vram[off + i];
        bitmap.push(b / 16);
        bitmap.push(b % 16);
        i += 1;
        proof {
            assert(bitmap@ =~= tile_pixels(vram@, off as int).take(2 * i));
        }
    }
    proof {
        assert(bitmap@ =~= tile_pixels(vram@, off as int));
    }
    Some(bitmap)
}

/// A tile's pixels are palette indices, and two of them give back the byte they
/// came from.
pub proof fn law_tile_pixels(vram: Seq<u8>, off: int, k: int)
    requires
        0 <= off,
        off + 32 <= vram.len(),
        0 <= k < 32,
    ensures
        tile_pixels(vram, off).len() == 64,
        tile_pixels(vram, off)[2 * k] < 16,
        tile_pixels(vram, off)[2 * k + 1] < 16,
        16 * tile_pixels(vram, off)[2 * k] + tile_pixels(vram, off)[2 * k + 1] == vram[off + k],
{
}

/// 1 for a set bit, 0 for a cleared one.
pub open spec fn bit(b: bool) -> int {
    if b {
        1
    } else {
        0
    }
}

/// The dump shows the first 24 bytes of the blob, and 0 for those it lacks.
pub proof fn law_register_file(blob: Seq<u8>, i: int)
    requires
        0 <= i < 24,
    ensures
        vdp_file(blob).len() == 24,
        i < blob.len() ==> vdp_file(blob)[i] == blob[i],
        i >= blob.len() ==> vdp_file(blob)[i] == 0,
{
}

/// A base register that is written for an address reads back as that address,
/// whatever its unused bits are: planes A and B and the window by register 2, 4
/// and 3, the sprite table by 5, the horizontal scroll table by 13.
pub proof fn law_bases_read_back(blob: Seq<u8>, a: int, low: int, high: int)
    requires
        blob.len() >= 24,
        0 <= a < 0x1_0000,
    ensures
        a % 0x2000 == 0 && 0 <= low < 8 && 0 <= high < 4 && blob[2] == a / 0x400 + low + 64 * high
            ==> vdp_summary(vdp_file(blob)).plane_a == a,
        a % 0x2000 == 0 && 0 <= high < 32 && blob[4] == a / 0x2000 + 8 * high ==> vdp_summary(
            vdp_file(blob),
        ).plane_b == a,
        a % 0x800 == 0 && 0 <= low < 2 && 0 <= high < 4 && blob[3] == a / 0x400 + low + 64 * high
            ==> vdp_summary(vdp_file(blob)).window == a,
        a % 0x200 == 0 && 0 <= high < 2 && blob[5] == a / 0x200 + 128 * high ==> vdp_summary(
            vdp_file(blob),
        ).sprite_table == a,
        a % 0x400 == 0 && 0 <= high < 4 && blob[13] == a / 0x400 + 64 * high ==> vdp_summary(
            vdp_file(blob),
        ).hscroll == a,
{
    let regs = vdp_file(blob);
    assert(regs[2] == blob[2] && regs[3] == blob[3] && regs[4] == blob[4] && regs[5] == blob[5]
        && regs[13] == blob[13]);
    if 0 <= low < 8 && 0 <= high < 4 && blob[2] == a / 0x400 + low + 64 * high {
        lemma_base_a(blob[2] as int, a, low, high);
    }
    if 0 <= high < 32 && blob[4] == a / 0x2000 + 8 * high {
        lemma_base_b(blob[4] as int, a, high);
    }
    if 0 <= low < 2 && 0 <= high < 4 && blob[3] == a / 0x400 + low + 64 * high {
        lemma_base_window(blob[3] as int, a, low, high);
    }
    if 0 <= high < 2 && blob[5] == a / 0x200 + 128 * high {
        lemma_base_sprites(blob[5] as int, a, high);
    }
    if 0 <= high < 4 && blob[13] == a / 0x400 + 64 * high {
        lemma_base_hscroll(blob[13] as int, a, high);
    }
}

proof fn lemma_base_a(v: int, a: int, low: int, high: int)
    requires
        0 <= a < 0x1_0000,
        0 <= low < 8,
        0 <= high < 4,
        v == a / 0x400 + low + 64 * high,
    ensures
        a % 0x2000 == 0 ==> v / 8 % 8 * 0x2000 == a,
{
    if a % 0x2000 == 0 {
        let q = a / 0x2000;
        assert(a == 0x2000 * q);
        assert(a / 0x400 == 8 * q);
        assert(v / 8 == q + 8 * high);
    }
}

proof fn lemma_base_b(v: int, a: int, high: int)
    requires
        0 <= a < 0x1_0000,
        0 <= high < 32,
        v == a / 0x2000 + 8 * high,
    ensures
        a % 0x2000 == 0 ==> v % 8 * 0x2000 == a,
{
}

proof fn lemma_base_window(v: int, a: int, low: int, high: int)
    requires
        0 <= a < 0x1_0000,
        0 <= low < 2,
        0 <= high < 4,
        v == a / 0x400 + low + 64 * high,
    ensures
        a % 0x800 == 0 ==> v / 2 % 32 * 0x800 == a,
{
    if a % 0x800 == 0 {
        let q = a / 0x800;
        assert(a == 0x800 * q);
        assert(a / 0x400 == 2 * q);
        assert(v / 2 == q + 32 * high);
    }
}

proof fn lemma_base_sprites(v: int, a: int, high: int)
    requires
        0 <= a < 0x1_0000,
        0 <= high < 2,
        v == a / 0x200 + 128 * high,
    ensures
        a % 0x200 == 0 ==> v % 128 * 0x200 == a,
{
}

proof fn lemma_base_hscroll(v: int, a: int, high: int)
    requires
        0 <= a < 0x1_0000,
        0 <= high < 4,
        v == a / 0x400 + 64 * high,
    ensures
        a % 0x400 == 0 ==> v % 64 * 0x400 == a,
{
}

/// The mode flags are single bits: of register 1 bit 3 for 240 lines, bit 4 for
/// DMA and bit 6 for the display; of register 12 bit 0 or bit 7 for 320 pixels.
pub proof fn law_mode_bits(
    blob: Seq<u8>,
    display: bool,
    dma: bool,
    v30: bool,
    rest: (int, int, int),
    outer: (bool, bool),
    inner: int,
)
    requires
        blob.len() >= 24,
        0 <= rest.0 < 2,
        0 <= rest.1 < 2,
        0 <= rest.2 < 8,
        blob[1] == 128 * rest.0 + 64 * bit(display) + 32 * rest.1 + 16 * bit(dma) + 8 * bit(v30)
            + rest.2,
        0 <= inner < 64,
        blob[12] == 128 * bit(outer.0) + 2 * inner + bit(outer.1),
    ensures
        vdp_summary(vdp_file(blob)).display_enabled == display,
        vdp_summary(vdp_file(blob)).dma_enabled == dma,
        vdp_summary(vdp_file(blob)).v30 == v30,
        vdp_summary(vdp_file(blob)).h40 == (outer.0 || outer.1),
{
}

/// A colour word `0000 BBB0 GGG0 RRR0` shows its three intensities, whatever its
/// unused bits are: each component repeats its three bits from the top. Words lie
/// one after the other, 16 to a line, high byte first.
pub proof fn law_palette_words(
    cram: Seq<u8>,
    line: int,
    entry: int,
    r: int,
    g: int,
    b: int,
    unused: (int, int, int, int),
)
    requires
        cram.len() >= 128,
        0 <= line < 4,
        0 <= entry < 16,
        0 <= r < 8,
        0 <= g < 8,
        0 <= b < 8,
        0 <= unused.0 < 16,
        0 <= unused.1 < 2,
        0 <= unused.2 < 2,
        0 <= unused.3 < 2,
        256 * cram[32 * line + 2 * entry] + cram[32 * line + 2 * entry + 1] == 4096 * unused.0 + 512
            * b + 256 * unused.1 + 32 * g + 16 * unused.2 + 2 * r + unused.3,
    ensures
        palette_line(cram, line).len() == 16,
        ({
            let c = palette_line(cram, line)[entry];
            &&& c.r as int / 32 == r && c.r as int / 4 % 8 == r && c.r as int % 4 == r / 2
            &&& c.g as int / 32 == g && c.g as int / 4 % 8 == g && c.g as int % 4 == g / 2
            &&& c.b as int / 32 == b && c.b as int / 4 % 8 == b && c.b as int % 4 == b / 2
        }),
{
    let at = 32 * line + 2 * entry;
    let word = be16(cram, at);
    assert((line * 16 + entry) * 2 == at);
    assert(word == 256 * cram[at] + cram[at + 1]);
    lemma_components(word, r, g, b, unused);
    assert(palette_line(cram, line)[entry] == cram_colour(word));
    lemma_widen3(r);
    lemma_widen3(g);
    lemma_widen3(b);
}

/// Where the three components of a colour word stand.
pub proof fn lemma_components(word: int, r: int, g: int, b: int, unused: (int, int, int, int))
    requires
        0 <= r < 8,
        0 <= g < 8,
        0 <= b < 8,
        0 <= unused.0 < 16,
        0 <= unused.1 < 2,
        0 <= unused.2 < 2,
        0 <= unused.3 < 2,
        word == 4096 * unused.0 + 512 * b + 256 * unused.1 + 32 * g + 16 * unused.2 + 2 * r
            + unused.3,
    ensures
        word / 2 % 8 == r,
        word / 32 % 8 == g,
        word / 512 % 8 == b,
{
    let low = 16 * unused.2 + 2 * r + unused.3;
    assert(word / 2 == 8 * (256 * unused.0 + 32 * b + 16 * unused.1 + 2 * g + unused.2) + r);
    assert(word / 32 == 8 * (16 * unused.0 + 2 * b + unused.1) + g) by {
        assert(0 <= low < 32);
    }
    assert(word / 512 == 8 * unused.0 + b) by {
        assert(0 <= 256 * unused.1 + 32 * g + low < 512);
    }
}

proof fn lemma_widen3(c: int)
    requires
        0 <= c < 8,
    ensures
        0 <= widen3(c) < 256,
        widen3(c) / 32 == c,
        widen3(c) / 4 % 8 == c,
        widen3(c) % 4 == c / 2,
{
}

/// A table entry can be put together again from the listed sprite: its attribute
/// word from priority, palette, flips and tile, the low half of its size byte
/// from the size; position and link are the low bits of their fields.
pub proof fn law_sprite_keeps_entry(vram: Seq<u8>, off: int, index: int)
    requires
        0 <= off,
        off + 8 <= vram.len(),
        0 <= index < 80,
    ensures
        ({
            let s = sprite_at(vram, off, index);
            &&& 256 * vram[off + 4] + vram[off + 5] == 32768 * bit(s.priority) + 8192 * s.palette
                + 4096 * bit(s.vflip) + 2048 * bit(s.hflip) + s.tile_index
            &&& s.palette < 4
            &&& s.tile_index < 2048
            &&& 4 * (s.width - 1) + (s.height - 1) == vram[off + 2] as int % 16
            &&& 1 <= s.width <= 4
            &&& 1 <= s.height <= 4
            &&& s.y == (256 * vram[off] + vram[off + 1]) % 1024
            &&& s.x == (256 * vram[off + 6] + vram[off + 7]) % 512
            &&& s.link == vram[off + 3] as int % 128
            &&& s.index == index
        }),
{
}

/// The list starts with the table's first entry, each further sprite is the entry
/// that the one before links to, and the list ends only at a link of 0, at the
/// limit, or where the next entry does not lie in VRAM. Entries are eight bytes.
pub proof fn law_walk_follows_links(
    vram: Seq<u8>,
    base: int,
    cursor: int,
    done: int,
    limit: int,
    i: int,
)
    requires
        0 <= base,
        0 <= cursor,
        0 <= done < limit <= 80,
    ensures
        ({
            let w = sprite_walk(vram, base, cursor, done, limit);
            &&& w.len() == 0 <==> base + 8 * cursor + 8 > vram.len()
            &&& w.len() > 0 ==> w[0] == sprite_at(vram, base + 8 * cursor, done)
            &&& 0 <= i && i + 1 < w.len() ==> w[i].link != 0 && w[i + 1] == sprite_at(
                vram,
                base + 8 * w[i].link,
                done + i + 1,
            )
            &&& 0 < w.len() < limit - done && w.last().link != 0 ==> base + 8 * w.last().link + 8
                > vram.len()
        }),
    decreases limit - done,
{
    let off = base + cursor * 8;
    if off + 8 <= vram.len() {
        let s = sprite_at(vram, off, done);
        let w = sprite_walk(vram, base, cursor, done, limit);
        assert(w[0] == s);
        if s.link != 0 && done + 1 < limit {
            let rest = sprite_walk(vram, base, s.link as int, done + 1, limit);
            assert(w =~= seq![s] + rest);
            law_walk_follows_links(vram, base, s.link as int, done + 1, limit, i - 1);
            if rest.len() > 0 {
                assert(w.last() == rest.last());
            }
            if i > 0 && i + 1 < w.len() {
                assert(w[i] == rest[i - 1] && w[i + 1] == rest[i]);
            }
        }
    }
}

/// A walk is cut at the number asked for, and at the table's 80 entries.
pub proof fn law_sprite_limit(n: usize)
    ensures
        sprite_limit(n) <= n,
        sprite_limit(n) <= 80,
        sprite_limit(n) == n || sprite_limit(n) == 80,
{
}

/// The bytes of a 68k state blob can be put together again from its registers,
/// least significant byte first: D0 to D7, A0 to A7, PC, SR, USP and SSP.
pub proof fn law_m68k_keeps_blob(blob: Seq<u8>, r: M68kRegisters, i: int)
    requires
        blob.len() >= 78,
        m68k_of(blob, r),
        0 <= i < 8,
    ensures
        holds_le(blob, 4 * i, r.d@[i]),
        holds_le(blob, 4 * (8 + i), r.a@[i]),
        holds_le(blob, 64, r.pc),
        blob[68] == r.sr as int % 256 && blob[69] == r.sr as int / 256,
        holds_le(blob, 70, r.usp),
        holds_le(blob, 74, r.ssp),
{
    assert(r.d@[i] == le32(blob, 4 * i));
    assert(r.a@[i] == le32(blob, 32 + 4 * i));
    lemma_le32(blob, 4 * i);
    lemma_le32(blob, 32 + 4 * i);
    lemma_le32(blob, 64);
    lemma_le32(blob, 70);
    lemma_le32(blob, 74);
}

/// Whether the four bytes at `at` are `n`, least significant byte first.
pub open spec fn holds_le(s: Seq<u8>, at: int, n: u32) -> bool {
    &&& s[at] == n as int % 256
    &&& s[at + 1] == n as int / 0x100 % 256
    &&& s[at + 2] == n as int / 0x1_0000 % 256
    &&& s[at + 3] == n as int / 0x100_0000
}

proof fn lemma_le32(s: Seq<u8>, at: int)
    ensures
        ({
            let n = le32(s, at);
            &&& s[at] == n % 256
            &&& s[at + 1] == n / 0x100 % 256
            &&& s[at + 2] == n / 0x1_0000 % 256
            &&& s[at + 3] == n / 0x100_0000
        }),
{
}

/// Where the bytes of the Z80 registers lie: the cycle counter, PC and SP low
/// byte first, then the pairs high byte first, the shadow set skipped between HL
/// and IX. The registers start behind the mode byte, and behind a padding byte
/// too in blobs of 32 bytes or more. The two bus bytes are flags.
pub proof fn law_z80_keeps_blob(state: Seq<u8>, bus: Seq<u8>)
    requires
        state.len() >= 30,
        bus.len() >= 2,
    ensures
        ({
            let r = z80_of(state, bus);
            let o = if state.len() < 32 { 1int } else { 2 };
            &&& state[o] == r.cycles as int % 256 && state[o + 1] == r.cycles as int / 256
            &&& state[o + 2] == r.pc as int % 256 && state[o + 3] == r.pc as int / 256
            &&& state[o + 4] == r.sp as int % 256 && state[o + 5] == r.sp as int / 256
            &&& state[o + 6] == r.af as int / 256 && state[o + 7] == r.af as int % 256
            &&& state[o + 8] == r.bc as int / 256 && state[o + 9] == r.bc as int % 256
            &&& state[o + 10] == r.de as int / 256 && state[o + 11] == r.de as int % 256
            &&& state[o + 12] == r.hl as int / 256 && state[o + 13] == r.hl as int % 256
            &&& state[o + 22] == r.ix as int / 256 && state[o + 23] == r.ix as int % 256
            &&& state[o + 24] == r.iy as int / 256 && state[o + 25] == r.iy as int % 256
            &&& r.iff1 == (state[o + 28] != 0) && r.iff2 == r.iff1
            &&& !r.halt && r.im == 1
            &&& r.bus_requested == (bus[0] != 0)
            &&& r.bus_reset == (bus[1] != 0)
        }),
{
}

/// Without the bytes of the bus lines both lines show as free.
pub proof fn law_z80_without_bus(state: Seq<u8>, bus: Seq<u8>)
    ensures
        bus.len() == 0 ==> !z80_of(state, bus).bus_requested,
        bus.len() < 2 ==> !z80_of(state, bus).bus_reset,
{
}

} // verus!
