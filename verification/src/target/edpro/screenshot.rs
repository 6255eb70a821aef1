//! Screenshots of the cartridge target: the VDP's picture, drawn from its
//! memory and from the shadow copies of its registers.
//!
//! Both scroll planes, the sprites and the backdrop are drawn, always 224 lines
//! high. The window plane, shadow and highlight and interlace are left out;
//! horizontal scroll per cell is read per line.

use crate::emulator::decode::{be16, bit};
use crate::emulator::frame::{png_encode, png_file, png_head};
use crate::text::{dec, hex, lower, lower_hex, push_dec};
use vstd::prelude::*;
use vstd::string::*;

verus! {

/// Lines of a picture.
pub const FRAME_H: usize = 224;

/// Eight-bit intensity of a three-bit colour component.
pub open spec fn intensity(c: int) -> u8 {
    if c == 0 {
        0
    } else if c == 1 {
        52
    } else if c == 2 {
        87
    } else if c == 3 {
        116
    } else if c == 4 {
        144
    } else if c == 5 {
        172
    } else if c == 6 {
        206
    } else {
        255
    }
}

fn component(c: u16) -> (r: u8)
    requires
        c < 8,
    ensures
        r == intensity(c as int),
{
    match c {
        0 => 0,
        1 => 52,
        2 => 87,
        3 => 116,
        4 => 144,
        5 => 172,
        6 => 206,
        _ => 255,
    }
}

/// Brighter components are shown brighter.
pub proof fn law_intensity_ascends(c: int, d: int)
    requires
        0 <= c < d < 8,
    ensures
        intensity(c) < intensity(d),
{
}

/// Red, green and blue of a CRAM word, `0000 BBB0 GGG0 RRR0`.
pub open spec fn shown_colour(word: int) -> Seq<u8> {
    seq![intensity(word / 2 % 8), intensity(word / 32 % 8), intensity(word / 512 % 8)]
}

/// Decodes the 64 colours of CRAM.
pub fn decode_cram(cram: &[u8; 128]) -> (r: [[u8; 3]; 64])
    ensures
        forall|i: int| 0 <= i < 64 ==> (#[trigger] r@[i])@ == shown_colour(be16(cram@, 2 * i)),
{
    let mut out: [[u8; 3]; 64] = [[0u8; 3]; 64];
    let mut i: usize = 0;
    while i < 64
        invariant
            i <= 64,
            forall|j: int|
                0 <= j < i ==> (#[trigger] out@[j])@ == shown_colour(be16(cram@, 2 * j)),
        decreases 64 - i,
    {
        let word: u16 = 256 * (cram[2 * i] as u16) + cram[2 * i + 1] as u16;
        let c: [u8; 3] = [
            component(word / 2 % 8),
            component(word / 32 % 8),
            component(word / 512 % 8),
        ];
        proof {
            assert(c@ =~= shown_colour(be16(cram@, 2 * i)));
        }
        out[i] = c;
        i += 1;
    }
    out
}

/// A nametable cell.
#[derive(Debug, Clone, Copy, PartialEq, Eq, Structural)]
pub struct NametableCell {
    pub priority: bool,
    pub palette: u8,
    pub vflip: bool,
    pub hflip: bool,
    pub tile_index: u16,
}

/// The cell of a nametable word.
pub open spec fn cell_of(word: int) -> NametableCell {
    NametableCell {
        priority: word / 32768 % 2 == 1,
        palette: (word / 8192 % 4) as u8,
        vflip: word / 4096 % 2 == 1,
        hflip: word / 2048 % 2 == 1,
        tile_index: (word % 2048) as u16,
    }
}

/// Decodes a nametable word.
pub fn decode_nametable_entry(word: u16) -> (r: NametableCell)
    ensures
        r == cell_of(word as int),
        r.palette < 4,
        r.tile_index < 2048,
{
    NametableCell {
        priority: word / 32768 % 2 == 1,
        palette: (word / 8192 % 4) as u8,
        vflip: word / 4096 % 2 == 1,
        hflip: word / 2048 % 2 == 1,
        tile_index: word % 2048,
    }
}

/// A nametable word can be put together again from its cell.
pub proof fn law_cell_keeps_word(word: int)
    requires
        0 <= word < 65536,
    ensures
        ({
            let c = cell_of(word);
            word == (if c.priority { 32768int } else { 0 }) + 8192 * c.palette + (if c.vflip {
                4096int
            } else {
                0
            }) + (if c.hflip { 2048int } else { 0 }) + c.tile_index
        }),
{
}

/// A sprite table entry.
#[derive(Debug, Clone, Copy, PartialEq, Eq, Structural)]
pub struct SpriteEntry {
    /// 0x80 is the top of the screen.
    pub y_raw: u16,
    /// In cells.
    pub w_cells: u8,
    /// In cells.
    pub h_cells: u8,
    /// The next sprite, 0 at the end of the list.
    pub link: u8,
    pub priority: bool,
    pub palette: u8,
    pub vflip: bool,
    pub hflip: bool,
    pub tile_index: u16,
    /// 0x80 is the left edge of the screen.
    pub x_raw: u16,
}

impl SpriteEntry {
    /// Every field is in the range of its bits.
    pub open spec fn ranged(self) -> bool {
        &&& 1 <= self.w_cells <= 4
        &&& 1 <= self.h_cells <= 4
        &&& self.y_raw < 1024
        &&& self.x_raw < 512
        &&& self.link < 128
        &&& self.palette < 4
        &&& self.tile_index < 2048
    }
}

/// The sprite of an eight-byte table entry.
pub open spec fn sprite_of(b: Seq<u8>) -> SpriteEntry {
    let attr = be16(b, 4);
    SpriteEntry {
        y_raw: (be16(b, 0) % 1024) as u16,
        w_cells: (b[2] as int / 4 % 4 + 1) as u8,
        h_cells: (b[2] as int % 4 + 1) as u8,
        link: (b[3] as int % 128) as u8,
        priority: attr / 32768 % 2 == 1,
        palette: (attr / 8192 % 4) as u8,
        vflip: attr / 4096 % 2 == 1,
        hflip: attr / 2048 % 2 == 1,
        tile_index: (attr % 2048) as u16,
        x_raw: (be16(b, 6) % 512) as u16,
    }
}

/// Decodes an eight-byte sprite table entry.
pub fn decode_sprite_entry(b: &[u8; 8]) -> (r: SpriteEntry)
    ensures
        r == sprite_of(b@),
        r.ranged(),
{
    let attr: u16 = 256 * (b[4] as u16) + b[5] as u16;
    SpriteEntry {
        y_raw: (256 * (b[0] as u16) + b[1] as u16) % 1024,
        w_cells: b[2] / 4 % 4 + 1,
        h_cells: b[2] % 4 + 1,
        link: b[3] % 128,
        priority: attr / 32768 % 2 == 1,
        palette: (attr / 8192 % 4) as u8,
        vflip: attr / 4096 % 2 == 1,
        hflip: attr / 2048 % 2 == 1,
        tile_index: attr % 2048,
        x_raw: (256 * (b[6] as u16) + b[7] as u16) % 512,
    }
}

/// What the VDP registers say about the picture.
#[derive(Debug, Clone, Copy, PartialEq, Eq, Structural)]
pub struct VdpState {
    pub display_enabled: bool,
    pub h40: bool,
    pub plane_w_cells: u32,
    pub plane_h_cells: u32,
    pub backdrop_idx: u8,
    /// 0 and 1 for the whole screen, 2 and 3 per line.
    pub hscroll_mode: u8,
    /// Per two cells rather than for the whole screen.
    pub vscroll_per_cell: bool,
}

/// A number of cells that a plane side can have.
pub open spec fn is_plane_dim(n: u32) -> bool {
    n == 32 || n == 64 || n == 128
}

/// Cells of a plane side.
pub open spec fn plane_dim(code: int) -> u32 {
    if code == 1 {
        64
    } else if code == 3 {
        128
    } else {
        32
    }
}

fn decode_plane_dim(code: u8) -> (r: u32)
    ensures
        r == plane_dim(code as int),
{
    match code {
        1 => 64,
        3 => 128,
        _ => 32,
    }
}

/// What the registers say.
pub open spec fn state_of(reg: Seq<u8>) -> VdpState {
    VdpState {
        display_enabled: reg[1] as int / 64 % 2 == 1,
        h40: reg[12] as int % 2 == 1,
        plane_w_cells: plane_dim(reg[16] as int % 4),
        plane_h_cells: plane_dim(reg[16] as int / 16 % 4),
        backdrop_idx: (reg[7] as int % 64) as u8,
        hscroll_mode: (reg[11] as int % 4) as u8,
        vscroll_per_cell: reg[11] as int / 4 % 2 == 1,
    }
}

/// Reads what the registers say.
pub fn parse_vdp_state(reg: &[u8; 19]) -> (r: VdpState)
    ensures
        r == state_of(reg@),
        is_plane_dim(r.plane_w_cells),
        is_plane_dim(r.plane_h_cells),
        r.backdrop_idx < 64,
{
    VdpState {
        display_enabled: reg[1] / 64 % 2 == 1,
        h40: reg[12] % 2 == 1,
        plane_w_cells: decode_plane_dim(reg[16] % 4),
        plane_h_cells: decode_plane_dim(reg[16] / 16 % 4),
        backdrop_idx: reg[7] % 64,
        hscroll_mode: reg[11] % 4,
        vscroll_per_cell: reg[11] / 4 % 2 == 1,
    }
}

/// A byte of VRAM; addresses wrap around.
pub open spec fn vram_at(vram: Seq<u8>, a: int) -> u8 {
    vram[a % 65536]
}

fn vram_byte(vram: &[u8; 0x10000], a: u32) -> (r: u8)
    ensures
        r == vram_at(vram@, a as int),
{
    vram[(a % 65536) as usize]
}

/// The big-endian word at a wrapping VRAM address.
pub open spec fn vram_word(vram: Seq<u8>, a: int) -> int {
    256 * vram_at(vram, a) + vram_at(vram, a + 1)
}

fn vram_be16(vram: &[u8; 0x10000], a: u32) -> (r: u16)
    requires
        a < u32::MAX,
    ensures
        r == vram_word(vram@, a as int),
{
    256 * (vram_byte(vram, a) as u16) + vram_byte(vram, a + 1) as u16
}

/// Whole turns around VRAM do not matter.
proof fn lemma_wraps(vram: Seq<u8>, base: int, k: int)
    ensures
        vram_at(vram, base % 65536 + k) == vram_at(vram, base + k),
        vram_word(vram, base % 65536 + k) == vram_word(vram, base + k),
{
    let turns = base / 65536;
    assert(base == 65536 * turns + base % 65536);
    vstd::arithmetic::div_mod::lemma_mod_multiples_vanish(turns, base % 65536 + k, 65536);
    vstd::arithmetic::div_mod::lemma_mod_multiples_vanish(turns, base % 65536 + k + 1, 65536);
}

/// The four-bit pixel of a tile row at `row_at`.
pub open spec fn pixel_in_row(vram: Seq<u8>, row_at: int, col: int) -> u8 {
    let b = vram_at(vram, row_at + col / 2);
    if col % 2 == 0 {
        b / 16
    } else {
        b % 16
    }
}

fn row_pixel(vram: &[u8; 0x10000], row_at: u32, col: u32) -> (r: u8)
    requires
        row_at <= 0x1000_0000,
        col < 8,
    ensures
        r == pixel_in_row(vram@, row_at as int, col as int),
        r < 16,
{
    let b: u8 = vram_byte(vram, row_at + col / 2);
    if col % 2 == 0 {
        b / 16
    } else {
        b % 16
    }
}

/// `i`, counted from the other end of `n` when flipped.
pub open spec fn flipped(i: int, n: int, flip: bool) -> int {
    if flip {
        n - 1 - i
    } else {
        i
    }
}

/// The four-bit pixel of a tile, which may be flipped.
pub open spec fn tile_pixel(
    vram: Seq<u8>,
    tile: int,
    row: int,
    col: int,
    hflip: bool,
    vflip: bool,
) -> u8 {
    pixel_in_row(vram, tile * 32 + flipped(row, 8, vflip) * 4, flipped(col, 8, hflip))
}

fn tile_sample(
    vram: &[u8; 0x10000],
    tile: u32,
    row: u32,
    col: u32,
    hflip: bool,
    vflip: bool,
) -> (r: u8)
    requires
        tile < 4096,
        row < 8,
        col < 8,
    ensures
        r == tile_pixel(vram@, tile as int, row as int, col as int, hflip, vflip),
        r < 16,
{
    let r: u32 = if vflip {
        7 - row
    } else {
        row
    };
    let c: u32 = if hflip {
        7 - col
    } else {
        col
    };
    row_pixel(vram, tile * 32 + r * 4, c)
}

/// Decodes a tile to 64 pixels, row by row.
pub fn decode_tile(vram: &[u8; 0x10000], tile_index: u16, hflip: bool, vflip: bool) -> (r: [u8; 64])
    requires
        tile_index < 2048,
    ensures
        forall|i: int|
            0 <= i < 64 ==> #[trigger] r@[i] == tile_pixel(
                vram@,
                tile_index as int,
                i / 8,
                i % 8,
                hflip,
                vflip,
            ),
{
    let mut px: [u8; 64] = [0; 64];
    let mut i: usize = 0;
    while i < 64
        invariant
            i <= 64,
            tile_index < 2048,
            forall|j: int|
                0 <= j < i ==> #[trigger] px@[j] == tile_pixel(
                    vram@,
                    tile_index as int,
                    j / 8,
                    j % 8,
                    hflip,
                    vflip,
                ),
        decreases 64 - i,
    {
        px[i] = tile_sample(
            vram,
            tile_index as u32,
            (i / 8) as u32,
            (i % 8) as u32,
            hflip,
            vflip,
        );
        i += 1;
    }
    px
}

/// The nametable word of a plane cell; cells wrap around the plane.
pub open spec fn cell_word(
    vram: Seq<u8>,
    base: int,
    plane_w: int,
    plane_h: int,
    cx: int,
    cy: int,
) -> int {
    vram_word(vram, base + (cy % plane_h * plane_w + cx % plane_w) * 2)
}

fn nametable_word_at(
    vram: &[u8; 0x10000],
    base: u32,
    plane_w: u32,
    plane_h: u32,
    cx: u32,
    cy: u32,
) -> (r: u16)
    requires
        is_plane_dim(plane_w),
        is_plane_dim(plane_h),
    ensures
        r == cell_word(
            vram@,
            base as int,
            plane_w as int,
            plane_h as int,
            cx as int,
            cy as int,
        ),
{
    let x: u32 = cx % plane_w;
    let y: u32 = cy % plane_h;
    proof {
        assert(0 <= y * plane_w <= 128 * 128) by (nonlinear_arith)
            requires
                0 <= y <= 128,
                0 <= plane_w <= 128,
        ;
        lemma_wraps(vram@, base as int, (y * plane_w + x) * 2);
    }
    vram_be16(vram, base % 65536 + (y * plane_w + x) * 2)
}

/// The colour number that a cell shows at one of its pixels, when it has the
/// wanted priority and is not transparent there.
pub open spec fn cell_colour(
    vram: Seq<u8>,
    cell: NametableCell,
    row: int,
    col: int,
    high: bool,
) -> Option<u8> {
    let p = tile_pixel(vram, cell.tile_index as int, row, col, cell.hflip, cell.vflip);
    if cell.priority == high && p != 0 {
        Some((cell.palette * 16 + p) as u8)
    } else {
        None
    }
}

/// The colour number of a plane at a screen position, of cells of the wanted
/// priority; `None` where the plane is transparent.
#[verifier::opaque]
pub open spec fn plane_pixel(
    vram: Seq<u8>,
    base: int,
    st: VdpState,
    x: int,
    line: int,
    hscroll: int,
    vscroll: int,
    high: bool,
) -> Option<u8> {
    let wy = (line + vscroll) % (8 * st.plane_h_cells);
    let wx = (x - hscroll) % (8 * st.plane_w_cells);
    let word = cell_word(
        vram,
        base,
        st.plane_w_cells as int,
        st.plane_h_cells as int,
        wx / 8,
        wy / 8,
    );
    cell_colour(vram, cell_of(word), wy % 8, wx % 8, high)
}

/// A world position on a plane side of `cells` cells.
fn on_plane(v: i32, cells: u32) -> (r: u32)
    requires
        is_plane_dim(cells),
        -4096 <= v <= 4096,
    ensures
        r == v as int % (8 * cells),
        r < 1024,
{
    // 4096 is a multiple of every plane side, so adding it keeps the remainder.
    let up: u32 = (v + 4096) as u32;
    if cells == 32 {
        up % 256
    } else if cells == 64 {
        up % 512
    } else {
        up % 1024
    }
}

/// The colour number of a plane at a screen position.
fn plane_sample(
    vram: &[u8; 0x10000],
    base: u32,
    st: &VdpState,
    x: u32,
    line: u32,
    hscroll: i32,
    vscroll: i32,
    high: bool,
) -> (r: Option<u8>)
    requires
        is_plane_dim(st.plane_w_cells),
        is_plane_dim(st.plane_h_cells),
        x < 320,
        line < 224,
        -512 <= hscroll < 512,
        0 <= vscroll < 2048,
    ensures
        r == plane_pixel(
            vram@,
            base as int,
            *st,
            x as int,
            line as int,
            hscroll as int,
            vscroll as int,
            high,
        ),
        r matches Some(c) ==> c < 64,
{
    let wy: u32 = on_plane(line as i32 + vscroll, st.plane_h_cells);
    let wx: u32 = on_plane(x as i32 - hscroll, st.plane_w_cells);
    let word: u16 = nametable_word_at(
        vram,
        base,
        st.plane_w_cells,
        st.plane_h_cells,
        wx / 8,
        wy / 8,
    );
    let cell = decode_nametable_entry(word);
    proof {
        reveal(plane_pixel);
    }
    if cell.priority != high {
        return None;
    }
    let p: u8 = tile_sample(
        vram,
        cell.tile_index as u32,
        wy % 8,
        wx % 8,
        cell.hflip,
        cell.vflip,
    );
    if p != 0 {
        Some(cell.palette * 16 + p)
    } else {
        None
    }
}

/// A ten-bit scroll value with its sign.
pub open spec fn signed10(v: int) -> int {
    if v % 1024 >= 512 {
        v % 1024 - 1024
    } else {
        v % 1024
    }
}

fn sign10(v: u16) -> (r: i32)
    ensures
        r == signed10(v as int),
        -512 <= r < 512,
{
    let low: i32 = (v % 1024) as i32;
    if low >= 512 {
        low - 1024
    } else {
        low
    }
}

/// Where a line's entry lies in the horizontal scroll table.
pub open spec fn hscroll_offset(st: VdpState, line: int) -> int {
    if st.hscroll_mode <= 1 {
        0
    } else {
        4 * line
    }
}

/// Horizontal scroll of planes A and B in a line.
#[verifier::opaque]
pub open spec fn hscroll_of(vram: Seq<u8>, base: int, st: VdpState, line: int) -> (int, int) {
    let at = base + hscroll_offset(st, line);
    (signed10(vram_word(vram, at)), signed10(vram_word(vram, at + 2)))
}

/// Horizontal scroll of planes A and B in a line.
fn read_hscroll(vram: &[u8; 0x10000], table_base: u32, st: &VdpState, line: u32) -> (r: (i32, i32))
    requires
        line < 224,
    ensures
        (r.0 as int, r.1 as int) == hscroll_of(vram@, table_base as int, *st, line as int),
        -512 <= r.0 < 512,
        -512 <= r.1 < 512,
{
    let off: u32 = if st.hscroll_mode <= 1 {
        0
    } else {
        4 * line
    };
    proof {
        reveal(hscroll_of);
        lemma_wraps(vram@, table_base as int, off as int);
        lemma_wraps(vram@, table_base as int, off + 2);
    }
    let at: u32 = table_base % 65536 + off;
    (sign10(vram_be16(vram, at)), sign10(vram_be16(vram, at + 2)))
}

/// Where the vertical scroll entry of a column of two cells lies, for plane A or,
/// with `second` 1, plane B; the last entry serves the columns behind it.
pub open spec fn vscroll_at(col: int, per_cell: bool, second: int) -> int {
    let at = if per_cell {
        col * 4 + 2 * second
    } else {
        2 * second
    };
    if at > 78 {
        78
    } else {
        at
    }
}

/// Vertical scroll of planes A and B in a column.
#[verifier::opaque]
pub open spec fn vscroll_of(vsram: Seq<u8>, col: int, st: VdpState) -> (int, int) {
    (
        be16(vsram, vscroll_at(col, st.vscroll_per_cell, 0)) % 2048,
        be16(vsram, vscroll_at(col, st.vscroll_per_cell, 1)) % 2048,
    )
}

/// Vertical scroll of planes A and B in a column of 16 pixels.
fn read_vscroll(vsram: &[u8; 80], col: u32, st: &VdpState) -> (r: (i32, i32))
    requires
        col <= 20,
    ensures
        (r.0 as int, r.1 as int) == vscroll_of(vsram@, col as int, *st),
        0 <= r.0 < 2048,
        0 <= r.1 < 2048,
{
    let first: usize = if st.vscroll_per_cell {
        (col * 4) as usize
    } else {
        0
    };
    let a: usize = if first > 78 {
        78
    } else {
        first
    };
    let b: usize = if first + 2 > 78 {
        78
    } else {
        first + 2
    };
    proof {
        reveal(vscroll_of);
    }
    (
        ((256 * (vsram[a] as u16) + vsram[a + 1] as u16) % 2048) as i32,
        ((256 * (vsram[b] as u16) + vsram[b + 1] as u16) % 2048) as i32,
    )
}

/// The eight bytes of sprite table entry `i`.
pub open spec fn sprite_bytes(vram: Seq<u8>, sat: int, i: int) -> Seq<u8> {
    Seq::new(8, |k: int| vram_at(vram, sat + (i * 8 + k)))
}

/// The sprite of table entry `i`.
#[verifier::opaque]
pub open spec fn sprite(vram: Seq<u8>, sat: int, i: int) -> SpriteEntry {
    sprite_of(sprite_bytes(vram, sat, i))
}

fn read_sprite(vram: &[u8; 0x10000], sat: u32, i: u8) -> (r: SpriteEntry)
    ensures
        r == sprite(vram@, sat as int, i as int),
        r.ranged(),
{
    let at: u32 = sat % 65536 + (i as u32) * 8;
    let b: [u8; 8] = [
        vram_byte(vram, at),
        vram_byte(vram, at + 1),
        vram_byte(vram, at + 2),
        vram_byte(vram, at + 3),
        vram_byte(vram, at + 4),
        vram_byte(vram, at + 5),
        vram_byte(vram, at + 6),
        vram_byte(vram, at + 7),
    ];
    proof {
        reveal(sprite);
        assert forall|k: int| 0 <= k < 8 implies b@[k] == #[trigger] sprite_bytes(
            vram@,
            sat as int,
            i as int,
        )[k] by {
            lemma_wraps(vram@, sat as int, i * 8 + k);
        }
        assert(b@ =~= sprite_bytes(vram@, sat as int, i as int));
    }
    decode_sprite_entry(&b)
}

/// The sprites in drawing order: from `i` on along the links, behind those
/// already `seen`, until a link of 0 or a sprite that was seen.
pub open spec fn chain(vram: Seq<u8>, sat: int, i: int, seen: Seq<int>) -> Seq<int>
    decreases 80 - seen.len(),
{
    if seen.len() >= 80 || seen.contains(i) {
        seen
    } else {
        let link = sprite(vram, sat, i).link as int;
        if link == 0 {
            seen.push(i)
        } else {
            chain(vram, sat, link, seen.push(i))
        }
    }
}

/// Whether following the links from `i` on stays inside the table of 80
/// sprites.
pub open spec fn chain_inside(vram: Seq<u8>, sat: int, i: int, seen: Seq<int>) -> bool
    decreases 80 - seen.len(),
{
    seen.len() >= 80 || (0 <= i < 80 && (seen.contains(i) || sprite(vram, sat, i).link == 0
        || chain_inside(vram, sat, sprite(vram, sat, i).link as int, seen.push(i))))
}

/// Which sprites have been seen.
struct Visited {
    flags: [bool; 80],
    list: Ghost<Seq<int>>,
}

impl Visited {
    spec fn wf(self) -> bool {
        forall|k: int| 0 <= k < 80 ==> (#[trigger] self.flags@[k] <==> self.list@.contains(k))
    }

    fn new() -> (r: Self)
        ensures
            r.wf(),
            r.list@ == Seq::<int>::empty(),
    {
        Visited { flags: [false; 80], list: Ghost(Seq::empty()) }
    }

    fn mark(&mut self, idx: u8)
        requires
            old(self).wf(),
            idx < 80,
        ensures
            final(self).wf(),
            final(self).list@ == old(self).list@.push(idx as int),
    {
        let ghost seen = self.list@;
        let ghost flags = self.flags@;
        self.flags[idx as usize] = true;
        self.list = Ghost(seen.push(idx as int));
        proof {
            let now = self.list@;
            assert(now[seen.len() as int] == idx);
            assert forall|k: int| 0 <= k < 80 implies (#[trigger] self.flags@[k]
                <==> now.contains(k)) by {
                if k != idx {
                    assert(self.flags@[k] == flags[k]);
                    if seen.contains(k) {
                        let m = choose|m: int| 0 <= m < seen.len() && seen[m] == k;
                        assert(now[m] == k);
                    }
                    if now.contains(k) {
                        let m = choose|m: int| 0 <= m < now.len() && now[m] == k;
                        assert(seen[m] == k);
                    }
                }
            }
        }
    }
}

/// Whether following the sprite links stays inside the table.
pub fn sprite_links_inside(vram: &[u8; 0x10000], sat: u32) -> (r: bool)
    ensures
        r == chain_inside(vram@, sat as int, 0, seq![]),
{
    let mut visited = Visited::new();
    let mut idx: u8 = 0;
    let mut step: u32 = 0;
    while step < 80
        invariant
            step <= 80,
            visited.wf(),
            visited.list@.len() == step,
            chain_inside(vram@, sat as int, idx as int, visited.list@) == chain_inside(
                vram@,
                sat as int,
                0,
                seq![],
            ),
        decreases 80 - step,
    {
        if idx >= 80 {
            return false;
        }
        if visited.flags[idx as usize] {
            return true;
        }
        let s = read_sprite(vram, sat, idx);
        if s.link == 0 {
            return true;
        }
        visited.mark(idx);
        idx = s.link;
        step += 1;
    }
    true
}

/// The colour number of a sprite at a screen position; `None` outside it, where
/// it is transparent, and when it has the other priority.
#[verifier::opaque]
pub open spec fn sprite_pixel(vram: Seq<u8>, s: SpriteEntry, x: int, line: int, high: bool) -> Option<
    u8,
> {
    let row = line - (s.y_raw - 0x80);
    let col = x - (s.x_raw - 0x80);
    let h = s.h_cells * 8;
    let w = s.w_cells * 8;
    if s.priority != high || row < 0 || row >= h || col < 0 || col >= w {
        None
    } else {
        let r = flipped(row, h, s.vflip);
        let c = flipped(col, w, s.hflip);
        let tile = s.tile_index + c / 8 * s.h_cells + r / 8;
        let p = tile_pixel(vram, tile, r % 8, c % 8, false, false);
        if p != 0 {
            Some((s.palette * 16 + p) as u8)
        } else {
            None
        }
    }
}

fn sprite_sample(vram: &[u8; 0x10000], s: &SpriteEntry, x: u32, line: u32, high: bool) -> (r: Option<
    u8,
>)
    requires
        s.ranged(),
        x < 320,
        line < 224,
    ensures
        r == sprite_pixel(vram@, *s, x as int, line as int, high),
        r matches Some(c) ==> c < 64,
{
    let row: i32 = line as i32 - (s.y_raw as i32 - 0x80);
    let col: i32 = x as i32 - (s.x_raw as i32 - 0x80);
    let h: i32 = s.h_cells as i32 * 8;
    let w: i32 = s.w_cells as i32 * 8;
    proof {
        reveal(sprite_pixel);
    }
    if s.priority != high || row < 0 || row >= h || col < 0 || col >= w {
        return None;
    }
    let r: u32 = (if s.vflip {
        h - 1 - row
    } else {
        row
    }) as u32;
    let c: u32 = (if s.hflip {
        w - 1 - col
    } else {
        col
    }) as u32;
    let column: u32 = c / 8;
    proof {
        assert(0 <= column * s.h_cells <= 4 * 4) by (nonlinear_arith)
            requires
                0 <= column <= 4,
                0 <= s.h_cells <= 4,
        ;
    }
    let tile: u32 = s.tile_index as u32 + column * (s.h_cells as u32) + r / 8;
    let p: u8 = tile_sample(vram, tile, r % 8, c % 8, false, false);
    if p != 0 {
        Some(s.palette * 16 + p)
    } else {
        None
    }
}

/// The colour number of the first of the sprites `list` that shows at a screen
/// position.
pub open spec fn first_shown(
    vram: Seq<u8>,
    sat: int,
    list: Seq<int>,
    x: int,
    line: int,
    high: bool,
) -> Option<u8>
    decreases list.len(),
{
    if list.len() == 0 {
        None
    } else {
        or(
            first_shown(vram, sat, list.drop_last(), x, line, high),
            sprite_pixel(vram, sprite(vram, sat, list.last()), x, line, high),
        )
    }
}

/// The sprite layer at a screen position.
#[verifier::opaque]
pub open spec fn sprite_layer(vram: Seq<u8>, sat: int, x: int, line: int, high: bool) -> Option<u8> {
    first_shown(vram, sat, chain(vram, sat, 0, seq![]), x, line, high)
}

/// Whether a line of colour numbers is one per position, each below 64.
spec fn is_layer(v: Seq<Option<u8>>, width: int) -> bool {
    &&& v.len() == width
    &&& forall|k: int| 0 <= k < width ==> (#[trigger] v[k] matches Some(c) ==> c < 64)
}

/// Draws a sprite behind what a line already shows.
fn draw_behind(
    out: &mut Vec<Option<u8>>,
    vram: &[u8; 0x10000],
    s: &SpriteEntry,
    width: u32,
    line: u32,
    high: bool,
)
    requires
        s.ranged(),
        width <= 320,
        line < 224,
        is_layer(old(out)@, width as int),
    ensures
        is_layer(final(out)@, width as int),
        forall|j: int|
            0 <= j < width ==> #[trigger] final(out)@[j] == or(
                old(out)@[j],
                sprite_pixel(vram@, *s, j, line as int, high),
            ),
{
    let ghost before = out@;
    let mut x: u32 = 0;
    while x < width
        invariant
            x <= width <= 320,
            line < 224,
            s.ranged(),
            is_layer(before, width as int),
            is_layer(out@, width as int),
            forall|j: int| x <= j < width ==> #[trigger] out@[j] == before[j],
            forall|j: int|
                0 <= j < x ==> #[trigger] out@[j] == or(
                    before[j],
                    sprite_pixel(vram@, *s, j, line as int, high),
                ),
        decreases width - x,
    {
        if out[x as usize].is_none() {
            let c = sprite_sample(vram, s, x, line, high);
            out.set(x as usize, c);
        }
        x += 1;
    }
}

/// The sprite layer of a line.
fn render_sprites_line(
    vram: &[u8; 0x10000],
    sat: u32,
    width: u32,
    line: u32,
    high: bool,
) -> (r: Vec<Option<u8>>)
    requires
        width <= 320,
        line < 224,
        chain_inside(vram@, sat as int, 0, seq![]),
    ensures
        is_layer(r@, width as int),
        forall|x: int|
            0 <= x < width ==> #[trigger] r@[x] == sprite_layer(
                vram@,
                sat as int,
                x,
                line as int,
                high,
            ),
{
    let mut out: Vec<Option<u8>> = Vec::new();
    let mut n: u32 = 0;
    while n < width
        invariant
            n <= width,
            out@.len() == n,
            forall|x: int| 0 <= x < n ==> #[trigger] out@[x] == None::<u8>,
        decreases width - n,
    {
        out.push(None);
        n += 1;
    }
    let mut visited = Visited::new();
    let mut idx: u8 = 0;
    let mut step: u32 = 0;
    let ghost goal = chain(vram@, sat as int, 0, seq![]);
    while step < 80
        invariant_except_break
            chain(vram@, sat as int, idx as int, visited.list@) == goal,
            chain_inside(vram@, sat as int, idx as int, visited.list@),
        invariant
            step <= 80,
            visited.wf(),
            visited.list@.len() == step,
            width <= 320,
            line < 224,
            is_layer(out@, width as int),
            forall|x: int|
                0 <= x < width ==> #[trigger] out@[x] == first_shown(
                    vram@,
                    sat as int,
                    visited.list@,
                    x,
                    line as int,
                    high,
                ),
        ensures
            visited.list@ == goal,
        decreases 80 - step,
    {
        if visited.flags[idx as usize] {
            break;
        }
        let s = read_sprite(vram, sat, idx);
        let ghost seen = visited.list@;
        let ghost before = out@;
        visited.mark(idx);
        draw_behind(&mut out, vram, &s, width, line, high);
        proof {
            let now = visited.list@;
            assert(now.drop_last() =~= seen);
            assert(now.last() == idx);
            assert forall|x: int| 0 <= x < width implies #[trigger] out@[x] == first_shown(
                vram@,
                sat as int,
                now,
                x,
                line as int,
                high,
            ) by {
                assert(before[x] == first_shown(vram@, sat as int, seen, x, line as int, high));
            }
        }
        step += 1;
        if s.link == 0 {
            break;
        }
        idx = s.link;
    }
    proof {
        reveal(sprite_layer);
    }
    out
}

/// The first of two colour numbers that is there.
pub open spec fn or(a: Option<u8>, b: Option<u8>) -> Option<u8> {
    match a {
        Some(c) => Some(c),
        None => b,
    }
}

fn pick(a: Option<u8>, b: Option<u8>) -> (r: Option<u8>)
    ensures
        r == or(a, b),
{
    match a {
        Some(c) => Some(c),
        None => b,
    }
}

/// What a picture is drawn from.
pub struct Scene {
    pub reg: Seq<u8>,
    /// Red, green and blue of the 64 colours.
    pub palette: Seq<[u8; 3]>,
    pub vram: Seq<u8>,
    pub vsram: Seq<u8>,
    /// VRAM address of plane A.
    pub bga: int,
    /// VRAM address of plane B.
    pub bgb: int,
    /// VRAM address of the sprite table.
    pub slist: int,
    /// VRAM address of the horizontal scroll table.
    pub hscroll: int,
}

impl Scene {
    /// What the registers say.
    pub open spec fn state(self) -> VdpState {
        state_of(self.reg)
    }

    /// Pixels of a line.
    pub open spec fn width(self) -> int {
        if self.state().h40 {
            320
        } else {
            256
        }
    }

    /// The sprite layer at a screen position.
    pub open spec fn sprites(self, x: int, line: int, high: bool) -> Option<u8> {
        sprite_layer(self.vram, self.slist, x, line, high)
    }

    /// Plane A at a screen position.
    pub open spec fn plane_a(self, x: int, line: int, high: bool) -> Option<u8> {
        plane_pixel(
            self.vram,
            self.bga,
            self.state(),
            x,
            line,
            hscroll_of(self.vram, self.hscroll, self.state(), line).0,
            vscroll_of(self.vsram, x / 16, self.state()).0,
            high,
        )
    }

    /// Plane B at a screen position.
    pub open spec fn plane_b(self, x: int, line: int, high: bool) -> Option<u8> {
        plane_pixel(
            self.vram,
            self.bgb,
            self.state(),
            x,
            line,
            hscroll_of(self.vram, self.hscroll, self.state(), line).1,
            vscroll_of(self.vsram, x / 16, self.state()).1,
            high,
        )
    }

    /// The colour number at a screen position: the sprites, plane A and plane B
    /// of high priority, then those of low priority.
    pub open spec fn top(self, x: int, line: int) -> Option<u8> {
        or(
            self.sprites(x, line, true),
            or(
                self.plane_a(x, line, true),
                or(
                    self.plane_b(x, line, true),
                    or(
                        self.sprites(x, line, false),
                        or(self.plane_a(x, line, false), self.plane_b(x, line, false)),
                    ),
                ),
            ),
        )
    }

    /// The colour shown at a screen position: black while the display is off,
    /// the backdrop where nothing is drawn.
    #[verifier::opaque]
    pub open spec fn colour(self, x: int, line: int) -> Seq<u8> {
        if !self.state().display_enabled {
            seq![0u8, 0u8, 0u8]
        } else {
            match self.top(x, line) {
                Some(c) => self.palette[c as int % 64]@,
                None => self.palette[self.state().backdrop_idx as int]@,
            }
        }
    }

    /// The picture's bytes: red, green and blue of each position, line by line.
    pub open spec fn picture(self) -> Seq<u8> {
        Seq::new(
            (self.width() * 224 * 3) as nat,
            |i: int| self.colour(i / 3 % self.width(), i / 3 / self.width())[i % 3],
        )
    }

    /// Whether the sprite links can be followed, if they have to be.
    pub open spec fn drawable(self) -> bool {
        self.state().display_enabled ==> chain_inside(self.vram, self.slist, 0, seq![])
    }
}

/// The scene of a picture's inputs.
pub open spec fn scene_of(
    reg: Seq<u8>,
    palette: Seq<[u8; 3]>,
    vram: Seq<u8>,
    vsram: Seq<u8>,
    bga: u32,
    bgb: u32,
    slist: u32,
    hscroll: u32,
) -> Scene {
    Scene {
        reg,
        palette,
        vram,
        vsram,
        bga: bga as int,
        bgb: bgb as int,
        slist: slist as int,
        hscroll: hscroll as int,
    }
}

/// The colour number on top at a screen position, given the two sprite layers.
fn top_at(
    vram: &[u8; 0x10000],
    vsram: &[u8; 80],
    bga: u32,
    bgb: u32,
    st: &VdpState,
    x: u32,
    line: u32,
    scroll: (i32, i32),
    low: Option<u8>,
    high: Option<u8>,
    scene: Ghost<Scene>,
) -> (r: Option<u8>)
    requires
        scene@.vram == vram@,
        scene@.vsram == vsram@,
        scene@.bga == bga,
        scene@.bgb == bgb,
        *st == scene@.state(),
        is_plane_dim(st.plane_w_cells),
        is_plane_dim(st.plane_h_cells),
        x < 320,
        line < 224,
        (scroll.0 as int, scroll.1 as int) == hscroll_of(
            scene@.vram,
            scene@.hscroll,
            *st,
            line as int,
        ),
        -512 <= scroll.0 < 512,
        -512 <= scroll.1 < 512,
        low == scene@.sprites(x as int, line as int, false),
        high == scene@.sprites(x as int, line as int, true),
        low matches Some(c) ==> c < 64,
        high matches Some(c) ==> c < 64,
    ensures
        r == scene@.top(x as int, line as int),
        r matches Some(c) ==> c < 64,
{
    let (va, vb) = read_vscroll(vsram, x / 16, st);
    let ha = plane_sample(vram, bga, st, x, line, scroll.0, va, true);
    let hb = plane_sample(vram, bgb, st, x, line, scroll.1, vb, true);
    let la = plane_sample(vram, bga, st, x, line, scroll.0, va, false);
    let lb = plane_sample(vram, bgb, st, x, line, scroll.1, vb, false);
    pick(high, pick(ha, pick(hb, pick(low, pick(la, lb)))))
}

/// Appends a pixel at its place in the picture.
fn push_pixel(rgb: &mut Vec<u8>, c: &[u8; 3], x: u32, line: u32, width: u32, scene: Ghost<Scene>)
    requires
        width == scene@.width(),
        x < width,
        line < 224,
        c@ == scene@.colour(x as int, line as int),
        old(rgb)@ == scene@.picture().take((line * width + x) * 3),
        old(rgb)@.len() == (line * width + x) * 3,
    ensures
        final(rgb)@ == scene@.picture().take((line * width + x + 1) * 3),
        final(rgb)@.len() == (line * width + x + 1) * 3,
{
    proof {
        let want = scene@.picture();
        let n = line * width + x;
        if width == 320 {
            assert(n == 320 * line + x);
            assert((320 * line + x) / 320 == line && (320 * line + x) % 320 == x);
            assert(3 * n + 3 <= 320 * 224 * 3);
        } else {
            assert(n == 256 * line + x);
            assert((256 * line + x) / 256 == line && (256 * line + x) % 256 == x);
            assert(3 * n + 3 <= 256 * 224 * 3);
        }
        assert((3 * n) / 3 == n && (3 * n + 1) / 3 == n && (3 * n + 2) / 3 == n);
        assert((3 * n) % 3 == 0 && (3 * n + 1) % 3 == 1 && (3 * n + 2) % 3 == 2);
        assert(want[3 * n] == c@[0]);
        assert(want[3 * n + 1] == c@[1]);
        assert(want[3 * n + 2] == c@[2]);
    }
    rgb.push(c[0]);
    rgb.push(c[1]);
    rgb.push(c[2]);
    proof {
        assert(rgb@ =~= scene@.picture().take((line * width + x + 1) * 3));
    }
}

/// Draws a line behind the lines above it.
fn push_line(
    rgb: &mut Vec<u8>,
    st: &VdpState,
    palette: &[[u8; 3]; 64],
    vram: &[u8; 0x10000],
    vsram: &[u8; 80],
    at: (u32, u32, u32, u32),
    width: u32,
    line: u32,
    scene: Ghost<Scene>,
)
    requires
        scene@.palette == palette@,
        scene@.vram == vram@,
        scene@.vsram == vsram@,
        scene@.bga == at.0,
        scene@.bgb == at.1,
        scene@.slist == at.2,
        scene@.hscroll == at.3,
        scene@.drawable(),
        *st == scene@.state(),
        is_plane_dim(st.plane_w_cells),
        is_plane_dim(st.plane_h_cells),
        st.backdrop_idx < 64,
        width == scene@.width(),
        line < 224,
        old(rgb)@ == scene@.picture().take(line * width * 3),
        old(rgb)@.len() == line * width * 3,
    ensures
        final(rgb)@ == scene@.picture().take((line + 1) * width * 3),
        final(rgb)@.len() == (line + 1) * width * 3,
{
    let (low, high, scroll): (Vec<Option<u8>>, Vec<Option<u8>>, (i32, i32)) = if st.display_enabled {
        (
            render_sprites_line(vram, at.2, width, line, false),
            render_sprites_line(vram, at.2, width, line, true),
            read_hscroll(vram, at.3, st, line),
        )
    } else {
        (Vec::new(), Vec::new(), (0, 0))
    };
    let mut x: u32 = 0;
    while x < width
        invariant
            x <= width,
            scene@.palette == palette@,
            scene@.vram == vram@,
            scene@.vsram == vsram@,
            scene@.bga == at.0,
            scene@.bgb == at.1,
            *st == scene@.state(),
            is_plane_dim(st.plane_w_cells),
            is_plane_dim(st.plane_h_cells),
            st.backdrop_idx < 64,
            width == scene@.width(),
            line < 224,
            st.display_enabled ==> {
                &&& is_layer(low@, width as int)
                &&& is_layer(high@, width as int)
                &&& (scroll.0 as int, scroll.1 as int) == hscroll_of(
                    scene@.vram,
                    scene@.hscroll,
                    *st,
                    line as int,
                )
                &&& -512 <= scroll.0 < 512
                &&& -512 <= scroll.1 < 512
                &&& forall|k: int|
                    0 <= k < width ==> #[trigger] low@[k] == scene@.sprites(k, line as int, false)
                &&& forall|k: int|
                    0 <= k < width ==> #[trigger] high@[k] == scene@.sprites(k, line as int, true)
            },
            rgb@ == scene@.picture().take((line * width + x) * 3),
            rgb@.len() == (line * width + x) * 3,
        decreases width - x,
    {
        let c: [u8; 3] = if st.display_enabled {
            match top_at(
                vram,
                vsram,
                at.0,
                at.1,
                st,
                x,
                line,
                scroll,
                low[x as usize],
                high[x as usize],
                scene,
            ) {
                Some(c) => palette[c as usize],
                None => palette[st.backdrop_idx as usize],
            }
        } else {
            [0, 0, 0]
        };
        proof {
            reveal(Scene::colour);
            if !st.display_enabled {
                assert(c@ =~= seq![0u8, 0u8, 0u8]);
            }
            assert(c@ == scene@.colour(x as int, line as int));
        }
        push_pixel(rgb, &c, x, line, width, scene);
        x += 1;
    }
    proof {
        if width == 320 {
            assert((line + 1) * 320 == line * 320 + 320);
        } else {
            assert((line + 1) * 256 == line * 256 + 256);
        }
    }
}

/// Draws the picture; gives its bytes and its width. While the display is on,
/// the sprite links must stay inside the table.
pub fn render_rgb(
    reg: &[u8; 19],
    palette: &[[u8; 3]; 64],
    vram: &[u8; 0x10000],
    vsram: &[u8; 80],
    bga: u32,
    bgb: u32,
    slist: u32,
    hscroll_table: u32,
) -> (r: (Vec<u8>, usize))
    requires
        state_of(reg@).display_enabled ==> chain_inside(vram@, slist as int, 0, seq![]),
    ensures
        ({
            let scene = scene_of(
                reg@,
                palette@,
                vram@,
                vsram@,
                bga,
                bgb,
                slist,
                hscroll_table,
            );
            r.1 == scene.width() && r.0@ == scene.picture()
        }),
{
    let st = parse_vdp_state(reg);
    let width: u32 = if st.h40 {
        320
    } else {
        256
    };
    let ghost scene = scene_of(reg@, palette@, vram@, vsram@, bga, bgb, slist, hscroll_table);
    let mut rgb: Vec<u8> = Vec::new();
    let mut line: u32 = 0;
    proof {
        assert(rgb@ =~= scene.picture().take(0));
    }
    while line < 224
        invariant
            line <= 224,
            scene == scene_of(reg@, palette@, vram@, vsram@, bga, bgb, slist, hscroll_table),
            scene.drawable(),
            st == scene.state(),
            is_plane_dim(st.plane_w_cells),
            is_plane_dim(st.plane_h_cells),
            st.backdrop_idx < 64,
            width == scene.width(),
            rgb@ == scene.picture().take(line * width * 3),
            rgb@.len() == line * width * 3,
        decreases 224 - line,
    {
        push_line(
            &mut rgb,
            &st,
            palette,
            vram,
            vsram,
            (bga, bgb, slist, hscroll_table),
            width,
            line,
            Ghost(scene),
        );
        line += 1;
    }
    proof {
        assert(rgb@ =~= scene.picture());
    }
    (rgb, width as usize)
}

/// Draws the picture and encodes it as a PNG without alpha.
pub fn render_png(
    reg: &[u8; 19],
    palette: &[[u8; 3]; 64],
    vram: &[u8; 0x10000],
    vsram: &[u8; 80],
    bga: u32,
    bgb: u32,
    slist: u32,
    hscroll_table: u32,
) -> (file: Vec<u8>)
    requires
        state_of(reg@).display_enabled ==> chain_inside(vram@, slist as int, 0, seq![]),
    ensures
        ({
            let scene = scene_of(
                reg@,
                palette@,
                vram@,
                vsram@,
                bga,
                bgb,
                slist,
                hscroll_table,
            );
            &&& file@ == png_file(scene.picture(), scene.width() as u32, 224, false)
            &&& png_head(file@, scene.width() as u32, 224)
        }),
{
    let (rgb, width) = render_rgb(reg, palette, vram, vsram, bga, bgb, slist, hscroll_table);
    match png_encode(rgb.as_slice(), width as u32, 224, false) {
        Ok(file) => file,
        Err(_) => Vec::new(),
    }
}

/// The register copies that a read gave; they are 19 bytes.
pub fn reg_values_reply(raw: &[u8]) -> (r: Result<[u8; 19], String>)
    ensures
        match r {
            Ok(reg) => reg@ == raw@,
            Err(m) => raw@.len() != 19 && m@ == "regValues read returned "@ + dec(raw@.len())
                + " bytes (expected 19)"@,
        },
{
    if raw.len() != 19 {
        let mut m = "regValues read returned ".to_owned();
        push_dec(&mut m, raw.len() as u128);
        m.append(" bytes (expected 19)");
        return Err(m);
    }
    let mut reg: [u8; 19] = [0; 19];
    let mut i: usize = 0;
    while i < 19
        invariant
            i <= 19,
            raw@.len() == 19,
            forall|j: int| 0 <= j < i ==> reg@[j] == raw@[j],
        decreases 19 - i,
    {
        reg[i] = raw[i];
        i += 1;
    }
    proof {
        assert(reg@ =~= raw@);
    }
    Ok(reg)
}

/// The big-endian word that a read of two bytes at `addr` gave.
pub fn read_u16_be(addr: u32, raw: &[u8]) -> (r: Result<u16, String>)
    ensures
        match r {
            Ok(w) => raw@.len() == 2 && w == be16(raw@, 0),
            Err(m) => raw@.len() != 2 && m@ == "read_memory@0x"@ + lower(hex(addr as nat, 1))
                + ": expected 2 bytes, got "@ + dec(raw@.len()),
        },
{
    if raw.len() != 2 {
        let mut m = "read_memory@0x".to_owned();
        m.append(lower_hex(addr as u64, 1).as_str());
        m.append(": expected 2 bytes, got ");
        push_dec(&mut m, raw.len() as u128);
        return Err(m);
    }
    Ok(256 * (raw[0] as u16) + raw[1] as u16)
}

/// Layers cover each other in a fixed order: the sprites, plane A and plane B of
/// high priority, then those of low priority; the backdrop shows only where
/// nothing is drawn, and nothing shows while the display is off.
pub proof fn law_layer_order(scene: Scene, x: int, line: int, c: u8)
    ensures
        ({
            let hs = scene.sprites(x, line, true);
            let ha = scene.plane_a(x, line, true);
            let hb = scene.plane_b(x, line, true);
            let ls = scene.sprites(x, line, false);
            let la = scene.plane_a(x, line, false);
            let lb = scene.plane_b(x, line, false);
            let shown = scene.colour(x, line);
            let want = scene.palette[c as int % 64]@;
            scene.state().display_enabled ==> {
                &&& scene.top(x, line) is None ==> shown
                    == scene.palette[scene.state().backdrop_idx as int]@
                &&& hs == Some(c) ==> shown == want
                &&& hs is None && ha == Some(c) ==> shown == want
                &&& hs is None && ha is None && hb == Some(c) ==> shown == want
                &&& hs is None && ha is None && hb is None ==> {
                    &&& ls == Some(c) ==> shown == want
                    &&& ls is None && la == Some(c) ==> shown == want
                    &&& ls is None && la is None && lb == Some(c) ==> shown == want
                    &&& ls is None && la is None && lb is None ==> shown
                        == scene.palette[scene.state().backdrop_idx as int]@
                }
            }
        }),
        !scene.state().display_enabled ==> scene.colour(x, line) == seq![0u8, 0u8, 0u8],
{
    reveal(Scene::colour);
}

/// Drawing order ends: no sprite is drawn twice, and never more than 80 are.
pub proof fn law_chain_ends(vram: Seq<u8>, sat: int, i: int, seen: Seq<int>)
    requires
        seen.no_duplicates(),
        seen.len() <= 80,
    ensures
        chain(vram, sat, i, seen).no_duplicates(),
        chain(vram, sat, i, seen).len() <= 80,
    decreases 80 - seen.len(),
{
    if !(seen.len() >= 80 || seen.contains(i)) {
        assert(seen.push(i).no_duplicates());
        let link = sprite(vram, sat, i).link as int;
        if link != 0 {
            law_chain_ends(vram, sat, link, seen.push(i));
        }
    }
}

/// The steps of the brightness ramp.
pub proof fn law_intensity_ramp()
    ensures
        intensity(0) == 0,
        intensity(1) == 52,
        intensity(2) == 87,
        intensity(3) == 116,
        intensity(4) == 144,
        intensity(5) == 172,
        intensity(6) == 206,
        intensity(7) == 255,
{
}

/// A colour word `0000 BBB0 GGG0 RRR0` shows its three components, red first,
/// whatever its unused bits are.
pub proof fn law_shown_components(word: int, r: int, g: int, b: int, unused: (int, int, int, int))
    requires
        0 <= r < 8,
        0 <= g < 8,
        0 <= b < 8,
        0 <= unused.0 < 16,
        0 <= unused.1 < 2,
        0 <= unused.2 < 2,
        0 <= unused.3 < 2,
        word == 4096 * unused.0 + 512 * b + 256 * unused.1 + 32 * g + 16 * unused.2 + 2 * r
            + unused.3,
    ensures
        shown_colour(word) == seq![intensity(r), intensity(g), intensity(b)],
{
    crate::emulator::decode::lemma_components(word, r, g, b, unused);
}

/// A table entry can be put together again from its sprite: its attribute word
/// from priority, palette, flips and tile, the low half of its size byte from the
/// size; position and link are the low bits of their fields.
pub proof fn law_entry_keeps_bytes(b: Seq<u8>)
    requires
        b.len() == 8,
    ensures
        ({
            let s = sprite_of(b);
            &&& 256 * b[4] + b[5] == 32768 * bit(s.priority) + 8192 * s.palette + 4096 * bit(
                s.vflip,
            ) + 2048 * bit(s.hflip) + s.tile_index
            &&& 4 * (s.w_cells - 1) + (s.h_cells - 1) == b[2] as int % 16
            &&& s.y_raw == (256 * b[0] + b[1]) % 1024
            &&& s.x_raw == (256 * b[6] + b[7]) % 512
            &&& s.link == b[3] as int % 128
            &&& s.ranged()
        }),
{
}

/// Entry `i` of the sprite table is the eight bytes at `sat + 8 * i`, around the
/// end of VRAM.
pub proof fn law_table_entry(vram: Seq<u8>, sat: int, i: int, b: Seq<u8>)
    requires
        b.len() == 8,
        forall|k: int| 0 <= k < 8 ==> #[trigger] b[k] == vram[(sat + 8 * i + k) % 65536],
    ensures
        sprite(vram, sat, i) == sprite_of(b),
{
    reveal(sprite);
    assert(sprite_bytes(vram, sat, i) =~= b);
}

/// Register 1 switches the display on with bit 6; register 7 names the backdrop
/// by line and entry; register 11 holds the scroll modes; register 12 asks for 40
/// cells with bit 0; register 16 gives the plane's width and height in steps of 32
/// cells.
pub proof fn law_registers(
    reg: Seq<u8>,
    display: bool,
    line: int,
    entry: int,
    hmode: int,
    per_cell: bool,
    h40: bool,
    size: (int, int),
    unused: (int, int, int, int, int, int, int),
)
    requires
        reg.len() == 19,
        0 <= unused.0 < 2,
        0 <= unused.1 < 64,
        reg[1] == 128 * unused.0 + 64 * bit(display) + unused.1,
        0 <= line < 4,
        0 <= entry < 16,
        0 <= unused.2 < 4,
        reg[7] == 64 * unused.2 + 16 * line + entry,
        0 <= hmode < 4,
        0 <= unused.3 < 32,
        reg[11] == 8 * unused.3 + 4 * bit(per_cell) + hmode,
        0 <= unused.4 < 128,
        reg[12] == 2 * unused.4 + bit(h40),
        size.0 == 1 || size.0 == 2 || size.0 == 4,
        size.1 == 1 || size.1 == 2 || size.1 == 4,
        0 <= unused.5 < 4,
        0 <= unused.6 < 4,
        reg[16] == 64 * unused.6 + 16 * (size.1 - 1) + 4 * unused.5 + (size.0 - 1),
    ensures
        ({
            let st = state_of(reg);
            &&& st.display_enabled == display
            &&& st.backdrop_idx == 16 * line + entry
            &&& st.hscroll_mode == hmode
            &&& st.vscroll_per_cell == per_cell
            &&& st.h40 == h40
            &&& st.plane_w_cells == 32 * size.0
            &&& st.plane_h_cells == 32 * size.1
        }),
{
}

/// A tile is 32 bytes, four to a row; of each byte the high half is the left
/// pixel.
pub proof fn law_tile_bytes(vram: Seq<u8>, tile: int, row: int, k: int)
    requires
        0 <= tile,
        0 <= row < 8,
        0 <= k < 4,
    ensures
        ({
            let left = tile_pixel(vram, tile, row, 2 * k, false, false);
            let right = tile_pixel(vram, tile, row, 2 * k + 1, false, false);
            &&& 16 * left + right == vram[(32 * tile + 4 * row + k) % 65536]
            &&& left < 16
            &&& right < 16
        }),
{
    assert(tile * 32 + row * 4 + (2 * k) / 2 == 32 * tile + 4 * row + k);
    assert(tile * 32 + row * 4 + (2 * k + 1) / 2 == 32 * tile + 4 * row + k);
    assert((2 * k) % 2 == 0 && (2 * k + 1) % 2 == 1);
}

/// A flipped tile is the mirror image of the tile.
pub proof fn law_tile_mirror(vram: Seq<u8>, tile: int, row: int, col: int, hflip: bool, vflip: bool)
    ensures
        tile_pixel(vram, tile, row, col, true, vflip) == tile_pixel(
            vram,
            tile,
            row,
            7 - col,
            false,
            vflip,
        ),
        tile_pixel(vram, tile, row, col, hflip, true) == tile_pixel(
            vram,
            tile,
            7 - row,
            col,
            hflip,
            false,
        ),
{
}

/// The half of a byte that is the left pixel, or the right one.
pub open spec fn half(b: u8, right: bool) -> int {
    if right {
        b as int % 16
    } else {
        b as int / 16
    }
}

/// The colour number of pixel `p` of a palette line; pixel 0 is transparent.
pub open spec fn coloured(palette: u8, p: int) -> Option<u8> {
    if p == 0 {
        None
    } else {
        Some((16 * palette + p) as u8)
    }
}

proof fn lemma_tile_half(vram: Seq<u8>, tile: int, row: int, col: int)
    requires
        0 <= tile,
        0 <= row < 8,
        0 <= col < 8,
    ensures
        tile_pixel(vram, tile, row, col, false, false) == half(
            vram[(32 * tile + 4 * row + col / 2) % 65536],
            col % 2 == 1,
        ),
{
    assert(tile * 32 + row * 4 + col / 2 == 32 * tile + 4 * row + col / 2);
}

/// The pixels of a sprite that is not flipped: its tiles stand in columns, so the
/// pixel at column `x` and row `y` is pixel `x % 8` of row `y % 8` of tile
/// `x / 8 * height + y / 8` behind its first. A position of 128 is the screen's
/// edge. Nothing shows among the sprites of the other priority.
pub proof fn law_sprite_tiles(vram: Seq<u8>, s: SpriteEntry, x: int, y: int)
    requires
        s.ranged(),
        !s.hflip,
        !s.vflip,
        0 <= x < 8 * s.w_cells,
        0 <= y < 8 * s.h_cells,
    ensures
        ({
            let tile = s.tile_index + x / 8 * s.h_cells + y / 8;
            let b = vram[(32 * tile + 4 * (y % 8) + x % 8 / 2) % 65536];
            &&& sprite_pixel(vram, s, s.x_raw - 128 + x, s.y_raw - 128 + y, s.priority) == coloured(
                s.palette,
                half(b, x % 2 == 1),
            )
            &&& sprite_pixel(vram, s, s.x_raw - 128 + x, s.y_raw - 128 + y, !s.priority) is None
        }),
{
    reveal(sprite_pixel);
    let tile = s.tile_index + x / 8 * s.h_cells + y / 8;
    assert(0 <= x / 8 * s.h_cells) by (nonlinear_arith)
        requires
            0 <= x,
            0 <= s.h_cells,
    ;
    lemma_tile_half(vram, tile, y % 8, x % 8);
    assert(x % 8 % 2 == x % 2);
}

/// In a sprite that is not flipped, one cell down is the next tile, and one cell
/// right is as many tiles on as the sprite is cells high.
pub proof fn law_sprite_steps(
    vram: Seq<u8>,
    s: SpriteEntry,
    down: SpriteEntry,
    right: SpriteEntry,
    x: int,
    y: int,
    high: bool,
)
    requires
        s.ranged(),
        !s.hflip,
        !s.vflip,
        down == (SpriteEntry { tile_index: (s.tile_index + 1) as u16, ..s }),
        right == (SpriteEntry { tile_index: (s.tile_index + s.h_cells) as u16, ..s }),
    ensures
        ({
            let sx = s.x_raw - 128 + x;
            let sy = s.y_raw - 128 + y;
            &&& 0 <= y < 8 * (s.h_cells - 1) ==> sprite_pixel(vram, s, sx, sy + 8, high)
                == sprite_pixel(vram, down, sx, sy, high)
            &&& 0 <= x < 8 * (s.w_cells - 1) ==> sprite_pixel(vram, s, sx + 8, sy, high)
                == sprite_pixel(vram, right, sx, sy, high)
        }),
{
    reveal(sprite_pixel);
    assert((y + 8) / 8 == y / 8 + 1 && (y + 8) % 8 == y % 8);
    assert((x + 8) / 8 == x / 8 + 1 && (x + 8) % 8 == x % 8);
    assert((x / 8 + 1) * s.h_cells == x / 8 * s.h_cells + s.h_cells) by (nonlinear_arith);
}

/// A flipped sprite is the mirror image of the sprite, as a whole.
pub proof fn law_sprite_mirror(
    vram: Seq<u8>,
    s: SpriteEntry,
    other: SpriteEntry,
    tall: SpriteEntry,
    x: int,
    y: int,
    high: bool,
)
    requires
        s.ranged(),
        other == (SpriteEntry { hflip: !s.hflip, ..s }),
        tall == (SpriteEntry { vflip: !s.vflip, ..s }),
    ensures
        ({
            let left = s.x_raw - 128;
            let top = s.y_raw - 128;
            &&& sprite_pixel(vram, other, left + x, top + y, high) == sprite_pixel(
                vram,
                s,
                left + (8 * s.w_cells - 1 - x),
                top + y,
                high,
            )
            &&& sprite_pixel(vram, tall, left + x, top + y, high) == sprite_pixel(
                vram,
                s,
                left + x,
                top + (8 * s.h_cells - 1 - y),
                high,
            )
        }),
{
    reveal(sprite_pixel);
}

/// A sprite shows nowhere outside its cells.
pub proof fn law_sprite_bounds(vram: Seq<u8>, s: SpriteEntry, x: int, line: int, high: bool)
    requires
        s.ranged(),
        x < s.x_raw - 128 || x >= s.x_raw - 128 + 8 * s.w_cells || line < s.y_raw - 128 || line
            >= s.y_raw - 128 + 8 * s.h_cells,
    ensures
        sprite_pixel(vram, s, x, line, high) is None,
{
    reveal(sprite_pixel);
}

/// Of the sprites at a position the first one drawn that is not transparent there
/// shows; with none of them there is nothing.
pub proof fn law_front_sprite_shows(
    vram: Seq<u8>,
    sat: int,
    list: Seq<int>,
    k: int,
    x: int,
    line: int,
    high: bool,
)
    requires
        0 <= k <= list.len(),
        forall|j: int|
            0 <= j < k ==> sprite_pixel(vram, #[trigger] sprite(vram, sat, list[j]), x, line, high)
                is None,
    ensures
        k < list.len() && sprite_pixel(vram, sprite(vram, sat, list[k]), x, line, high) is Some
            ==> first_shown(vram, sat, list, x, line, high) == sprite_pixel(
            vram,
            sprite(vram, sat, list[k]),
            x,
            line,
            high,
        ),
        k == list.len() ==> first_shown(vram, sat, list, x, line, high) is None,
    decreases list.len(),
{
    if list.len() > 0 {
        let front = list.drop_last();
        assert forall|j: int| 0 <= j < front.len() implies front[j] == list[j] by {}
        assert forall|j: int| 0 <= j < k && j < front.len() implies sprite_pixel(
            vram,
            #[trigger] sprite(vram, sat, front[j]),
            x,
            line,
            high,
        ) is None by {
            assert(sprite_pixel(vram, sprite(vram, sat, list[j]), x, line, high) is None);
        }
        if k < list.len() {
            law_front_sprite_shows(vram, sat, front, k, x, line, high);
        } else {
            law_front_sprite_shows(vram, sat, front, k - 1, x, line, high);
            assert(sprite_pixel(vram, sprite(vram, sat, list[k - 1]), x, line, high) is None);
        }
    }
}

/// Sprites are drawn from the first table entry on, each followed by the one that
/// it links to; the order ends only at a link of 0, at a sprite that was drawn
/// already, or after 80.
pub proof fn law_chain_follows_links(vram: Seq<u8>, sat: int, i: int, seen: Seq<int>, k: int)
    requires
        seen.len() < 80,
        !seen.contains(i),
    ensures
        ({
            let c = chain(vram, sat, i, seen);
            &&& c.len() > seen.len()
            &&& c.take(seen.len() as int) == seen
            &&& c[seen.len() as int] == i
            &&& seen.len() <= k && k + 1 < c.len() ==> sprite(vram, sat, c[k]).link != 0 && c[k + 1]
                == sprite(vram, sat, c[k]).link
            &&& c.len() < 80 && sprite(vram, sat, c.last()).link != 0 ==> c.contains(
                sprite(vram, sat, c.last()).link as int,
            )
        }),
    decreases 80 - seen.len(),
{
    let link = sprite(vram, sat, i).link as int;
    let next = seen.push(i);
    assert(next.take(seen.len() as int) =~= seen);
    if link != 0 && next.len() < 80 && !next.contains(link) {
        law_chain_follows_links(vram, sat, link, next, k);
        let c = chain(vram, sat, link, next);
        assert(chain(vram, sat, i, seen) == c);
        assert(c.take(seen.len() as int) =~= c.take(next.len() as int).take(seen.len() as int));
        assert(c[seen.len() as int] == c.take(next.len() as int)[seen.len() as int]);
    } else {
        assert(link != 0 ==> chain(vram, sat, link, next) == next);
        assert(chain(vram, sat, i, seen) == next);
    }
}

/// The sprite layer shows the first sprite along the links from the table's first
/// entry on that is not transparent.
pub proof fn law_layer_follows_links(
    vram: Seq<u8>,
    sat: int,
    k: int,
    x: int,
    line: int,
    high: bool,
)
    requires
        ({
            let c = chain(vram, sat, 0, seq![]);
            &&& 0 <= k < c.len()
            &&& forall|j: int|
                0 <= j < k ==> sprite_pixel(vram, #[trigger] sprite(vram, sat, c[j]), x, line, high)
                    is None
            &&& sprite_pixel(vram, sprite(vram, sat, c[k]), x, line, high) is Some
        }),
    ensures
        sprite_layer(vram, sat, x, line, high) == sprite_pixel(
            vram,
            sprite(vram, sat, chain(vram, sat, 0, seq![])[k]),
            x,
            line,
            high,
        ),
        chain(vram, sat, 0, seq![])[0] == 0,
{
    reveal(sprite_layer);
    law_chain_follows_links(vram, sat, 0, seq![], 0);
    law_front_sprite_shows(vram, sat, chain(vram, sat, 0, seq![]), k, x, line, high);
}

/// Links that stay inside the table never name a sprite beyond its 80.
pub proof fn law_inside_is_below_80(vram: Seq<u8>, sat: int, i: int, seen: Seq<int>, k: int)
    requires
        chain_inside(vram, sat, i, seen),
        forall|j: int| 0 <= j < seen.len() ==> 0 <= #[trigger] seen[j] < 80,
        0 <= k < chain(vram, sat, i, seen).len(),
    ensures
        0 <= chain(vram, sat, i, seen)[k] < 80,
    decreases 80 - seen.len(),
{
    if !(seen.len() >= 80 || seen.contains(i)) {
        let link = sprite(vram, sat, i).link as int;
        if link != 0 {
            law_inside_is_below_80(vram, sat, link, seen.push(i), k);
        }
    }
}

/// Cells of a plane lie row by row, two bytes each, high byte first, and repeat
/// beyond the plane's sides.
pub proof fn law_cell_place(vram: Seq<u8>, base: int, w: int, h: int, cx: int, cy: int)
    requires
        w == 32 || w == 64 || w == 128,
        h == 32 || h == 64 || h == 128,
        0 <= cx < w,
        0 <= cy < h,
    ensures
        ({
            let at = base + 2 * (w * cy + cx);
            cell_word(vram, base, w, h, cx, cy) == 256 * vram[at % 65536] + vram[(at + 1) % 65536]
        }),
        cell_word(vram, base, w, h, cx + w, cy) == cell_word(vram, base, w, h, cx, cy),
        cell_word(vram, base, w, h, cx, cy + h) == cell_word(vram, base, w, h, cx, cy),
{
    vstd::arithmetic::div_mod::lemma_small_mod(cx as nat, w as nat);
    vstd::arithmetic::div_mod::lemma_small_mod(cy as nat, h as nat);
    vstd::arithmetic::div_mod::lemma_mod_add_multiples_vanish(cx, w);
    vstd::arithmetic::div_mod::lemma_mod_add_multiples_vanish(cy, h);
    assert(cy * w == w * cy) by (nonlinear_arith);
}

/// An unscrolled plane shows, at each of its pixels, the pixel of its cell's tile,
/// mirrored as the cell says, in the cell's palette line, among the cells of its
/// priority alone.
pub proof fn law_plane_cells(
    vram: Seq<u8>,
    base: int,
    st: VdpState,
    x: int,
    line: int,
    cell: NametableCell,
    high: bool,
)
    requires
        is_plane_dim(st.plane_w_cells),
        is_plane_dim(st.plane_h_cells),
        0 <= x < 8 * st.plane_w_cells,
        0 <= line < 8 * st.plane_h_cells,
        cell.palette < 4,
        cell.tile_index < 2048,
        ({
            let at = base + 2 * (st.plane_w_cells * (line / 8) + x / 8);
            256 * vram[at % 65536] + vram[(at + 1) % 65536] == 32768 * bit(cell.priority) + 8192
                * cell.palette + 4096 * bit(cell.vflip) + 2048 * bit(cell.hflip) + cell.tile_index
        }),
    ensures
        ({
            let row = if cell.vflip {
                7 - line % 8
            } else {
                line % 8
            };
            let col = if cell.hflip {
                7 - x % 8
            } else {
                x % 8
            };
            let b = vram[(32 * cell.tile_index + 4 * row + col / 2) % 65536];
            plane_pixel(vram, base, st, x, line, 0, 0, high) == if cell.priority == high {
                coloured(cell.palette, half(b, col % 2 == 1))
            } else {
                None
            }
        }),
{
    reveal(plane_pixel);
    let w = st.plane_w_cells as int;
    let h = st.plane_h_cells as int;
    law_cell_place(vram, base, w, h, x / 8, line / 8);
    vstd::arithmetic::div_mod::lemma_small_mod(line as nat, (8 * h) as nat);
    vstd::arithmetic::div_mod::lemma_small_mod(x as nat, (8 * w) as nat);
    let word = cell_word(vram, base, w, h, x / 8, line / 8);
    lemma_cell_fields(word, cell);
    let row = if cell.vflip {
        7 - line % 8
    } else {
        line % 8
    };
    let col = if cell.hflip {
        7 - x % 8
    } else {
        x % 8
    };
    lemma_tile_half(vram, cell.tile_index as int, row, col);
}

proof fn lemma_cell_fields(word: int, cell: NametableCell)
    requires
        cell.palette < 4,
        cell.tile_index < 2048,
        word == 32768 * bit(cell.priority) + 8192 * cell.palette + 4096 * bit(cell.vflip) + 2048
            * bit(cell.hflip) + cell.tile_index,
    ensures
        cell_of(word) == cell,
{
}

/// Scrolling moves a plane: right by the horizontal scroll and up by the vertical
/// one. Planes repeat beyond their sides.
pub proof fn law_scroll_moves(
    vram: Seq<u8>,
    base: int,
    st: VdpState,
    x: int,
    line: int,
    h: int,
    v: int,
    high: bool,
)
    requires
        is_plane_dim(st.plane_w_cells),
        is_plane_dim(st.plane_h_cells),
    ensures
        plane_pixel(vram, base, st, x, line, h, v, high) == plane_pixel(
            vram,
            base,
            st,
            x - h,
            line + v,
            0,
            0,
            high,
        ),
        plane_pixel(vram, base, st, x + 8 * st.plane_w_cells, line, h, v, high) == plane_pixel(
            vram,
            base,
            st,
            x,
            line,
            h,
            v,
            high,
        ),
        plane_pixel(vram, base, st, x, line + 8 * st.plane_h_cells, h, v, high) == plane_pixel(
            vram,
            base,
            st,
            x,
            line,
            h,
            v,
            high,
        ),
{
    reveal(plane_pixel);
    let w = 8 * st.plane_w_cells;
    let t = 8 * st.plane_h_cells;
    vstd::arithmetic::div_mod::lemma_mod_add_multiples_vanish(x - h, w);
    vstd::arithmetic::div_mod::lemma_mod_add_multiples_vanish(line + v, t);
    assert(w + (x - h) == x + w - h);
    assert(t + (line + v) == line + t + v);
}

/// The horizontal scroll table holds a word for plane A and one for plane B, ten
/// bits with a sign each: one pair for the whole screen, or one for every line.
pub proof fn law_hscroll_table(vram: Seq<u8>, base: int, st: VdpState, line: int, a: int, b: int)
    requires
        -512 <= a < 512,
        -512 <= b < 512,
        ({
            let at = base + if st.hscroll_mode < 2 {
                0
            } else {
                4 * line
            };
            &&& (256 * vram[at % 65536] + vram[(at + 1) % 65536] - a) % 1024 == 0
            &&& (256 * vram[(at + 2) % 65536] + vram[(at + 3) % 65536] - b) % 1024 == 0
        }),
    ensures
        hscroll_of(vram, base, st, line) == (a, b),
{
    reveal(hscroll_of);
    let at = base + hscroll_offset(st, line);
    assert(vram_word(vram, at) == 256 * vram[at % 65536] + vram[(at + 1) % 65536]);
    assert(vram_word(vram, at + 2) == 256 * vram[(at + 2) % 65536] + vram[(at + 3) % 65536]);
    lemma_signed10(vram_word(vram, at), a);
    lemma_signed10(vram_word(vram, at + 2), b);
}

proof fn lemma_signed10(w: int, a: int)
    requires
        -512 <= a < 512,
        (w - a) % 1024 == 0,
    ensures
        signed10(w) == a,
{
}

/// The vertical scroll memory holds a word for plane A and one for plane B, eleven
/// bits each: one pair for the whole screen, or one for every column of 16 pixels.
/// A column behind the last pair takes the last word for both.
pub proof fn law_vscroll_memory(vsram: Seq<u8>, st: VdpState, col: int, a: int, b: int)
    requires
        vsram.len() == 80,
        0 <= col <= 20,
        0 <= a < 2048,
        0 <= b < 2048,
        ({
            let at = if !st.vscroll_per_cell {
                0
            } else if col < 20 {
                4 * col
            } else {
                78
            };
            let other = if at == 78 {
                78
            } else {
                at + 2
            };
            &&& (256 * vsram[at] + vsram[at + 1] - a) % 2048 == 0
            &&& (256 * vsram[other] + vsram[other + 1] - b) % 2048 == 0
        }),
    ensures
        vscroll_of(vsram, col, st) == (a, b),
{
    reveal(vscroll_of);
    let at = vscroll_at(col, st.vscroll_per_cell, 0);
    let other = vscroll_at(col, st.vscroll_per_cell, 1);
    assert(be16(vsram, at) == 256 * vsram[at] + vsram[at + 1]);
    assert(be16(vsram, other) == 256 * vsram[other] + vsram[other + 1]);
    lemma_low11(be16(vsram, at), a);
    lemma_low11(be16(vsram, other), b);
}

proof fn lemma_low11(w: int, a: int)
    requires
        0 <= a < 2048,
        (w - a) % 2048 == 0,
    ensures
        w % 2048 == a,
{
}

/// Each plane is drawn from its own nametable with its own scroll values, those of
/// the line and of the column of 16 pixels.
pub proof fn law_planes_scroll(scene: Scene, x: int, line: int, high: bool)
    requires
        is_plane_dim(scene.state().plane_w_cells),
        is_plane_dim(scene.state().plane_h_cells),
    ensures
        ({
            let st = scene.state();
            let (ha, hb) = hscroll_of(scene.vram, scene.hscroll, st, line);
            let (va, vb) = vscroll_of(scene.vsram, x / 16, st);
            &&& scene.plane_a(x, line, high) == plane_pixel(
                scene.vram,
                scene.bga,
                st,
                x - ha,
                line + va,
                0,
                0,
                high,
            )
            &&& scene.plane_b(x, line, high) == plane_pixel(
                scene.vram,
                scene.bgb,
                st,
                x - hb,
                line + vb,
                0,
                0,
                high,
            )
        }),
{
    let st = scene.state();
    let (ha, hb) = hscroll_of(scene.vram, scene.hscroll, st, line);
    let (va, vb) = vscroll_of(scene.vsram, x / 16, st);
    law_scroll_moves(scene.vram, scene.bga, st, x, line, ha, va, high);
    law_scroll_moves(scene.vram, scene.bgb, st, x, line, hb, vb, high);
}

/// A picture is 224 lines of 320 or 256 pixels, three bytes each, line by line.
pub proof fn law_picture_layout(scene: Scene, x: int, line: int, k: int)
    requires
        0 <= x < scene.width(),
        0 <= line < 224,
        0 <= k < 3,
    ensures
        scene.width() == if scene.reg[12] as int % 2 == 1 {
            320int
        } else {
            256
        },
        scene.picture().len() == 3 * 224 * scene.width(),
        scene.picture()[3 * (scene.width() * line + x) + k] == scene.colour(x, line)[k],
{
    let w = scene.width();
    let i = 3 * (w * line + x) + k;
    if w == 320 {
        assert(i == 3 * (320 * line + x) + k);
        assert((320 * line + x) / 320 == line && (320 * line + x) % 320 == x);
    } else {
        assert(i == 3 * (256 * line + x) + k);
        assert((256 * line + x) / 256 == line && (256 * line + x) % 256 == x);
    }
    assert(i / 3 == w * line + x && i % 3 == k);
}

/// A scene that can be drawn follows links of its own sprite table that stay inside
/// the 80 entries.
pub proof fn law_drawable_links(scene: Scene, k: int)
    requires
        scene.drawable(),
        scene.state().display_enabled,
        0 <= k < chain(scene.vram, scene.slist, 0, seq![]).len(),
    ensures
        0 <= chain(scene.vram, scene.slist, 0, seq![])[k] < 80,
{
    law_inside_is_below_80(scene.vram, scene.slist, 0, seq![], k);
}

} // verus!
