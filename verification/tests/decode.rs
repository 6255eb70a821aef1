//! Decoding of register blobs, palettes, sprites and tiles.

use mds_mcp::emulator::decode::{
    decode_m68k, decode_palettes, decode_sprites, decode_tile_8x8, decode_vdp_registers,
    decode_z80, M68kRegisters, Rgb, VdpDecoded, Z80Registers,
};

fn synthetic_padded_z80() -> Vec<u8> {
    let mut blob = Vec::with_capacity(32);
    blob.push(0); // register_mode
    blob.push(0); // pad
    blob.extend_from_slice(&123u16.to_le_bytes()); // cycles
    blob.extend_from_slice(&0x1234u16.to_le_bytes()); // pc
    blob.extend_from_slice(&0xFFE0u16.to_le_bytes()); // sp
    blob.extend_from_slice(&[0xAA, 0xBB, 0x11, 0x22, 0x33, 0x44, 0x55, 0x66]);
    blob.extend_from_slice(&[0; 8]);
    blob.extend_from_slice(&[0xC0, 0x0D, 0xBE, 0xEF]);
    blob.extend_from_slice(&[0x77, 0x88]);
    blob.push(1); // interrupts_enabled
    blob.push(0); // interrupt_pending
    blob
}

#[test]
fn z80_padded_layout() {
    let blob = synthetic_padded_z80();
    let regs = decode_z80(&blob, &[1u8, 0u8]).unwrap();
    assert_eq!(regs.cycles, 123);
    assert_eq!(regs.pc, 0x1234);
    assert_eq!(regs.sp, 0xFFE0);
    assert_eq!(regs.af, 0xAABB);
    assert_eq!(regs.bc, 0x1122);
    assert_eq!(regs.de, 0x3344);
    assert_eq!(regs.hl, 0x5566);
    assert_eq!(regs.ix, 0xC00D);
    assert_eq!(regs.iy, 0xBEEF);
    assert!(regs.iff1);
    assert_eq!(regs.im, 1);
    assert!(regs.bus_requested);
    assert!(!regs.bus_reset);
}

#[test]
fn z80_short_blob_is_none() {
    assert!(decode_z80(&[0u8; 8], &[]).is_none());
}

#[test]
fn z80_zero_blob_is_zero_regs() {
    let regs = decode_z80(&[0u8; 32], &[]).unwrap();
    assert_eq!(regs.pc, 0);
    assert_eq!(regs.sp, 0);
    assert_eq!(regs.af, 0);
    assert!(!regs.iff1);
    assert!(!regs.bus_requested);
}

#[test]
fn z80_bus_blob_partial() {
    let blob = synthetic_padded_z80();
    let r = decode_z80(&blob, &[]).unwrap();
    assert!(!r.bus_requested);
    let r = decode_z80(&blob, &[0u8, 1u8]).unwrap();
    assert!(!r.bus_requested);
    assert!(r.bus_reset);
}

#[test]
fn vdp_decode_smoke() {
    let mut blob = vec![0u8; 24];
    blob[1] = 0x40; // display enabled
    blob[5] = 0x10; // sprite table at (0x10 & 0x7F) << 9 = 0x2000
    blob[12] = 0x81; // H40
    let r = decode_vdp_registers(&blob);
    assert!(r.decoded.display_enabled);
    assert!(r.decoded.h40);
    assert_eq!(r.decoded.sprite_table, 0x2000);
}

#[test]
fn vdp_blob_of_any_length_gives_24_registers() {
    let r = decode_vdp_registers(&[]);
    assert_eq!(r.regs, vec![0u8; 24]);
    assert_eq!(r.decoded, VdpDecoded::default());
    let long: Vec<u8> = (0..40).collect();
    let r = decode_vdp_registers(&long);
    assert_eq!(r.regs, (0..24).collect::<Vec<u8>>());
    assert_eq!(r.clone().regs, r.regs);
}

#[test]
fn palettes_widen_three_bits_to_eight() {
    let mut cram = vec![0u8; 128];
    cram[0] = 0x0E;
    cram[1] = 0xEE;
    // Last colour of the last line.
    cram[126] = 0x02;
    cram[127] = 0x00;
    let p = decode_palettes(&cram);
    assert_eq!(p.len(), 4);
    assert!(p.iter().all(|line| line.len() == 16));
    assert_eq!(p[0][0], Rgb { r: 255, g: 255, b: 255 });
    assert_eq!(p[0][1], Rgb { r: 0, g: 0, b: 0 });
    assert_eq!(p[3][15], Rgb { r: 0, g: 0, b: 36 });
    let short = decode_palettes(&cram[..127]);
    assert_eq!(short.len(), 4);
    assert!(short.iter().all(|line| line.is_empty()));
}

#[test]
fn sprites_are_walked_by_their_links() {
    let mut vram = vec![0u8; 0x10000];
    let sat = 0x2000usize;
    // Sprite 0: y 0x80, size 2x1 cells, link 2.
    vram[sat..sat + 8].copy_from_slice(&[0x00, 0x80, 0x04, 0x02, 0xE8, 0x11, 0x01, 0x00]);
    // Sprite 2: link 0 ends the list.
    vram[sat + 16..sat + 24].copy_from_slice(&[0x00, 0x90, 0x0F, 0x00, 0x10, 0x05, 0x00, 0x40]);
    let s = decode_sprites(&vram, 0x2000, 80);
    assert_eq!(s.len(), 2);
    assert_eq!((s[0].index, s[0].y, s[0].x, s[0].link), (0, 0x80, 0x100, 2));
    assert_eq!((s[0].width, s[0].height), (2, 1));
    assert!(s[0].priority && s[0].hflip && !s[0].vflip);
    assert_eq!((s[0].palette, s[0].tile_index), (3, 0x11));
    assert_eq!((s[1].index, s[1].y, s[1].x), (1, 0x90, 0x40));
    assert_eq!((s[1].width, s[1].height), (4, 4));
    assert!(s[1].vflip && !s[1].priority);
    assert_eq!(decode_sprites(&vram, 0x2000, 1).len(), 1);
    assert_eq!(decode_sprites(&[], 0, 80).len(), 0);
}

#[test]
fn a_sprite_loop_stops_at_the_cap() {
    let mut vram = vec![0u8; 64];
    vram[3] = 1;
    vram[11] = 1;
    assert_eq!(decode_sprites(&vram, 0, 80).len(), 80);
}

#[test]
fn m68k_blob_is_little_endian() {
    let mut blob = vec![0u8; 78];
    for i in 0..16usize {
        blob[4 * i] = i as u8 + 1;
    }
    blob[64..68].copy_from_slice(&0x0012_3456u32.to_le_bytes());
    let r = decode_m68k(&blob).unwrap();
    assert_eq!(r.d, [1, 2, 3, 4, 5, 6, 7, 8]);
    assert_eq!(r.a, [9, 10, 11, 12, 13, 14, 15, 16]);
    assert_eq!(r.pc, 0x0012_3456);
    assert!(decode_m68k(&blob[..77]).is_none());
    let zero = M68kRegisters::default();
    assert_eq!((zero.d, zero.a, zero.pc, zero.sr), ([0; 8], [0; 8], 0, 0));
}

#[test]
fn a_tile_has_a_nibble_per_pixel() {
    let mut vram = vec![0u8; 64];
    vram[32] = 0xAB;
    vram[63] = 0x0F;
    let t = decode_tile_8x8(&vram, 1).unwrap();
    assert_eq!(t.len(), 64);
    assert_eq!((t[0], t[1], t[2]), (0x0A, 0x0B, 0));
    assert_eq!((t[62], t[63]), (0, 0x0F));
    assert!(decode_tile_8x8(&vram, 2).is_none());
    assert!(decode_tile_8x8(&vram, u32::MAX).is_none());
}

#[test]
fn pending_interrupts_leave_the_registers_alone() {
    let regs = decode_z80(&synthetic_padded_z80(), &[]).unwrap();
    assert_eq!(Z80Registers::default().im, 0);
    let r = regs.with_pending(true);
    assert_eq!((r.pc, r.sp, r.af), (regs.pc, regs.sp, regs.af));
}
