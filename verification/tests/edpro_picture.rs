//! Frames rendered from the cartridge's video memory, and the debug symbols that
//! lead to it.

use mds_mcp::target::edpro::elf_parse::{
    parse_sgdk_symbols_from_bytes, resolve_symbols, ElfError, ElfFault, ElfSymbol,
};
use mds_mcp::target::edpro::screenshot::{
    decode_cram, decode_nametable_entry, decode_sprite_entry, decode_tile, parse_vdp_state,
    read_u16_be, reg_values_reply, render_png, render_rgb, sprite_links_inside, FRAME_H,
};

#[test]
fn decode_cram_known_color() {
    // Word $0EEE = 0000 1110 1110 1110 -> R=7, G=7, B=7 -> white (255,255,255).
    let mut c = [0u8; 128];
    c[0] = 0x0E;
    c[1] = 0xEE;
    // Word at index 1 = $0002 -> R=1, G=0, B=0 -> R=52.
    c[2] = 0x00;
    c[3] = 0x02;
    // Word at index 2 = $0E00 -> R=0, G=0, B=7 -> B=255.
    c[4] = 0x0E;
    c[5] = 0x00;
    let pal = decode_cram(&c);
    assert_eq!(pal[0], [255, 255, 255]);
    assert_eq!(pal[1], [52, 0, 0]);
    assert_eq!(pal[2], [0, 0, 255]);
}

#[test]
fn decode_nametable_entry_packs_bits() {
    // priority=1, palette=2, vflip=1, hflip=0, tile=0x123
    let word: u16 = 0x8000 | (2 << 13) | 0x1000 | 0x0123;
    let c = decode_nametable_entry(word);
    assert!(c.priority);
    assert_eq!(c.palette, 2);
    assert!(c.vflip);
    assert!(!c.hflip);
    assert_eq!(c.tile_index, 0x123);
}

#[test]
fn decode_sprite_entry_packs_bits() {
    // y=0x180, size=0x05 (w=2, h=2), link=0x07,
    // attr: priority=1, palette=1, vflip=0, hflip=1, tile=0x055
    // x=0x100.
    let attr: u16 = 0x8000 | (1 << 13) | 0x0800 | 0x0055;
    let mut b = [0u8; 8];
    b[0] = 0x01;
    b[1] = 0x80;
    b[2] = 0x05;
    b[3] = 0x07;
    b[4] = (attr >> 8) as u8;
    b[5] = attr as u8;
    b[6] = 0x01;
    b[7] = 0x00;
    let s = decode_sprite_entry(&b);
    assert_eq!(s.y_raw, 0x180);
    assert_eq!(s.w_cells, 2);
    assert_eq!(s.h_cells, 2);
    assert_eq!(s.link, 7);
    assert!(s.priority);
    assert_eq!(s.palette, 1);
    assert!(!s.vflip);
    assert!(s.hflip);
    assert_eq!(s.tile_index, 0x55);
    assert_eq!(s.x_raw, 0x100);
}

#[test]
fn render_blank_when_display_disabled() {
    let reg = [0u8; 19];
    let palette = [[1u8, 2, 3]; 64];
    let vram = Box::new([0xFFu8; 0x10000]);
    let vsram = [0u8; 80];
    let (rgb, w) = render_rgb(&reg, &palette, &vram, &vsram, 0, 0, 0, 0);
    assert_eq!(w, 256); // reg[12] bit 0 = 0: H32
    assert_eq!(rgb.len(), 256 * 224 * 3);
    assert!(rgb.iter().all(|&b| b == 0));
}

#[test]
fn render_h40_backdrop_only() {
    // Display on, H40 (320 px), backdrop = palette index 1.
    let mut reg = [0u8; 19];
    reg[1] = 0x40; // display enable
    reg[12] = 0x01; // H40
    reg[7] = 0x01; // backdrop = palette idx 1
    let mut palette = [[0u8; 3]; 64];
    palette[1] = [11, 22, 33];
    let vram = Box::new([0u8; 0x10000]);
    let vsram = [0u8; 80];
    let (rgb, w) = render_rgb(&reg, &palette, &vram, &vsram, 0, 0, 0, 0);
    assert_eq!(w, 320);
    assert_eq!(rgb.len(), 320 * 224 * 3);
    // First pixel should be the backdrop colour.
    assert_eq!(&rgb[0..3], &[11, 22, 33]);
    // A pixel deep in the frame too.
    let off = (100 * 320 + 200) * 3;
    assert_eq!(&rgb[off..off + 3], &[11, 22, 33]);
}

/// Display on, 256 pixels wide; tile 1 all colour 2, tile 2 all colour 3.
/// Plane A lies at 0x4000, plane B at 0x6000, the sprites at 0x8000.
fn scene() -> ([u8; 19], [[u8; 3]; 64], Box<[u8; 0x10000]>) {
    let mut reg = [0u8; 19];
    reg[1] = 0x40;
    let mut palette = [[0u8; 3]; 64];
    for (i, c) in palette.iter_mut().enumerate() {
        c[0] = i as u8;
    }
    let mut vram = Box::new([0u8; 0x10000]);
    for i in 32..64 {
        vram[i] = 0x22;
    }
    for i in 64..96 {
        vram[i] = 0x33;
    }
    (reg, palette, vram)
}

fn red(rgb: &[u8], x: usize, y: usize) -> u8 {
    rgb[(y * 256 + x) * 3]
}

fn draw(reg: &[u8; 19], palette: &[[u8; 3]; 64], vram: &[u8; 0x10000]) -> Vec<u8> {
    assert!(sprite_links_inside(vram, 0x8000));
    let vsram = [0u8; 80];
    render_rgb(reg, palette, vram, &vsram, 0x4000, 0x6000, 0x8000, 0xA000).0
}

#[test]
fn layers_are_stacked() {
    let (reg, palette, mut vram) = scene();
    // Plane B, cell (0, 0): tile 1.
    vram[0x6001] = 1;
    assert_eq!(red(&draw(&reg, &palette, &vram), 0, 0), 2);
    assert_eq!(red(&draw(&reg, &palette, &vram), 8, 0), 0);
    // Plane A covers it with tile 2 in palette line 1.
    vram[0x4000] = 0x20;
    vram[0x4001] = 2;
    assert_eq!(red(&draw(&reg, &palette, &vram), 7, 7), 16 + 3);
    // Plane B with priority comes out on top.
    vram[0x6000] = 0x80;
    assert_eq!(red(&draw(&reg, &palette, &vram), 0, 0), 2);
}

#[test]
fn sprites_lie_on_the_planes() {
    let (reg, palette, mut vram) = scene();
    vram[0x4001] = 1;
    // Sprite 0 at (0, 0), one cell, tile 2, palette line 2, no link.
    vram[0x8000..0x8008].copy_from_slice(&[0x00, 0x80, 0x00, 0x00, 0x40, 0x02, 0x00, 0x80]);
    let rgb = draw(&reg, &palette, &vram);
    assert_eq!(red(&rgb, 0, 0), 32 + 3);
    assert_eq!(red(&rgb, 7, 7), 32 + 3);
    assert_eq!(red(&rgb, 8, 0), 0);
    assert_eq!(red(&rgb, 0, 8), 0);
    // A plane with priority hides a sprite without.
    vram[0x4000] = 0x80;
    assert_eq!(red(&draw(&reg, &palette, &vram), 0, 0), 2);
    // Both with priority: the sprite.
    vram[0x8004] = 0xC0;
    assert_eq!(red(&draw(&reg, &palette, &vram), 0, 0), 32 + 3);
}

#[test]
fn the_first_sprite_wins() {
    let (reg, palette, mut vram) = scene();
    vram[0x8000..0x8008].copy_from_slice(&[0x00, 0x80, 0x00, 0x01, 0x00, 0x01, 0x00, 0x80]);
    vram[0x8008..0x8010].copy_from_slice(&[0x00, 0x80, 0x04, 0x00, 0x00, 0x02, 0x00, 0x80]);
    let rgb = draw(&reg, &palette, &vram);
    assert_eq!(red(&rgb, 0, 0), 2);
    // The second is two cells wide; its next tile is empty.
    assert_eq!(red(&rgb, 8, 0), 0);
}

#[test]
fn planes_scroll() {
    let (reg, palette, mut vram) = scene();
    vram[0x4001] = 1;
    // Plane A is shifted right by 3.
    vram[0xA001] = 3;
    let rgb = draw(&reg, &palette, &vram);
    assert_eq!((red(&rgb, 2, 0), red(&rgb, 3, 0), red(&rgb, 10, 0), red(&rgb, 11, 0)), (0, 2, 2, 0));
    // And up by 5.
    let mut vsram = [0u8; 80];
    vsram[1] = 5;
    let (rgb, _) = render_rgb(&reg, &palette, &vram, &vsram, 0x4000, 0x6000, 0x8000, 0xA000);
    assert_eq!((red(&rgb, 3, 2), red(&rgb, 3, 3)), (2, 0));
}

#[test]
fn vertical_scroll_is_per_two_cells() {
    let (mut reg, palette, mut vram) = scene();
    reg[11] = 4;
    // The top row of plane A is tile 1, that of plane B tile 2.
    for cell in 0..32 {
        vram[0x4001 + 2 * cell] = 1;
        vram[0x6001 + 2 * cell] = 2;
    }
    let mut vsram = [0u8; 80];
    // Columns 1 and 2 of plane A, and column 2 of plane B, are scrolled away.
    vsram[5] = 8;
    vsram[9] = 8;
    vsram[11] = 8;
    // So is the last column of plane A, and that of plane B by half a cell.
    vsram[61] = 8;
    vsram[63] = 4;
    let (rgb, w) = render_rgb(&reg, &palette, &vram, &vsram, 0x4000, 0x6000, 0x8000, 0xA000);
    assert_eq!(w, 256);
    for (x, c) in [(0, 2), (15, 2), (16, 3), (31, 3), (32, 0), (47, 0), (48, 2), (239, 2), (240, 3)] {
        assert_eq!(red(&rgb, x, 0), c, "pixel {x}");
    }
    assert_eq!((red(&rgb, 255, 3), red(&rgb, 255, 4)), (3, 0));
    // For the whole screen only the first entries count.
    reg[11] = 0;
    let (rgb, _) = render_rgb(&reg, &palette, &vram, &vsram, 0x4000, 0x6000, 0x8000, 0xA000);
    assert_eq!((red(&rgb, 16, 0), red(&rgb, 255, 7)), (2, 2));
}

#[test]
fn links_outside_the_table_are_found() {
    let mut vram = Box::new([0u8; 0x10000]);
    assert!(sprite_links_inside(&vram, 0));
    vram[3] = 79;
    vram[79 * 8 + 3] = 1;
    vram[8 + 3] = 79;
    // A loop stays inside.
    assert!(sprite_links_inside(&vram, 0));
    vram[8 + 3] = 80;
    assert!(!sprite_links_inside(&vram, 0));
    // An entry that is not reached does not matter.
    vram[3] = 0;
    assert!(sprite_links_inside(&vram, 0));
}

#[test]
fn registers_give_the_layout() {
    let mut reg = [0u8; 19];
    reg[1] = 0x40;
    reg[7] = 0x2A;
    reg[11] = 0x07;
    reg[12] = 0x81;
    reg[16] = 0x11;
    let s = parse_vdp_state(&reg);
    assert!(s.display_enabled && s.h40 && s.vscroll_per_cell);
    assert_eq!((s.plane_w_cells, s.plane_h_cells), (64, 64));
    assert_eq!((s.backdrop_idx, s.hscroll_mode), (0x2A, 3));
    assert_eq!(FRAME_H, 224);
}

#[test]
fn tiles_can_be_flipped() {
    let mut vram = Box::new([0u8; 0x10000]);
    vram[32] = 0x12; // first two pixels of tile 1
    let plain = decode_tile(&vram, 1, false, false);
    assert_eq!((plain[0], plain[1]), (1, 2));
    let h = decode_tile(&vram, 1, true, false);
    assert_eq!((h[7], h[6]), (1, 2));
    let v = decode_tile(&vram, 1, false, true);
    assert_eq!((v[56], v[57]), (1, 2));
    let both = decode_tile(&vram, 1, true, true);
    assert_eq!((both[63], both[62]), (1, 2));
}

#[test]
fn frames_are_encoded_as_png() {
    let (mut reg, palette, vram) = scene();
    reg[7] = 5;
    let vsram = [0u8; 80];
    let file = render_png(&reg, &palette, &vram, &vsram, 0x4000, 0x6000, 0x8000, 0xA000);
    let (rgb, w) = render_rgb(&reg, &palette, &vram, &vsram, 0x4000, 0x6000, 0x8000, 0xA000);
    let mut reader = png::Decoder::new(file.as_slice()).read_info().unwrap();
    let mut out = vec![0u8; reader.output_buffer_size()];
    let info = reader.next_frame(&mut out).unwrap();
    assert_eq!((info.width as usize, info.height as usize), (w, FRAME_H));
    assert_eq!(info.color_type, png::ColorType::Rgb);
    assert_eq!(out, rgb);
}

#[test]
fn shadow_replies_are_checked() {
    let raw: Vec<u8> = (0..19).collect();
    assert_eq!(reg_values_reply(&raw).unwrap()[18], 18);
    assert_eq!(
        reg_values_reply(&raw[..18]).unwrap_err(),
        "regValues read returned 18 bytes (expected 19)"
    );
    assert_eq!(read_u16_be(0xFF0000, &[0x12, 0x34]), Ok(0x1234));
    assert!(read_u16_be(0xFF0000, &[0x12]).is_err());
}

/// A 68k ELF with nothing but the given symbols, all absolute.
fn build_elf(syms: &[(&str, u32)]) -> Vec<u8> {
    let mut strtab = vec![0u8];
    let mut symtab = vec![0u8; 16];
    for (name, value) in syms {
        symtab.extend_from_slice(&(strtab.len() as u32).to_be_bytes());
        symtab.extend_from_slice(&value.to_be_bytes());
        symtab.extend_from_slice(&0u32.to_be_bytes());
        symtab.push(1); // a local object
        symtab.push(0);
        symtab.extend_from_slice(&0xFFF1u16.to_be_bytes());
        strtab.extend_from_slice(name.as_bytes());
        strtab.push(0);
    }
    let shstrtab = b"\0.symtab\0.strtab\0.shstrtab\0".to_vec();
    let symtab_at = 52u32;
    let strtab_at = symtab_at + symtab.len() as u32;
    let shstrtab_at = strtab_at + strtab.len() as u32;
    let sections_at = shstrtab_at + shstrtab.len() as u32;
    let mut out = vec![0x7F, b'E', b'L', b'F', 1, 2, 1, 0, 0, 0, 0, 0, 0, 0, 0, 0];
    for half in [1u16, 4] {
        out.extend_from_slice(&half.to_be_bytes());
    }
    for word in [1u32, 0, 0, sections_at, 0] {
        out.extend_from_slice(&word.to_be_bytes());
    }
    for half in [52u16, 0, 0, 40, 4, 3] {
        out.extend_from_slice(&half.to_be_bytes());
    }
    out.extend_from_slice(&symtab);
    out.extend_from_slice(&strtab);
    out.extend_from_slice(&shstrtab);
    let rows: [[u32; 10]; 4] = [
        [0; 10],
        [1, 2, 0, 0, symtab_at, symtab.len() as u32, 2, 1, 4, 16],
        [9, 3, 0, 0, strtab_at, strtab.len() as u32, 0, 0, 1, 0],
        [17, 3, 0, 0, shstrtab_at, shstrtab.len() as u32, 0, 0, 1, 0],
    ];
    for row in rows {
        for word in row {
            out.extend_from_slice(&word.to_be_bytes());
        }
    }
    out
}

fn full_required() -> Vec<(&'static str, u32)> {
    vec![
        ("regValues", 0x00FF_AAAA),
        ("bga_addr", 0x00FF_BBBB),
        ("bgb_addr", 0x00FF_CCCC),
        ("slist_addr", 0x00FF_DDDD),
        ("window_addr", 0x00FF_EEEE),
        ("hscroll", 0x00FF_FFF0),
    ]
}

#[test]
fn parses_required_symbols_round_trip() {
    let bytes = build_elf(&full_required());
    let s = parse_sgdk_symbols_from_bytes(&bytes).unwrap();
    assert_eq!(s.reg_values, 0x00FF_AAAA);
    assert_eq!(s.bga_addr, 0x00FF_BBBB);
    assert_eq!(s.bgb_addr, 0x00FF_CCCC);
    assert_eq!(s.slist_addr, 0x00FF_DDDD);
    assert_eq!(s.window_addr, 0x00FF_EEEE);
    assert_eq!(s.hscroll, 0x00FF_FFF0);
    assert_eq!(s.palette_cache, None);
}

#[test]
fn missing_required_symbol_errors_with_helpful_message() {
    let mut syms = full_required();
    syms.retain(|(n, _)| *n != "slist_addr");
    let bytes = build_elf(&syms);
    let msg = parse_sgdk_symbols_from_bytes(&bytes).unwrap_err().message();
    assert!(msg.contains("slist_addr"), "missing list must include slist_addr: {msg}");
    assert!(
        msg.contains("make debug") || msg.contains("strip"),
        "error must hint at the fix, got: {msg}"
    );
    syms.retain(|(n, _)| *n != "bga_addr");
    match parse_sgdk_symbols_from_bytes(&build_elf(&syms)) {
        Err(ElfError::Missing(names)) => assert_eq!(names, vec!["bga_addr", "slist_addr"]),
        _ => panic!("two are missing"),
    }
}

#[test]
fn palette_cache_optional_first_candidate_wins() {
    let mut syms = full_required();
    syms.push(("paletteCache", 0x00FF_2222));
    syms.push(("palette_cache", 0x00FF_1111));
    let bytes = build_elf(&syms);
    let s = parse_sgdk_symbols_from_bytes(&bytes).unwrap();
    assert_eq!(s.palette_cache, Some(0x00FF_1111));
}

#[test]
fn palette_cache_falls_back_to_lower_priority() {
    let mut syms = full_required();
    syms.push(("palette", 0x00FF_3333));
    let bytes = build_elf(&syms);
    let s = parse_sgdk_symbols_from_bytes(&bytes).unwrap();
    assert_eq!(s.palette_cache, Some(0x00FF_3333));
}

#[test]
fn no_palette_symbol_means_none() {
    let bytes = build_elf(&full_required());
    let s = parse_sgdk_symbols_from_bytes(&bytes).unwrap();
    assert_eq!(s.palette_cache, None);
}

#[test]
fn not_an_elf_errors_cleanly() {
    let err = parse_sgdk_symbols_from_bytes(b"this is not an ELF").unwrap_err();
    assert!(matches!(err, ElfError::Unreadable(ElfFault::File(_))));
    let msg = err.message();
    assert!(msg.contains("ELF") && msg.contains("not a valid"), "got: {msg}");
}

#[test]
fn an_elf_without_symbols_is_stripped() {
    match parse_sgdk_symbols_from_bytes(&build_elf(&[])) {
        Ok(_) => panic!("no symbols"),
        Err(e) => assert!(e.message().contains("m68k-elf-strip")),
    }
    match resolve_symbols(&vec![]) {
        Err(ElfError::Stripped) => {}
        _ => panic!("an empty table"),
    }
}

#[test]
fn other_elf_faults_are_told() {
    let said = |f: ElfFault| ElfError::Unreadable(f).message();
    assert_eq!(said(ElfFault::File("x".to_string())), "not a valid ELF: x");
    assert_eq!(said(ElfFault::Endian("x".to_string())), "ELF endian probe: x");
    assert_eq!(said(ElfFault::Sections("x".to_string())), "ELF sections: x");
    assert_eq!(said(ElfFault::Symtab("x".to_string())), "ELF .symtab: x");
    // The byte order is neither little nor big.
    let mut bytes = build_elf(&full_required());
    bytes[5] = 9;
    assert!(parse_sgdk_symbols_from_bytes(&bytes).is_err());
    // The section table lies beyond the end.
    let mut bytes = build_elf(&full_required());
    bytes[32] = 0x7F;
    assert!(matches!(parse_sgdk_symbols_from_bytes(&bytes), Err(ElfError::Unreadable(_))));
}

#[test]
fn symbols_without_a_name_are_skipped() {
    let mut v: Vec<ElfSymbol> = full_required()
        .into_iter()
        .map(|(n, value)| ElfSymbol { name: Some(n.as_bytes().to_vec()), value })
        .collect();
    v.push(ElfSymbol { name: None, value: 1 });
    assert_eq!(resolve_symbols(&v).unwrap().hscroll, 0x00FF_FFF0);
}
