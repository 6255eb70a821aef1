//! Captured frames, their conversion to RGBA and PNG, and the screenshot tool.

use base64::engine::general_purpose::STANDARD;
use base64::Engine;
use mds_mcp::emulator::frame::{
    rgba8_to_png, to_rgba8, Frame, FrameSlot, PixelFormat, PngError,
};
use mds_mcp::tools::{mega_screenshot, ScreenshotArgs, ToolReply};

#[test]
fn rgb565_to_png_roundtrip() {
    // 16x8 frame: top half red, bottom half blue, in RGB565.
    let (w, h) = (16u32, 8u32);
    let pitch = (w as usize) * 2;
    let mut data = vec![0u8; pitch * h as usize];
    let red: u16 = 0xF800; // R=31 G=0 B=0
    let blue: u16 = 0x001F; // R=0 G=0 B=31
    for y in 0..(h as usize) {
        let pix = if y < (h as usize) / 2 { red } else { blue };
        for x in 0..(w as usize) {
            let off = y * pitch + x * 2;
            data[off..off + 2].copy_from_slice(&pix.to_le_bytes());
        }
    }
    let frame = Frame {
        w,
        h,
        pitch,
        fmt: PixelFormat::Rgb565,
        data,
        frame: 0,
    };
    let rgba = to_rgba8(&frame);
    assert_eq!(rgba.len(), (w * h * 4) as usize);
    // First pixel red.
    assert_eq!(&rgba[0..4], &[0xFF, 0x00, 0x00, 0xFF]);
    // Last pixel blue.
    let last = rgba.len() - 4;
    assert_eq!(&rgba[last..last + 4], &[0x00, 0x00, 0xFF, 0xFF]);

    let png = rgba8_to_png(&rgba, w, h).expect("png encode");
    // Parse back and check dimensions.
    let dec = png::Decoder::new(png.as_slice());
    let reader = dec.read_info().unwrap();
    let info = reader.info();
    assert_eq!(info.width, w);
    assert_eq!(info.height, h);
}

fn pixel(fmt: PixelFormat, data: Vec<u8>) -> Vec<u8> {
    let pitch = data.len();
    to_rgba8(&Frame { w: 1, h: 1, pitch, fmt, data, frame: 0 })
}

#[test]
fn pixel_formats() {
    assert_eq!(PixelFormat::from_libretro(0), Some(PixelFormat::Xrgb1555));
    assert_eq!(PixelFormat::from_libretro(1), Some(PixelFormat::Xrgb8888));
    assert_eq!(PixelFormat::from_libretro(2), Some(PixelFormat::Rgb565));
    assert_eq!(PixelFormat::from_libretro(3), None);
    assert_eq!(PixelFormat::from_libretro(-1), None);
    assert_eq!(PixelFormat::Xrgb8888.bytes_per_pixel(), 4);
    assert_eq!(PixelFormat::Rgb565.bytes_per_pixel(), 2);
    assert_eq!(PixelFormat::Xrgb1555.bytes_per_pixel(), 2);
}

#[test]
fn pixels_are_widened_to_eight_bits() {
    // R=1 G=2 B=3 in five, six and five bits.
    let v: u16 = (1 << 11) | (2 << 5) | 3;
    assert_eq!(pixel(PixelFormat::Rgb565, v.to_le_bytes().to_vec()), vec![8, 8, 24, 255]);
    // R=16 G=31 B=4 in five bits each.
    let v: u16 = (16 << 10) | (31 << 5) | 4;
    assert_eq!(pixel(PixelFormat::Xrgb1555, v.to_le_bytes().to_vec()), vec![132, 255, 33, 255]);
    assert_eq!(pixel(PixelFormat::Xrgb8888, vec![3, 2, 1, 0]), vec![1, 2, 3, 255]);
    // A pixel that is cut short is left out.
    assert_eq!(pixel(PixelFormat::Xrgb8888, vec![3, 2, 1]), Vec::<u8>::new());
}

#[test]
fn storing_drops_the_row_padding() {
    let mut slot = FrameSlot::new();
    assert!(slot.snapshot().is_none());
    let src = [1u8, 2, 3, 4, 99, 99, 5, 6, 7, 8, 99, 99];
    slot.store(2, 2, 6, PixelFormat::Rgb565, &src, 41);
    let f = slot.snapshot().unwrap();
    assert_eq!((f.w, f.h, f.pitch, f.frame), (2, 2, 4, 41));
    assert_eq!(f.data, vec![1, 2, 3, 4, 5, 6, 7, 8]);
    // Rows beyond the source are left out, and the newest frame wins.
    slot.store(2, 3, 6, PixelFormat::Rgb565, &src, 42);
    let f = slot.snapshot().unwrap();
    assert_eq!((f.frame, f.data.len()), (42, 8));
    assert!(FrameSlot::default().inner.is_none());
}

#[test]
fn png_refuses_bad_sizes() {
    assert_eq!(
        rgba8_to_png(&[0; 7], 1, 2),
        Err(PngError::LengthMismatch { have: 7, expect: 8 })
    );
    assert_eq!(rgba8_to_png(&[], 0, 4), Err(PngError::ZeroWidth));
    assert_eq!(rgba8_to_png(&[], 4, 0), Err(PngError::ZeroHeight));
    assert_eq!(
        PngError::LengthMismatch { have: 7, expect: 8 }.message(),
        "rgba length mismatch: have 7, expect 8"
    );
    assert_eq!(PngError::ZeroWidth.message(), "Zero width not allowed");
    assert_eq!(PngError::ZeroHeight.message(), "Zero height not allowed");
}

#[test]
fn png_holds_the_pixels() {
    let rgba: Vec<u8> = (0..24).collect();
    let file = rgba8_to_png(&rgba, 3, 2).unwrap();
    let mut reader = png::Decoder::new(file.as_slice()).read_info().unwrap();
    let mut out = vec![0u8; reader.output_buffer_size()];
    let info = reader.next_frame(&mut out).unwrap();
    assert_eq!((info.width, info.height), (3, 2));
    assert_eq!(info.color_type, png::ColorType::Rgba);
    assert_eq!(out, rgba);
}

fn gray() -> Frame {
    Frame { w: 1, h: 1, pitch: 4, fmt: PixelFormat::Xrgb8888, data: vec![7, 7, 7, 0], frame: 3 }
}

#[test]
fn raw_screenshots_are_the_rgba_bytes() {
    let args = ScreenshotArgs { format: Some("raw".to_string()) };
    match mega_screenshot(&args, Ok(Some(gray()))) {
        Some(ToolReply::Screenshot { format, width, height, data }) => {
            assert_eq!((format, width, height), ("raw", 1, 1));
            assert_eq!(STANDARD.decode(data).unwrap(), vec![7, 7, 7, 255]);
        }
        _ => panic!("wrong reply"),
    }
}

#[test]
fn screenshots_are_png_unless_raw() {
    for format in [None, Some("png".to_string()), Some("bmp".to_string())] {
        match mega_screenshot(&ScreenshotArgs { format }, Ok(Some(gray()))) {
            Some(ToolReply::Screenshot { format, data, .. }) => {
                assert_eq!(format, "png");
                assert_eq!(
                    STANDARD.decode(data).unwrap(),
                    rgba8_to_png(&[7, 7, 7, 255], 1, 1).unwrap()
                );
            }
            _ => panic!("wrong reply"),
        }
    }
}

#[test]
fn screenshots_that_cannot_be_taken() {
    let args = ScreenshotArgs { format: None };
    assert!(matches!(mega_screenshot(&args, Ok(None)), Some(ToolReply::NoFrameYet)));
    match mega_screenshot(&args, Err("gone".to_string())) {
        Some(ToolReply::Error(m)) => assert_eq!(m, "screenshot failed: gone"),
        _ => panic!("wrong reply"),
    }
    let mut short = gray();
    short.h = 2;
    match mega_screenshot(&args, Ok(Some(short))) {
        Some(ToolReply::Error(m)) => {
            assert_eq!(m, "png encode failed: rgba length mismatch: have 4, expect 8")
        }
        _ => panic!("wrong reply"),
    }
}
