//! Captured frames and their conversion to RGBA and PNG.
//!
//! The core delivers one of three pixel formats: 0 is XRGB1555, 1 is XRGB8888
//! and 2 is RGB565.

use crate::text::{dec, push_dec};
use vstd::prelude::*;
use vstd::slice::slice_subrange;
use vstd::string::*;

verus! {

/// Pixel format of a frame.
#[derive(Clone, Copy, Debug, PartialEq, Eq, Structural)]
pub enum PixelFormat {
    Xrgb1555,
    Xrgb8888,
    Rgb565,
}

impl PixelFormat {
    /// Bytes of one pixel.
    pub open spec fn width(self) -> int {
        match self {
            PixelFormat::Xrgb8888 => 4,
            _ => 2,
        }
    }

    /// The format that the core's number stands for.
    pub fn from_libretro(v: i32) -> (r: Option<PixelFormat>)
        ensures
            r == if v == 0 {
                Some(PixelFormat::Xrgb1555)
            } else if v == 1 {
                Some(PixelFormat::Xrgb8888)
            } else if v == 2 {
                Some(PixelFormat::Rgb565)
            } else {
                None
            },
    {
        match v {
            0 => Some(PixelFormat::Xrgb1555),
            1 => Some(PixelFormat::Xrgb8888),
            2 => Some(PixelFormat::Rgb565),
            _ => None,
        }
    }

    /// Bytes of one pixel.
    pub fn bytes_per_pixel(self) -> (r: usize)
        ensures
            r == self.width(),
    {
        match self {
            PixelFormat::Xrgb8888 => 4,
            PixelFormat::Xrgb1555 => 2,
            PixelFormat::Rgb565 => 2,
        }
    }
}

/// A captured frame.
#[derive(Debug)]
pub struct Frame {
    pub w: u32,
    pub h: u32,
    pub pitch: usize,
    pub fmt: PixelFormat,
    pub data: Vec<u8>,
    /// Frame counter at the time of capture.
    pub frame: u64,
}

impl Clone for Frame {
    fn clone(&self) -> (r: Self)
        ensures
            r.same(*self),
    {
        Frame {
            w: self.w,
            h: self.h,
            pitch: self.pitch,
            fmt: self.fmt,
            data: vstd::slice::slice_to_vec(self.data.as_slice()),
            frame: self.frame,
        }
    }
}

impl Frame {
    /// Whether two frames hold the same capture.
    pub open spec fn same(self, other: Frame) -> bool {
        &&& self.w == other.w
        &&& self.h == other.h
        &&& self.pitch == other.pitch
        &&& self.fmt == other.fmt
        &&& self.data@ == other.data@
        &&& self.frame == other.frame
    }

    /// Whether the data are exactly the frame's pixels, row after row.
    pub open spec fn packed(self) -> bool {
        self.data@.len() == self.w * self.h * self.fmt.width()
    }
}

/// The most recent frame, if any.
#[derive(Debug)]
pub struct FrameSlot {
    pub inner: Option<Frame>,
}

impl Default for FrameSlot {
    /// No frame yet.
    fn default() -> (r: Self)
        ensures
            r.inner is None,
    {
        FrameSlot { inner: None }
    }
}

/// `rows` rows of `row` bytes each, taken from `src` at `off`, `off + pitch` and
/// so on, up to the first row that does not lie in `src`.
pub open spec fn repacked(src: Seq<u8>, off: int, pitch: int, row: int, rows: int) -> Seq<u8>
    decreases rows,
{
    if rows <= 0 || off + row > src.len() {
        seq![]
    } else {
        src.subrange(off, off + row) + repacked(src, off + pitch, pitch, row, rows - 1)
    }
}

impl FrameSlot {
    /// No frame yet.
    pub fn new() -> (r: Self)
        ensures
            r.inner is None,
    {
        FrameSlot { inner: None }
    }

    /// Keeps a frame, without the padding between its rows. Rows that `src`
    /// does not reach are left out.
    pub fn store(
        &mut self,
        w: u32,
        h: u32,
        pitch: usize,
        fmt: PixelFormat,
        src: &[u8],
        frame: u64,
    )
        requires
            w * fmt.width() * h <= usize::MAX,
            w * fmt.width() <= usize::MAX,
        ensures
            final(self).inner matches Some(f) && {
                &&& f.w == w
                &&& f.h == h
                &&& f.pitch == w * fmt.width()
                &&& f.fmt == fmt
                &&& f.frame == frame
                &&& f.data@ == repacked(src@, 0, pitch as int, w * fmt.width(), h as int)
            },
    {
        let bpp: usize = fmt.bytes_per_pixel();
        let row: usize = (w as usize) * bpp;
        let mut data: Vec<u8> = Vec::new();
        let mut off: usize = 0;
        let mut y: u32 = 0;
        let ghost all = repacked(src@, 0, pitch as int, row as int, h as int);
        proof {
            assert(data@ + all =~= all);
        }
        while y < h
            invariant_except_break
                off <= src@.len(),
                data@ + repacked(src@, off as int, pitch as int, row as int, h - y) == all,
            invariant
                y <= h,
            ensures
                data@ == all,
            decreases h - y,
        {
            if row > src.len() - off {
                proof {
                    assert(data@ =~= all);
                }
                break;
            }
            let ghost before = data@;
            let part = slice_subrange(src, off, off + row);
            let mut k: usize = 0;
            while k < part.len()
                invariant
                    k <= part@.len(),
                    data@ == before + part@.take(k as int),
                decreases part@.len() - k,
            {
                data.push(part[k]);
                k += 1;
                proof {
                    assert(data@ =~= before + part@.take(k as int));
                }
            }
            y += 1;
            proof {
                assert(part@.take(part@.len() as int) =~= part@);
                assert(data@ + repacked(src@, off + pitch, pitch as int, row as int, h - y)
                    =~= before + repacked(
                    src@,
                    off as int,
                    pitch as int,
                    row as int,
                    h - y + 1,
                ));
            }
            if pitch > src.len() - off {
                proof {
                    assert(repacked(src@, off + pitch, pitch as int, row as int, h - y) =~= seq![]);
                    assert(data@ =~= all);
                }
                break;
            }
            off += pitch;
            proof {
                if y >= h {
                    assert(data@ =~= all);
                }
            }
        }
        self.inner = Some(Frame { w, h, pitch: row, fmt, data, frame });
    }

    /// A copy of the kept frame.
    pub fn snapshot(&self) -> (r: Option<Frame>)
        ensures
            r is Some <==> self.inner is Some,
            r matches Some(f) ==> f.same(self.inner->0),
    {
        match &self.inner {
            None => None,
            Some(f) => Some(f.clone()),
        }
    }
}

/// When `src` reaches the end of the last row, every row is kept, so the stored
/// frame is packed.
pub proof fn law_full_source_is_packed(
    src: Seq<u8>,
    off: int,
    pitch: int,
    row: int,
    rows: int,
)
    requires
        0 <= off,
        0 <= pitch,
        0 <= row,
        0 < rows,
        off + (rows - 1) * pitch + row <= src.len(),
    ensures
        repacked(src, off, pitch, row, rows).len() == rows * row,
    decreases rows,
{
    assert((rows - 1) * pitch >= 0) by (nonlinear_arith)
        requires
            rows > 0,
            pitch >= 0,
    ;
    if rows > 1 {
        assert((rows - 1) * pitch == pitch + (rows - 2) * pitch) by (nonlinear_arith);
        law_full_source_is_packed(src, off + pitch, pitch, row, rows - 1);
        assert(rows * row == row + (rows - 1) * row) by (nonlinear_arith);
    } else {
        assert(repacked(src, off + pitch, pitch, row, 0) =~= seq![]);
    }
}

/// Byte `k` of row `y` of a stored frame is byte `k` of row `y` of the source.
pub proof fn law_stored_rows(
    src: Seq<u8>,
    off: int,
    pitch: int,
    row: int,
    rows: int,
    y: int,
    k: int,
)
    requires
        0 <= off,
        0 <= pitch,
        0 <= y < rows,
        0 <= k < row,
        off + (rows - 1) * pitch + row <= src.len(),
    ensures
        repacked(src, off, pitch, row, rows)[y * row + k] == src[off + y * pitch + k],
    decreases rows,
{
    law_full_source_is_packed(src, off, pitch, row, rows);
    assert((rows - 1) * pitch >= 0) by (nonlinear_arith)
        requires
            rows > 0,
            pitch >= 0,
    ;
    if y > 0 {
        assert((rows - 1) * pitch == pitch + (rows - 2) * pitch) by (nonlinear_arith);
        law_stored_rows(src, off + pitch, pitch, row, rows - 1, y - 1, k);
        assert(y * row == row + (y - 1) * row) by (nonlinear_arith);
        assert(y * pitch == pitch + (y - 1) * pitch) by (nonlinear_arith);
        assert((y - 1) * row >= 0) by (nonlinear_arith)
            requires
                y >= 1,
                row >= 0,
        ;
        law_full_source_is_packed(src, off + pitch, pitch, row, rows - 1);
        assert((y - 1) * row + k < (rows - 1) * row) by (nonlinear_arith)
            requires
                0 <= k < row,
                y < rows,
        ;
    } else {
        assert(y * row == 0 && y * pitch == 0) by (nonlinear_arith)
            requires
                y == 0,
        ;
    }
}

/// A five-bit intensity widened to eight bits by repeating its leading bits.
pub open spec fn widen5(c: int) -> int {
    8 * c + c / 4
}

/// A six-bit intensity widened to eight bits by repeating its leading bits.
pub open spec fn widen6(c: int) -> int {
    4 * c + c / 16
}

/// Red, green and blue of the pixel stored at `at`.
pub open spec fn pixel_rgb(fmt: PixelFormat, data: Seq<u8>, at: int) -> (int, int, int) {
    let v = data[at] + 256 * data[at + 1];
    match fmt {
        PixelFormat::Xrgb8888 => (data[at + 2] as int, data[at + 1] as int, data[at] as int),
        PixelFormat::Rgb565 => (widen5(v / 2048 % 32), widen6(v / 32 % 64), widen5(v % 32)),
        PixelFormat::Xrgb1555 => (widen5(v / 1024 % 32), widen5(v / 32 % 32), widen5(v % 32)),
    }
}

/// Whole pixels in `data`.
pub open spec fn pixel_count(fmt: PixelFormat, data: Seq<u8>) -> int {
    data.len() as int / fmt.width()
}

/// The opaque RGBA bytes of the whole pixels in `data`.
pub open spec fn rgba(fmt: PixelFormat, data: Seq<u8>) -> Seq<u8> {
    Seq::new(
        (4 * pixel_count(fmt, data)) as nat,
        |i: int|
            {
                let p = pixel_rgb(fmt, data, i / 4 * fmt.width());
                if i % 4 == 0 {
                    p.0 as u8
                } else if i % 4 == 1 {
                    p.1 as u8
                } else if i % 4 == 2 {
                    p.2 as u8
                } else {
                    255
                }
            },
    )
}

/// Converts a frame without row padding to RGBA.
pub fn to_rgba8(frame: &Frame) -> (r: Vec<u8>)
    ensures
        r@ == rgba(frame.fmt, frame.data@),
{
    let data = &frame.data;
    let bpp: usize = frame.fmt.bytes_per_pixel();
    let total: usize = data.len();
    let count: usize = total / bpp;
    let mut out: Vec<u8> = Vec::new();
    let ghost want = rgba(frame.fmt, frame.data@);
    let mut n: usize = 0;
    let mut at: usize = 0;
    while n < count
        invariant
            n <= count,
            bpp == frame.fmt.width(),
            total == data@.len(),
            count == total as int / bpp as int,
            data@ == frame.data@,
            at == n * bpp,
            at <= data@.len(),
            want == rgba(frame.fmt, frame.data@),
            out@ == want.take(4 * n),
        decreases count - n,
    {
        proof {
            if bpp == 4 {
                assert(4 * n + 4 <= data@.len());
            } else {
                assert(2 * n + 2 <= data@.len());
            }
            assert(at + bpp <= data@.len());
            assert((4 * n) / 4 * bpp == at);
            assert((4 * n + 1) / 4 == n && (4 * n + 2) / 4 == n && (4 * n + 3) / 4 == n);
        }
        let (r, g, b): (u8, u8, u8) = match frame.fmt {
            PixelFormat::Xrgb8888 => (data[at + 2], data[at + 1], data[at]),
            PixelFormat::Rgb565 => {
                let v: u16 = data[at] as u16 + 256 * (data[at + 1] as u16);
                let r: u16 = v / 2048 % 32;
                let g: u16 = v / 32 % 64;
                let b: u16 = v % 32;
                ((8 * r + r / 4) as u8, (4 * g + g / 16) as u8, (8 * b + b / 4) as u8)
            },
            PixelFormat::Xrgb1555 => {
                let v: u16 = data[at] as u16 + 256 * (data[at + 1] as u16);
                let r: u16 = v / 1024 % 32;
                let g: u16 = v / 32 % 32;
                let b: u16 = v % 32;
                ((8 * r + r / 4) as u8, (8 * g + g / 4) as u8, (8 * b + b / 4) as u8)
            },
        };
        out.push(r);
        out.push(g);
        out.push(b);
        out.push(255);
        n += 1;
        at += bpp;
        proof {
            assert(out@ =~= want.take(4 * n));
        }
    }
    proof {
        assert(out@ =~= want);
    }
    out
}

/// Why a buffer could not be written as a PNG.
#[derive(Debug, Clone, Copy, PartialEq, Eq, Structural)]
pub enum PngError {
    /// The buffer is not four bytes per pixel.
    LengthMismatch { have: usize, expect: u128 },
    ZeroWidth,
    ZeroHeight,
}

impl PngError {
    /// The error's message.
    pub open spec fn text(self) -> Seq<char> {
        match self {
            PngError::LengthMismatch { have, expect } => "rgba length mismatch: have "@ + dec(
                have as nat,
            ) + ", expect "@ + dec(expect as nat),
            PngError::ZeroWidth => "Zero width not allowed"@,
            PngError::ZeroHeight => "Zero height not allowed"@,
        }
    }

    /// The error's message.
    pub fn message(&self) -> (r: String)
        ensures
            r@ == self.text(),
    {
        match *self {
            PngError::LengthMismatch { have, expect } => {
                let mut m = "rgba length mismatch: have ".to_owned();
                push_dec(&mut m, have as u128);
                m.append(", expect ");
                push_dec(&mut m, expect);
                m
            },
            PngError::ZeroWidth => "Zero width not allowed".to_owned(),
            PngError::ZeroHeight => "Zero height not allowed".to_owned(),
        }
    }
}

/// The error type of the `png` encoder.
#[verifier::external_type_specification]
#[verifier::external_body]
pub struct ExEncodingError(png::EncodingError);

/// The file that the `png` encoder writes for an eight-bit RGBA or RGB image
/// with its default settings.
pub uninterp spec fn png_file(data: Seq<u8>, w: u32, h: u32, alpha: bool) -> Seq<u8>;

/// Bytes of one RGBA or RGB pixel.
pub open spec fn samples(alpha: bool) -> int {
    if alpha {
        4
    } else {
        3
    }
}

/// Whether a file begins with the PNG signature and its header chunk carries
/// the width and the height.
pub open spec fn png_head(file: Seq<u8>, w: u32, h: u32) -> bool {
    &&& file.len() >= 24
    &&& file.subrange(0, 8) == seq![137u8, 80, 78, 71, 13, 10, 26, 10]
    &&& file.subrange(16, 20) == be_bytes(w)
    &&& file.subrange(20, 24) == be_bytes(h)
}

/// `n` as four bytes, most significant first.
pub open spec fn be_bytes(n: u32) -> Seq<u8> {
    seq![
        (n as int / 16777216) as u8,
        (n as int / 65536 % 256) as u8,
        (n as int / 256 % 256) as u8,
        (n as int % 256) as u8,
    ]
}

/// `png::Encoder` with RGBA or RGB colour and eight-bit depth, `write_header`
/// and `write_image_data` on a buffer of the right length. It fails exactly on
/// an empty image. The file it writes is named; it begins with the signature,
/// and its header chunk carries the width and the height.
#[verifier::external_body]
pub(crate) fn png_encode(data: &[u8], w: u32, h: u32, alpha: bool) -> (r: Result<
    Vec<u8>,
    png::EncodingError,
>)
    requires
        data@.len() == w * h * samples(alpha),
    ensures
        r is Err <==> w == 0 || h == 0,
        r matches Ok(file) ==> file@ == png_file(data@, w, h, alpha),
        r matches Ok(file) ==> png_head(file@, w, h),
{
    let mut buf: Vec<u8> = Vec::new();
    let mut enc = png::Encoder::new(&mut buf, w, h);
    enc.set_color(if alpha { png::ColorType::Rgba } else { png::ColorType::Rgb });
    enc.set_depth(png::BitDepth::Eight);
    let mut writer = enc.write_header()?;
    writer.write_image_data(data)?;
    drop(writer);
    Ok(buf)
}

/// What encoding gives, in terms of the encoder's file.
pub open spec fn png_result(rgba: Seq<u8>, w: u32, h: u32, r: Result<Vec<u8>, PngError>) -> bool {
    if rgba.len() != w * h * 4 {
        r == Err::<Vec<u8>, PngError>(
            PngError::LengthMismatch { have: rgba.len() as usize, expect: (w * h * 4) as u128 },
        )
    } else if w == 0 {
        r == Err::<Vec<u8>, PngError>(PngError::ZeroWidth)
    } else if h == 0 {
        r == Err::<Vec<u8>, PngError>(PngError::ZeroHeight)
    } else {
        r matches Ok(file) && file@ == png_file(rgba, w, h, true)
    }
}

/// Encodes an RGBA buffer of `w` by `h` pixels as a PNG.
pub fn rgba8_to_png(rgba: &[u8], w: u32, h: u32) -> (r: Result<Vec<u8>, PngError>)
    ensures
        png_result(rgba@, w, h, r),
        r matches Ok(file) ==> png_head(file@, w, h),
{
    proof {
        assert(w * h <= 0xFFFF_FFFF * 0xFFFF_FFFF) by (nonlinear_arith)
            requires
                0 <= w <= 0xFFFF_FFFF,
                0 <= h <= 0xFFFF_FFFF,
        ;
        assert(w * h >= 0) by (nonlinear_arith)
            requires
                0 <= w,
                0 <= h,
        ;
    }
    let expect: u128 = (w as u128) * (h as u128) * 4;
    if rgba.len() as u128 != expect {
        return Err(PngError::LengthMismatch { have: rgba.len(), expect });
    }
    match png_encode(rgba, w, h, true) {
        Ok(file) => Ok(file),
        Err(_) => if w == 0 {
            Err(PngError::ZeroWidth)
        } else {
            Err(PngError::ZeroHeight)
        },
    }
}

/// A packed frame converts to four bytes per pixel of its width and height,
/// with every fourth byte opaque.
pub proof fn law_rgba_of_packed(f: Frame, i: int)
    requires
        f.packed(),
        0 <= i < f.w * f.h,
    ensures
        rgba(f.fmt, f.data@).len() == f.w * f.h * 4,
        rgba(f.fmt, f.data@)[4 * i + 3] == 255,
{
    let n = f.w * f.h;
    assert(n * f.fmt.width() / f.fmt.width() == n);
    assert((4 * i + 3) % 4 == 3);
}

/// Pixel `i` of a frame comes out as red, green, blue and an opaque alpha. A
/// stored pixel is its components from the low end on, least significant byte
/// first: eight bits of blue, green and red in 32 bits; five of blue, six of green
/// and five of red in 16 bits; or five of each in 15 bits. Narrow components keep
/// their bits at the top and repeat the leading ones below.
pub proof fn law_rgba_components(
    fmt: PixelFormat,
    data: Seq<u8>,
    i: int,
    r: int,
    g: int,
    b: int,
    x: int,
)
    requires
        0 <= i,
        match fmt {
            PixelFormat::Xrgb8888 => {
                &&& 4 * i + 4 <= data.len()
                &&& data[4 * i] == b && data[4 * i + 1] == g && data[4 * i + 2] == r
                &&& data[4 * i + 3] == x
            },
            PixelFormat::Rgb565 => {
                &&& 2 * i + 2 <= data.len()
                &&& 0 <= r < 32 && 0 <= g < 64 && 0 <= b < 32
                &&& data[2 * i] + 256 * data[2 * i + 1] == 2048 * r + 32 * g + b
            },
            PixelFormat::Xrgb1555 => {
                &&& 2 * i + 2 <= data.len()
                &&& 0 <= r < 32 && 0 <= g < 32 && 0 <= b < 32 && 0 <= x < 2
                &&& data[2 * i] + 256 * data[2 * i + 1] == 32768 * x + 1024 * r + 32 * g + b
            },
        },
    ensures
        ({
            let out = rgba(fmt, data);
            let (or, og, ob) = (out[4 * i] as int, out[4 * i + 1] as int, out[4 * i + 2] as int);
            &&& 4 * i + 4 <= out.len()
            &&& out[4 * i + 3] == 255
            &&& match fmt {
                PixelFormat::Xrgb8888 => or == r && og == g && ob == b,
                PixelFormat::Rgb565 => {
                    &&& or / 8 == r && or % 8 == r / 4
                    &&& og / 4 == g && og % 4 == g / 16
                    &&& ob / 8 == b && ob % 8 == b / 4
                },
                PixelFormat::Xrgb1555 => {
                    &&& or / 8 == r && or % 8 == r / 4
                    &&& og / 8 == g && og % 8 == g / 4
                    &&& ob / 8 == b && ob % 8 == b / 4
                },
            }
        }),
{
    assert((4 * i) / 4 == i && (4 * i + 1) / 4 == i && (4 * i + 2) / 4 == i && (4 * i + 3) / 4
        == i);
    assert((4 * i) % 4 == 0 && (4 * i + 1) % 4 == 1 && (4 * i + 2) % 4 == 2 && (4 * i + 3) % 4
        == 3);
    assert(4 * i + 4 <= rgba(fmt, data).len());
    let at = i * fmt.width();
    let v = data[at] + 256 * data[at + 1];
    match fmt {
        PixelFormat::Xrgb8888 => {},
        PixelFormat::Rgb565 => {
            lemma_fields_565(v, r, g, b);
            lemma_widened(r);
            lemma_widened(g);
            lemma_widened(b);
        },
        PixelFormat::Xrgb1555 => {
            lemma_fields_1555(v, r, g, b, x);
            lemma_widened(r);
            lemma_widened(g);
            lemma_widened(b);
        },
    }
}

proof fn lemma_fields_565(v: int, r: int, g: int, b: int)
    requires
        0 <= r < 32,
        0 <= g < 64,
        0 <= b < 32,
        v == 2048 * r + 32 * g + b,
    ensures
        v / 2048 % 32 == r,
        v / 32 % 64 == g,
        v % 32 == b,
{
    assert(v / 32 == 64 * r + g);
    assert(v / 2048 == r);
}

proof fn lemma_fields_1555(v: int, r: int, g: int, b: int, x: int)
    requires
        0 <= r < 32,
        0 <= g < 32,
        0 <= b < 32,
        0 <= x < 2,
        v == 32768 * x + 1024 * r + 32 * g + b,
    ensures
        v / 1024 % 32 == r,
        v / 32 % 32 == g,
        v % 32 == b,
{
    assert(v / 32 == 32 * (32 * x + r) + g);
    assert(v / 1024 == 32 * x + r);
}

proof fn lemma_widened(c: int)
    ensures
        0 <= c < 32 ==> 0 <= widen5(c) < 256 && widen5(c) / 8 == c && widen5(c) % 8 == c / 4,
        0 <= c < 64 ==> 0 <= widen6(c) < 256 && widen6(c) / 4 == c && widen6(c) % 4 == c / 16,
{
}

/// An image needs four bytes for each pixel and at least one pixel: a wrong number
/// of bytes is told first, with the number that there should be.
pub proof fn law_png_needs(rgba: Seq<u8>, w: u32, h: u32, r: Result<Vec<u8>, PngError>)
    requires
        png_result(rgba, w, h, r),
        rgba.len() <= usize::MAX,
        w * h * 4 <= u128::MAX,
    ensures
        r is Ok <==> rgba.len() == 4 * (w * h) && w >= 1 && h >= 1,
        r matches Err(PngError::LengthMismatch { have, expect }) ==> have == rgba.len() && expect
            == 4 * (w * h) && have != expect,
        rgba.len() == 4 * (w * h) && w == 0 ==> r == Err::<Vec<u8>, PngError>(PngError::ZeroWidth),
        rgba.len() == 4 * (w * h) && w > 0 && h == 0 ==> r == Err::<Vec<u8>, PngError>(
            PngError::ZeroHeight,
        ),
{
    assert(w * h >= 0) by (nonlinear_arith)
        requires
            0 <= w,
            0 <= h,
    ;
}

} // verus!
