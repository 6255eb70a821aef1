//! The tool surface: argument checks and replies of the `mega_` tools. The
//! calls to the emulator or to the cartridge happen between the two.

use crate::codec::{b64, b64_decode, b64_encode, fault_of, law_b64_injective, DecodeFault, MAX_ENCODE};
use crate::emulator::breakpoints::{BpKind, BpSpace, Breakpoint};
use crate::emulator::decode::{
    decode_m68k, decode_palettes, decode_sprites, decode_tile_8x8, decode_vdp_registers,
    decode_z80, m68k_of, palette_line, sprite_walk, tile_pixels, vdp_file, vdp_summary, z80_of,
    M68kRegisters, Rgb, Sprite, VdpRegisters, Z80Registers,
};
use crate::emulator::frame::{
    png_file, png_result, rgba, rgba8_to_png, to_rgba8, Frame, PngError,
};
use crate::emulator::input::{
    apply_all, law_button_names, law_set_is_polled, set_bits, Button, InputState,
};
use crate::emulator::memory::{push_all, MemorySpace};
use crate::emulator::rom::RomInfo;
use crate::emulator::runner::{SetBpOutcome, Status, StepOutcome};
use crate::target::NOT_SUPPORTED;
use crate::text::{
    contains_text, debug_form, debug_text, has_part, hex, lower, push_hex, text_eq,
};
use vstd::prelude::*;
use vstd::string::*;

verus! {

/// Arguments of `mega_load_rom`.
#[derive(Debug)]
pub struct LoadRomArgs {
    /// Path of the ROM file.
    pub path: String,
}

/// Arguments of `mega_step_frame`.
#[derive(Debug, Clone, Copy)]
pub struct StepFrameArgs {
    /// Frames to advance, 1 when left out.
    pub n: Option<u32>,
}

/// Arguments of `mega_step_instruction`.
#[derive(Debug, Clone, Copy)]
pub struct StepInstructionArgs {
    pub n: Option<u32>,
}

/// Arguments of `mega_read_memory`.
#[derive(Debug)]
pub struct ReadMemoryArgs {
    pub space: String,
    pub addr: u32,
    pub length: u32,
}

/// Arguments of `mega_write_memory`.
#[derive(Debug)]
pub struct WriteMemoryArgs {
    pub space: String,
    pub addr: u32,
    /// Base64 text.
    pub data: String,
}

/// Arguments of `mega_dump_tile`.
#[derive(Debug)]
pub struct DumpTileArgs {
    pub index: u32,
    pub palette: Option<u8>,
    /// `8x8` (also when left out) or `8x16`.
    pub format: Option<String>,
}

/// Arguments of `mega_set_breakpoint`.
#[derive(Debug)]
pub struct BreakpointArgs {
    pub addr: Option<u32>,
    pub kind: Option<String>,
    pub space: Option<String>,
}

/// Arguments of `mega_clear_breakpoint`.
#[derive(Debug, Clone, Copy)]
pub struct ClearBreakpointArgs {
    pub id: u32,
}

/// Arguments of `mega_screenshot`.
#[derive(Debug)]
pub struct ScreenshotArgs {
    pub format: Option<String>,
}

/// Arguments of `mega_save_state` and `mega_load_state`.
#[derive(Debug, Clone, Copy)]
pub struct StateSlotArgs {
    pub slot: Option<u32>,
}

/// Partial pad state: a button that is left out stays as it is.
#[derive(Debug, Clone, Copy)]
pub struct InputButtons {
    pub up: Option<bool>,
    pub down: Option<bool>,
    pub left: Option<bool>,
    pub right: Option<bool>,
    pub a: Option<bool>,
    pub b: Option<bool>,
    pub c: Option<bool>,
    pub start: Option<bool>,
    pub x: Option<bool>,
    pub y: Option<bool>,
    pub z: Option<bool>,
    pub mode: Option<bool>,
}

impl Default for InputButtons {
    /// Every button left out.
    fn default() -> (r: Self)
        ensures
            forall|b: Button| (#[trigger] r.wanted(b)) is None,
    {
        InputButtons {
            up: None,
            down: None,
            left: None,
            right: None,
            a: None,
            b: None,
            c: None,
            start: None,
            x: None,
            y: None,
            z: None,
            mode: None,
        }
    }
}

/// Arguments of `mega_input_set_state`.
#[derive(Debug, Clone, Copy)]
pub struct InputSetStateArgs {
    /// 0 or 1, 0 when left out.
    pub port: Option<u32>,
    pub buttons: InputButtons,
}

/// Arguments of `mega_input_press` and `mega_input_release`.
#[derive(Debug)]
pub struct InputButtonArgs {
    pub port: Option<u32>,
    pub button: String,
}

/// Arguments of `mega_input_get_state`.
#[derive(Debug, Clone, Copy)]
pub struct InputGetStateArgs {
    pub port: Option<u32>,
}

impl InputButtons {
    /// What is asked of a button.
    pub open spec fn wanted(self, b: Button) -> Option<bool> {
        match b {
            Button::Up => self.up,
            Button::Down => self.down,
            Button::Left => self.left,
            Button::Right => self.right,
            Button::A => self.a,
            Button::B => self.b,
            Button::C => self.c,
            Button::Start => self.start,
            Button::X => self.x,
            Button::Y => self.y,
            Button::Z => self.z,
            Button::Mode => self.mode,
        }
    }

    /// The changes asked of the first `n` buttons, in bit order.
    pub open spec fn pairs(self, n: int) -> Seq<(Button, bool)>
        decreases n,
    {
        if n <= 0 {
            seq![]
        } else {
            let rest = self.pairs(n - 1);
            match self.wanted(Button::at(n - 1)) {
                Some(p) => rest.push((Button::at(n - 1), p)),
                None => rest,
            }
        }
    }

    fn ask(&self, b: Button) -> (r: Option<bool>)
        ensures
            r == self.wanted(b),
    {
        match b {
            Button::Up => self.up,
            Button::Down => self.down,
            Button::Left => self.left,
            Button::Right => self.right,
            Button::A => self.a,
            Button::B => self.b,
            Button::C => self.c,
            Button::Start => self.start,
            Button::X => self.x,
            Button::Y => self.y,
            Button::Z => self.z,
            Button::Mode => self.mode,
        }
    }

    /// The changes asked for, in bit order.
    pub fn into_pairs(self) -> (r: Vec<(Button, bool)>)
        ensures
            r@ == self.pairs(12),
    {
        let mut v: Vec<(Button, bool)> = Vec::new();
        let mut i: usize = 0;
        while i < 12
            invariant
                i <= 12,
                v@ == self.pairs(i as int),
            decreases 12 - i,
        {
            let b = Button::nth(i);
            if let Some(p) = self.ask(b) {
                v.push((b, p));
            }
            i += 1;
        }
        v
    }
}

/// Reply of a tool.
#[allow(inconsistent_fields)]
#[derive(Debug)]
pub enum ToolReply {
    /// `ok` alone.
    Done,
    /// A failure, told as text.
    Error(String),
    /// The cartridge is not connected.
    NotConnected { tool: String, message: String },
    /// The target cannot do it.
    NotSupported { tool: String, message: String },
    /// The core does not provide it yet.
    NotImplemented { reason: &'static str },
    Frame { frame: u64 },
    LoadedRom { size: u64, crc32: String, header_name: String, region: String },
    Stepped(StepOutcome),
    /// A single step of the cartridge's 68k, with the stop it reported.
    CartStepped { stop_reply: String },
    Memory { addr: u32, length: u32, space: String, data: String },
    Vdp(VdpRegisters),
    Palettes(Vec<Vec<Rgb>>),
    Sprites(Vec<Sprite>),
    Tile { width: u32, height: u32, bitmap: String, palette: String },
    M68k(M68kRegisters),
    Z80(Z80Registers),
    BreakpointSet(SetBpOutcome),
    CartBreakpointSet { addr: u32 },
    BreakpointCleared { removed: bool },
    Breakpoints(Vec<Breakpoint>),
    NoFrameYet,
    Screenshot { format: &'static str, width: u32, height: u32, data: String },
    StateSaved { size: u64 },
    Status(Status),
    CartStatus { connected: bool, port: String, bp_count: u64, libra_linked: bool },
    InputApplied { port: u32, applied: usize },
    InputButton { port: u32, button: &'static str },
    InputState { port: u32, buttons: Vec<(&'static str, bool)> },
}

fn joined(a: &str, b: &str) -> (r: String)
    ensures
        r@ == a@ + b@,
{
    let mut m = a.to_owned();
    m.append(b);
    m
}

/// The failure `<what> failed: <why>`.
pub open spec fn is_failure(r: ToolReply, what: Seq<char>, why: Seq<char>) -> bool {
    r matches ToolReply::Error(m) && m@ == what + " failed: "@ + why
}

fn failed(what: &str, why: &str) -> (r: ToolReply)
    ensures
        is_failure(r, what@, why@),
{
    let mut m = what.to_owned();
    m.append(" failed: ");
    m.append(why);
    ToolReply::Error(m)
}

/// The reply when a tool is not supported on the target.
pub open spec fn is_not_supported(r: ToolReply, tool: Seq<char>) -> bool {
    r matches ToolReply::NotSupported { tool: t, message } && t@ == tool && message@ == tool
        + " is not supported on the EdPro hardware target stub (M5.1)"@
}

/// The reply when a tool is not supported on the target.
pub fn not_supported_on_target(tool: &str) -> (r: ToolReply)
    ensures
        is_not_supported(r, tool@),
{
    ToolReply::NotSupported {
        tool: tool.to_owned(),
        message: joined(tool, " is not supported on the EdPro hardware target stub (M5.1)"),
    }
}

/// How an error of the cartridge target is told: a missing connection first,
/// then a missing feature, then any other failure.
pub open spec fn is_classified(r: ToolReply, tool: Seq<char>, msg: Seq<char>) -> bool {
    if has_part(msg, "not connected"@) {
        r matches ToolReply::NotConnected { tool: t, message } && t@ == tool && message@ == tool
            + ": edpro target not connected"@
    } else if has_part(msg, NOT_SUPPORTED@) {
        is_not_supported(r, tool)
    } else {
        is_failure(r, tool, msg)
    }
}

/// Classifies an error of the cartridge target.
pub fn classify_edpro_err(tool: &str, msg: &str) -> (r: ToolReply)
    ensures
        is_classified(r, tool@, msg@),
{
    if contains_text(msg, "not connected") {
        ToolReply::NotConnected {
            tool: tool.to_owned(),
            message: joined(tool, ": edpro target not connected"),
        }
    } else if contains_text(msg, NOT_SUPPORTED) {
        not_supported_on_target(tool)
    } else {
        failed(tool, msg)
    }
}

/// Reply of a cartridge tool that gives nothing back.
pub fn cart_done(tool: &str, outcome: Result<(), String>) -> (r: ToolReply)
    ensures
        match outcome {
            Ok(_) => r is Done,
            Err(e) => is_classified(r, tool@, e@),
        },
{
    match outcome {
        Ok(()) => ToolReply::Done,
        Err(e) => classify_edpro_err(tool, e.as_str()),
    }
}

/// Reply of an emulator command that gives nothing back.
pub fn done_reply(what: &str, outcome: Result<(), String>) -> (r: ToolReply)
    ensures
        match outcome {
            Ok(_) => r is Done,
            Err(e) => is_failure(r, what@, e@),
        },
{
    match outcome {
        Ok(()) => ToolReply::Done,
        Err(e) => failed(what, e.as_str()),
    }
}

/// Reply of an emulator command that gives the frame counter.
pub fn frame_reply(what: &str, outcome: Result<u64, String>) -> (r: ToolReply)
    ensures
        match outcome {
            Ok(f) => r matches ToolReply::Frame { frame } && frame == f,
            Err(e) => is_failure(r, what@, e@),
        },
{
    match outcome {
        Ok(frame) => ToolReply::Frame { frame },
        Err(e) => failed(what, e.as_str()),
    }
}

/// Reply of `mega_load_rom`.
pub fn mega_load_rom(outcome: Result<RomInfo, String>) -> (r: ToolReply)
    ensures
        match outcome {
            Ok(info) => r matches ToolReply::LoadedRom { size, crc32, header_name, region } && size
                == info.size && crc32@ == hex(info.crc32 as nat, 8) && header_name
                == info.header_name && region == info.region,
            Err(e) => is_failure(r, "load_rom"@, e@),
        },
{
    match outcome {
        Ok(info) => {
            let mut crc = String::new();
            push_hex(&mut crc, info.crc32 as u64, 8);
            proof {
                assert(crc@ =~= hex(info.crc32 as nat, 8));
            }
            ToolReply::LoadedRom {
                size: info.size,
                crc32: crc,
                header_name: info.header_name,
                region: info.region,
            }
        },
        Err(e) => failed("load_rom", e.as_str()),
    }
}

/// How many frames `mega_step_frame` steps: 1 when left out, at most 10,000.
pub fn step_frame_count(args: StepFrameArgs) -> (r: u32)
    ensures
        r == match args.n {
            None => 1,
            Some(n) => if n > 10_000 {
                10_000u32
            } else {
                n
            },
        },
{
    match args.n {
        None => 1,
        Some(n) => if n > 10_000 {
            10_000
        } else {
            n
        },
    }
}

/// How many instructions `mega_step_instruction` steps: 1 when left out, and
/// between 1 and 1,000,000.
pub fn step_instruction_count(args: StepInstructionArgs) -> (r: u32)
    ensures
        r == match args.n {
            None => 1,
            Some(n) => if n < 1 {
                1u32
            } else if n > 1_000_000 {
                1_000_000
            } else {
                n
            },
        },
{
    match args.n {
        None => 1,
        Some(n) => if n < 1 {
            1
        } else if n > 1_000_000 {
            1_000_000
        } else {
            n
        },
    }
}

/// Reply of `mega_step_instruction`.
pub fn mega_step_instruction(outcome: Result<StepOutcome, String>) -> (r: ToolReply)
    ensures
        match outcome {
            Ok(out) => r == ToolReply::Stepped(out),
            Err(e) => is_failure(r, "step_instruction"@, e@),
        },
{
    match outcome {
        Ok(out) => ToolReply::Stepped(out),
        Err(e) => failed("step_instruction", e.as_str()),
    }
}

/// Reply of `mega_step_instruction` on the cartridge, given the text of the stop
/// that it reported.
pub fn cart_step_instruction(outcome: Result<String, String>) -> (r: ToolReply)
    ensures
        match outcome {
            Ok(stop) => r == (ToolReply::CartStepped { stop_reply: stop }),
            Err(e) => is_classified(r, "mega_step_instruction"@, e@),
        },
{
    match outcome {
        Ok(stop_reply) => ToolReply::CartStepped { stop_reply },
        Err(e) => classify_edpro_err("mega_step_instruction", e.as_str()),
    }
}

/// Whether `r` refuses a name: `<what>: <name in debug form>`.
pub open spec fn is_unknown(r: ToolReply, what: Seq<char>, name: Seq<char>) -> bool {
    r matches ToolReply::Error(m) && m@ == what + ": "@ + debug_form(name)
}

fn unknown(what: &str, name: &str) -> (r: ToolReply)
    ensures
        is_unknown(r, what@, name@),
{
    let mut m = what.to_owned();
    m.append(": ");
    m.append(debug_text(name).as_str());
    ToolReply::Error(m)
}

/// The memory space that a tool's argument names.
pub fn space_argument(space: &str) -> (r: Result<MemorySpace, ToolReply>)
    ensures
        match MemorySpace::named(lower(space@)) {
            Some(s) => r == Ok::<MemorySpace, ToolReply>(s),
            None => r matches Err(reply) && is_unknown(reply, "unknown memory space"@, space@),
        },
{
    match MemorySpace::parse(space) {
        Some(s) => Ok(s),
        None => Err(unknown("unknown memory space", space)),
    }
}

/// The reply that carries memory.
pub open spec fn is_memory(r: ToolReply, args: ReadMemoryArgs, bytes: Seq<u8>) -> bool {
    r matches ToolReply::Memory { addr, length, space, data } && addr == args.addr && length
        == args.length && space@ == args.space@ && data@ == b64(bytes)
}

/// Reply of `mega_read_memory`.
pub fn mega_read_memory(args: ReadMemoryArgs, outcome: Result<Vec<u8>, String>) -> (r: ToolReply)
    requires
        outcome matches Ok(b) ==> b@.len() <= MAX_ENCODE,
    ensures
        match outcome {
            Ok(bytes) => is_memory(r, args, bytes@),
            Err(e) => is_failure(r, "read_memory"@, e@),
        },
{
    match outcome {
        Ok(bytes) => ToolReply::Memory {
            addr: args.addr,
            length: args.length,
            space: args.space,
            data: b64_encode(bytes.as_slice()),
        },
        Err(e) => failed("read_memory", e.as_str()),
    }
}

/// Reply of `mega_read_memory` on the cartridge, whose address space is flat.
pub fn cart_read_memory(args: ReadMemoryArgs, outcome: Result<Vec<u8>, String>) -> (r: ToolReply)
    requires
        outcome matches Ok(b) ==> b@.len() <= MAX_ENCODE,
    ensures
        match outcome {
            Ok(bytes) => is_memory(r, args, bytes@),
            Err(e) => is_classified(r, "mega_read_memory"@, e@),
        },
{
    match outcome {
        Ok(bytes) => ToolReply::Memory {
            addr: args.addr,
            length: args.length,
            space: args.space,
            data: b64_encode(bytes.as_slice()),
        },
        Err(e) => classify_edpro_err("mega_read_memory", e.as_str()),
    }
}

/// What decoding a Base64 argument gives.
pub open spec fn data_result(data: Seq<char>, r: Result<Vec<u8>, ToolReply>) -> bool {
    match r {
        Ok(bytes) => b64(bytes@) == data,
        Err(reply) => (forall|v: Seq<u8>| #[trigger] b64(v) != data) && (
        reply matches ToolReply::Error(m) && m@ == "invalid base64: "@ + fault_of(data).text()),
    }
}

/// The bytes of a Base64 argument.
pub fn data_argument(data: &str) -> (r: Result<Vec<u8>, ToolReply>)
    ensures
        data_result(data@, r),
{
    match b64_decode(data) {
        Ok(bytes) => Ok(bytes),
        Err(f) => Err(told_fault(f)),
    }
}

/// How a fault in a Base64 argument is told.
pub fn told_fault(fault: DecodeFault) -> (r: ToolReply)
    ensures
        r matches ToolReply::Error(m) && m@ == "invalid base64: "@ + fault.text(),
{
    ToolReply::Error(joined("invalid base64: ", fault.message().as_str()))
}

/// The space and the bytes of a `mega_write_memory` call; the space is checked
/// first.
pub fn write_memory_request(args: &WriteMemoryArgs) -> (r: Result<
    (MemorySpace, Vec<u8>),
    ToolReply,
>)
    ensures
        match MemorySpace::named(lower(args.space@)) {
            None => r matches Err(reply) && is_unknown(
                reply,
                "unknown memory space"@,
                args.space@,
            ),
            Some(space) => match r {
                Ok(request) => request.0 == space && b64(request.1@) == args.data@,
                Err(reply) => data_result(args.data@, Err::<Vec<u8>, ToolReply>(reply)),
            },
        },
{
    match space_argument(args.space.as_str()) {
        Err(reply) => Err(reply),
        Ok(space) => match data_argument(args.data.as_str()) {
            Err(reply) => Err(reply),
            Ok(bytes) => Ok((space, bytes)),
        },
    }
}

/// Reply of `mega_get_vdp_registers`, on the emulator's state blob or on the
/// bytes that the cartridge read.
pub fn mega_get_vdp_registers(blob: &[u8]) -> (r: ToolReply)
    ensures
        r matches ToolReply::Vdp(v) && v.regs@ == vdp_file(blob@) && v.decoded == vdp_summary(
            vdp_file(blob@),
        ),
{
    ToolReply::Vdp(decode_vdp_registers(blob))
}

/// Reply of `mega_get_palettes`.
pub fn mega_get_palettes(cram: &[u8]) -> (r: ToolReply)
    ensures
        r matches ToolReply::Palettes(p) && p@.len() == 4 && forall|l: int|
            0 <= l < 4 ==> (#[trigger] p@[l])@ == if cram@.len() < 128 {
                seq![]
            } else {
                palette_line(cram@, l)
            },
{
    let p = decode_palettes(cram);
    proof {
        assert forall|l: int| 0 <= l < 4 implies (#[trigger] p@[l])@ == if cram@.len() < 128 {
            seq![]
        } else {
            palette_line(cram@, l)
        } by {
            if cram@.len() < 128 {
                assert(p@[l]@ =~= seq![]);
            }
        }
    }
    ToolReply::Palettes(p)
}

/// Reply of `mega_get_sprites`: the table base comes from the VDP registers.
pub fn mega_get_sprites(vdp: &[u8], vram: &[u8]) -> (r: ToolReply)
    ensures
        r matches ToolReply::Sprites(s) && s@ == sprite_walk(
            vram@,
            vdp_summary(vdp_file(vdp@)).sprite_table as int,
            0,
            0,
            80,
        ),
{
    let regs = decode_vdp_registers(vdp);
    ToolReply::Sprites(decode_sprites(vram, regs.decoded.sprite_table, 80))
}

/// The pixels of a tile, or nothing when it does not lie in VRAM.
pub open spec fn tile_or_nothing(vram: Seq<u8>, index: int) -> Seq<u8> {
    if index * 32 + 32 <= vram.len() {
        tile_pixels(vram, index * 32)
    } else {
        seq![]
    }
}

/// The palette line that a tile is shown with: the last one at most.
pub open spec fn line_index(palette: Option<u8>) -> int {
    match palette {
        None => 0,
        Some(p) => if p > 3 {
            3
        } else {
            p as int
        },
    }
}

/// Opaque RGBA bytes of a list of colours.
pub open spec fn line_rgba(line: Seq<Rgb>) -> Seq<u8>
    decreases line.len(),
{
    if line.len() == 0 {
        seq![]
    } else {
        line_rgba(line.drop_last()) + seq![line.last().r, line.last().g, line.last().b, 255u8]
    }
}

/// Whether a tile is asked for as two tiles, one above the other.
pub open spec fn is_tall(args: DumpTileArgs) -> bool {
    args.format matches Some(f) && f@ == "8x16"@
}

proof fn lemma_line_rgba(line: Seq<Rgb>)
    ensures
        line_rgba(line).len() == 4 * line.len(),
    decreases line.len(),
{
    if line.len() > 0 {
        lemma_line_rgba(line.drop_last());
    }
}

/// Reply of `mega_dump_tile`: the tile's palette indices (for `8x16` those of
/// the next tile follow) and the colours of its palette line.
pub fn mega_dump_tile(args: &DumpTileArgs, vram: &[u8], cram: &[u8]) -> (r: ToolReply)
    requires
        is_tall(*args) ==> args.index < u32::MAX,
    ensures
        r matches ToolReply::Tile { width, height, bitmap, palette } && {
            &&& width == 8
            &&& height == if is_tall(*args) {
                16u32
            } else {
                8
            }
            &&& bitmap@ == b64(
                tile_or_nothing(vram@, args.index as int) + if is_tall(*args) {
                    tile_or_nothing(vram@, args.index + 1)
                } else {
                    seq![]
                },
            )
            &&& palette@ == b64(
                if cram@.len() < 128 {
                    seq![]
                } else {
                    line_rgba(palette_line(cram@, line_index(args.palette)))
                },
            )
        },
{
    let tall = match &args.format {
        None => false,
        Some(f) => text_eq(f.as_str(), "8x16"),
    };
    let mut bitmap: Vec<u8> = Vec::new();
    if let Some(top) = decode_tile_8x8(vram, args.index) {
        push_all(&mut bitmap, top.as_slice());
    }
    proof {
        assert(bitmap@ =~= tile_or_nothing(vram@, args.index as int));
    }
    let mut height: u32 = 8;
    if tall {
        if let Some(bottom) = decode_tile_8x8(vram, args.index + 1) {
            push_all(&mut bitmap, bottom.as_slice());
        }
        height = 16;
    }
    proof {
        assert(bitmap@ =~= tile_or_nothing(vram@, args.index as int) + if is_tall(*args) {
            tile_or_nothing(vram@, args.index + 1)
        } else {
            seq![]
        });
    }
    let line_no: usize = match args.palette {
        None => 0,
        Some(p) => if p > 3 {
            3
        } else {
            p as usize
        },
    };
    let lines = decode_palettes(cram);
    let line = &lines[line_no];
    let mut colours: Vec<u8> = Vec::new();
    let mut i: usize = 0;
    while i < line.len()
        invariant
            i <= line@.len(),
            colours@ == line_rgba(line@.take(i as int)),
        decreases line@.len() - i,
    {
        let c = line[i];
        colours.push(c.r);
        colours.push(c.g);
        colours.push(c.b);
        colours.push(255);
        i += 1;
        proof {
            assert(line@.take(i as int).drop_last() =~= line@.take(i - 1));
            assert(colours@ =~= line_rgba(line@.take(i as int)));
        }
    }
    proof {
        assert(line@.take(line@.len() as int) =~= line@);
        lemma_line_rgba(line@);
        if cram@.len() < 128 {
            assert(colours@ =~= seq![]);
        }
    }
    ToolReply::Tile {
        width: 8,
        height,
        bitmap: b64_encode(bitmap.as_slice()),
        palette: b64_encode(colours.as_slice()),
    }
}

/// Reply of `mega_get_68k_registers`.
pub fn mega_get_68k_registers(blob: &[u8]) -> (r: ToolReply)
    ensures
        if blob@.len() >= 78 {
            r matches ToolReply::M68k(regs) && m68k_of(blob@, regs)
        } else {
            r matches ToolReply::NotImplemented { reason } && reason@
                == "m68k_state blob layout not yet stable in the libretro core fork"@
        },
{
    match decode_m68k(blob) {
        Some(regs) => ToolReply::M68k(regs),
        None => ToolReply::NotImplemented {
            reason: "m68k_state blob layout not yet stable in the libretro core fork",
        },
    }
}

/// Reply of `mega_get_z80_registers`.
pub fn mega_get_z80_registers(state_blob: &[u8], bus_blob: &[u8]) -> (r: ToolReply)
    ensures
        if state_blob@.len() >= 30 {
            r == ToolReply::Z80(z80_of(state_blob@, bus_blob@))
        } else {
            r matches ToolReply::NotImplemented { reason } && reason@
                == "z80 state blob unavailable (libretro core fork not linked yet)"@
        },
{
    match decode_z80(state_blob, bus_blob) {
        Some(regs) => ToolReply::Z80(regs),
        None => ToolReply::NotImplemented {
            reason: "z80 state blob unavailable (libretro core fork not linked yet)",
        },
    }
}

/// What a `mega_set_breakpoint` call asks for.
pub open spec fn breakpoint_request(
    args: BreakpointArgs,
    r: Result<(u32, BpKind, BpSpace), ToolReply>,
) -> bool {
    let kind = match args.kind {
        None => Some(BpKind::Exec),
        Some(k) => BpKind::named(lower(k@)),
    };
    let space = match args.space {
        None => Some(BpSpace::Ram),
        Some(s) => BpSpace::named(lower(s@)),
    };
    match args.addr {
        None => r matches Err(reply) && (reply matches ToolReply::Error(m) && m@
            == "missing required field: addr"@),
        Some(addr) => if kind is None {
            r matches Err(reply) && is_unknown(reply, "unknown breakpoint kind"@, args.kind->0@)
        } else if space is None {
            r matches Err(reply) && is_unknown(reply, "unknown breakpoint space"@, args.space->0@)
        } else {
            r matches Ok(q) && q == (addr, kind->0, space->0)
        },
    }
}

/// Checks the arguments of `mega_set_breakpoint`: an address is required; the
/// kind is `exec` and the space `ram` when left out.
pub fn set_breakpoint_request(args: &BreakpointArgs) -> (r: Result<
    (u32, BpKind, BpSpace),
    ToolReply,
>)
    ensures
        breakpoint_request(*args, r),
{
    let addr: u32 = match args.addr {
        None => {
            return Err(ToolReply::Error("missing required field: addr".to_owned()));
        },
        Some(a) => a,
    };
    let kind = match &args.kind {
        None => BpKind::Exec,
        Some(k) => match BpKind::parse(k.as_str()) {
            Some(kind) => kind,
            None => {
                return Err(unknown("unknown breakpoint kind", k.as_str()));
            },
        },
    };
    let space = match &args.space {
        None => BpSpace::Ram,
        Some(s) => match BpSpace::parse(s.as_str()) {
            Some(space) => space,
            None => {
                return Err(unknown("unknown breakpoint space", s.as_str()));
            },
        },
    };
    Ok((addr, kind, space))
}

/// Reply of `mega_set_breakpoint`.
pub fn mega_set_breakpoint(outcome: Result<SetBpOutcome, String>) -> (r: ToolReply)
    ensures
        match outcome {
            Ok(out) => r == ToolReply::BreakpointSet(out),
            Err(e) => is_failure(r, "set_breakpoint"@, e@),
        },
{
    match outcome {
        Ok(out) => ToolReply::BreakpointSet(out),
        Err(e) => failed("set_breakpoint", e.as_str()),
    }
}

/// The address of a `mega_set_breakpoint` call on the cartridge, whose
/// breakpoints are exec only.
pub fn cart_breakpoint_request(args: &BreakpointArgs) -> (r: Result<u32, ToolReply>)
    ensures
        match args.addr {
            Some(a) => r == Ok::<u32, ToolReply>(a),
            None => r matches Err(reply) && (reply matches ToolReply::Error(m) && m@
                == "missing required field: addr"@),
        },
{
    match args.addr {
        Some(a) => Ok(a),
        None => Err(ToolReply::Error("missing required field: addr".to_owned())),
    }
}

/// Reply of `mega_set_breakpoint` on the cartridge.
pub fn cart_set_breakpoint(addr: u32, outcome: Result<(), String>) -> (r: ToolReply)
    ensures
        match outcome {
            Ok(_) => r == (ToolReply::CartBreakpointSet { addr }),
            Err(e) => is_classified(r, "mega_set_breakpoint"@, e@),
        },
{
    match outcome {
        Ok(()) => ToolReply::CartBreakpointSet { addr },
        Err(e) => classify_edpro_err("mega_set_breakpoint", e.as_str()),
    }
}

/// Reply of `mega_clear_breakpoint`.
pub fn mega_clear_breakpoint(outcome: Result<bool, String>) -> (r: ToolReply)
    ensures
        match outcome {
            Ok(gone) => r == (ToolReply::BreakpointCleared { removed: gone }),
            Err(e) => is_failure(r, "clear_breakpoint"@, e@),
        },
{
    match outcome {
        Ok(removed) => ToolReply::BreakpointCleared { removed },
        Err(e) => failed("clear_breakpoint", e.as_str()),
    }
}

/// Reply of `mega_clear_breakpoint` on the cartridge.
pub fn cart_clear_breakpoint(outcome: Result<(), String>) -> (r: ToolReply)
    ensures
        match outcome {
            Ok(_) => r == (ToolReply::BreakpointCleared { removed: true }),
            Err(e) => is_classified(r, "mega_clear_breakpoint"@, e@),
        },
{
    match outcome {
        Ok(()) => ToolReply::BreakpointCleared { removed: true },
        Err(e) => classify_edpro_err("mega_clear_breakpoint", e.as_str()),
    }
}

/// Reply of `mega_list_breakpoints`.
pub fn mega_list_breakpoints(outcome: Result<Vec<Breakpoint>, String>) -> (r: ToolReply)
    ensures
        match outcome {
            Ok(list) => r == ToolReply::Breakpoints(list),
            Err(e) => is_failure(r, "list_breakpoints"@, e@),
        },
{
    match outcome {
        Ok(list) => ToolReply::Breakpoints(list),
        Err(e) => failed("list_breakpoints", e.as_str()),
    }
}

/// How a cartridge breakpoint is listed: its address is its id.
pub open spec fn cart_entry(addr: u32) -> Breakpoint {
    Breakpoint {
        id: addr,
        addr,
        kind: BpKind::Exec,
        space: BpSpace::Rom,
        hit_count: 0,
        enabled: true,
    }
}

/// Reply of `mega_list_breakpoints` on the cartridge.
pub fn cart_list_breakpoints(addrs: &Vec<u32>) -> (r: ToolReply)
    ensures
        r matches ToolReply::Breakpoints(list) && list@ == addrs@.map_values(
            |a: u32| cart_entry(a),
        ),
{
    let mut list: Vec<Breakpoint> = Vec::new();
    let mut i: usize = 0;
    while i < addrs.len()
        invariant
            i <= addrs@.len(),
            list@ == addrs@.take(i as int).map_values(|a: u32| cart_entry(a)),
        decreases addrs@.len() - i,
    {
        let addr: u32 = addrs[i];
        list.push(
            Breakpoint {
                id: addr,
                addr,
                kind: BpKind::Exec,
                space: BpSpace::Rom,
                hit_count: 0,
                enabled: true,
            },
        );
        i += 1;
        proof {
            assert(list@ =~= addrs@.take(i as int).map_values(|a: u32| cart_entry(a)));
        }
    }
    proof {
        assert(addrs@.take(addrs@.len() as int) =~= addrs@);
    }
    ToolReply::Breakpoints(list)
}

/// Whether a screenshot is asked for as raw RGBA bytes.
pub open spec fn wants_raw(args: ScreenshotArgs) -> bool {
    args.format matches Some(f) && f@ == "raw"@
}

/// Whether a frame has a PNG form: its pixels fill its sides, and no side is 0.
pub open spec fn encodes(f: Frame) -> bool {
    rgba(f.fmt, f.data@).len() == f.w * f.h * 4 && f.w > 0 && f.h > 0
}

/// Whether what a screenshot is to send is too large to be sent as text.
pub open spec fn too_large(args: ScreenshotArgs, f: Frame) -> bool {
    let pixels = rgba(f.fmt, f.data@);
    if wants_raw(args) {
        pixels.len() > MAX_ENCODE
    } else {
        encodes(f) && png_file(pixels, f.w, f.h, true).len() > MAX_ENCODE
    }
}

/// What `mega_screenshot` replies with a frame.
pub open spec fn screenshot_reply(args: ScreenshotArgs, f: Frame, r: ToolReply) -> bool {
    let pixels = rgba(f.fmt, f.data@);
    if wants_raw(args) {
        r matches ToolReply::Screenshot { format, width, height, data } && format@ == "raw"@
            && width == f.w && height == f.h && data@ == b64(pixels)
    } else if encodes(f) {
        r matches ToolReply::Screenshot { format, width, height, data } && format@ == "png"@
            && width == f.w && height == f.h && data@ == b64(png_file(pixels, f.w, f.h, true))
    } else {
        r matches ToolReply::Error(m) && exists|e: PngError|
            m@ == "png encode failed: "@ + (#[trigger] e.text()) && png_result(
                pixels,
                f.w,
                f.h,
                Err::<Vec<u8>, PngError>(e),
            )
    }
}

/// The RGBA bytes of a screenshot, and its PNG unless raw bytes are asked for.
pub struct Rendered {
    pub rgba: Vec<u8>,
    pub png: Option<Result<Vec<u8>, PngError>>,
}

/// Renders a frame for a screenshot.
pub fn render_screenshot(args: &ScreenshotArgs, frame: &Frame) -> (r: Rendered)
    ensures
        r.rgba@ == rgba(frame.fmt, frame.data@),
        r.png is None <==> wants_raw(*args),
        r.png matches Some(p) ==> png_result(r.rgba@, frame.w, frame.h, p),
{
    let raw = match &args.format {
        None => false,
        Some(f) => text_eq(f.as_str(), "raw"),
    };
    let pixels = to_rgba8(frame);
    if raw {
        Rendered { rgba: pixels, png: None }
    } else {
        let p = rgba8_to_png(pixels.as_slice(), frame.w, frame.h);
        Rendered { rgba: pixels, png: Some(p) }
    }
}

/// Reply of `mega_screenshot` for a rendered frame.
pub fn rendered_reply(w: u32, h: u32, shot: Rendered) -> (r: ToolReply)
    requires
        shot.png is None ==> shot.rgba@.len() <= MAX_ENCODE,
        shot.png matches Some(Ok(file)) ==> file@.len() <= MAX_ENCODE,
    ensures
        match shot.png {
            None => r matches ToolReply::Screenshot { format, width, height, data } && format@
                == "raw"@ && width == w && height == h && data@ == b64(shot.rgba@),
            Some(Ok(file)) => r matches ToolReply::Screenshot { format, width, height, data }
                && format@ == "png"@ && width == w && height == h && data@ == b64(file@),
            Some(Err(e)) => r matches ToolReply::Error(m) && m@ == "png encode failed: "@
                + e.text(),
        },
{
    match shot.png {
        None => ToolReply::Screenshot {
            format: "raw",
            width: w,
            height: h,
            data: b64_encode(shot.rgba.as_slice()),
        },
        Some(Ok(file)) => ToolReply::Screenshot {
            format: "png",
            width: w,
            height: h,
            data: b64_encode(file.as_slice()),
        },
        Some(Err(e)) => ToolReply::Error(
            joined("png encode failed: ", e.message().as_str()),
        ),
    }
}

/// Reply of `mega_screenshot`. `None` exactly when the encoded image is too large
/// to be sent as text.
pub fn mega_screenshot(args: &ScreenshotArgs, outcome: Result<Option<Frame>, String>) -> (r: Option<
    ToolReply,
>)
    ensures
        match outcome {
            Err(e) => r matches Some(reply) && is_failure(reply, "screenshot"@, e@),
            Ok(None) => r matches Some(reply) && reply is NoFrameYet,
            Ok(Some(f)) => match r {
                Some(reply) => !too_large(*args, f) && screenshot_reply(*args, f, reply),
                None => too_large(*args, f),
            },
        },
{
    let frame = match outcome {
        Err(e) => {
            return Some(failed("screenshot", e.as_str()));
        },
        Ok(None) => {
            return Some(ToolReply::NoFrameYet);
        },
        Ok(Some(f)) => f,
    };
    let shot = render_screenshot(args, &frame);
    match &shot.png {
        None => if shot.rgba.len() > MAX_ENCODE {
            return None;
        },
        Some(Ok(file)) => if file.len() > MAX_ENCODE {
            assert(encodes(frame));
            return None;
        },
        Some(Err(e)) => {
            proof {
                assert(e.text() == e.text());
            }
        },
    }
    Some(rendered_reply(frame.w, frame.h, shot))
}

/// The slot of a save or load, 0 when left out.
pub fn slot_argument(args: StateSlotArgs) -> (r: u32)
    ensures
        r == match args.slot {
            None => 0,
            Some(s) => s,
        },
{
    match args.slot {
        None => 0,
        Some(s) => s,
    }
}

/// Reply of `mega_save_state`.
pub fn mega_save_state(outcome: Result<u64, String>) -> (r: ToolReply)
    ensures
        match outcome {
            Ok(n) => r == (ToolReply::StateSaved { size: n }),
            Err(e) => is_failure(r, "save_state"@, e@),
        },
{
    match outcome {
        Ok(size) => ToolReply::StateSaved { size },
        Err(e) => failed("save_state", e.as_str()),
    }
}

/// Reply of `mega_get_status`.
pub fn mega_get_status(outcome: Result<Status, String>) -> (r: ToolReply)
    ensures
        match outcome {
            Ok(s) => r == ToolReply::Status(s),
            Err(e) => is_failure(r, "status"@, e@),
        },
{
    match outcome {
        Ok(s) => ToolReply::Status(s),
        Err(e) => failed("status", e.as_str()),
    }
}

/// The port of a pad tool, 0 when left out.
pub open spec fn port_of(port: Option<u32>) -> u32 {
    match port {
        None => 0,
        Some(p) => p,
    }
}

fn port_argument(port: Option<u32>) -> (r: u32)
    ensures
        r == port_of(port),
{
    match port {
        None => 0,
        Some(p) => p,
    }
}

/// `mega_input_set_state`: changes the listed buttons of a port and tells how
/// many were listed.
pub fn mega_input_set_state(input: &mut InputState, args: InputSetStateArgs) -> (r: ToolReply)
    ensures
        forall|q: u32|
            #[trigger] final(input).bits(q) == if q == port_of(args.port) && q < 2 {
                apply_all(old(input).bits(q), args.buttons.pairs(12))
            } else {
                old(input).bits(q)
            },
        r == (ToolReply::InputApplied {
            port: port_of(args.port),
            applied: args.buttons.pairs(12).len() as usize,
        }),
{
    let port: u32 = port_argument(args.port);
    let pairs = args.buttons.into_pairs();
    input.apply_partial(port, pairs.as_slice());
    ToolReply::InputApplied { port, applied: pairs.len() }
}

/// What pressing or releasing the named button of a port does.
pub open spec fn button_result(
    before: InputState,
    args: InputButtonArgs,
    pressed: bool,
    after: InputState,
    r: ToolReply,
) -> bool {
    let port = port_of(args.port);
    match r {
        ToolReply::InputButton { port: p, button } => p == port && exists|b: Button|
            {
                &&& #[trigger] b.label() == lower(args.button@)
                &&& button@ == b.label()
                &&& forall|q: u32|
                    #[trigger] after.bits(q) == if q == port && q < 2 {
                        set_bits(before.bits(q), b, pressed)
                    } else {
                        before.bits(q)
                    }
            },
        _ => after == before && is_unknown(r, "unknown button"@, args.button@) && forall|b: Button|
            #[trigger] b.label() != lower(args.button@),
    }
}

/// `mega_input_press`: holds a button.
pub fn mega_input_press(input: &mut InputState, args: &InputButtonArgs) -> (r: ToolReply)
    ensures
        button_result(*old(input), *args, true, *final(input), r),
{
    let port: u32 = port_argument(args.port);
    match Button::parse(args.button.as_str()) {
        None => unknown("unknown button", args.button.as_str()),
        Some(b) => {
            input.press(port, b);
            proof {
                assert(b.label() == lower(args.button@));
            }
            ToolReply::InputButton { port, button: b.name() }
        },
    }
}

/// `mega_input_release`: lets go of a button.
pub fn mega_input_release(input: &mut InputState, args: &InputButtonArgs) -> (r: ToolReply)
    ensures
        button_result(*old(input), *args, false, *final(input), r),
{
    let port: u32 = port_argument(args.port);
    match Button::parse(args.button.as_str()) {
        None => unknown("unknown button", args.button.as_str()),
        Some(b) => {
            input.release(port, b);
            proof {
                assert(b.label() == lower(args.button@));
            }
            ToolReply::InputButton { port, button: b.name() }
        },
    }
}

/// `mega_input_get_state`: every button of a port with whether it is held.
pub fn mega_input_get_state(input: &InputState, args: InputGetStateArgs) -> (r: ToolReply)
    ensures
        r matches ToolReply::InputState { port, buttons } && {
            &&& port == port_of(args.port)
            &&& buttons@.len() == if port < 2 {
                12int
            } else {
                0
            }
            &&& forall|i: int|
                0 <= i < buttons@.len() ==> (#[trigger] buttons@[i]).0@ == Button::at(i).label()
                    && buttons@[i].1 == input.held(port, Button::at(i))
        },
{
    let port: u32 = port_argument(args.port);
    ToolReply::InputState { port, buttons: input.snapshot_buttons(port) }
}

/// A message that names both a missing connection and a missing feature is told
/// as a missing connection.
pub proof fn law_connection_first(r: ToolReply, tool: Seq<char>, msg: Seq<char>)
    requires
        is_classified(r, tool, msg),
    ensures
        r is NotConnected <==> has_part(msg, "not connected"@),
        r is NotSupported <==> has_part(msg, NOT_SUPPORTED@) && !has_part(msg, "not connected"@),
{
}

/// A Base64 argument gives the bytes that it was made from.
pub proof fn law_argument_round_trip(bytes: Seq<u8>, r: Result<Vec<u8>, ToolReply>)
    requires
        data_result(b64(bytes), r),
    ensures
        r matches Ok(got) && got@ == bytes,
{
    if let Ok(got) = r {
        law_b64_injective(got@, bytes);
    }
}

proof fn lemma_pairs(b: InputButtons, n: int, button: Button)
    requires
        0 <= n <= 12,
    ensures
        button.position() >= n ==> forall|i: int|
            0 <= i < b.pairs(n).len() ==> (#[trigger] b.pairs(n)[i]).0 != button,
    decreases n,
{
    if n > 0 {
        lemma_pairs(b, n - 1, button);
        assert(Button::at(n - 1).position() == n - 1);
    }
}

proof fn lemma_pairs_decide(b: InputButtons, bits: u16, n: int, button: Button)
    requires
        0 <= n <= 12,
        button.position() < n,
    ensures
        apply_all(bits, b.pairs(n)) & button.mask() != 0 <==> match b.wanted(button) {
            Some(p) => p,
            None => bits & button.mask() != 0,
        },
    decreases n,
{
    let k = n - 1;
    let rest = b.pairs(k);
    assert(Button::at(button.position()) == button);
    assert(Button::at(k).position() == k);
    if button.position() == k {
        lemma_pairs(b, k, button);
        crate::emulator::input::law_partial_keeps_others(bits, rest, button);
        if let Some(p) = b.wanted(button) {
            let all = b.pairs(n);
            assert(all.drop_last() =~= rest);
            crate::emulator::input::law_set_touches_one(
                apply_all(bits, rest),
                button,
                p,
                button,
            );
        }
    } else {
        lemma_pairs_decide(b, bits, k, button);
        if let Some(p) = b.wanted(Button::at(k)) {
            let all = b.pairs(n);
            assert(all.drop_last() =~= rest);
            crate::emulator::input::law_set_touches_one(
                apply_all(bits, rest),
                Button::at(k),
                p,
                button,
            );
        }
    }
}

/// After a partial change every listed button is as listed, and every other
/// button is as it was.
pub proof fn law_set_state_is_partial(b: InputButtons, bits: u16, button: Button)
    ensures
        apply_all(bits, b.pairs(12)) & button.mask() != 0 <==> match b.wanted(button) {
            Some(p) => p,
            None => bits & button.mask() != 0,
        },
{
    lemma_pairs_decide(b, bits, 12, button);
}

/// Each listed button is asked for under its own name.
pub proof fn law_buttons_by_name(b: InputButtons)
    ensures
        b.wanted(Button::Up) == b.up,
        b.wanted(Button::Down) == b.down,
        b.wanted(Button::Left) == b.left,
        b.wanted(Button::Right) == b.right,
        b.wanted(Button::A) == b.a,
        b.wanted(Button::B) == b.b,
        b.wanted(Button::C) == b.c,
        b.wanted(Button::Start) == b.start,
        b.wanted(Button::X) == b.x,
        b.wanted(Button::Y) == b.y,
        b.wanted(Button::Z) == b.z,
        b.wanted(Button::Mode) == b.mode,
{
}

/// Pressing or releasing a button by name is what the game then reads under that
/// button's joypad id, on the port that was named, or else the first; all other
/// answers stay.
pub proof fn law_named_button_is_polled(
    before: InputState,
    args: InputButtonArgs,
    pressed: bool,
    after: InputState,
    r: ToolReply,
    q: u32,
    id: u32,
)
    requires
        button_result(before, args, pressed, after, r),
        args.port matches Some(p) ==> p < 2,
    ensures
        ({
            let port = match args.port {
                Some(p) => p,
                None => 0,
            };
            let name = lower(args.button@);
            let meant = {
                ||| name == "a"@ && id == 0
                ||| name == "x"@ && id == 1
                ||| name == "mode"@ && id == 2
                ||| name == "start"@ && id == 3
                ||| name == "up"@ && id == 4
                ||| name == "down"@ && id == 5
                ||| name == "left"@ && id == 6
                ||| name == "right"@ && id == 7
                ||| name == "c"@ && id == 8
                ||| name == "y"@ && id == 9
                ||| name == "z"@ && (id == 10 || id == 11)
            };
            &&& q == port && meant ==> (after.answer(q, id) == 1 <==> pressed)
            &&& !(q == port && meant) ==> after.answer(q, id) == before.answer(q, id)
            &&& r is InputButton <==> exists|b: Button| #[trigger] b.label() == name
        }),
{
    let port = port_of(args.port);
    let name = lower(args.button@);
    if let ToolReply::InputButton { port: p, button } = r {
        let b = choose|b: Button|
            {
                &&& #[trigger] b.label() == name
                &&& button@ == b.label()
                &&& forall|q: u32|
                    #[trigger] after.bits(q) == if q == port && q < 2 {
                        set_bits(before.bits(q), b, pressed)
                    } else {
                        before.bits(q)
                    }
            };
        assert(before.set_to(port, b, pressed, after));
        law_set_is_polled(before, port, b, pressed, after, q, id);
        law_button_names(b);
    } else {
        law_button_names(Button::Up);
        law_button_names(Button::Down);
        law_button_names(Button::Left);
        law_button_names(Button::Right);
        law_button_names(Button::A);
        law_button_names(Button::C);
        law_button_names(Button::Start);
        law_button_names(Button::X);
        law_button_names(Button::Y);
        law_button_names(Button::Z);
        law_button_names(Button::Mode);
    }
}

/// A dumped tile is the 32 bytes at its number times 32, two pixels to a byte, the
/// left one in the high half; a tile that does not lie in VRAM is nothing.
pub proof fn law_dumped_tile(vram: Seq<u8>, index: int, k: int)
    requires
        0 <= index,
        0 <= k < 32,
    ensures
        32 * index + 32 <= vram.len() ==> {
            let px = tile_or_nothing(vram, index);
            &&& px.len() == 64
            &&& 16 * px[2 * k] + px[2 * k + 1] == vram[32 * index + k]
            &&& px[2 * k] < 16
            &&& px[2 * k + 1] < 16
        },
        32 * index + 32 > vram.len() ==> tile_or_nothing(vram, index).len() == 0,
{
    if 32 * index + 32 <= vram.len() {
        assert(index * 32 == 32 * index);
        crate::emulator::decode::law_tile_pixels(vram, 32 * index, k);
    }
}

/// The palette bytes of a tile are red, green, blue and an opaque alpha of each
/// colour in turn.
pub proof fn law_palette_bytes(line: Seq<Rgb>, i: int)
    requires
        0 <= i < line.len(),
    ensures
        line_rgba(line).len() == 4 * line.len(),
        line_rgba(line)[4 * i] == line[i].r,
        line_rgba(line)[4 * i + 1] == line[i].g,
        line_rgba(line)[4 * i + 2] == line[i].b,
        line_rgba(line)[4 * i + 3] == 255,
    decreases line.len(),
{
    lemma_line_rgba(line);
    lemma_line_rgba(line.drop_last());
    let head = line_rgba(line.drop_last());
    assert(head.len() == 4 * (line.len() - 1));
    if i < line.len() - 1 {
        law_palette_bytes(line.drop_last(), i);
        assert(line_rgba(line)[4 * i] == head[4 * i]);
        assert(line_rgba(line)[4 * i + 1] == head[4 * i + 1]);
        assert(line_rgba(line)[4 * i + 2] == head[4 * i + 2]);
        assert(line_rgba(line)[4 * i + 3] == head[4 * i + 3]);
    }
}

/// What is left out takes its default: the first palette line and the first port;
/// a palette line beyond the four is the last.
pub proof fn law_defaults(p: u8, port: u32)
    ensures
        line_index(None) == 0,
        p < 4 ==> line_index(Some(p)) == p,
        p >= 4 ==> line_index(Some(p)) == 3,
        port_of(None) == 0,
        port_of(Some(port)) == port,
{
}

/// A breakpoint needs an address and nothing else; it is an exec breakpoint in RAM
/// unless the arguments say otherwise, each on its own.
pub proof fn law_breakpoint_defaults(
    args: BreakpointArgs,
    r: Result<(u32, BpKind, BpSpace), ToolReply>,
)
    requires
        breakpoint_request(args, r),
    ensures
        args.addr is None ==> r is Err,
        r matches Ok(q) ==> args.addr == Some(q.0) && (args.kind is None ==> q.1 == BpKind::Exec)
            && (args.space is None ==> q.2 == BpSpace::Ram) && (args.kind matches Some(k)
            ==> BpKind::named(lower(k@)) == Some(q.1)) && (args.space matches Some(s)
            ==> BpSpace::named(lower(s@)) == Some(q.2)),
        args.addr is Some && args.kind is None && args.space is None ==> r is Ok,
        args.addr is Some && (args.kind matches Some(k) && BpKind::named(lower(k@)) is None)
            ==> r is Err,
        args.addr is Some && (args.space matches Some(s) && BpSpace::named(lower(s@)) is None)
            ==> r is Err,
{
}

/// A cartridge breakpoint is listed as an enabled exec breakpoint in ROM, under its
/// address.
pub proof fn law_cart_entry(addr: u32, pc: u32)
    ensures
        cart_entry(addr).id == addr,
        cart_entry(addr).hit_by_exec(pc) <==> pc == addr,
        cart_entry(addr).space == BpSpace::Rom,
        cart_entry(addr).hit_count == 0,
{
}

/// The bytes of a memory reply come back from its text, under the address, length
/// and space that were asked for.
pub proof fn law_memory_reply_carries(
    r: ToolReply,
    args: ReadMemoryArgs,
    bytes: Seq<u8>,
    back: Result<Vec<u8>, ToolReply>,
)
    requires
        is_memory(r, args, bytes),
        r matches ToolReply::Memory { addr, length, space, data } && data_result(data@, back),
    ensures
        back matches Ok(got) && got@ == bytes,
        r matches ToolReply::Memory { addr, length, space, data } && addr == args.addr && length
            == args.length && space@ == args.space@,
{
    law_argument_round_trip(bytes, back);
}

/// A screenshot reply tells the frame's sides. Raw bytes are sent where they are
/// asked for, and come back as the frame's pixels; else a packed frame goes out as
/// an image.
pub proof fn law_screenshot_reply(
    args: ScreenshotArgs,
    f: Frame,
    r: ToolReply,
    back: Result<Vec<u8>, ToolReply>,
)
    requires
        f.packed(),
        f.w > 0,
        f.h > 0,
        screenshot_reply(args, f, r),
        r matches ToolReply::Screenshot { format, width, height, data } ==> data_result(
            data@,
            back,
        ),
    ensures
        r matches ToolReply::Screenshot { format, width, height, data } && {
            &&& width == f.w
            &&& height == f.h
            &&& (args.format matches Some(w) && w@ == "raw"@) ==> format@ == "raw"@ && (
            back matches Ok(got) && got@ == rgba(f.fmt, f.data@))
            &&& !(args.format matches Some(w) && w@ == "raw"@) ==> format@ == "png"@ && (
            back matches Ok(got) && got@ == png_file(rgba(f.fmt, f.data@), f.w, f.h, true))
        },
{
    assert(f.w * f.h > 0) by (nonlinear_arith)
        requires
            f.w > 0,
            f.h > 0,
    ;
    crate::emulator::frame::law_rgba_of_packed(f, 0);
    if wants_raw(args) {
        law_argument_round_trip(rgba(f.fmt, f.data@), back);
    } else {
        law_argument_round_trip(png_file(rgba(f.fmt, f.data@), f.w, f.h, true), back);
    }
}

/// A failure is told as what failed, ` failed: ` and why, in this order; the reason
/// that a target gives for what it cannot do has one form.
pub proof fn law_failure_text(r: ToolReply, what: Seq<char>, why: Seq<char>)
    requires
        is_failure(r, what, why),
    ensures
        r matches ToolReply::Error(m) && {
            &&& m@.take(what.len() as int) == what
            &&& m@.subrange(what.len() as int, what.len() as int + 9) == " failed: "@
            &&& m@.skip(what.len() as int + 9) == why
        },
        NOT_SUPPORTED@ == "not_supported_on_target"@,
{
    reveal_strlit(" failed: ");
    if let ToolReply::Error(m) = r {
        assert(m@.take(what.len() as int) =~= what);
        assert(m@.subrange(what.len() as int, what.len() as int + 9) =~= " failed: "@);
        assert(m@.skip(what.len() as int + 9) =~= why);
    }
}

/// A tile is shown with the one below it for the format `8x16` alone; a name that is
/// not known is told behind what it should have been; what the cartridge cannot do
/// is told with the tool's name first.
pub proof fn law_reply_texts(
    args: DumpTileArgs,
    unknown: ToolReply,
    what: Seq<char>,
    name: Seq<char>,
    refused: ToolReply,
    tool: Seq<char>,
)
    requires
        is_unknown(unknown, what, name),
        is_not_supported(refused, tool),
    ensures
        is_tall(args) <==> (args.format matches Some(f) && f@ == seq!['8', 'x', '1', '6']),
        unknown matches ToolReply::Error(m) && m@ == what + seq![':', ' '] + debug_form(name),
        refused matches ToolReply::NotSupported { tool: t, message } && t@ == tool && message@.take(
            tool.len() as int,
        ) == tool,
{
    reveal_strlit("8x16");
    reveal_strlit(": ");
    assert("8x16"@ =~= seq!['8', 'x', '1', '6']);
    assert(": "@ =~= seq![':', ' ']);
    if let ToolReply::NotSupported { tool: t, message } = refused {
        assert(message@.take(tool.len() as int) =~= tool);
    }
}

} // verus!
