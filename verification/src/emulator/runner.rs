//! Command handling and change detection of the frame loop. The loop itself
//! runs outside: it polls commands, drives the core and sleeps as decided here.

use crate::checksum::{crc32, crc32_hash};
use crate::emulator::breakpoints::{
    by_id, counted, first_exec, slot_for, without, BpKind, BpSpace, Breakpoint, BreakpointTable,
};
use crate::emulator::debug_api::HaltInfo;
use crate::emulator::decode::{
    decode_m68k, decode_vdp_registers, le16, le32, m68k_of, vdp_file, vdp_summary, M68kRegisters,
    VdpRegisters,
};
use crate::emulator::frame::{Frame, FrameSlot, PixelFormat};
use crate::emulator::memory::{
    copy_bytes, push_all, push_span, read_region, snapshot_region, span_text, write_region,
    write_result, CoreMemory, MemorySpace, RegionError,
};
use crate::emulator::rom::{
    acceptable, check_result, check_rom, describes, region_letters, rom_info, title, RomError,
    RomInfo,
};
use crate::ffi::{
    LIBRA_MEMORY_CRAM, LIBRA_MEMORY_M68K, LIBRA_MEMORY_VDP_STATE, LIBRA_MEMORY_VSRAM,
    RETRO_MEMORY_VIDEO_RAM,
};
use crate::text::{dec, push_dec};
use std::collections::HashMap;
use vstd::prelude::*;
use vstd::slice::slice_subrange;
use vstd::string::*;

verus! {

broadcast use vstd::std_specs::hash::group_hash_axioms;

/// Length of a frame in microseconds.
pub const FRAME_DURATION_US: u64 = 16_667;

/// The largest read in bytes (16 MiB).
pub const MAX_READ: u32 = 16_777_216;

/// What is known of the core.
pub struct LibraCtx {
    /// Whether a core is linked in.
    pub linked: bool,
    pub core_loaded: bool,
    /// Whether the core offers the debug entry points.
    pub debug_api: bool,
    /// The core's memory regions.
    pub memory: CoreMemory,
}

impl LibraCtx {
    /// The stand-in for a core that is not linked: no regions, nothing loads.
    pub fn new() -> (r: Option<Self>)
        ensures
            r matches Some(c) && !c.linked && !c.core_loaded && !c.debug_api && c.memory@
                == Map::<u32, Seq<u8>>::empty(),
    {
        Some(
            LibraCtx {
                linked: false,
                core_loaded: false,
                debug_api: false,
                memory: CoreMemory::new(),
            },
        )
    }

    /// Without a linked core no core file loads.
    pub fn load_core(&mut self, _path: &str) -> (r: bool)
        ensures
            !r,
            *final(self) == *old(self),
    {
        false
    }

    /// Without a linked core no game loads.
    pub fn load_game(&mut self, _path: &str) -> (r: bool)
        ensures
            !r,
            *final(self) == *old(self),
    {
        false
    }

    /// Without a linked core a frame changes nothing.
    pub fn run_frame(&mut self)
        ensures
            *final(self) == *old(self),
    {
    }
}

/// Commands to the emulator.
#[allow(inconsistent_fields)]
pub enum Command {
    LoadRom { bytes: Vec<u8> },
    UnloadRom,
    Pause,
    Resume,
    StepFrame { n: u32 },
    ReadMemory { space: MemorySpace, addr: u32, length: u32 },
    WriteMemory { space: MemorySpace, addr: u32, bytes: Vec<u8> },
    SnapshotRegion { space: MemorySpace },
    Status,
    SaveState { slot: u32 },
    LoadState { slot: u32 },
    Screenshot,
    StepInstruction { n: u32 },
    SetBreakpoint { addr: u32, kind: BpKind, space: BpSpace },
    ClearBreakpoint { id: u32 },
    ListBreakpoints,
    /// Resume after a breakpoint halt; a plain resume when not halted.
    ContinueAfterHalt,
    /// Count a hit as if the 68k had reached `pc`.
    SimulateBreakpointHit { pc: u32 },
    Shutdown,
}

/// Why a command failed.
#[derive(Debug)]
pub enum CommandError {
    Rom(RomError),
    NoRom,
    /// A read longer than the cap.
    TooLong(u32),
    Overflow,
    RomOutOfBounds { start: usize, end: usize, size: usize },
    Region(RegionError),
    /// The core has no region for the space.
    Unmapped(MemorySpace),
    RomReadOnly,
    NotLinked,
    EmptySlot(u32),
    /// Every breakpoint id has been given out.
    NoIdsLeft,
}

impl CommandError {
    /// The error's message.
    pub open spec fn text(self) -> Seq<char> {
        match self {
            CommandError::Rom(e) => e.text(),
            CommandError::NoRom => "no ROM loaded"@,
            CommandError::TooLong(n) => "length "@ + dec(n as nat)
                + " exceeds sanity cap (16 MiB)"@,
            CommandError::Overflow => "addr+length overflow"@,
            CommandError::RomOutOfBounds { start, end, size } => "out-of-bounds ROM read "@
                + span_text(start, end) + " (rom is "@ + dec(size as nat) + " bytes)"@,
            CommandError::Region(e) => e.text(),
            CommandError::Unmapped(space) => "region "@ + space.variant()
                + " unmapped (core not loaded?)"@,
            CommandError::RomReadOnly => "ROM is read-only"@,
            CommandError::NotLinked => "libra not linked"@,
            CommandError::EmptySlot(slot) => "slot "@ + dec(slot as nat) + " is empty"@,
            CommandError::NoIdsLeft => "no breakpoint ids left"@,
        }
    }

    /// The error's message.
    pub fn message(&self) -> (r: String)
        ensures
            r@ == self.text(),
    {
        match self {
            CommandError::Rom(e) => e.message(),
            CommandError::NoRom => "no ROM loaded".to_owned(),
            CommandError::TooLong(n) => {
                let mut m = "length ".to_owned();
                push_dec(&mut m, *n as u128);
                m.append(" exceeds sanity cap (16 MiB)");
                m
            },
            CommandError::Overflow => "addr+length overflow".to_owned(),
            CommandError::RomOutOfBounds { start, end, size } => {
                let mut m = "out-of-bounds ROM read ".to_owned();
                push_span(&mut m, *start, *end);
                m.append(" (rom is ");
                push_dec(&mut m, *size as u128);
                m.append(" bytes)");
                m
            },
            CommandError::Region(e) => e.message(),
            CommandError::Unmapped(space) => {
                let mut m = "region ".to_owned();
                m.append(space.variant_name());
                m.append(" unmapped (core not loaded?)");
                m
            },
            CommandError::RomReadOnly => "ROM is read-only".to_owned(),
            CommandError::NotLinked => "libra not linked".to_owned(),
            CommandError::EmptySlot(slot) => {
                let mut m = "slot ".to_owned();
                push_dec(&mut m, *slot as u128);
                m.append(" is empty");
                m
            },
            CommandError::NoIdsLeft => "no breakpoint ids left".to_owned(),
        }
    }
}

/// Outcome of an instruction step.
#[derive(Debug)]
pub struct StepOutcome {
    pub pc: u32,
    pub sr: u16,
    pub frame: u64,
    pub instructions_executed: u32,
    /// `instruction` with the debug entry points, `frame` without them.
    pub granularity: &'static str,
}

/// Outcome of setting a breakpoint.
#[derive(Debug)]
pub struct SetBpOutcome {
    pub ok: bool,
    pub id: u32,
    /// `debug_api_unavailable` when the core cannot report hits.
    pub reason: Option<&'static str>,
}

/// Emulator status.
#[derive(Debug)]
pub struct Status {
    pub rom_loaded: bool,
    pub paused: bool,
    pub frame: u64,
    pub target: &'static str,
    pub libra_linked: bool,
}

/// Payload of a resource event.
#[derive(Debug)]
pub enum Payload {
    /// A region's bytes.
    Bytes(Vec<u8>),
    /// The VDP registers, to be sent as JSON.
    Vdp(VdpRegisters),
}

/// A watched resource changed.
#[derive(Debug)]
pub struct ResourceEvent {
    pub uri: &'static str,
    pub mime: &'static str,
    pub payload: Payload,
}

/// Number of watched resources.
pub const WATCHED: u32 = 4;

/// URI of a watched resource.
pub open spec fn watch_uri(k: int) -> Seq<char> {
    if k == 0 {
        "mega://vram"@
    } else if k == 1 {
        "mega://cram"@
    } else if k == 2 {
        "mega://vsram"@
    } else {
        "mega://vdp/registers"@
    }
}

/// Region behind a watched resource.
pub open spec fn watch_region(k: int) -> u32 {
    if k == 0 {
        RETRO_MEMORY_VIDEO_RAM
    } else if k == 1 {
        LIBRA_MEMORY_CRAM
    } else if k == 2 {
        LIBRA_MEMORY_VSRAM
    } else {
        LIBRA_MEMORY_VDP_STATE
    }
}

/// Whether resource `k` differs from what was last published: its region is
/// mapped, not empty, and has another checksum.
pub open spec fn changed(crcs: Map<u32, u32>, mem: Map<u32, Seq<u8>>, k: int) -> bool {
    let id = watch_region(k);
    &&& mem.dom().contains(id)
    &&& mem[id].len() > 0
    &&& !(crcs.dom().contains(k as u32) && crcs[k as u32] == crc32(mem[id]))
}

/// The changed ones among the first `n` watched resources, in order.
pub open spec fn changed_keys(crcs: Map<u32, u32>, mem: Map<u32, Seq<u8>>, n: int) -> Seq<int>
    decreases n,
{
    if n <= 0 {
        seq![]
    } else {
        let rest = changed_keys(crcs, mem, n - 1);
        if changed(crcs, mem, n - 1) {
            rest.push(n - 1)
        } else {
            rest
        }
    }
}

/// The published checksums once the changes among the first `n` resources are
/// out.
pub open spec fn published(crcs: Map<u32, u32>, mem: Map<u32, Seq<u8>>, n: int) -> Map<u32, u32>
    decreases n,
{
    if n <= 0 {
        crcs
    } else {
        let rest = published(crcs, mem, n - 1);
        if changed(crcs, mem, n - 1) {
            rest.insert((n - 1) as u32, crc32(mem[watch_region(n - 1)]))
        } else {
            rest
        }
    }
}

/// Whether `e` is the event of resource `k`.
pub open spec fn event_of(e: ResourceEvent, mem: Map<u32, Seq<u8>>, k: int) -> bool {
    let bytes = mem[watch_region(k)];
    &&& e.uri@ == watch_uri(k)
    &&& if k == 3 {
        &&& e.mime@ == "application/json"@
        &&& e.payload matches Payload::Vdp(v)
        &&& v.regs@ == vdp_file(bytes)
        &&& v.decoded == vdp_summary(vdp_file(bytes))
    } else {
        &&& e.mime@ == "application/octet-stream"@
        &&& e.payload matches Payload::Bytes(b)
        &&& b@ == bytes
    }
}

/// Whether `events` are the events of the resources `keys`.
pub open spec fn events_of(
    events: Seq<ResourceEvent>,
    mem: Map<u32, Seq<u8>>,
    keys: Seq<int>,
) -> bool {
    &&& events.len() == keys.len()
    &&& forall|i: int| 0 <= i < keys.len() ==> event_of(#[trigger] events[i], mem, keys[i])
}

/// A frame as plain values.
#[verifier::ext_equal]
pub struct Shot {
    pub w: u32,
    pub h: u32,
    pub pitch: usize,
    pub fmt: PixelFormat,
    pub data: Seq<u8>,
    pub frame: u64,
}

/// A frame as plain values.
pub open spec fn shot(f: Frame) -> Shot {
    Shot { w: f.w, h: f.h, pitch: f.pitch, fmt: f.fmt, data: f.data@, frame: f.frame }
}

/// The emulator's state as plain values.
#[verifier::ext_equal]
pub struct Model {
    pub linked: bool,
    pub core_loaded: bool,
    pub debug_api: bool,
    pub mem: Map<u32, Seq<u8>>,
    pub rom: Option<Seq<u8>>,
    pub paused: bool,
    pub frame: u64,
    pub crcs: Map<u32, u32>,
    pub slots: Map<u32, Seq<u8>>,
    pub breakpoints: Seq<Breakpoint>,
    pub next_id: u32,
    pub shot: Option<Shot>,
    pub halted: Option<HaltInfo>,
}

/// State of the emulator between commands.
pub struct State {
    pub libra: LibraCtx,
    pub rom_bytes: Option<Vec<u8>>,
    pub paused: bool,
    pub frame: u64,
    /// Checksum of each watched resource when it was last published.
    pub region_crcs: HashMap<u32, u32>,
    pub saved_states: HashMap<u32, Vec<u8>>,
    pub breakpoints: BreakpointTable,
    /// The id that the next breakpoint gets.
    pub next_id: u32,
    pub frames: FrameSlot,
    pub halted: Option<HaltInfo>,
}

impl View for State {
    type V = Model;

    open spec fn view(&self) -> Model {
        Model {
            linked: self.libra.linked,
            core_loaded: self.libra.core_loaded,
            debug_api: self.libra.debug_api,
            mem: self.libra.memory@,
            rom: match self.rom_bytes {
                Some(b) => Some(b@),
                None => None,
            },
            paused: self.paused,
            frame: self.frame,
            crcs: self.region_crcs@,
            slots: self.saved_states@.map_values(|v: Vec<u8>| v@),
            breakpoints: self.breakpoints.entries@,
            next_id: self.next_id,
            shot: match self.frames.inner {
                Some(f) => Some(shot(f)),
                None => None,
            },
            halted: self.halted,
        }
    }
}

/// `frame` after `n` more frames; the counter stops at its maximum.
pub open spec fn advanced(frame: u64, n: int) -> u64 {
    if frame + n > u64::MAX {
        u64::MAX
    } else {
        (frame + n) as u64
    }
}

/// What reading memory gives.
pub open spec fn read_memory_result(
    m: Model,
    space: MemorySpace,
    addr: u32,
    length: u32,
    r: Result<Vec<u8>, CommandError>,
) -> bool {
    if length == 0 {
        r matches Ok(b) && b@.len() == 0
    } else if length > MAX_READ {
        r matches Err(CommandError::TooLong(n)) && n == length
    } else if space == MemorySpace::Rom {
        match m.rom {
            None => r matches Err(CommandError::NoRom),
            Some(rom) => if addr + length > usize::MAX {
                r matches Err(CommandError::Overflow)
            } else if addr + length > rom.len() {
                r matches Err(CommandError::RomOutOfBounds { start, end, size }) && start == addr
                    && end == addr + length && size == rom.len()
            } else {
                r matches Ok(b) && b@ == rom.subrange(addr as int, addr + length)
            },
        }
    } else {
        let id = space.region_id()->0;
        if !m.mem.dom().contains(id) {
            r matches Err(CommandError::Unmapped(s)) && s == space
        } else if addr + length > usize::MAX {
            r matches Err(CommandError::Region(e)) && e == RegionError::Overflow
        } else if addr + length > m.mem[id].len() {
            r matches Err(CommandError::Region(e)) && e == (RegionError::ReadOutOfBounds {
                start: addr as usize,
                end: (addr + length) as usize,
                size: m.mem[id].len() as usize,
            })
        } else {
            r matches Ok(b) && b@ == m.mem[id].subrange(addr as int, addr + length)
        }
    }
}

/// What writing memory does.
pub open spec fn write_memory_result(
    m: Model,
    space: MemorySpace,
    addr: u32,
    bytes: Seq<u8>,
    after: Model,
    r: Result<(), CommandError>,
) -> bool {
    if space == MemorySpace::Rom {
        after == m && r matches Err(CommandError::RomReadOnly)
    } else if !m.linked {
        after == m && r matches Err(CommandError::NotLinked)
    } else {
        &&& after == (Model { mem: after.mem, ..m })
        &&& match r {
            Ok(()) => write_result(
                m.mem,
                space.region_id()->0,
                addr,
                bytes,
                after.mem,
                Ok::<(), RegionError>(()),
            ),
            Err(CommandError::Region(e)) => write_result(
                m.mem,
                space.region_id()->0,
                addr,
                bytes,
                after.mem,
                Err::<(), RegionError>(e),
            ),
            Err(_) => false,
        }
    }
}

/// The bytes of a space: the ROM, or its region; nothing when there is none.
pub open spec fn space_bytes(m: Model, space: MemorySpace) -> Seq<u8> {
    match space.region_id() {
        None => match m.rom {
            Some(rom) => rom,
            None => seq![],
        },
        Some(id) => if m.mem.dom().contains(id) {
            m.mem[id]
        } else {
            seq![]
        },
    }
}

/// The four bytes of a length, least significant first; lengths of 2^32 and
/// more keep their low bits only.
pub open spec fn le_length(n: int) -> Seq<u8> {
    seq![
        (n % 256) as u8,
        (n / 256 % 256) as u8,
        (n / 65536 % 256) as u8,
        (n / 16777216 % 256) as u8,
    ]
}

/// Bytes behind their length.
pub open spec fn framed(s: Seq<u8>) -> Seq<u8> {
    le_length(s.len() as int) + s
}

/// The saved form of a state: VRAM, CRAM and VSRAM, each behind its length.
pub open spec fn saved_form(m: Model) -> Seq<u8> {
    framed(space_bytes(m, MemorySpace::Vram)) + framed(space_bytes(m, MemorySpace::Cram)) + framed(
        space_bytes(m, MemorySpace::Vsram),
    )
}

/// State after a ROM has been accepted.
pub open spec fn with_rom(m: Model, rom: Seq<u8>) -> Model {
    Model { rom: Some(rom), frame: 0, paused: true, crcs: Map::empty(), ..m }
}

/// State after changes have gone out to `receivers` listeners.
pub open spec fn after_publish(m: Model, receivers: usize) -> Model {
    if receivers == 0 {
        m
    } else {
        Model { crcs: published(m.crcs, m.mem, 4), ..m }
    }
}

/// The resources whose changes go out to `receivers` listeners.
pub open spec fn keys_out(m: Model, receivers: usize) -> Seq<int> {
    if receivers == 0 {
        seq![]
    } else {
        changed_keys(m.crcs, m.mem, 4)
    }
}

/// Program counter and status register of the 68k, 0 where they are not known.
pub open spec fn m68k_position(m: Model) -> (int, int) {
    let id = LIBRA_MEMORY_M68K;
    if m.mem.dom().contains(id) && m.mem[id].len() >= 78 {
        (le32(m.mem[id], 64), le16(m.mem[id], 68))
    } else {
        (0, 0)
    }
}

/// The breakpoint that setting one adds.
pub open spec fn fresh(m: Model, addr: u32, kind: BpKind, space: BpSpace) -> Breakpoint {
    Breakpoint { id: m.next_id, addr, kind, space, hit_count: 0, enabled: true }
}

/// What the core has to do before a command is handled.
#[derive(Debug, Clone, Copy, PartialEq, Eq, Structural)]
pub enum CoreAction {
    Nothing,
    /// Load the game, and the core first where it is not loaded.
    LoadGame { load_core: bool },
    /// Run this many frames.
    RunFrames(u32),
    /// Step this many instructions through the debug entry points.
    StepInstructions(u32),
}

/// Replies to commands.
pub enum CommandReply {
    Nothing,
    Rom(Result<RomInfo, CommandError>),
    Done(Result<(), CommandError>),
    Frame(Result<u64, CommandError>),
    Bytes(Result<Vec<u8>, CommandError>),
    Status(Status),
    Size(u64),
    Screenshot(Option<Frame>),
    Step(Result<StepOutcome, CommandError>),
    BreakpointSet(Result<SetBpOutcome, CommandError>),
    Removed(bool),
    Breakpoints(Vec<Breakpoint>),
    Hit(Option<u32>),
}

impl State {
    /// The breakpoint table is well formed and every id in it is below the next
    /// one, which is not 0.
    pub open spec fn wf(self) -> bool {
        &&& self.breakpoints.wf()
        &&& self.next_id >= 1
        &&& forall|i: int|
            0 <= i < self.breakpoints.entries@.len() ==> (
            #[trigger] self.breakpoints.entries@[i]).id < self.next_id
    }

    /// A paused emulator without a ROM.
    pub fn new(libra: LibraCtx) -> (r: Self)
        ensures
            r.wf(),
            r@ == (Model {
                linked: libra.linked,
                core_loaded: libra.core_loaded,
                debug_api: libra.debug_api,
                mem: libra.memory@,
                rom: None,
                paused: true,
                frame: 0,
                crcs: Map::empty(),
                slots: Map::empty(),
                breakpoints: seq![],
                next_id: 1,
                shot: None,
                halted: None,
            }),
    {
        let r = State {
            libra,
            rom_bytes: None,
            paused: true,
            frame: 0,
            region_crcs: HashMap::new(),
            saved_states: HashMap::new(),
            breakpoints: BreakpointTable::default(),
            next_id: 1,
            frames: FrameSlot::new(),
            halted: None,
        };
        proof {
            assert(r@.crcs =~= Map::<u32, u32>::empty());
            assert(r@.slots =~= Map::<u32, Seq<u8>>::empty());
            assert(r@.breakpoints =~= seq![]);
        }
        r
    }

    /// What the core has to do before `cmd` is handled: load an acceptable ROM,
    /// or run what is to be stepped while a ROM is loaded.
    pub fn core_action(&self, cmd: &Command) -> (r: CoreAction)
        ensures
            r == match *cmd {
                Command::LoadRom { bytes } => if acceptable(bytes@) {
                    CoreAction::LoadGame { load_core: !self@.core_loaded }
                } else {
                    CoreAction::Nothing
                },
                Command::StepFrame { n } => if self@.rom is Some {
                    CoreAction::RunFrames(n)
                } else {
                    CoreAction::Nothing
                },
                Command::StepInstruction { n } => if self@.rom is None {
                    CoreAction::Nothing
                } else if self@.debug_api {
                    CoreAction::StepInstructions(n)
                } else {
                    CoreAction::RunFrames(1)
                },
                _ => CoreAction::Nothing,
            },
    {
        match cmd {
            Command::LoadRom { bytes } => match check_rom(bytes.as_slice()) {
                Ok(()) => CoreAction::LoadGame { load_core: !self.libra.core_loaded },
                Err(_) => CoreAction::Nothing,
            },
            Command::StepFrame { n } => if self.rom_bytes.is_some() {
                CoreAction::RunFrames(*n)
            } else {
                CoreAction::Nothing
            },
            Command::StepInstruction { n } => if self.rom_bytes.is_none() {
                CoreAction::Nothing
            } else if self.libra.debug_api {
                CoreAction::StepInstructions(*n)
            } else {
                CoreAction::RunFrames(1)
            },
            _ => CoreAction::Nothing,
        }
    }

    /// Loads a ROM and starts paused at frame 0, with nothing published yet.
    pub fn load_rom(&mut self, bytes: Vec<u8>) -> (r: Result<RomInfo, CommandError>)
        requires
            old(self).wf(),
        ensures
            final(self).wf(),
            load_rom_result(old(self)@, bytes@, final(self)@, r),
    {
        match check_rom(bytes.as_slice()) {
            Err(e) => Err(CommandError::Rom(e)),
            Ok(()) => {
                let info = rom_info(bytes.as_slice());
                self.rom_bytes = Some(bytes);
                self.frame = 0;
                self.paused = true;
                self.region_crcs = HashMap::new();
                proof {
                    assert(self@.crcs =~= Map::<u32, u32>::empty());
                    assert(self@ =~= with_rom(old(self)@, bytes@));
                }
                Ok(info)
            },
        }
    }

    /// Forgets the ROM and pauses at frame 0.
    pub fn unload_rom(&mut self)
        requires
            old(self).wf(),
        ensures
            final(self).wf(),
            final(self)@ == unloaded(old(self)@),
    {
        self.rom_bytes = None;
        self.paused = true;
        self.frame = 0;
        self.region_crcs = HashMap::new();
        proof {
            assert(self@.crcs =~= Map::<u32, u32>::empty());
            assert(self@ =~= unloaded(old(self)@));
        }
    }

    /// Steps `n` frames that the core has just run: counts them, publishes the
    /// changes and pauses.
    pub fn step_frame(&mut self, n: u32, receivers: usize) -> (r: (
        Result<u64, CommandError>,
        Vec<ResourceEvent>,
    ))
        requires
            old(self).wf(),
        ensures
            final(self).wf(),
            step_frame_result(old(self)@, n, receivers, final(self)@, r.0, r.1@),
    {
        if self.rom_bytes.is_none() {
            return (Err(CommandError::NoRom), Vec::new());
        }
        self.frame = if self.frame > u64::MAX - n as u64 {
            u64::MAX
        } else {
            self.frame + n as u64
        };
        let ghost mid = self@;
        let events = self.publish_changes(receivers);
        self.paused = true;
        proof {
            assert(mid =~= (Model { frame: advanced(old(self)@.frame, n as int), ..old(self)@ }));
        }
        (Ok(self.frame), events)
    }

    /// Steps `n` instructions that the core has just run. Without the debug entry
    /// points it has run one whole frame instead, and no instructions are counted.
    pub fn step_instruction(&mut self, n: u32, receivers: usize) -> (r: (
        Result<StepOutcome, CommandError>,
        Vec<ResourceEvent>,
    ))
        requires
            old(self).wf(),
        ensures
            final(self).wf(),
            step_instruction_result(old(self)@, n, receivers, final(self)@, r.0, r.1@),
    {
        if self.rom_bytes.is_none() {
            return (Err(CommandError::NoRom), Vec::new());
        }
        if !self.libra.debug_api && self.frame < u64::MAX {
            self.frame = self.frame + 1;
        }
        let ghost mid = self@;
        let events = self.publish_changes(receivers);
        self.paused = true;
        let blob = match snapshot_region(&self.libra.memory, LIBRA_MEMORY_M68K) {
            Some(b) => b,
            None => Vec::new(),
        };
        let (pc, sr): (u32, u16) = match decode_m68k(blob.as_slice()) {
            Some(regs) => (regs.pc, regs.sr),
            None => (0, 0),
        };
        proof {
            assert(mid =~= (Model {
                frame: advanced(
                    old(self)@.frame,
                    if old(self)@.debug_api {
                        0
                    } else {
                        1
                    },
                ),
                ..old(self)@
            }));
        }
        let out = StepOutcome {
            pc,
            sr,
            frame: self.frame,
            instructions_executed: if self.libra.debug_api {
                n
            } else {
                0
            },
            granularity: if self.libra.debug_api {
                "instruction"
            } else {
                "frame"
            },
        };
        (Ok(out), events)
    }

    /// Reads memory: the ROM from its cached bytes, other spaces from the core.
    pub fn read_memory(&self, space: MemorySpace, addr: u32, length: u32) -> (r: Result<
        Vec<u8>,
        CommandError,
    >)
        ensures
            read_memory_result(self@, space, addr, length, r),
    {
        if length == 0 {
            return Ok(Vec::new());
        }
        if length > MAX_READ {
            return Err(CommandError::TooLong(length));
        }
        let id: u32 = match space.libretro_id() {
            None => {
                return match &self.rom_bytes {
                    None => Err(CommandError::NoRom),
                    Some(rom) => {
                        let start: usize = addr as usize;
                        match start.checked_add(length as usize) {
                            None => Err(CommandError::Overflow),
                            Some(end) => if end > rom.len() {
                                Err(CommandError::RomOutOfBounds { start, end, size: rom.len() })
                            } else {
                                Ok(copy_bytes(slice_subrange(rom.as_slice(), start, end)))
                            },
                        }
                    },
                };
            },
            Some(id) => id,
        };
        match read_region(&self.libra.memory, id, addr, length) {
            Err(e) => Err(CommandError::Region(e)),
            Ok(None) => Err(CommandError::Unmapped(space)),
            Ok(Some(bytes)) => Ok(bytes),
        }
    }

    /// Writes memory; the ROM is read-only.
    pub fn write_memory(&mut self, space: MemorySpace, addr: u32, bytes: &[u8]) -> (r: Result<
        (),
        CommandError,
    >)
        requires
            old(self).wf(),
        ensures
            final(self).wf(),
            write_memory_result(old(self)@, space, addr, bytes@, final(self)@, r),
    {
        match space.libretro_id() {
            None => Err(CommandError::RomReadOnly),
            Some(id) => if !self.libra.linked {
                Err(CommandError::NotLinked)
            } else {
                match write_region(&mut self.libra.memory, id, addr, bytes) {
                    Err(e) => Err(CommandError::Region(e)),
                    Ok(()) => Ok(()),
                }
            },
        }
    }

    /// The bytes of a space.
    pub fn snapshot(&self, space: MemorySpace) -> (r: Vec<u8>)
        ensures
            r@ == space_bytes(self@, space),
    {
        match space.libretro_id() {
            None => match &self.rom_bytes {
                Some(rom) => copy_bytes(rom.as_slice()),
                None => Vec::new(),
            },
            Some(id) => match snapshot_region(&self.libra.memory, id) {
                Some(bytes) => bytes,
                None => Vec::new(),
            },
        }
    }

    /// Emulator status.
    pub fn status(&self) -> (r: Status)
        ensures
            status_of(self@, r),
    {
        Status {
            rom_loaded: self.rom_bytes.is_some(),
            paused: self.paused,
            frame: self.frame,
            target: "emulator",
            libra_linked: self.libra.linked,
        }
    }

    /// Publishes the watched resources that differ from what was last
    /// published, VRAM, CRAM, VSRAM and then the VDP registers. Without
    /// listeners nothing happens.
    pub fn publish_changes(&mut self, receivers: usize) -> (events: Vec<ResourceEvent>)
        requires
            old(self).wf(),
        ensures
            final(self).wf(),
            final(self)@ == after_publish(old(self)@, receivers),
            events_of(events@, old(self)@.mem, keys_out(old(self)@, receivers)),
    {
        let mut events: Vec<ResourceEvent> = Vec::new();
        if receivers == 0 {
            return events;
        }
        let ghost crcs = self@.crcs;
        let ghost mem = self@.mem;
        let mut k: u32 = 0;
        while k < WATCHED
            invariant
                k <= WATCHED,
                self@ == (Model { crcs: published(crcs, mem, k as int), ..old(self)@ }),
                self.wf(),
                crcs == old(self)@.crcs,
                mem == old(self)@.mem,
                events_of(events@, mem, changed_keys(crcs, mem, k as int)),
            decreases WATCHED - k,
        {
            proof {
                lemma_unpublished(crcs, mem, k as int, k);
            }
            let (id, uri): (u32, &'static str) = match k {
                0 => (RETRO_MEMORY_VIDEO_RAM, "mega://vram"),
                1 => (LIBRA_MEMORY_CRAM, "mega://cram"),
                2 => (LIBRA_MEMORY_VSRAM, "mega://vsram"),
                _ => (LIBRA_MEMORY_VDP_STATE, "mega://vdp/registers"),
            };
            let ghost before = events@;
            if let Some(snap) = snapshot_region(&self.libra.memory, id) {
                if snap.len() > 0 {
                    let crc: u32 = crc32_hash(snap.as_slice());
                    let same = match self.region_crcs.get(&k) {
                        Some(prev) => *prev == crc,
                        None => false,
                    };
                    if !same {
                        self.region_crcs.insert(k, crc);
                        let (mime, payload): (&'static str, Payload) = if k == 3 {
                            (
                                "application/json",
                                Payload::Vdp(decode_vdp_registers(snap.as_slice())),
                            )
                        } else {
                            ("application/octet-stream", Payload::Bytes(snap))
                        };
                        events.push(ResourceEvent { uri, mime, payload });
                        proof {
                            assert(changed(crcs, mem, k as int));
                            assert(self@.crcs =~= published(crcs, mem, k + 1));
                            let keys = changed_keys(crcs, mem, k + 1);
                            assert forall|i: int| 0 <= i < keys.len() implies event_of(
                                #[trigger] events@[i],
                                mem,
                                keys[i],
                            ) by {
                                if i < before.len() {
                                    assert(events@[i] == before[i]);
                                }
                            }
                        }
                    }
                }
            }
            k += 1;
            proof {
                assert(self@ =~= (Model { crcs: published(crcs, mem, k as int), ..old(self)@ }));
            }
        }
        events
    }

    /// Saves VRAM, CRAM and VSRAM to a slot; gives the size of the saved form.
    pub fn save_state(&mut self, slot: u32) -> (r: u64)
        requires
            old(self).wf(),
            saved_form(old(self)@).len() <= usize::MAX,
        ensures
            final(self).wf(),
            final(self)@ == saved(old(self)@, slot),
            r == saved_form(old(self)@).len(),
    {
        let mut blob: Vec<u8> = Vec::new();
        push_framed(&mut blob, self.snapshot(MemorySpace::Vram).as_slice());
        push_framed(&mut blob, self.snapshot(MemorySpace::Cram).as_slice());
        push_framed(&mut blob, self.snapshot(MemorySpace::Vsram).as_slice());
        proof {
            assert(blob@ =~= saved_form(self@));
        }
        let len: u64 = blob.len() as u64;
        self.saved_states.insert(slot, blob);
        proof {
            assert(self@.slots =~= old(self)@.slots.insert(slot, saved_form(old(self)@)));
            assert(self@ =~= saved(old(self)@, slot));
        }
        len
    }

    /// Checks that a slot holds a state.
    pub fn load_state(&self, slot: u32) -> (r: Result<(), CommandError>)
        ensures
            load_state_result(self@, slot, r),
    {
        if self.saved_states.contains_key(&slot) {
            Ok(())
        } else {
            Err(CommandError::EmptySlot(slot))
        }
    }

    /// Registers a breakpoint under a fresh id.
    pub fn set_breakpoint(&mut self, addr: u32, kind: BpKind, space: BpSpace) -> (r: Result<
        SetBpOutcome,
        CommandError,
    >)
        requires
            old(self).wf(),
        ensures
            final(self).wf(),
            set_breakpoint_result(old(self)@, addr, kind, space, final(self)@, r),
    {
        if self.next_id == u32::MAX {
            return Err(CommandError::NoIdsLeft);
        }
        let id: u32 = self.next_id;
        let ghost s = self.breakpoints.entries@;
        self.breakpoints.add(
            Breakpoint { id, addr, kind, space, hit_count: 0, enabled: true },
        );
        self.next_id = id + 1;
        proof {
            lemma_fresh_slot(s, id);
            assert(self@ =~= (Model {
                breakpoints: old(self)@.breakpoints.push(fresh(old(self)@, addr, kind, space)),
                next_id: (old(self)@.next_id + 1) as u32,
                ..old(self)@
            }));
        }
        Ok(
            SetBpOutcome {
                ok: true,
                id,
                reason: if self.libra.debug_api {
                    None
                } else {
                    Some("debug_api_unavailable")
                },
            },
        )
    }

    /// Removes a breakpoint; tells whether there was one.
    pub fn clear_breakpoint(&mut self, id: u32) -> (removed: bool)
        requires
            old(self).wf(),
        ensures
            final(self).wf(),
            final(self)@ == (Model {
                breakpoints: without(old(self)@.breakpoints, id),
                ..old(self)@
            }),
            removed <==> exists|i: int|
                0 <= i < old(self)@.breakpoints.len() && (#[trigger] old(self)@.breakpoints[i]).id
                    == id,
    {
        let ghost s = self.breakpoints.entries@;
        let removed = self.breakpoints.remove(id);
        proof {
            assert forall|i: int| 0 <= i < self.breakpoints.entries@.len() implies (
            #[trigger] self.breakpoints.entries@[i]).id < self.next_id by {
                let b = self.breakpoints.entries@[i];
                assert(self.breakpoints.entries@.contains(b));
                crate::emulator::breakpoints::law_remove_is_exact(s, id, b);
                let k = choose|k: int| 0 <= k < s.len() && s[k] == b;
                assert(s[k].id < self.next_id);
            }
            assert(self@ =~= (Model {
                breakpoints: without(old(self)@.breakpoints, id),
                ..old(self)@
            }));
        }
        removed
    }

    /// The breakpoints, by id.
    pub fn list_breakpoints(&self) -> (r: Vec<Breakpoint>)
        ensures
            r@ == self@.breakpoints,
    {
        let r = self.breakpoints.entries.clone();
        proof {
            assert(r@ =~= self.breakpoints.entries@);
        }
        r
    }

    /// Counts a hit at `pc`, halts there and pauses; nothing happens where no
    /// breakpoint is.
    pub fn breakpoint_hit(&mut self, pc: u32) -> (r: Option<u32>)
        requires
            old(self).wf(),
        ensures
            final(self).wf(),
            hit_result(old(self)@, pc, final(self)@, r),
    {
        let ghost s = self.breakpoints.entries@;
        match self.breakpoints.count_hit(pc) {
            None => None,
            Some(id) => {
                self.halted = Some(HaltInfo { id, pc, kind: 0 });
                self.paused = true;
                proof {
                    let i = choose|i: int|
                        #[trigger] first_exec(s, pc, i) && id == s[i].id
                            && self.breakpoints.entries@ == counted(s, i);
                    assert forall|j: int| 0 <= j < self.breakpoints.entries@.len() implies (
                    #[trigger] self.breakpoints.entries@[j]).id < self.next_id by {
                        assert(s[j].id < self.next_id);
                    }
                    assert(first_exec(old(self)@.breakpoints, pc, i));
                    assert(self@ =~= hit_at(old(self)@, pc, i));
                }
                Some(id)
            },
        }
    }

    /// Handles a command whose core work, as `core_action` gave it, is done.
    /// Changes go out to `receivers` listeners.
    pub fn handle_command(&mut self, cmd: Command, receivers: usize) -> (r: (
        CommandReply,
        Vec<ResourceEvent>,
    ))
        requires
            old(self).wf(),
            cmd is SaveState ==> saved_form(old(self)@).len() <= usize::MAX,
        ensures
            final(self).wf(),
            handled(old(self)@, cmd, receivers, final(self)@, r.0, r.1@),
    {
        match cmd {
            Command::Shutdown => (CommandReply::Nothing, Vec::new()),
            Command::LoadRom { bytes } => (CommandReply::Rom(self.load_rom(bytes)), Vec::new()),
            Command::UnloadRom => {
                self.unload_rom();
                (CommandReply::Done(Ok(())), Vec::new())
            },
            Command::Pause => {
                self.paused = true;
                (CommandReply::Frame(Ok(self.frame)), Vec::new())
            },
            Command::Resume => {
                self.paused = false;
                (CommandReply::Frame(Ok(self.frame)), Vec::new())
            },
            Command::StepFrame { n } => {
                let (r, events) = self.step_frame(n, receivers);
                (CommandReply::Frame(r), events)
            },
            Command::ReadMemory { space, addr, length } => (
                CommandReply::Bytes(self.read_memory(space, addr, length)),
                Vec::new(),
            ),
            Command::WriteMemory { space, addr, bytes } => (
                CommandReply::Done(self.write_memory(space, addr, bytes.as_slice())),
                Vec::new(),
            ),
            Command::SnapshotRegion { space } => (
                CommandReply::Bytes(Ok(self.snapshot(space))),
                Vec::new(),
            ),
            Command::Status => (CommandReply::Status(self.status()), Vec::new()),
            Command::SaveState { slot } => (CommandReply::Size(self.save_state(slot)), Vec::new()),
            Command::LoadState { slot } => (CommandReply::Done(self.load_state(slot)), Vec::new()),
            Command::Screenshot => (CommandReply::Screenshot(self.frames.snapshot()), Vec::new()),
            Command::StepInstruction { n } => {
                let (r, events) = self.step_instruction(n, receivers);
                (CommandReply::Step(r), events)
            },
            Command::SetBreakpoint { addr, kind, space } => (
                CommandReply::BreakpointSet(self.set_breakpoint(addr, kind, space)),
                Vec::new(),
            ),
            Command::ClearBreakpoint { id } => (
                CommandReply::Removed(self.clear_breakpoint(id)),
                Vec::new(),
            ),
            Command::ListBreakpoints => (
                CommandReply::Breakpoints(self.list_breakpoints()),
                Vec::new(),
            ),
            Command::ContinueAfterHalt => {
                self.halted = None;
                self.paused = false;
                (CommandReply::Frame(Ok(self.frame)), Vec::new())
            },
            Command::SimulateBreakpointHit { pc } => (
                CommandReply::Hit(self.breakpoint_hit(pc)),
                Vec::new(),
            ),
        }
    }

    /// Counts a frame that the core has just run on its own.
    pub fn frame_done(&mut self)
        requires
            old(self).wf(),
        ensures
            final(self).wf(),
            final(self)@ == (Model { frame: advanced(old(self)@.frame, 1), ..old(self)@ }),
    {
        if self.frame < u64::MAX {
            self.frame = self.frame + 1;
        }
        proof {
            assert(self@ =~= (Model { frame: advanced(old(self)@.frame, 1), ..old(self)@ }));
        }
    }
}

/// What loading a ROM does.
pub open spec fn load_rom_result(
    m: Model,
    bytes: Seq<u8>,
    after: Model,
    r: Result<RomInfo, CommandError>,
) -> bool {
    match r {
        Ok(info) => acceptable(bytes) && describes(info, bytes) && after == with_rom(m, bytes),
        Err(CommandError::Rom(e)) => !acceptable(bytes) && after == m && check_result(
            bytes,
            Err::<(), RomError>(e),
        ),
        Err(_) => false,
    }
}

/// State after the ROM has been unloaded.
pub open spec fn unloaded(m: Model) -> Model {
    Model { rom: None, paused: true, frame: 0, crcs: Map::empty(), ..m }
}

/// What stepping frames does.
pub open spec fn step_frame_result(
    m: Model,
    n: u32,
    receivers: usize,
    after: Model,
    r: Result<u64, CommandError>,
    events: Seq<ResourceEvent>,
) -> bool {
    if m.rom is None {
        r matches Err(CommandError::NoRom) && after == m && events.len() == 0
    } else {
        let ran = Model { frame: advanced(m.frame, n as int), ..m };
        &&& r matches Ok(f)
        &&& f == ran.frame
        &&& after == (Model { paused: true, ..after_publish(ran, receivers) })
        &&& events_of(events, m.mem, keys_out(ran, receivers))
    }
}

/// What stepping instructions does.
pub open spec fn step_instruction_result(
    m: Model,
    n: u32,
    receivers: usize,
    after: Model,
    r: Result<StepOutcome, CommandError>,
    events: Seq<ResourceEvent>,
) -> bool {
    if m.rom is None {
        r matches Err(CommandError::NoRom) && after == m && events.len() == 0
    } else {
        let ran = Model {
            frame: advanced(
                m.frame,
                if m.debug_api {
                    0
                } else {
                    1
                },
            ),
            ..m
        };
        &&& r matches Ok(out)
        &&& out.pc == m68k_position(m).0
        &&& out.sr == m68k_position(m).1
        &&& out.frame == ran.frame
        &&& out.instructions_executed == if m.debug_api {
            n
        } else {
            0
        }
        &&& out.granularity@ == if m.debug_api {
            "instruction"@
        } else {
            "frame"@
        }
        &&& after == (Model { paused: true, ..after_publish(ran, receivers) })
        &&& events_of(events, m.mem, keys_out(ran, receivers))
    }
}

/// Whether `s` is the status of the state.
pub open spec fn status_of(m: Model, s: Status) -> bool {
    &&& s.rom_loaded == m.rom is Some
    &&& s.paused == m.paused
    &&& s.frame == m.frame
    &&& s.target@ == "emulator"@
    &&& s.libra_linked == m.linked
}

/// State after a save.
pub open spec fn saved(m: Model, slot: u32) -> Model {
    Model { slots: m.slots.insert(slot, saved_form(m)), ..m }
}

/// What loading a slot gives.
pub open spec fn load_state_result(m: Model, slot: u32, r: Result<(), CommandError>) -> bool {
    if m.slots.dom().contains(slot) {
        r is Ok
    } else {
        r matches Err(CommandError::EmptySlot(s)) && s == slot
    }
}

/// What setting a breakpoint does.
pub open spec fn set_breakpoint_result(
    m: Model,
    addr: u32,
    kind: BpKind,
    space: BpSpace,
    after: Model,
    r: Result<SetBpOutcome, CommandError>,
) -> bool {
    if m.next_id == u32::MAX {
        r matches Err(CommandError::NoIdsLeft) && after == m
    } else {
        &&& r matches Ok(out)
        &&& out.ok
        &&& out.id == m.next_id
        &&& out.reason is None <==> m.debug_api
        &&& out.reason matches Some(why) ==> why@ == "debug_api_unavailable"@
        &&& after == (Model {
            breakpoints: m.breakpoints.push(fresh(m, addr, kind, space)),
            next_id: (m.next_id + 1) as u32,
            ..m
        })
    }
}

/// State after a hit on entry `i`.
pub open spec fn hit_at(m: Model, pc: u32, i: int) -> Model {
    Model {
        breakpoints: counted(m.breakpoints, i),
        halted: Some(HaltInfo { id: m.breakpoints[i].id, pc, kind: 0 }),
        paused: true,
        ..m
    }
}

/// What a hit at `pc` does.
pub open spec fn hit_result(m: Model, pc: u32, after: Model, r: Option<u32>) -> bool {
    match r {
        None => after == m && forall|i: int|
            0 <= i < m.breakpoints.len() ==> !(#[trigger] m.breakpoints[i]).hit_by_exec(pc),
        Some(id) => exists|i: int|
            #[trigger] first_exec(m.breakpoints, pc, i) && id == m.breakpoints[i].id && after
                == hit_at(m, pc, i),
    }
}

/// What a command does and replies.
pub open spec fn handled(
    m: Model,
    cmd: Command,
    receivers: usize,
    after: Model,
    reply: CommandReply,
    events: Seq<ResourceEvent>,
) -> bool {
    let quiet = events.len() == 0;
    match cmd {
        Command::Shutdown => quiet && after == m && reply is Nothing,
        Command::LoadRom { bytes } => quiet && (reply matches CommandReply::Rom(r)
            && load_rom_result(m, bytes@, after, r)),
        Command::UnloadRom => quiet && after == unloaded(m) && (reply matches CommandReply::Done(r)
            && r is Ok),
        Command::Pause => quiet && after == (Model { paused: true, ..m }) && (
        reply matches CommandReply::Frame(Ok(f)) && f == m.frame),
        Command::Resume => quiet && after == (Model { paused: false, ..m }) && (
        reply matches CommandReply::Frame(Ok(f)) && f == m.frame),
        Command::StepFrame { n } => reply matches CommandReply::Frame(r) && step_frame_result(
            m,
            n,
            receivers,
            after,
            r,
            events,
        ),
        Command::ReadMemory { space, addr, length } => quiet && after == m && (
        reply matches CommandReply::Bytes(r) && read_memory_result(m, space, addr, length, r)),
        Command::WriteMemory { space, addr, bytes } => quiet && (
        reply matches CommandReply::Done(r) && write_memory_result(
            m,
            space,
            addr,
            bytes@,
            after,
            r,
        )),
        Command::SnapshotRegion { space } => quiet && after == m && (
        reply matches CommandReply::Bytes(Ok(b)) && b@ == space_bytes(m, space)),
        Command::Status => quiet && after == m && (reply matches CommandReply::Status(s)
            && status_of(m, s)),
        Command::SaveState { slot } => quiet && after == saved(m, slot) && (
        reply matches CommandReply::Size(n) && n == saved_form(m).len()),
        Command::LoadState { slot } => quiet && after == m && (reply matches CommandReply::Done(r)
            && load_state_result(m, slot, r)),
        Command::Screenshot => quiet && after == m && (reply matches CommandReply::Screenshot(f)
            && match f {
            Some(f) => m.shot == Some(shot(f)),
            None => m.shot is None,
        }),
        Command::StepInstruction { n } => reply matches CommandReply::Step(r)
            && step_instruction_result(m, n, receivers, after, r, events),
        Command::SetBreakpoint { addr, kind, space } => quiet && (
        reply matches CommandReply::BreakpointSet(r) && set_breakpoint_result(
            m,
            addr,
            kind,
            space,
            after,
            r,
        )),
        Command::ClearBreakpoint { id } => quiet && after == (Model {
            breakpoints: without(m.breakpoints, id),
            ..m
        }) && (reply matches CommandReply::Removed(removed) && (removed <==> exists|i: int|
            0 <= i < m.breakpoints.len() && (#[trigger] m.breakpoints[i]).id == id)),
        Command::ListBreakpoints => quiet && after == m && (
        reply matches CommandReply::Breakpoints(l) && l@ == m.breakpoints),
        Command::ContinueAfterHalt => quiet && after == (Model { halted: None, paused: false, ..m })
            && (reply matches CommandReply::Frame(Ok(f)) && f == m.frame),
        Command::SimulateBreakpointHit { pc } => quiet && (reply matches CommandReply::Hit(r)
            && hit_result(m, pc, after, r)),
    }
}

/// Appends `bytes` behind their length.
fn push_framed(out: &mut Vec<u8>, bytes: &[u8])
    ensures
        final(out)@ == old(out)@ + framed(bytes@),
{
    let n: u64 = bytes.len() as u64;
    out.push((n % 256) as u8);
    out.push((n / 256 % 256) as u8);
    out.push((n / 65536 % 256) as u8);
    out.push((n / 16777216 % 256) as u8);
    push_all(out, bytes);
    proof {
        assert(out@ =~= old(out)@ + framed(bytes@));
    }
}

proof fn lemma_unpublished(crcs: Map<u32, u32>, mem: Map<u32, Seq<u8>>, n: int, k: u32)
    requires
        0 <= n <= 4,
        k >= n,
    ensures
        published(crcs, mem, n).dom().contains(k) <==> crcs.dom().contains(k),
        crcs.dom().contains(k) ==> published(crcs, mem, n)[k] == crcs[k],
    decreases n,
{
    if n > 0 {
        lemma_unpublished(crcs, mem, n - 1, k);
    }
}

proof fn lemma_published(crcs: Map<u32, u32>, mem: Map<u32, Seq<u8>>, n: int, k: int)
    requires
        0 <= k < n <= 4,
    ensures
        !changed(published(crcs, mem, n), mem, k),
    decreases n,
{
    if k < n - 1 {
        lemma_published(crcs, mem, n - 1, k);
    } else {
        lemma_unpublished(crcs, mem, k, k as u32);
    }
}

/// Publishing twice without a change in between publishes nothing the second
/// time.
pub proof fn law_publish_once(m: Model, receivers: usize)
    requires
        receivers > 0,
    ensures
        keys_out(after_publish(m, receivers), receivers).len() == 0,
{
    let p = published(m.crcs, m.mem, 4);
    lemma_published(m.crcs, m.mem, 4, 0);
    lemma_published(m.crcs, m.mem, 4, 1);
    lemma_published(m.crcs, m.mem, 4, 2);
    lemma_published(m.crcs, m.mem, 4, 3);
    reveal_with_fuel(changed_keys, 5);
    assert(changed_keys(p, m.mem, 4).len() == 0);
}

/// A region that changes so that its checksum differs is published again.
pub proof fn law_change_is_seen(m: Model, mem: Map<u32, Seq<u8>>, receivers: usize, k: int)
    requires
        receivers > 0,
        0 <= k < 4,
        m.mem.dom().contains(watch_region(k)),
        m.mem[watch_region(k)].len() > 0,
        mem.dom().contains(watch_region(k)),
        mem[watch_region(k)].len() > 0,
        crc32(mem[watch_region(k)]) != crc32(m.mem[watch_region(k)]),
    ensures
        keys_out(Model { mem, ..after_publish(m, receivers) }, receivers).contains(k),
{
    let p = published(m.crcs, m.mem, 4);
    lemma_published(m.crcs, m.mem, 4, k);
    assert(changed(p, mem, k));
    lemma_changed_key(p, mem, 4, k);
}

proof fn lemma_changed_key(crcs: Map<u32, u32>, mem: Map<u32, Seq<u8>>, n: int, k: int)
    requires
        0 <= k < n,
        changed(crcs, mem, k),
    ensures
        changed_keys(crcs, mem, n).contains(k),
    decreases n,
{
    let keys = changed_keys(crcs, mem, n);
    if k == n - 1 {
        assert(keys[keys.len() - 1] == k);
    } else {
        lemma_changed_key(crcs, mem, n - 1, k);
        let rest = changed_keys(crcs, mem, n - 1);
        let i = choose|i: int| 0 <= i < rest.len() && rest[i] == k;
        assert(keys[i] == k);
    }
}

/// The four bytes determine a length below 2^32.
proof fn lemma_le_length(m: int, n: int)
    requires
        0 <= m < 0x1_0000_0000,
        0 <= n < 0x1_0000_0000,
        le_length(m) == le_length(n),
    ensures
        m == n,
{
    let a = le_length(m);
    let b = le_length(n);
    assert(a[0] == b[0] && a[1] == b[1] && a[2] == b[2] && a[3] == b[3]);
    assert(m == a[0] + 256 * a[1] + 65536 * a[2] + 16777216 * a[3]);
    assert(n == b[0] + 256 * b[1] + 65536 * b[2] + 16777216 * b[3]);
}

/// Framed bytes can be told apart from what follows them.
pub proof fn law_framed_injective(a: Seq<u8>, b: Seq<u8>, x: Seq<u8>, y: Seq<u8>)
    requires
        a.len() < 0x1_0000_0000,
        b.len() < 0x1_0000_0000,
        framed(a) + x == framed(b) + y,
    ensures
        a == b,
        x == y,
{
    let s = framed(a) + x;
    let la = le_length(a.len() as int);
    let lb = le_length(b.len() as int);
    assert(s.subrange(0, 4) =~= la);
    assert(s.subrange(0, 4) =~= lb);
    lemma_le_length(a.len() as int, b.len() as int);
    assert(s.subrange(4, 4 + a.len() as int) =~= a);
    assert(s.subrange(4, 4 + b.len() as int) =~= b);
    assert(s.skip(4 + a.len() as int) =~= x);
    assert(s.skip(4 + b.len() as int) =~= y);
}

/// A saved form determines the three regions that it was made of.
pub proof fn law_saved_form_injective(m: Model, n: Model)
    requires
        space_bytes(m, MemorySpace::Vram).len() < 0x1_0000_0000,
        space_bytes(m, MemorySpace::Cram).len() < 0x1_0000_0000,
        space_bytes(m, MemorySpace::Vsram).len() < 0x1_0000_0000,
        space_bytes(n, MemorySpace::Vram).len() < 0x1_0000_0000,
        space_bytes(n, MemorySpace::Cram).len() < 0x1_0000_0000,
        space_bytes(n, MemorySpace::Vsram).len() < 0x1_0000_0000,
        saved_form(m) == saved_form(n),
    ensures
        space_bytes(m, MemorySpace::Vram) == space_bytes(n, MemorySpace::Vram),
        space_bytes(m, MemorySpace::Cram) == space_bytes(n, MemorySpace::Cram),
        space_bytes(m, MemorySpace::Vsram) == space_bytes(n, MemorySpace::Vsram),
{
    let mv = space_bytes(m, MemorySpace::Vram);
    let mc = space_bytes(m, MemorySpace::Cram);
    let ms = space_bytes(m, MemorySpace::Vsram);
    let nv = space_bytes(n, MemorySpace::Vram);
    let nc = space_bytes(n, MemorySpace::Cram);
    let ns = space_bytes(n, MemorySpace::Vsram);
    assert(saved_form(m) =~= framed(mv) + (framed(mc) + framed(ms)));
    assert(saved_form(n) =~= framed(nv) + (framed(nc) + framed(ns)));
    law_framed_injective(mv, nv, framed(mc) + framed(ms), framed(nc) + framed(ns));
    law_framed_injective(mc, nc, framed(ms), framed(ns));
    assert(framed(ms) + seq![] =~= framed(ms));
    assert(framed(ns) + seq![] =~= framed(ns));
    law_framed_injective(ms, ns, seq![], seq![]);
}

/// A new breakpoint's id is not in use, and clearing it gives the table back.
pub proof fn law_set_then_clear(
    m: Model,
    addr: u32,
    kind: BpKind,
    space: BpSpace,
    after: Model,
    out: SetBpOutcome,
)
    requires
        by_id(m.breakpoints),
        forall|i: int|
            0 <= i < m.breakpoints.len() ==> (#[trigger] m.breakpoints[i]).id < m.next_id,
        set_breakpoint_result(m, addr, kind, space, after, Ok(out)),
    ensures
        forall|i: int| 0 <= i < m.breakpoints.len() ==> (#[trigger] m.breakpoints[i]).id != out.id,
        forall|i: int|
            0 <= i < after.breakpoints.len() ==> (#[trigger] after.breakpoints[i]).id
                < after.next_id,
        without(after.breakpoints, out.id) == m.breakpoints,
{
    let bp = fresh(m, addr, kind, space);
    lemma_fresh_slot(m.breakpoints, m.next_id);
    crate::emulator::breakpoints::law_add_then_remove(m.breakpoints, bp);
    assert(m.breakpoints.insert(m.breakpoints.len() as int, bp) =~= m.breakpoints.push(bp));
}

/// Stepping frames leaves the emulator paused, and the memory, the ROM, the saved
/// states and the breakpoints alone.
pub proof fn law_step_pauses(
    m: Model,
    n: u32,
    receivers: usize,
    after: Model,
    r: Result<u64, CommandError>,
    events: Seq<ResourceEvent>,
)
    requires
        step_frame_result(m, n, receivers, after, r, events),
        r is Ok,
    ensures
        after.paused,
        after.rom == m.rom,
        after.mem == m.mem,
        after.slots == m.slots,
        after.breakpoints == m.breakpoints,
{
}

/// Reading back what was written to a linked core gives the written bytes.
pub proof fn law_memory_round_trip(
    m: Model,
    space: MemorySpace,
    addr: u32,
    bytes: Seq<u8>,
    after: Model,
    read: Result<Vec<u8>, CommandError>,
)
    requires
        bytes.len() <= MAX_READ,
        write_memory_result(m, space, addr, bytes, after, Ok(())),
        read_memory_result(after, space, addr, bytes.len() as u32, read),
    ensures
        read matches Ok(got) && got@ == bytes,
{
    let id = space.region_id()->0;
    let start = addr as int;
    if bytes.len() == 0 {
        assert(read->Ok_0@ =~= bytes);
    } else {
        assert(after.mem[id].subrange(start, start + bytes.len()) =~= bytes);
    }
}

/// A loaded ROM reads back as it was loaded, whatever happened before.
pub proof fn law_loaded_rom_reads_back(
    m: Model,
    rom: Seq<u8>,
    after: Model,
    info: RomInfo,
    addr: u32,
    length: u32,
    read: Result<Vec<u8>, CommandError>,
)
    requires
        load_rom_result(m, rom, after, Ok(info)),
        0 < length <= MAX_READ,
        addr + length <= rom.len(),
        addr + length <= usize::MAX,
        read_memory_result(after, MemorySpace::Rom, addr, length, read),
    ensures
        read matches Ok(got) && got@ == rom.subrange(addr as int, addr + length),
{
}

/// A saved slot can be loaded, and saving leaves the other slots as they were.
pub proof fn law_saved_slot_loads(m: Model, slot: u32, other: u32, r: Result<(), CommandError>)
    requires
        load_state_result(saved(m, slot), other, r),
    ensures
        r is Ok <==> other == slot || m.slots.dom().contains(other),
        other != slot && m.slots.dom().contains(other) ==> saved(m, slot).slots[other]
            == m.slots[other],
        saved(m, slot).slots[slot] == saved_form(m),
{
}

/// A breakpoint hit halts and pauses; continuing undoes both and keeps the
/// count.
pub proof fn law_hit_then_continue(
    m: Model,
    pc: u32,
    after: Model,
    id: u32,
    receivers: usize,
    running: Model,
    reply: CommandReply,
    events: Seq<ResourceEvent>,
)
    requires
        hit_result(m, pc, after, Some(id)),
        handled(after, Command::ContinueAfterHalt, receivers, running, reply, events),
    ensures
        after.paused,
        after.halted == Some(HaltInfo { id, pc, kind: 0 }),
        !running.paused,
        running.halted is None,
        running.breakpoints == after.breakpoints,
        exists|i: int|
            #[trigger] first_exec(m.breakpoints, pc, i) && after.breakpoints == counted(
                m.breakpoints,
                i,
            ),
{
}

proof fn lemma_fresh_slot(s: Seq<Breakpoint>, id: u32)
    requires
        forall|i: int| 0 <= i < s.len() ==> (#[trigger] s[i]).id < id,
    ensures
        slot_for(s, id) == s.len(),
{
    if s.len() > 0 {
        assert(s[s.len() - 1].id < id);
    }
}

/// What the frame loop found in its command queue.
#[derive(Debug, Clone, Copy, PartialEq, Eq, Structural)]
pub enum Polled {
    /// A command other than a shutdown.
    Command,
    Shutdown,
    Empty,
    Disconnected,
}

/// What the frame loop does next.
#[derive(Debug, Clone, Copy, PartialEq, Eq, Structural)]
pub enum LoopStep {
    Handle,
    Stop,
    /// Wait for the next command.
    Block,
    RunFrame,
}

/// The frame loop's next step: pending commands first, then a frame while a ROM
/// is loaded and not paused.
pub fn loop_step(polled: Polled, paused: bool, rom_loaded: bool) -> (r: LoopStep)
    ensures
        r == match polled {
            Polled::Shutdown => LoopStep::Stop,
            Polled::Disconnected => LoopStep::Stop,
            Polled::Command => LoopStep::Handle,
            Polled::Empty => if paused || !rom_loaded {
                LoopStep::Block
            } else {
                LoopStep::RunFrame
            },
        },
{
    match polled {
        Polled::Shutdown => LoopStep::Stop,
        Polled::Disconnected => LoopStep::Stop,
        Polled::Command => LoopStep::Handle,
        Polled::Empty => if paused || !rom_loaded {
            LoopStep::Block
        } else {
            LoopStep::RunFrame
        },
    }
}

/// How long to sleep after a frame, and when the frame after the next is due.
/// A loop that is late starts its schedule anew.
pub fn pace(next_frame_us: u64, now_us: u64) -> (r: (u64, u64))
    requires
        next_frame_us <= u64::MAX - FRAME_DURATION_US,
        now_us <= u64::MAX - FRAME_DURATION_US,
    ensures
        next_frame_us <= now_us ==> r.0 == 0 && r.1 == now_us + FRAME_DURATION_US,
        next_frame_us > now_us ==> r.0 == next_frame_us - now_us && r.1 == next_frame_us
            + FRAME_DURATION_US,
{
    if next_frame_us <= now_us {
        (0, now_us + FRAME_DURATION_US)
    } else {
        (next_frame_us - now_us, next_frame_us + FRAME_DURATION_US)
    }
}

/// A space is the core's region of its name, and the ROM the cached bytes; what is
/// not there is empty.
pub proof fn law_space_is_its_region(m: Model)
    ensures
        m.mem.dom().contains(RETRO_MEMORY_VIDEO_RAM) ==> space_bytes(m, MemorySpace::Vram)
            == m.mem[RETRO_MEMORY_VIDEO_RAM],
        m.mem.dom().contains(LIBRA_MEMORY_CRAM) ==> space_bytes(m, MemorySpace::Cram)
            == m.mem[LIBRA_MEMORY_CRAM],
        m.mem.dom().contains(LIBRA_MEMORY_VSRAM) ==> space_bytes(m, MemorySpace::Vsram)
            == m.mem[LIBRA_MEMORY_VSRAM],
        m.mem.dom().contains(LIBRA_MEMORY_VDP_STATE) ==> space_bytes(m, MemorySpace::VdpState)
            == m.mem[LIBRA_MEMORY_VDP_STATE],
        m.mem.dom().contains(LIBRA_MEMORY_M68K) ==> space_bytes(m, MemorySpace::M68kState)
            == m.mem[LIBRA_MEMORY_M68K],
        !m.mem.dom().contains(LIBRA_MEMORY_CRAM) ==> space_bytes(m, MemorySpace::Cram).len() == 0,
        m.rom matches Some(rom) ==> space_bytes(m, MemorySpace::Rom) == rom,
        m.rom is None ==> space_bytes(m, MemorySpace::Rom).len() == 0,
{
}

/// What is published under a URI is what a read of the space of the same name
/// gives; the VDP registers go out decoded.
pub proof fn law_published_is_read(m: Model, k: int, e: ResourceEvent)
    requires
        0 <= k < 4,
        m.mem.dom().contains(watch_region(k)),
        event_of(e, m.mem, k),
    ensures
        e.uri@ == "mega://vram"@ ==> (e.payload matches Payload::Bytes(b) && b@ == space_bytes(
            m,
            MemorySpace::Vram,
        )),
        e.uri@ == "mega://cram"@ ==> (e.payload matches Payload::Bytes(b) && b@ == space_bytes(
            m,
            MemorySpace::Cram,
        )),
        e.uri@ == "mega://vsram"@ ==> (e.payload matches Payload::Bytes(b) && b@ == space_bytes(
            m,
            MemorySpace::Vsram,
        )),
        e.uri@ == "mega://vdp/registers"@ ==> (e.payload matches Payload::Vdp(v) && v.regs@
            == vdp_file(space_bytes(m, MemorySpace::VdpState)) && v.decoded == vdp_summary(v.regs@)),
        e.uri@ == "mega://vram"@ || e.uri@ == "mega://cram"@ || e.uri@ == "mega://vsram"@ || e.uri@
            == "mega://vdp/registers"@,
        e.payload is Bytes <==> e.mime@ == "application/octet-stream"@,
        e.payload is Vdp <==> e.mime@ == "application/json"@,
{
    reveal_strlit("mega://vram");
    reveal_strlit("mega://cram");
    reveal_strlit("mega://vsram");
    reveal_strlit("mega://vdp/registers");
    reveal_strlit("application/octet-stream");
    reveal_strlit("application/json");
    assert("mega://vram"@.len() == 11 && "mega://cram"@.len() == 11 && "mega://vsram"@.len() == 12
        && "mega://vdp/registers"@.len() == 20);
    assert("mega://vram"@[7] == 'v' && "mega://cram"@[7] == 'c');
    assert("application/octet-stream"@.len() != "application/json"@.len());
}

/// Exactly the resources that differ are published, each once and in order: VRAM,
/// CRAM, VSRAM, VDP registers.
pub proof fn law_published_in_order(crcs: Map<u32, u32>, mem: Map<u32, Seq<u8>>, n: int)
    requires
        0 <= n,
    ensures
        forall|k: int| #[trigger]
            changed_keys(crcs, mem, n).contains(k) <==> 0 <= k < n && changed(crcs, mem, k),
        forall|i: int, j: int|
            0 <= i < j < changed_keys(crcs, mem, n).len() ==> changed_keys(crcs, mem, n)[i]
                < changed_keys(crcs, mem, n)[j],
    decreases n,
{
    if n > 0 {
        law_published_in_order(crcs, mem, n - 1);
        let rest = changed_keys(crcs, mem, n - 1);
        let keys = changed_keys(crcs, mem, n);
        assert forall|k: int| #[trigger] keys.contains(k) <==> 0 <= k < n && changed(
            crcs,
            mem,
            k,
        ) by {
            if keys.contains(k) {
                let i = choose|i: int| 0 <= i < keys.len() && keys[i] == k;
                if i < rest.len() {
                    assert(rest[i] == k);
                    assert(rest.contains(k));
                }
            }
            if 0 <= k < n && changed(crcs, mem, k) {
                if k == n - 1 {
                    assert(keys[keys.len() - 1] == k);
                } else {
                    assert(rest.contains(k));
                    let i = choose|i: int| 0 <= i < rest.len() && rest[i] == k;
                    assert(keys[i] == k);
                }
            }
        }
        assert forall|i: int, j: int| 0 <= i < j < keys.len() implies keys[i] < keys[j] by {
            if j == rest.len() {
                assert(rest[i] == keys[i]);
                assert(rest.contains(keys[i]));
            }
        }
    }
}

/// Nothing is published, and nothing taken as published, without listeners; a
/// region that is empty or not mapped is never published; one whose checksum was
/// not published yet is.
pub proof fn law_who_hears(m: Model, receivers: usize, k: int)
    requires
        0 <= k < 4,
    ensures
        receivers == 0 ==> keys_out(m, receivers).len() == 0 && after_publish(m, receivers) == m,
        receivers > 0 ==> (keys_out(m, receivers).contains(k) <==> changed(m.crcs, m.mem, k)),
        !m.mem.dom().contains(watch_region(k)) || m.mem[watch_region(k)].len() == 0 ==> !changed(
            m.crcs,
            m.mem,
            k,
        ),
        m.mem.dom().contains(watch_region(k)) && m.mem[watch_region(k)].len() > 0
            && !m.crcs.dom().contains(k as u32) ==> changed(m.crcs, m.mem, k),
        after_publish(m, receivers) == (Model { crcs: after_publish(m, receivers).crcs, ..m }),
{
    law_published_in_order(m.crcs, m.mem, 4);
}

/// A read gives the bytes of its space from the address on, and it succeeds exactly
/// when they are all there, up to 16 MiB; nothing is read from anywhere.
pub proof fn law_read_is_the_space(
    m: Model,
    space: MemorySpace,
    addr: u32,
    length: u32,
    r: Result<Vec<u8>, CommandError>,
    i: int,
)
    requires
        read_memory_result(m, space, addr, length, r),
    ensures
        r is Ok <==> length == 0 || (length <= 16 * 1024 * 1024 && addr + length <= space_bytes(
            m,
            space,
        ).len() && addr + length <= usize::MAX),
        r matches Ok(b) ==> b@.len() == length && (0 <= i < length ==> b@[i] == space_bytes(
            m,
            space,
        )[addr + i]),
{
}

/// The ROM cannot be written, and without a linked core nothing can.
pub proof fn law_write_needs_core(
    m: Model,
    space: MemorySpace,
    addr: u32,
    bytes: Seq<u8>,
    after: Model,
    r: Result<(), CommandError>,
)
    requires
        write_memory_result(m, space, addr, bytes, after, r),
        space == MemorySpace::Rom || !m.linked,
    ensures
        r is Err,
        after == m,
{
}

/// A saved state is VRAM, CRAM and VSRAM in this order, each behind its length in
/// four bytes, least significant first.
pub proof fn law_saved_layout(m: Model)
    requires
        space_bytes(m, MemorySpace::Vram).len() < 0x1_0000_0000,
        space_bytes(m, MemorySpace::Cram).len() < 0x1_0000_0000,
        space_bytes(m, MemorySpace::Vsram).len() < 0x1_0000_0000,
    ensures
        ({
            let f = saved_form(m);
            let v = space_bytes(m, MemorySpace::Vram).len() as int;
            let c = space_bytes(m, MemorySpace::Cram).len() as int;
            let s = space_bytes(m, MemorySpace::Vsram).len() as int;
            &&& f.len() == 12 + v + c + s
            &&& f[0] + 256 * f[1] + 65536 * f[2] + 16777216 * f[3] == v
            &&& f.subrange(4, 4 + v) == space_bytes(m, MemorySpace::Vram)
            &&& f[4 + v] + 256 * f[5 + v] + 65536 * f[6 + v] + 16777216 * f[7 + v] == c
            &&& f.subrange(8 + v, 8 + v + c) == space_bytes(m, MemorySpace::Cram)
            &&& f[8 + v + c] + 256 * f[9 + v + c] + 65536 * f[10 + v + c] + 16777216 * f[11 + v + c]
                == s
            &&& f.subrange(12 + v + c, 12 + v + c + s) == space_bytes(m, MemorySpace::Vsram)
        }),
{
    let f = saved_form(m);
    let vram = space_bytes(m, MemorySpace::Vram);
    let cram = space_bytes(m, MemorySpace::Cram);
    let vsram = space_bytes(m, MemorySpace::Vsram);
    let v = vram.len() as int;
    let c = cram.len() as int;
    lemma_length_bytes(v);
    lemma_length_bytes(c);
    lemma_length_bytes(vsram.len() as int);
    assert(f.subrange(0, 4) =~= le_length(v));
    assert(f[0] == f.subrange(0, 4)[0] && f[1] == f.subrange(0, 4)[1] && f[2] == f.subrange(0, 4)[2]
        && f[3] == f.subrange(0, 4)[3]);
    assert(f.subrange(4, 4 + v) =~= vram);
    let g = f.subrange(4 + v, 8 + v);
    assert(g =~= le_length(c));
    assert(f[4 + v] == g[0] && f[5 + v] == g[1] && f[6 + v] == g[2] && f[7 + v] == g[3]);
    assert(f.subrange(8 + v, 8 + v + c) =~= cram);
    let h = f.subrange(8 + v + c, 12 + v + c);
    assert(h =~= le_length(vsram.len() as int));
    assert(f[8 + v + c] == h[0] && f[9 + v + c] == h[1] && f[10 + v + c] == h[2] && f[11 + v + c]
        == h[3]);
    assert(f.subrange(12 + v + c, 12 + v + c + vsram.len()) =~= vsram);
}

proof fn lemma_length_bytes(n: int)
    requires
        0 <= n < 0x1_0000_0000,
    ensures
        ({
            let a = le_length(n);
            a[0] + 256 * a[1] + 65536 * a[2] + 16777216 * a[3] == n
        }),
{
}

/// Frames add up: stepping counts each frame once, in one command or in several,
/// until the counter is full.
pub proof fn law_frames_add_up(frame: u64, a: u32, b: u32)
    ensures
        frame + a <= u64::MAX ==> advanced(frame, a as int) == frame + a,
        advanced(advanced(frame, a as int), b as int) == advanced(frame, a + b),
        advanced(frame, a as int) >= frame,
{
}

/// A step of frames reports the frame it ended at, which is as many frames on as
/// were asked for; without a ROM nothing is stepped.
pub proof fn law_step_counts(
    m: Model,
    n: u32,
    receivers: usize,
    after: Model,
    r: Result<u64, CommandError>,
    events: Seq<ResourceEvent>,
)
    requires
        step_frame_result(m, n, receivers, after, r, events),
        m.frame + n <= u64::MAX,
    ensures
        r is Ok <==> m.rom is Some,
        r matches Ok(f) ==> f == m.frame + n && after.frame == f && after.paused,
        r is Err ==> after == m && events.len() == 0,
{
}

/// An instruction step reports the position that the 68k's registers show and the
/// frame; without the debug entry points it is a whole frame and counts no
/// instructions.
pub proof fn law_step_reports(
    m: Model,
    n: u32,
    receivers: usize,
    after: Model,
    out: StepOutcome,
    events: Seq<ResourceEvent>,
    regs: M68kRegisters,
)
    requires
        step_instruction_result(m, n, receivers, after, Ok(out), events),
        m.frame < u64::MAX,
        m.mem.dom().contains(LIBRA_MEMORY_M68K),
        m.mem[LIBRA_MEMORY_M68K].len() >= 78,
        m68k_of(m.mem[LIBRA_MEMORY_M68K], regs),
    ensures
        out.pc == regs.pc,
        out.sr == regs.sr,
        out.frame == after.frame,
        m.debug_api ==> after.frame == m.frame && out.instructions_executed == n
            && out.granularity@ == "instruction"@,
        !m.debug_api ==> after.frame == m.frame + 1 && out.instructions_executed == 0
            && out.granularity@ == "frame"@,
        after.paused,
        after.rom == m.rom && after.mem == m.mem && after.breakpoints == m.breakpoints,
{
}

/// Loading a ROM starts at frame 0, paused, with nothing published; unloading takes
/// the ROM away again and starts anew. Neither touches memory, saved states or
/// breakpoints.
pub proof fn law_load_then_unload(
    m: Model,
    bytes: Seq<u8>,
    after: Model,
    info: RomInfo,
)
    requires
        load_rom_result(m, bytes, after, Ok(info)),
    ensures
        after.rom == Some(bytes),
        after.frame == 0 && after.paused,
        forall|k: u32| !after.crcs.dom().contains(k),
        after.mem == m.mem && after.slots == m.slots && after.breakpoints == m.breakpoints,
        after.next_id == m.next_id && after.halted == m.halted && after.shot == m.shot,
        info.size == bytes.len(),
        info.crc32 == crc32(bytes),
        info.header_name@ == title(bytes),
        info.region@ == region_letters(bytes),
        ({
            let gone = unloaded(after);
            &&& gone.rom is None
            &&& gone.frame == 0 && gone.paused
            &&& forall|k: u32| !gone.crcs.dom().contains(k)
            &&& gone.mem == m.mem && gone.slots == m.slots && gone.breakpoints == m.breakpoints
            &&& gone.next_id == m.next_id
        }),
{
}

/// Pausing and resuming change whether the emulator runs and nothing else, and
/// report the frame; the status shows it.
pub proof fn law_pause_resume(
    m: Model,
    receivers: usize,
    paused: Model,
    running: Model,
    replies: (CommandReply, CommandReply, CommandReply),
    events: (Seq<ResourceEvent>, Seq<ResourceEvent>, Seq<ResourceEvent>),
)
    requires
        handled(m, Command::Pause, receivers, paused, replies.0, events.0),
        handled(paused, Command::Resume, receivers, running, replies.1, events.1),
        handled(running, Command::Status, receivers, running, replies.2, events.2),
    ensures
        paused.paused,
        !running.paused,
        running == (Model { paused: false, ..m }),
        paused == (Model { paused: true, ..m }),
        replies.0 matches CommandReply::Frame(Ok(f)) && f == m.frame,
        replies.1 matches CommandReply::Frame(Ok(f)) && f == m.frame,
        replies.2 matches CommandReply::Status(s) && !s.paused && s.frame == m.frame && (
        s.rom_loaded <==> m.rom is Some) && s.libra_linked == m.linked,
        events.0.len() == 0 && events.1.len() == 0 && events.2.len() == 0,
{
}

/// A breakpoint that was set is listed last, enabled and not yet hit, behind those
/// that were there; the next one gets another id.
pub proof fn law_set_is_listed(
    m: Model,
    addr: u32,
    kind: BpKind,
    space: BpSpace,
    after: Model,
    out: SetBpOutcome,
)
    requires
        set_breakpoint_result(m, addr, kind, space, after, Ok(out)),
    ensures
        after.breakpoints.drop_last() == m.breakpoints,
        ({
            let b = after.breakpoints.last();
            b.id == out.id && b.addr == addr && b.kind == kind && b.space == space && b.hit_count
                == 0 && b.enabled
        }),
        after.next_id > out.id,
        out.ok,
        out.reason is Some <==> !m.debug_api,
{
    assert(after.breakpoints.drop_last() =~= m.breakpoints);
}

/// Reaching the address of a new exec breakpoint hits that breakpoint, unless an
/// older one is there; the hit is counted.
pub proof fn law_set_then_hit(
    m: Model,
    addr: u32,
    space: BpSpace,
    set: Model,
    out: SetBpOutcome,
    hit: Model,
    r: Option<u32>,
)
    requires
        set_breakpoint_result(m, addr, BpKind::Exec, space, set, Ok(out)),
        forall|i: int|
            0 <= i < m.breakpoints.len() ==> !((#[trigger] m.breakpoints[i]).kind == BpKind::Exec
                && m.breakpoints[i].addr == addr),
        hit_result(set, addr, hit, r),
    ensures
        r == Some(out.id),
        hit.breakpoints.last().hit_count == 1,
        hit.breakpoints.drop_last() == m.breakpoints,
        hit.paused,
        hit.halted matches Some(h) && h.id == out.id && h.pc == addr,
{
    let n = m.breakpoints.len() as int;
    assert(set.breakpoints[n].hit_by_exec(addr));
    let i = choose|i: int|
        #[trigger] first_exec(set.breakpoints, addr, i) && r == Some(set.breakpoints[i].id) && hit
            == hit_at(set, addr, i);
    assert(set.breakpoints[i].hit_by_exec(addr));
    if i < n {
        assert(set.breakpoints[i] == m.breakpoints[i]);
    }
    assert(hit.breakpoints.drop_last() =~= m.breakpoints);
}

/// There are 60 frames to a second, to the microsecond above.
pub proof fn law_frame_rate()
    ensures
        60 * (FRAME_DURATION_US - 1) < 1_000_000 <= 60 * FRAME_DURATION_US,
{
}

/// Why a read fails: first a length above 16 MiB, then a space that is not there,
/// then a span that is not inside; the errors carry what was asked for and the
/// size.
pub proof fn law_read_errors(
    m: Model,
    space: MemorySpace,
    addr: u32,
    length: u32,
    e: CommandError,
)
    requires
        read_memory_result(m, space, addr, length, Err(e)),
        addr + length <= usize::MAX,
    ensures
        length > 0,
        e is TooLong <==> length > 16 * 1024 * 1024,
        e matches CommandError::TooLong(n) ==> n == length,
        e is NoRom <==> length <= 16 * 1024 * 1024 && space == MemorySpace::Rom && m.rom is None,
        e matches CommandError::Unmapped(s) ==> s == space && space != MemorySpace::Rom,
        e matches CommandError::RomOutOfBounds { start, end, size } ==> space == MemorySpace::Rom
            && start == addr && end == addr + length && size == m.rom->0.len() && end > size,
        e matches CommandError::Region(RegionError::ReadOutOfBounds { start, end, size }) ==> start
            == addr && end == addr + length && end > space_bytes(m, space).len(),
{
}

/// A write goes to the core's region of the space that was named, and only there.
pub proof fn law_write_reaches_space(
    m: Model,
    space: MemorySpace,
    addr: u32,
    bytes: Seq<u8>,
    after: Model,
    i: int,
    other: MemorySpace,
)
    requires
        write_memory_result(m, space, addr, bytes, after, Ok(())),
        0 <= i < bytes.len(),
    ensures
        space_bytes(after, space).len() == space_bytes(m, space).len(),
        space_bytes(after, space)[addr + i] == bytes[i],
        other != space ==> space_bytes(after, other) == space_bytes(m, other),
        after.rom == m.rom && after.frame == m.frame && after.paused == m.paused
            && after.breakpoints == m.breakpoints && after.slots == m.slots,
{
    crate::emulator::memory::law_region_ids_distinct(space, other);
}

/// Events come in the order of their resources, one for each.
pub proof fn law_events_match_keys(
    events: Seq<ResourceEvent>,
    mem: Map<u32, Seq<u8>>,
    keys: Seq<int>,
    i: int,
)
    requires
        events_of(events, mem, keys),
        0 <= i < keys.len(),
    ensures
        events.len() == keys.len(),
        event_of(events[i], mem, keys[i]),
{
}

} // verus!
