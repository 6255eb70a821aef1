//! The on-cart debug stub: its header, where it is loaded and how it is hooked
//! into the exception vectors.
//!
//! The stub lies in the cartridge's ROM image, because the cartridge's bus does
//! not reach the 68k's work RAM. The vector table lies there too.

use crate::target::edpro::proto::{be32, PiBusAddr};
use crate::text::{dec, hex, push_dec, push_hex};
use vstd::prelude::*;
use vstd::string::*;

verus! {

/// Where the stub is loaded.
pub const STUB_LOAD_ADDR: u32 = 0x0030_0000;

/// Where the stub keeps its data, on the 68k's bus.
pub const STUB_BSS_ADDR: u32 = 0x00FF_EE00;

/// Size of the stub's data.
pub const STUB_BSS_LEN: u32 = 0x200;

/// Trace vector.
pub const VEC_TRACE: u32 = 0x24;

/// TRAP #1 vector.
pub const VEC_TRAP1: u32 = 0x84;

/// Vertical blank vector.
pub const VEC_VBL: u32 = 0x78;

/// `MDST`, the first four bytes of a stub.
pub const HEADER_MAGIC: u32 = 0x4D44_5354;

/// Offset of the pause flag in the header.
pub const HEADER_OFF_PAUSED_FLAG: u32 = 0x10;

/// Offset of the saved vertical blank handler in the header.
pub const HEADER_OFF_ORIGINAL_VBL: u32 = 0x14;

/// Size of the header.
pub const HEADER_SIZE: usize = 24;

/// The smallest stub.
pub const MIN_BLOB_SIZE: usize = 32;

/// The largest stub.
pub const MAX_BLOB_SIZE: usize = 16384;

/// Why a stub was not accepted.
#[derive(Debug, Clone, Copy, PartialEq, Eq, Structural)]
pub enum DeployError {
    BadBlobSize(usize),
    BadMagic(u32),
    /// The slots that the host fills are not empty.
    UnknownHeaderRevision { paused_flag: u32, original_vbl: u32 },
    /// The vector read gave another number of bytes than four.
    ShortVector(usize),
}

impl DeployError {
    /// The error's message.
    pub open spec fn text(self) -> Seq<char> {
        match self {
            DeployError::BadBlobSize(n) => "stub blob size "@ + dec(n as nat)
                + " bytes outside [32, 16384]"@,
            DeployError::BadMagic(m) => "stub blob bad magic 0x"@ + hex(m as nat, 8)
                + " (want 0x4D445354 'MDST')"@,
            DeployError::UnknownHeaderRevision { paused_flag, original_vbl } =>
                "stub blob header init slots non-zero: paused_flag=0x"@ + hex(
                paused_flag as nat,
                8,
            ) + " original_vbl=0x"@ + hex(original_vbl as nat, 8)
                + " (expected both 0); rebuild?"@,
            DeployError::ShortVector(n) => "transport: MEM_RD VEC_VBL returned "@ + dec(n as nat)
                + " bytes (want 4)"@,
        }
    }

    /// The error's message.
    pub fn message(&self) -> (r: String)
        ensures
            r@ == self.text(),
    {
        match *self {
            DeployError::BadBlobSize(n) => {
                let mut m = "stub blob size ".to_owned();
                push_dec(&mut m, n as u128);
                m.append(" bytes outside [32, 16384]");
                m
            },
            DeployError::BadMagic(v) => {
                let mut m = "stub blob bad magic 0x".to_owned();
                push_hex(&mut m, v as u64, 8);
                m.append(" (want 0x4D445354 'MDST')");
                m
            },
            DeployError::UnknownHeaderRevision { paused_flag, original_vbl } => {
                let mut m = "stub blob header init slots non-zero: paused_flag=0x".to_owned();
                push_hex(&mut m, paused_flag as u64, 8);
                m.append(" original_vbl=0x");
                push_hex(&mut m, original_vbl as u64, 8);
                m.append(" (expected both 0); rebuild?");
                m
            },
            DeployError::ShortVector(n) => {
                let mut m = "transport: MEM_RD VEC_VBL returned ".to_owned();
                push_dec(&mut m, n as u128);
                m.append(" bytes (want 4)");
                m
            },
        }
    }
}

/// Entry points of a stub.
#[derive(Debug, Clone, Copy, PartialEq, Eq, Structural)]
pub struct StubHeader {
    pub entry_trace: u32,
    pub entry_trap1: u32,
    pub entry_vbl: u32,
}

/// Big-endian 32-bit value at `i`.
pub open spec fn be_at(s: Seq<u8>, i: int) -> u32 {
    (16777216 * s[i] + 65536 * s[i + 1] + 256 * s[i + 2] + s[i + 3]) as u32
}

/// Big-endian 32-bit value at `i`.
pub fn be_u32(b: &[u8], i: usize) -> (r: u32)
    requires
        i + 4 <= b@.len(),
    ensures
        r == be_at(b@, i as int),
{
    16777216 * (b[i] as u32) + 65536 * (b[i + 1] as u32) + 256 * (b[i + 2] as u32) + b[i + 3] as u32
}

/// What checking a stub gives.
pub open spec fn header_of(blob: Seq<u8>) -> Result<StubHeader, DeployError> {
    if blob.len() < MIN_BLOB_SIZE || blob.len() > MAX_BLOB_SIZE {
        Err(DeployError::BadBlobSize(blob.len() as usize))
    } else if be_at(blob, 0) != HEADER_MAGIC {
        Err(DeployError::BadMagic(be_at(blob, 0)))
    } else if be_at(blob, 16) != 0 || be_at(blob, 20) != 0 {
        Err(
            DeployError::UnknownHeaderRevision {
                paused_flag: be_at(blob, 16),
                original_vbl: be_at(blob, 20),
            },
        )
    } else {
        Ok(
            StubHeader {
                entry_trace: be_at(blob, 4),
                entry_trap1: be_at(blob, 8),
                entry_vbl: be_at(blob, 12),
            },
        )
    }
}

/// Checks a stub and reads its header.
pub fn parse_header(blob: &[u8]) -> (r: Result<StubHeader, DeployError>)
    ensures
        r == header_of(blob@),
{
    if blob.len() < MIN_BLOB_SIZE || blob.len() > MAX_BLOB_SIZE {
        return Err(DeployError::BadBlobSize(blob.len()));
    }
    let magic: u32 = be_u32(blob, 0);
    if magic != HEADER_MAGIC {
        return Err(DeployError::BadMagic(magic));
    }
    let paused_flag: u32 = be_u32(blob, 16);
    let original_vbl: u32 = be_u32(blob, 20);
    if paused_flag != 0 || original_vbl != 0 {
        return Err(DeployError::UnknownHeaderRevision { paused_flag, original_vbl });
    }
    Ok(
        StubHeader {
            entry_trace: be_u32(blob, 4),
            entry_trap1: be_u32(blob, 8),
            entry_vbl: be_u32(blob, 12),
        },
    )
}

/// A four-byte write on the cartridge's bus.
#[derive(Debug, Clone, Copy, PartialEq, Eq, Structural)]
pub struct LongWrite {
    pub addr: PiBusAddr,
    pub value: u32,
}

fn long(addr: u32, value: u32) -> (r: LongWrite)
    ensures
        r.addr.0 == addr,
        r.value == value,
{
    LongWrite { addr: PiBusAddr(addr), value }
}

/// The vectors that deploying a stub patches, behind the upload of the stub to
/// `STUB_LOAD_ADDR`.
pub fn deploy_writes(hdr: StubHeader) -> (r: Vec<LongWrite>)
    ensures
        r@ == seq![
            LongWrite { addr: PiBusAddr(VEC_TRACE), value: hdr.entry_trace },
            LongWrite { addr: PiBusAddr(VEC_TRAP1), value: hdr.entry_trap1 },
        ],
{
    let mut out: Vec<LongWrite> = Vec::new();
    out.push(long(VEC_TRACE, hdr.entry_trace));
    out.push(long(VEC_TRAP1, hdr.entry_trap1));
    proof {
        assert(out@ =~= seq![
            LongWrite { addr: PiBusAddr(VEC_TRACE), value: hdr.entry_trace },
            LongWrite { addr: PiBusAddr(VEC_TRAP1), value: hdr.entry_trap1 },
        ]);
    }
    out
}

/// The handler that a read of the vertical blank vector gave.
pub fn original_handler(snap: &[u8]) -> (r: Result<u32, DeployError>)
    ensures
        r == if snap@.len() == 4 {
            Ok::<u32, DeployError>(be_at(snap@, 0))
        } else {
            Err(DeployError::ShortVector(snap@.len() as usize))
        },
{
    if snap.len() != 4 {
        return Err(DeployError::ShortVector(snap.len()));
    }
    Ok(be_u32(snap, 0))
}

/// The writes that arm a pause: the original handler and the flag go to the
/// stub's header first, the vector last.
pub open spec fn pausing(load: u32, entry_vbl: u32, original: u32) -> Seq<LongWrite> {
    seq![
        LongWrite {
            addr: PiBusAddr((load + HEADER_OFF_ORIGINAL_VBL) as u32),
            value: original,
        },
        LongWrite { addr: PiBusAddr((load + HEADER_OFF_PAUSED_FLAG) as u32), value: 1 },
        LongWrite { addr: PiBusAddr(VEC_VBL), value: entry_vbl },
    ]
}

/// The writes that undo a pause: the flag is cleared before the vector is
/// restored, so that an interrupt in between does not halt again.
pub open spec fn unpausing(load: u32, original: u32) -> Seq<LongWrite> {
    seq![
        LongWrite { addr: PiBusAddr((load + HEADER_OFF_PAUSED_FLAG) as u32), value: 0 },
        LongWrite { addr: PiBusAddr(VEC_VBL), value: original },
    ]
}

/// The writes that arm a pause.
pub fn pause_writes(load: u32, entry_vbl: u32, original: u32) -> (r: Vec<LongWrite>)
    requires
        load <= u32::MAX - HEADER_OFF_ORIGINAL_VBL,
    ensures
        r@ == pausing(load, entry_vbl, original),
{
    let mut out: Vec<LongWrite> = Vec::new();
    out.push(long(load + HEADER_OFF_ORIGINAL_VBL, original));
    out.push(long(load + HEADER_OFF_PAUSED_FLAG, 1));
    out.push(long(VEC_VBL, entry_vbl));
    proof {
        assert(out@ =~= pausing(load, entry_vbl, original));
    }
    out
}

/// The writes that undo a pause.
pub fn unpause_writes(load: u32, original: u32) -> (r: Vec<LongWrite>)
    requires
        load <= u32::MAX - HEADER_OFF_PAUSED_FLAG,
    ensures
        r@ == unpausing(load, original),
{
    let mut out: Vec<LongWrite> = Vec::new();
    out.push(long(load + HEADER_OFF_PAUSED_FLAG, 0));
    out.push(long(VEC_VBL, original));
    proof {
        assert(out@ =~= unpausing(load, original));
    }
    out
}

/// Memory after a four-byte write, most significant byte first.
pub open spec fn written(mem: Map<int, u8>, w: LongWrite) -> Map<int, u8> {
    let a = w.addr.0 as int;
    let b = be32(w.value);
    mem.insert(a, b[0]).insert(a + 1, b[1]).insert(a + 2, b[2]).insert(a + 3, b[3])
}

/// Memory after a list of writes.
pub open spec fn all_written(mem: Map<int, u8>, ws: Seq<LongWrite>) -> Map<int, u8>
    decreases ws.len(),
{
    if ws.len() == 0 {
        mem
    } else {
        written(all_written(mem, ws.drop_last()), ws.last())
    }
}

/// The four bytes at an address.
pub open spec fn four_at(mem: Map<int, u8>, a: int) -> Seq<u8> {
    seq![mem[a], mem[a + 1], mem[a + 2], mem[a + 3]]
}

proof fn lemma_be_round_trip(s: Seq<u8>)
    requires
        s.len() == 4,
    ensures
        be32(be_at(s, 0)) == s,
{
    let n = 16777216 * s[0] + 65536 * s[1] + 256 * s[2] + s[3];
    assert(n / 16777216 == s[0]);
    assert(n / 65536 % 256 == s[1]);
    assert(n / 256 % 256 == s[2]);
    assert(n % 256 == s[3]);
    assert(be32(be_at(s, 0)) =~= s);
}

/// Arming a pause points the vertical blank vector at the stub and keeps the
/// original handler; undoing it gives the vector its original bytes back and
/// leaves the flag cleared. The stub's header must not lie on the vector.
pub proof fn law_pause_is_undone(mem: Map<int, u8>, load: u32, entry_vbl: u32)
    requires
        load <= u32::MAX - HEADER_SIZE,
        load >= 0x7C,
    ensures
        ({
            let original = be_at(four_at(mem, VEC_VBL as int), 0);
            let armed = all_written(mem, pausing(load, entry_vbl, original));
            let undone = all_written(armed, unpausing(load, original));
            &&& four_at(armed, VEC_VBL as int) == be32(entry_vbl)
            &&& four_at(armed, load + HEADER_OFF_ORIGINAL_VBL) == four_at(mem, VEC_VBL as int)
            &&& four_at(armed, load + HEADER_OFF_PAUSED_FLAG) == be32(1)
            &&& four_at(undone, VEC_VBL as int) == four_at(mem, VEC_VBL as int)
            &&& four_at(undone, load + HEADER_OFF_PAUSED_FLAG) == be32(0)
        }),
{
    let original = be_at(four_at(mem, VEC_VBL as int), 0);
    lemma_be_round_trip(four_at(mem, VEC_VBL as int));
    let p = pausing(load, entry_vbl, original);
    let u = unpausing(load, original);
    reveal_with_fuel(all_written, 4);
    assert(p.drop_last().drop_last().drop_last() =~= seq![]);
    assert(p.drop_last().drop_last().last() == p[0]);
    assert(p.drop_last().last() == p[1]);
    let armed = all_written(mem, p);
    assert(armed == written(written(written(mem, p[0]), p[1]), p[2]));
    assert(u.drop_last().drop_last() =~= seq![]);
    assert(u.drop_last().last() == u[0]);
    let undone = all_written(armed, u);
    assert(undone == written(written(armed, u[0]), u[1]));
    assert(four_at(armed, VEC_VBL as int) =~= be32(entry_vbl));
    assert(four_at(armed, load + HEADER_OFF_ORIGINAL_VBL) =~= be32(original));
    assert(four_at(armed, load + HEADER_OFF_PAUSED_FLAG) =~= be32(1));
    assert(four_at(undone, VEC_VBL as int) =~= be32(original));
    assert(four_at(undone, load + HEADER_OFF_PAUSED_FLAG) =~= be32(0));
}

/// A stub's header is `MDST`, the entry points of the trace, trap and vertical
/// blank handlers, most significant byte first, and eight empty bytes; a stub has
/// 32 to 16384 bytes. Such a stub is accepted, and no other.
pub proof fn law_header_layout(blob: Seq<u8>, h: StubHeader)
    ensures
        header_of(blob) == Ok::<StubHeader, DeployError>(h) <==> {
            &&& 32 <= blob.len() <= 16384
            &&& blob.subrange(0, 24) == seq![77u8, 68, 83, 84] + be32(h.entry_trace) + be32(
                h.entry_trap1,
            ) + be32(h.entry_vbl) + seq![0u8, 0, 0, 0, 0, 0, 0, 0]
        },
{
    if 32 <= blob.len() <= 16384 {
        let want = seq![77u8, 68, 83, 84] + be32(h.entry_trace) + be32(h.entry_trap1) + be32(
            h.entry_vbl,
        ) + seq![0u8, 0, 0, 0, 0, 0, 0, 0];
        let head = blob.subrange(0, 24);
        lemma_word(blob, 0, HEADER_MAGIC);
        lemma_word(blob, 4, h.entry_trace);
        lemma_word(blob, 8, h.entry_trap1);
        lemma_word(blob, 12, h.entry_vbl);
        lemma_word(blob, 16, 0);
        lemma_word(blob, 20, 0);
        assert(be32(HEADER_MAGIC) =~= seq![77u8, 68, 83, 84]);
        assert(be32(0) =~= seq![0u8, 0, 0, 0]);
        if head == want {
            assert(blob.subrange(0, 4) =~= want.subrange(0, 4));
            assert(want.subrange(0, 4) =~= be32(HEADER_MAGIC));
            assert(blob.subrange(4, 8) =~= head.subrange(4, 8));
            assert(want.subrange(4, 8) =~= be32(h.entry_trace));
            assert(blob.subrange(8, 12) =~= head.subrange(8, 12));
            assert(want.subrange(8, 12) =~= be32(h.entry_trap1));
            assert(blob.subrange(12, 16) =~= head.subrange(12, 16));
            assert(want.subrange(12, 16) =~= be32(h.entry_vbl));
            assert(blob.subrange(16, 20) =~= head.subrange(16, 20));
            assert(want.subrange(16, 20) =~= be32(0));
            assert(blob.subrange(20, 24) =~= head.subrange(20, 24));
            assert(want.subrange(20, 24) =~= be32(0));
        }
        if header_of(blob) == Ok::<StubHeader, DeployError>(h) {
            assert(blob.subrange(0, 24) =~= blob.subrange(0, 4) + blob.subrange(4, 8)
                + blob.subrange(8, 12) + blob.subrange(12, 16) + (blob.subrange(16, 20)
                + blob.subrange(20, 24)));
            assert(be32(0) + be32(0) =~= seq![0u8, 0, 0, 0, 0, 0, 0, 0]);
            assert(head =~= want);
        }
    }
}

proof fn lemma_word(s: Seq<u8>, i: int, n: u32)
    requires
        0 <= i,
        i + 4 <= s.len(),
    ensures
        be_at(s, i) == n <==> s.subrange(i, i + 4) == be32(n),
{
    let w = s.subrange(i, i + 4);
    assert(be_at(w, 0) == be_at(s, i));
    lemma_be_round_trip(w);
    crate::target::edpro::proto::law_be32_value(n);
    if w == be32(n) {
        assert(16777216 * w[0] + 65536 * w[1] + 256 * w[2] + w[3] == n);
    }
}

/// The vectors are those of the 68k: four bytes each, number 9 for trace, 32 and on
/// for the traps, 24 and on for the interrupt levels, of which vertical blank is the
/// sixth. The stub's own slots lie behind its magic and its three entry points.
pub proof fn law_places()
    ensures
        VEC_TRACE == 4 * 9,
        VEC_TRAP1 == 4 * (32 + 1),
        VEC_VBL == 4 * (24 + 6),
        HEADER_OFF_PAUSED_FLAG == 4 * (1 + 3),
        HEADER_OFF_ORIGINAL_VBL == HEADER_OFF_PAUSED_FLAG + 4,
        HEADER_SIZE == HEADER_OFF_ORIGINAL_VBL + 4,
        STUB_LOAD_ADDR == 3 * 1024 * 1024,
        STUB_BSS_ADDR + STUB_BSS_LEN == 0x00FF_F000,
{
}

/// Four bytes read as the number that was written.
pub proof fn law_word_reads_back(n: u32)
    ensures
        be_at(be32(n), 0) == n,
{
    crate::target::edpro::proto::law_be32_value(n);
}

} // verus!
