//! Halt decisions for the core's debug callbacks. The callbacks run once per
//! 68k instruction and once per bus access; a non-zero answer halts the 68k. They
//! decide by the breakpoints as they are at the call.

use crate::emulator::breakpoints::{first_access, first_exec, SharedBreakpoints};
use vstd::prelude::*;

verus! {

/// Where the 68k was halted.
#[derive(Debug, Clone, Copy, PartialEq, Eq, Structural)]
pub struct HaltInfo {
    /// The breakpoint that was hit.
    pub id: u32,
    /// The program counter, or the accessed address.
    pub pc: u32,
    /// 0 for an exec breakpoint, 1 for a watchpoint.
    pub kind: u32,
}

/// What the callbacks leave for the frame loop.
#[derive(Debug)]
pub struct DebugTrampolineCtx {
    pub halted: bool,
    pub halted_id: u32,
    pub halted_pc: u32,
    pub halted_kind: u32,
}

impl DebugTrampolineCtx {
    /// Nothing halted yet.
    pub fn new() -> (r: Self)
        ensures
            r.halt() is None,
    {
        DebugTrampolineCtx { halted: false, halted_id: 0, halted_pc: 0, halted_kind: 0 }
    }

    /// The halt that waits to be taken.
    pub open spec fn halt(self) -> Option<HaltInfo> {
        if self.halted {
            Some(HaltInfo { id: self.halted_id, pc: self.halted_pc, kind: self.halted_kind })
        } else {
            None
        }
    }

    /// Takes the pending halt; a second call finds none.
    pub fn take_halt(&mut self) -> (r: Option<HaltInfo>)
        ensures
            r == old(self).halt(),
            final(self).halt() is None,
    {
        if self.halted {
            self.halted = false;
            Some(HaltInfo { id: self.halted_id, pc: self.halted_pc, kind: self.halted_kind })
        } else {
            None
        }
    }
}

/// The low 32 bits of a machine word that the core passes.
pub open spec fn low32(x: u64) -> u32 {
    (x % 0x1_0000_0000) as u32
}

/// Whether the core's access flag says that the access is a write.
pub open spec fn writes(is_write: i32) -> bool {
    is_write != 0
}

/// Called before each 68k instruction. Halts (1) on an enabled exec breakpoint
/// at `pc` and records the first one; otherwise nothing changes (0).
pub fn bp_trampoline(ctx: &mut DebugTrampolineCtx, shared: &SharedBreakpoints, pc: u64) -> (r: i32)
    requires
        shared.table.wf(),
    ensures
        r == 0 || r == 1,
        r == 0 ==> *final(ctx) == *old(ctx) && forall|i: int|
            0 <= i < shared.table.entries@.len() ==> !(
            #[trigger] shared.table.entries@[i]).hit_by_exec(low32(pc)),
        r == 1 ==> exists|i: int|
            #[trigger] first_exec(shared.table.entries@, low32(pc), i) && final(ctx).halt() == Some(
                HaltInfo { id: shared.table.entries@[i].id, pc: low32(pc), kind: 0 },
            ),
{
    let pc32: u32 = (pc % 0x1_0000_0000) as u32;
    let snap = shared.snapshot();
    if snap.matches_pc(pc32) {
        if let Some(hit) = snap.find_exec(pc32) {
            proof {
                assert(pc32 == low32(pc));
                let i = choose|i: int|
                    #[trigger] first_exec(snap.entries@, pc32, i) && hit == (
                        snap.entries@[i].id,
                        snap.entries@[i].addr,
                    );
                assert(first_exec(shared.table.entries@, low32(pc), i));
            }
            ctx.halted_id = hit.0;
            ctx.halted_pc = pc32;
            ctx.halted_kind = 0;
            ctx.halted = true;
            return 1;
        }
    }
    0
}

/// Called on each 68k bus access. Halts (1) on an enabled watchpoint at `addr`
/// that reacts to the kind of access and records the first one; otherwise
/// nothing changes (0).
pub fn wp_trampoline(
    ctx: &mut DebugTrampolineCtx,
    shared: &SharedBreakpoints,
    addr: u64,
    is_write: i32,
) -> (r: i32)
    ensures
        r == 0 || r == 1,
        r == 0 ==> *final(ctx) == *old(ctx) && forall|i: int|
            0 <= i < shared.table.entries@.len() ==> !(
            #[trigger] shared.table.entries@[i]).hit_by_access(low32(addr), writes(is_write)),
        r == 1 ==> exists|i: int|
            #[trigger] first_access(
                shared.table.entries@,
                low32(addr),
                writes(is_write),
                i,
            ) && final(ctx).halt() == Some(
                HaltInfo { id: shared.table.entries@[i].id, pc: low32(addr), kind: 1 },
            ),
{
    let addr32: u32 = (addr % 0x1_0000_0000) as u32;
    let snap = shared.snapshot();
    if let Some(hit) = snap.find_watch(addr32, is_write != 0) {
        proof {
            assert(addr32 == low32(addr));
            let i = choose|i: int|
                #[trigger] first_access(snap.entries@, addr32, writes(is_write), i) && hit == (
                    snap.entries@[i].id,
                    snap.entries@[i].addr,
                );
            assert(first_access(shared.table.entries@, low32(addr), writes(is_write), i));
        }
        ctx.halted_id = hit.0;
        ctx.halted_pc = addr32;
        ctx.halted_kind = 1;
        ctx.halted = true;
        return 1;
    }
    0
}

/// Addresses are what the core passes, without what lies above 32 bits; an access
/// is a write under every flag but 0.
pub proof fn law_core_words(x: u64, above: u32, address: u32, flag: i32)
    requires
        x == 0x1_0000_0000 * above + address,
    ensures
        low32(x) == address,
        writes(flag) <==> !(flag == 0),
{
}

} // verus!
