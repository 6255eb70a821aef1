//! Breakpoint tables, the debug callbacks, and the commands around them.

use mds_mcp::emulator::breakpoints::BreakpointTable;
use mds_mcp::emulator::debug_api::{bp_trampoline, wp_trampoline, DebugTrampolineCtx};
use mds_mcp::emulator::runner::{CommandError, CommandReply, LibraCtx, State};
use mds_mcp::emulator::{BpKind, BpSpace, Breakpoint, Command, SharedBreakpoints};
use mds_mcp::ffi::{LIBRA_BP_ACCESS, LIBRA_BP_EXEC, LIBRA_BP_READ, LIBRA_BP_WRITE};
use mds_mcp::tools::{
    mega_clear_breakpoint, mega_list_breakpoints, mega_set_breakpoint, set_breakpoint_request,
    BreakpointArgs, ToolReply,
};

fn bp(id: u32, addr: u32, kind: BpKind, space: BpSpace) -> Breakpoint {
    Breakpoint { id, addr, kind, space, hit_count: 0, enabled: true }
}

#[test]
fn add_remove_round_trip() {
    let mut s = SharedBreakpoints::new();
    s.update(|t| {
        t.add(Breakpoint {
            id: 1,
            addr: 0x100,
            kind: BpKind::Exec,
            space: BpSpace::Rom,
            hit_count: 0,
            enabled: true,
        });
        t.add(Breakpoint {
            id: 2,
            addr: 0xFF0000,
            kind: BpKind::Write,
            space: BpSpace::Ram,
            hit_count: 0,
            enabled: true,
        });
    });
    let snap = s.snapshot();
    assert_eq!(snap.entries.len(), 2);
    assert!(snap.matches_pc(0x100));
    assert!(!snap.matches_pc(0x101));
    assert!(snap.find_watch(0xFF0000, true).is_some());
    assert!(snap.find_watch(0xFF0000, false).is_none());

    s.update(|t| {
        assert!(t.remove(1));
    });
    let snap = s.snapshot();
    assert_eq!(snap.entries.len(), 1);
    assert!(!snap.matches_pc(0x100));
}

#[test]
fn kind_and_space_parse() {
    assert_eq!(BpKind::parse("EXEC"), Some(BpKind::Exec));
    assert_eq!(BpKind::parse("rw"), Some(BpKind::Access));
    assert_eq!(BpKind::parse("wat"), None);
    assert_eq!(BpSpace::parse("ROM"), Some(BpSpace::Rom));
    assert_eq!(BpSpace::parse("ram"), Some(BpSpace::Ram));
    assert_eq!(BpSpace::parse("vram"), None);
}

#[test]
fn masks_of_the_kinds() {
    assert_eq!(BpKind::Exec.as_libra_mask(), LIBRA_BP_EXEC);
    assert_eq!(BpKind::Read.as_libra_mask(), LIBRA_BP_READ);
    assert_eq!(BpKind::Write.as_libra_mask(), LIBRA_BP_WRITE);
    assert_eq!(BpKind::Access.as_libra_mask(), LIBRA_BP_ACCESS);
    assert_eq!(LIBRA_BP_ACCESS, LIBRA_BP_READ | LIBRA_BP_WRITE);
}

#[test]
fn trampoline_lookup_lock_free() {
    let mut bps = SharedBreakpoints::new();
    bps.update(|t| {
        t.add(Breakpoint {
            id: 7,
            addr: 0x1234,
            kind: BpKind::Exec,
            space: BpSpace::Rom,
            hit_count: 0,
            enabled: true,
        });
    });
    let mut ctx = DebugTrampolineCtx::new();

    // Miss
    let r = bp_trampoline(&mut ctx, &bps, 0x1000);
    assert_eq!(r, 0);
    assert!(ctx.take_halt().is_none());

    // Hit
    let r = bp_trampoline(&mut ctx, &bps, 0x1234);
    assert_eq!(r, 1);
    let info = ctx.take_halt().expect("halt info");
    assert_eq!(info.id, 7);
    assert_eq!(info.pc, 0x1234);
    assert_eq!(info.kind, 0);

    // A halt is taken once.
    assert!(ctx.take_halt().is_none());
}

#[test]
fn callbacks_see_the_breakpoints_of_the_moment() {
    let mut bps = SharedBreakpoints::new();
    let mut ctx = DebugTrampolineCtx::new();
    assert_eq!(bp_trampoline(&mut ctx, &bps, 0x1234), 0);
    bps.update(|t| t.add(bp(4, 0x1234, BpKind::Exec, BpSpace::Rom)));
    assert_eq!(bp_trampoline(&mut ctx, &bps, 0x1234), 1);
    assert_eq!(ctx.take_halt().map(|h| h.id), Some(4));
    bps.update(|t| t.remove(4));
    assert_eq!(bp_trampoline(&mut ctx, &bps, 0x1234), 0);
    assert!(ctx.take_halt().is_none());
}

#[test]
fn watchpoint_trampoline_tells_reads_from_writes() {
    let mut bps = SharedBreakpoints::new();
    bps.update(|t| {
        t.add(bp(1, 0xFF0000, BpKind::Read, BpSpace::Ram));
        t.add(bp(2, 0xFF0002, BpKind::Write, BpSpace::Ram));
        t.add(bp(3, 0xFF0004, BpKind::Access, BpSpace::Ram));
    });
    let mut ctx = DebugTrampolineCtx::new();
    assert_eq!(wp_trampoline(&mut ctx, &bps, 0xFF0000, 1), 0);
    assert_eq!(wp_trampoline(&mut ctx, &bps, 0xFF0000, 0), 1);
    assert_eq!(ctx.take_halt().map(|h| (h.id, h.pc)), Some((1, 0xFF0000)));
    assert_eq!(wp_trampoline(&mut ctx, &bps, 0xFF0002, 0), 0);
    assert_eq!(wp_trampoline(&mut ctx, &bps, 0xFF0002, 1), 1);
    assert_eq!(ctx.take_halt().map(|h| h.id), Some(2));
    assert_eq!(wp_trampoline(&mut ctx, &bps, 0xFF0004, 0), 1);
    assert_eq!(wp_trampoline(&mut ctx, &bps, 0xFF0004, 1), 1);
    assert_eq!(wp_trampoline(&mut ctx, &bps, 0xFF0006, 1), 0);
}

#[test]
fn fast_path_agrees_with_the_table() {
    let mut t = BreakpointTable::default();
    t.add(bp(3, 0x300, BpKind::Exec, BpSpace::Rom));
    t.add(bp(1, 0x100, BpKind::Exec, BpSpace::Rom));
    t.add(bp(2, 0x200, BpKind::Write, BpSpace::Ram));
    let mut off = bp(4, 0x400, BpKind::Exec, BpSpace::Rom);
    off.enabled = false;
    t.add(off);
    assert_eq!(t.exec_pcs, vec![0x100, 0x300]);
    for pc in [0x100u32, 0x200, 0x300, 0x400, 0x500] {
        assert_eq!(t.matches_pc(pc), t.find_exec(pc).is_some());
    }
    t.entries[0].enabled = false;
    t.rebuild_fast_paths();
    assert_eq!(t.exec_pcs, vec![0x300]);
}

#[test]
fn adding_and_removing_gives_the_table_back() {
    let mut t = BreakpointTable::default();
    t.add(bp(5, 0x500, BpKind::Exec, BpSpace::Rom));
    let before = t.clone();
    t.add(bp(2, 0x200, BpKind::Exec, BpSpace::Rom));
    assert_eq!(t.entries.iter().map(|b| b.id).collect::<Vec<u32>>(), vec![2, 5]);
    assert!(t.remove(2));
    assert!(!t.remove(2));
    assert_eq!(t.entries, before.entries);
    assert_eq!(t.exec_pcs, before.exec_pcs);
}

#[test]
fn entries_of_one_id_are_removed_together() {
    let mut t = BreakpointTable::default();
    t.add(bp(1, 0x100, BpKind::Exec, BpSpace::Rom));
    t.add(bp(2, 0x300, BpKind::Exec, BpSpace::Rom));
    t.add(bp(1, 0x200, BpKind::Exec, BpSpace::Rom));
    assert_eq!(t.entries.iter().map(|b| b.addr).collect::<Vec<u32>>(), vec![0x100, 0x200, 0x300]);
    assert!(t.remove(1));
    assert_eq!(t.entries.len(), 1);
    assert_eq!(t.exec_pcs, vec![0x300]);
}

#[test]
fn hits_are_counted_on_the_first_match() {
    let mut t = BreakpointTable::default();
    t.add(bp(1, 0x100, BpKind::Exec, BpSpace::Rom));
    t.add(bp(2, 0x100, BpKind::Exec, BpSpace::Rom));
    assert_eq!(t.count_hit(0x100), Some(1));
    assert_eq!(t.count_hit(0x100), Some(1));
    assert_eq!(t.count_hit(0x101), None);
    assert_eq!(t.entries[0].hit_count, 2);
    assert_eq!(t.entries[1].hit_count, 0);
}

fn set(state: &mut State, addr: u32, kind: &str, space: &str) -> (u32, Option<&'static str>) {
    let args = BreakpointArgs {
        addr: Some(addr),
        kind: Some(kind.to_string()),
        space: Some(space.to_string()),
    };
    let (addr, kind, space) = set_breakpoint_request(&args).expect("arguments");
    match state.handle_command(Command::SetBreakpoint { addr, kind, space }, 0).0 {
        CommandReply::BreakpointSet(r) => {
            match mega_set_breakpoint(r.map_err(|e| e.message())) {
                ToolReply::BreakpointSet(out) => {
                    assert!(out.ok);
                    (out.id, out.reason)
                }
                _ => panic!("not set"),
            }
        }
        _ => panic!("wrong reply"),
    }
}

fn list(state: &mut State) -> Vec<Breakpoint> {
    match state.handle_command(Command::ListBreakpoints, 0).0 {
        CommandReply::Breakpoints(l) => match mega_list_breakpoints(Ok(l)) {
            ToolReply::Breakpoints(l) => l,
            _ => panic!("not a list"),
        },
        _ => panic!("wrong reply"),
    }
}

fn clear(state: &mut State, id: u32) -> bool {
    match state.handle_command(Command::ClearBreakpoint { id }, 0).0 {
        CommandReply::Removed(removed) => match mega_clear_breakpoint(Ok(removed)) {
            ToolReply::BreakpointCleared { removed } => removed,
            _ => panic!("not cleared"),
        },
        _ => panic!("wrong reply"),
    }
}

#[test]
fn breakpoint_lifecycle() {
    let mut state = State::new(LibraCtx::new().unwrap());
    assert_eq!(list(&mut state).len(), 0);

    let (id1, reason1) = set(&mut state, 256, "exec", "rom");
    let (id2, _) = set(&mut state, 16744448, "write", "ram");
    assert_ne!(id1, id2, "ids must be unique");

    let both = list(&mut state);
    assert_eq!(both.len(), 2);
    assert!(both.iter().any(|b| b.id == id1 && b.kind == BpKind::Exec));
    assert!(both.iter().any(|b| b.id == id2 && b.kind == BpKind::Write));

    assert!(clear(&mut state, id1));
    let one = list(&mut state);
    assert_eq!(one.len(), 1);
    assert_eq!(one[0].id, id2);

    assert!(!clear(&mut state, 9999));

    let bogus = BreakpointArgs { addr: Some(0), kind: Some("wat".to_string()), space: None };
    match set_breakpoint_request(&bogus) {
        Err(ToolReply::Error(m)) => assert_eq!(m, "unknown breakpoint kind: \"wat\""),
        _ => panic!("expected an error on a bogus kind"),
    }
    assert_eq!(reason1, Some("debug_api_unavailable"));
}

#[test]
fn breakpoint_arguments_have_defaults() {
    let args = BreakpointArgs { addr: Some(8), kind: None, space: None };
    assert!(matches!(set_breakpoint_request(&args), Ok((8, BpKind::Exec, BpSpace::Ram))));
    let none = BreakpointArgs { addr: None, kind: None, space: None };
    match set_breakpoint_request(&none) {
        Err(ToolReply::Error(m)) => assert_eq!(m, "missing required field: addr"),
        _ => panic!("an address is required"),
    }
    let space = BreakpointArgs { addr: Some(8), kind: None, space: Some("vram".to_string()) };
    match set_breakpoint_request(&space) {
        Err(ToolReply::Error(m)) => assert_eq!(m, "unknown breakpoint space: \"vram\""),
        _ => panic!("vram holds no breakpoints"),
    }
}

#[test]
fn a_core_with_debug_entry_points_gives_no_reason() {
    let mut libra = LibraCtx::new().unwrap();
    libra.debug_api = true;
    let mut state = State::new(libra);
    assert_eq!(set(&mut state, 4, "exec", "rom"), (1, None));
}

#[test]
fn a_hit_halts_until_continued() {
    let mut state = State::new(LibraCtx::new().unwrap());
    let (id, _) = set(&mut state, 0x200, "exec", "rom");
    state.handle_command(Command::Resume, 0);
    assert!(!state.paused);
    match state.handle_command(Command::SimulateBreakpointHit { pc: 0x202 }, 0).0 {
        CommandReply::Hit(None) => {}
        _ => panic!("nothing there"),
    }
    assert!(!state.paused);
    match state.handle_command(Command::SimulateBreakpointHit { pc: 0x200 }, 0).0 {
        CommandReply::Hit(Some(hit)) => assert_eq!(hit, id),
        _ => panic!("no hit"),
    }
    assert!(state.paused);
    assert_eq!(state.halted.map(|h| (h.id, h.pc, h.kind)), Some((id, 0x200, 0)));
    state.handle_command(Command::ContinueAfterHalt, 0);
    assert!(!state.paused);
    assert!(state.halted.is_none());
    assert_eq!(list(&mut state)[0].hit_count, 1);
}

#[test]
fn ids_run_out() {
    let mut state = State::new(LibraCtx::new().unwrap());
    state.next_id = u32::MAX;
    match state.set_breakpoint(0, BpKind::Exec, BpSpace::Rom) {
        Err(CommandError::NoIdsLeft) => {}
        _ => panic!("no id is left"),
    }
    assert_eq!(CommandError::NoIdsLeft.message(), "no breakpoint ids left");
}

#[test]
fn setting_and_clearing_gives_the_list_back() {
    let mut state = State::new(LibraCtx::new().unwrap());
    set(&mut state, 0x10, "read", "ram");
    let before = list(&mut state);
    let (id, _) = set(&mut state, 0x20, "access", "ram");
    assert!(clear(&mut state, id));
    assert_eq!(list(&mut state), before);
    assert_eq!(set(&mut state, 0x30, "exec", "rom").0, id + 1);
}
