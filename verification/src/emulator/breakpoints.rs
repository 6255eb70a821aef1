//! Breakpoint table.

use crate::ffi::{LIBRA_BP_ACCESS, LIBRA_BP_EXEC, LIBRA_BP_READ, LIBRA_BP_WRITE};
use crate::text::{ascii_lower, lower, text_eq};
use std::sync::Arc;
use vstd::prelude::*;

verus! {

broadcast use {
    vstd::seq_lib::group_to_multiset_ensures,
    vstd::multiset::group_multiset_axioms,
};

/// What a breakpoint reacts to.
#[derive(Debug, Clone, Copy, PartialEq, Eq, Structural)]
pub enum BpKind {
    Exec,
    Read,
    Write,
    Access,
}

impl BpKind {
    /// The kind that a lower-case name stands for.
    pub open spec fn named(s: Seq<char>) -> Option<BpKind> {
        if s == "exec"@ || s == "execute"@ {
            Some(BpKind::Exec)
        } else if s == "read"@ {
            Some(BpKind::Read)
        } else if s == "write"@ {
            Some(BpKind::Write)
        } else if s == "access"@ || s == "rw"@ {
            Some(BpKind::Access)
        } else {
            None
        }
    }

    /// Parses a kind, ignoring ASCII case.
    pub fn parse(s: &str) -> (r: Option<BpKind>)
        ensures
            r == BpKind::named(lower(s@)),
    {
        let name = ascii_lower(s);
        let n = name.as_str();
        if text_eq(n, "exec") || text_eq(n, "execute") {
            Some(BpKind::Exec)
        } else if text_eq(n, "read") {
            Some(BpKind::Read)
        } else if text_eq(n, "write") {
            Some(BpKind::Write)
        } else if text_eq(n, "access") || text_eq(n, "rw") {
            Some(BpKind::Access)
        } else {
            None
        }
    }

    /// The core's mask for the kind.
    pub fn as_libra_mask(self) -> (r: u32)
        ensures
            r == match self {
                BpKind::Exec => LIBRA_BP_EXEC,
                BpKind::Read => LIBRA_BP_READ,
                BpKind::Write => LIBRA_BP_WRITE,
                BpKind::Access => LIBRA_BP_ACCESS,
            },
    {
        match self {
            BpKind::Exec => LIBRA_BP_EXEC,
            BpKind::Read => LIBRA_BP_READ,
            BpKind::Write => LIBRA_BP_WRITE,
            BpKind::Access => LIBRA_BP_ACCESS,
        }
    }
}

/// Where a breakpoint's address lies.
#[derive(Debug, Clone, Copy, PartialEq, Eq, Structural)]
pub enum BpSpace {
    Rom,
    Ram,
}

impl BpSpace {
    /// The space that a lower-case name stands for.
    pub open spec fn named(s: Seq<char>) -> Option<BpSpace> {
        if s == "rom"@ {
            Some(BpSpace::Rom)
        } else if s == "ram"@ {
            Some(BpSpace::Ram)
        } else {
            None
        }
    }

    /// Parses a space, ignoring ASCII case.
    pub fn parse(s: &str) -> (r: Option<BpSpace>)
        ensures
            r == BpSpace::named(lower(s@)),
    {
        let name = ascii_lower(s);
        if text_eq(name.as_str(), "rom") {
            Some(BpSpace::Rom)
        } else if text_eq(name.as_str(), "ram") {
            Some(BpSpace::Ram)
        } else {
            None
        }
    }
}

/// One breakpoint.
#[derive(Debug, Clone, Copy, PartialEq, Eq, Structural)]
pub struct Breakpoint {
    pub id: u32,
    pub addr: u32,
    pub kind: BpKind,
    pub space: BpSpace,
    pub hit_count: u64,
    pub enabled: bool,
}

impl Breakpoint {
    /// Whether executing `pc` hits the breakpoint.
    pub open spec fn hit_by_exec(self, pc: u32) -> bool {
        self.enabled && self.kind == BpKind::Exec && self.addr == pc
    }

    /// Whether a bus access hits the breakpoint.
    pub open spec fn hit_by_access(self, addr: u32, write: bool) -> bool {
        &&& self.enabled
        &&& self.addr == addr
        &&& match self.kind {
            BpKind::Read => !write,
            BpKind::Write => write,
            BpKind::Access => true,
            BpKind::Exec => false,
        }
    }
}

/// Whether entry `i` is the first that executing `pc` hits.
pub open spec fn first_exec(s: Seq<Breakpoint>, pc: u32, i: int) -> bool {
    &&& 0 <= i < s.len()
    &&& s[i].hit_by_exec(pc)
    &&& forall|j: int| 0 <= j < i ==> !(#[trigger] s[j]).hit_by_exec(pc)
}

/// Whether entry `i` is the first that a bus access hits.
pub open spec fn first_access(s: Seq<Breakpoint>, addr: u32, write: bool, i: int) -> bool {
    &&& 0 <= i < s.len()
    &&& s[i].hit_by_access(addr, write)
    &&& forall|j: int| 0 <= j < i ==> !(#[trigger] s[j]).hit_by_access(addr, write)
}

/// Breakpoints in the order of their ids.
pub open spec fn by_id(s: Seq<Breakpoint>) -> bool {
    forall|i: int, j: int| 0 <= i <= j < s.len() ==> s[i].id <= s[j].id
}

/// Numbers in ascending order.
pub open spec fn ascending(s: Seq<u32>) -> bool {
    forall|i: int, j: int| 0 <= i <= j < s.len() ==> s[i] <= s[j]
}

/// Addresses of the enabled exec breakpoints, in table order.
pub open spec fn exec_addrs(s: Seq<Breakpoint>) -> Seq<u32>
    decreases s.len(),
{
    if s.len() == 0 {
        seq![]
    } else {
        let rest = exec_addrs(s.drop_last());
        if s.last().enabled && s.last().kind == BpKind::Exec {
            rest.push(s.last().addr)
        } else {
            rest
        }
    }
}

/// Where a breakpoint with this id goes in a table sorted by id: behind every
/// entry whose id is not larger.
pub open spec fn slot_for(s: Seq<Breakpoint>, id: u32) -> int
    decreases s.len(),
{
    if s.len() == 0 {
        0
    } else if s.last().id <= id {
        s.len() as int
    } else {
        slot_for(s.drop_last(), id)
    }
}

/// The table without the breakpoints of this id.
pub open spec fn without(s: Seq<Breakpoint>, id: u32) -> Seq<Breakpoint>
    decreases s.len(),
{
    if s.len() == 0 {
        seq![]
    } else {
        let rest = without(s.drop_last(), id);
        if s.last().id == id {
            rest
        } else {
            rest.push(s.last())
        }
    }
}

proof fn lemma_slot(s: Seq<Breakpoint>, id: u32, p: int)
    requires
        by_id(s),
        0 <= p <= s.len(),
        forall|i: int| 0 <= i < p ==> (#[trigger] s[i]).id <= id,
        p < s.len() ==> s[p].id > id,
    ensures
        slot_for(s, id) == p,
    decreases s.len(),
{
    if s.len() > 0 && p < s.len() {
        assert(s[p].id <= s.last().id);
        lemma_slot(s.drop_last(), id, p);
    }
}

proof fn lemma_slot_range(s: Seq<Breakpoint>, id: u32)
    requires
        by_id(s),
    ensures
        0 <= slot_for(s, id) <= s.len(),
        forall|i: int| 0 <= i < slot_for(s, id) ==> (#[trigger] s[i]).id <= id,
        forall|i: int| slot_for(s, id) <= i < s.len() ==> (#[trigger] s[i]).id > id,
    decreases s.len(),
{
    if s.len() > 0 {
        if s.last().id <= id {
            assert forall|i: int| 0 <= i < s.len() implies (#[trigger] s[i]).id <= id by {
                assert(s[i].id <= s[s.len() - 1].id);
            }
        } else {
            lemma_slot_range(s.drop_last(), id);
            assert forall|i: int| slot_for(s, id) <= i < s.len() implies (#[trigger] s[i]).id
                > id by {
                if i < s.len() - 1 {
                    assert(s.drop_last()[i] == s[i]);
                }
            }
            assert forall|i: int| 0 <= i < slot_for(s, id) implies (#[trigger] s[i]).id <= id by {
                assert(s.drop_last()[i] == s[i]);
            }
        }
    }
}

proof fn lemma_without(s: Seq<Breakpoint>, id: u32)
    ensures
        without(s, id).len() <= s.len(),
        without(s, id).len() == s.len() <==> forall|i: int|
            0 <= i < s.len() ==> (#[trigger] s[i]).id != id,
        by_id(s) ==> by_id(without(s, id)),
        s.len() > 0 && without(s, id).len() > 0 && by_id(s) ==> without(s, id).last().id
            <= s.last().id,
        forall|i: int| 0 <= i < without(s, id).len() ==> (#[trigger] without(s, id)[i]).id != id
            && s.contains(without(s, id)[i]),
    decreases s.len(),
{
    if s.len() > 0 {
        let head = s.drop_last();
        lemma_without(head, id);
        assert forall|i: int| 0 <= i < head.len() implies head[i] == s[i] by {}
        if s.last().id == id {
            assert(s[s.len() - 1].id == id);
        } else {
            assert(s.last() == s[s.len() - 1]);
            if without(head, id).len() == head.len() {
                assert forall|i: int| 0 <= i < s.len() implies (#[trigger] s[i]).id != id by {
                    if i < head.len() {
                        assert(head[i].id != id);
                    }
                }
            } else {
                let i = choose|i: int| 0 <= i < head.len() && (#[trigger] head[i]).id == id;
                assert(s[i].id == id);
            }
        }
        assert forall|i: int| 0 <= i < without(s, id).len() implies (#[trigger] without(
            s,
            id,
        )[i]).id != id && s.contains(without(s, id)[i]) by {
            if i < without(head, id).len() {
                assert(without(s, id)[i] == without(head, id)[i]);
                assert(head.contains(without(head, id)[i]));
                let k = choose|k: int| 0 <= k < head.len() && head[k] == without(head, id)[i];
                assert(s[k] == without(s, id)[i]);
            } else {
                assert(s[s.len() - 1] == without(s, id)[i]);
            }
        }
        if by_id(s) {
            assert(by_id(head));
            assert forall|i: int, j: int| 0 <= i <= j < without(s, id).len() implies without(
                s,
                id,
            )[i].id <= without(s, id)[j].id by {
                let w = without(head, id);
                if j >= w.len() && i < w.len() {
                    assert(w[i].id <= w.last().id);
                    assert(w.last().id <= head.last().id);
                    assert(s[head.len() - 1].id <= s[s.len() - 1].id);
                }
            }
            if without(s, id).len() > 0 && s.last().id == id {
                assert(without(head, id).last().id <= head.last().id);
                assert(s[head.len() - 1].id <= s[s.len() - 1].id);
            }
        }
    }
}

proof fn lemma_exec_addrs(s: Seq<Breakpoint>, pc: u32)
    ensures
        exec_addrs(s).contains(pc) <==> exists|i: int|
            0 <= i < s.len() && (#[trigger] s[i]).hit_by_exec(pc),
        exec_addrs(s).len() <= s.len(),
    decreases s.len(),
{
    if s.len() > 0 {
        let head = s.drop_last();
        lemma_exec_addrs(head, pc);
        let rest = exec_addrs(head);
        if exec_addrs(s).contains(pc) {
            let k = choose|k: int| 0 <= k < exec_addrs(s).len() && exec_addrs(s)[k] == pc;
            if k < rest.len() {
                assert(rest[k] == pc);
                let i = choose|i: int| 0 <= i < head.len() && (#[trigger] head[i]).hit_by_exec(pc);
                assert(s[i].hit_by_exec(pc));
            } else {
                assert(s[s.len() - 1].hit_by_exec(pc));
            }
        }
        if exists|i: int| 0 <= i < s.len() && (#[trigger] s[i]).hit_by_exec(pc) {
            let i = choose|i: int| 0 <= i < s.len() && (#[trigger] s[i]).hit_by_exec(pc);
            if i < head.len() {
                assert(head[i].hit_by_exec(pc));
                let k = choose|k: int| 0 <= k < rest.len() && rest[k] == pc;
                assert(exec_addrs(s)[k] == pc);
            } else {
                assert(exec_addrs(s)[exec_addrs(s).len() - 1] == pc);
            }
        }
    }
}

/// Breakpoints sorted by id, with the addresses that the per-instruction check
/// searches.
#[derive(Debug)]
pub struct BreakpointTable {
    /// Sorted by id.
    pub entries: Vec<Breakpoint>,
    /// Addresses of the enabled exec breakpoints, ascending.
    pub exec_pcs: Vec<u32>,
}

impl Default for BreakpointTable {
    /// An empty table.
    fn default() -> (r: Self)
        ensures
            r.wf(),
            r.entries@.len() == 0,
            r.exec_pcs@.len() == 0,
    {
        BreakpointTable { entries: Vec::new(), exec_pcs: Vec::new() }
    }
}

impl Clone for BreakpointTable {
    fn clone(&self) -> (r: Self)
        ensures
            r.entries@ == self.entries@,
            r.exec_pcs@ == self.exec_pcs@,
    {
        let entries = self.entries.clone();
        let exec_pcs = self.exec_pcs.clone();
        proof {
            assert(entries@ =~= self.entries@);
            assert(exec_pcs@ =~= self.exec_pcs@);
        }
        BreakpointTable { entries, exec_pcs }
    }
}

impl BreakpointTable {
    /// The entries are sorted by id, and the address list is the ascending list
    /// of the addresses of the enabled exec breakpoints.
    pub open spec fn wf(self) -> bool {
        &&& by_id(self.entries@)
        &&& ascending(self.exec_pcs@)
        &&& self.exec_pcs@.to_multiset() == exec_addrs(self.entries@).to_multiset()
    }

    /// Adds a breakpoint, behind those whose id is not larger.
    pub fn add(&mut self, bp: Breakpoint)
        requires
            old(self).wf(),
        ensures
            final(self).wf(),
            final(self).entries@ == old(self).entries@.insert(
                slot_for(old(self).entries@, bp.id),
                bp,
            ),
    {
        let ghost s = self.entries@;
        let mut p: usize = 0;
        while p < self.entries.len() && self.entries[p].id <= bp.id
            invariant
                self.entries@ == s,
                p <= s.len(),
                forall|i: int| 0 <= i < p ==> (#[trigger] s[i]).id <= bp.id,
            decreases s.len() - p,
        {
            p += 1;
        }
        proof {
            lemma_slot(s, bp.id, p as int);
        }
        self.entries.insert(p, bp);
        proof {
            let t = self.entries@;
            assert forall|i: int, j: int| 0 <= i <= j < t.len() implies t[i].id <= t[j].id by {
                let a = if i < p { i } else { i - 1 };
                let b = if j < p { j } else { j - 1 };
                if i != p && j != p {
                    assert(s[a].id <= s[b].id);
                } else if i == p && j != p {
                    assert(s[p as int].id <= s[b].id);
                }
            }
        }
        self.rebuild_fast_paths();
    }

    /// Removes the breakpoints of this id; tells whether there was one.
    pub fn remove(&mut self, id: u32) -> (removed: bool)
        requires
            old(self).wf(),
        ensures
            final(self).wf(),
            final(self).entries@ == without(old(self).entries@, id),
            removed <==> exists|i: int|
                0 <= i < old(self).entries@.len() && (#[trigger] old(self).entries@[i]).id == id,
    {
        let ghost s = self.entries@;
        let mut kept: Vec<Breakpoint> = Vec::new();
        let mut i: usize = 0;
        while i < self.entries.len()
            invariant
                self.entries@ == s,
                i <= s.len(),
                kept@ == without(s.take(i as int), id),
            decreases s.len() - i,
        {
            proof {
                assert(s.take(i + 1).drop_last() =~= s.take(i as int));
            }
            if self.entries[i].id != id {
                kept.push(self.entries[i]);
            }
            i += 1;
        }
        proof {
            assert(s.take(s.len() as int) =~= s);
            lemma_without(s, id);
        }
        let removed = kept.len() != self.entries.len();
        if removed {
            self.entries = kept;
            self.rebuild_fast_paths();
        } else {
            proof {
                lemma_without_none(s, id);
            }
        }
        removed
    }

    /// Recomputes the address list from the entries.
    pub fn rebuild_fast_paths(&mut self)
        ensures
            final(self).entries@ == old(self).entries@,
            ascending(final(self).exec_pcs@),
            final(self).exec_pcs@.to_multiset() == exec_addrs(old(self).entries@).to_multiset(),
    {
        let mut pcs: Vec<u32> = Vec::new();
        let mut i: usize = 0;
        while i < self.entries.len()
            invariant
                self.entries@ == old(self).entries@,
                i <= self.entries@.len(),
                ascending(pcs@),
                pcs@.to_multiset() == exec_addrs(self.entries@.take(i as int)).to_multiset(),
            decreases self.entries@.len() - i,
        {
            let b = self.entries[i];
            proof {
                assert(self.entries@.take(i + 1).drop_last() =~= self.entries@.take(i as int));
            }
            if b.enabled && b.kind == BpKind::Exec {
                insert_ascending(&mut pcs, b.addr);
            }
            i += 1;
        }
        proof {
            assert(self.entries@.take(self.entries@.len() as int) =~= self.entries@);
        }
        self.exec_pcs = pcs;
    }

    /// Whether `pc` is the address of an enabled exec breakpoint.
    pub fn matches_pc(&self, pc: u32) -> (r: bool)
        requires
            self.wf(),
        ensures
            r <==> exists|i: int|
                0 <= i < self.entries@.len() && (#[trigger] self.entries@[i]).hit_by_exec(pc),
    {
        let mut lo: usize = 0;
        let mut hi: usize = self.exec_pcs.len();
        proof {
            lemma_exec_addrs(self.entries@, pc);
            assert(self.exec_pcs@.contains(pc) <==> exec_addrs(self.entries@).contains(pc)) by {
                assert(self.exec_pcs@.to_multiset().count(pc) == exec_addrs(
                    self.entries@,
                ).to_multiset().count(pc));
            }
        }
        while lo < hi
            invariant
                lo <= hi <= self.exec_pcs@.len(),
                ascending(self.exec_pcs@),
                self.exec_pcs@.contains(pc) <==> exists|i: int|
                    0 <= i < self.entries@.len() && (#[trigger] self.entries@[i]).hit_by_exec(pc),
                forall|k: int| 0 <= k < lo ==> self.exec_pcs@[k] < pc,
                forall|k: int| hi <= k < self.exec_pcs@.len() ==> self.exec_pcs@[k] > pc,
            decreases hi - lo,
        {
            let mid: usize = lo + (hi - lo) / 2;
            let v: u32 = self.exec_pcs[mid];
            if v == pc {
                proof {
                    assert(self.exec_pcs@[mid as int] == pc);
                }
                return true;
            }
            if v < pc {
                lo = mid + 1;
            } else {
                hi = mid;
            }
        }
        false
    }

    /// The id and address of the first breakpoint that executing `pc` hits.
    pub fn find_exec(&self, pc: u32) -> (r: Option<(u32, u32)>)
        ensures
            r is None <==> forall|i: int|
                0 <= i < self.entries@.len() ==> !(#[trigger] self.entries@[i]).hit_by_exec(pc),
            r matches Some(hit) ==> exists|i: int|
                #[trigger] first_exec(self.entries@, pc, i) && hit == (
                    self.entries@[i].id,
                    self.entries@[i].addr,
                ),
    {
        let mut i: usize = 0;
        while i < self.entries.len()
            invariant
                i <= self.entries@.len(),
                forall|j: int| 0 <= j < i ==> !(#[trigger] self.entries@[j]).hit_by_exec(pc),
            decreases self.entries@.len() - i,
        {
            let b = self.entries[i];
            if b.enabled && b.kind == BpKind::Exec && b.addr == pc {
                proof {
                    assert(first_exec(self.entries@, pc, i as int));
                }
                return Some((b.id, b.addr));
            }
            i += 1;
        }
        None
    }

    /// The id and address of the first breakpoint that a bus access hits.
    pub fn find_watch(&self, addr: u32, write: bool) -> (r: Option<(u32, u32)>)
        ensures
            r is None <==> forall|i: int|
                0 <= i < self.entries@.len() ==> !(#[trigger] self.entries@[i]).hit_by_access(
                    addr,
                    write,
                ),
            r matches Some(hit) ==> exists|i: int|
                #[trigger] first_access(self.entries@, addr, write, i) && hit == (
                    self.entries@[i].id,
                    self.entries@[i].addr,
                ),
    {
        let mut i: usize = 0;
        while i < self.entries.len()
            invariant
                i <= self.entries@.len(),
                forall|j: int|
                    0 <= j < i ==> !(#[trigger] self.entries@[j]).hit_by_access(addr, write),
            decreases self.entries@.len() - i,
        {
            let b = self.entries[i];
            let reacts = match b.kind {
                BpKind::Read => !write,
                BpKind::Write => write,
                BpKind::Access => true,
                BpKind::Exec => false,
            };
            if b.enabled && b.addr == addr && reacts {
                proof {
                    assert(first_access(self.entries@, addr, write, i as int));
                }
                return Some((b.id, b.addr));
            }
            i += 1;
        }
        None
    }
}

proof fn lemma_without_none(s: Seq<Breakpoint>, id: u32)
    requires
        forall|i: int| 0 <= i < s.len() ==> (#[trigger] s[i]).id != id,
    ensures
        without(s, id) == s,
    decreases s.len(),
{
    if s.len() > 0 {
        assert forall|i: int| 0 <= i < s.drop_last().len() implies (#[trigger] s.drop_last()[i]).id
            != id by {
            assert(s.drop_last()[i] == s[i]);
        }
        lemma_without_none(s.drop_last(), id);
        assert(s[s.len() - 1].id != id);
        assert(s.drop_last().push(s.last()) =~= s);
    } else {
        assert(without(s, id) =~= s);
    }
}

/// Inserts `x` so that the list stays ascending.
fn insert_ascending(v: &mut Vec<u32>, x: u32)
    requires
        ascending(old(v)@),
    ensures
        ascending(final(v)@),
        final(v)@.to_multiset() == old(v)@.to_multiset().insert(x),
{
    let ghost s = v@;
    let mut p: usize = 0;
    while p < v.len() && v[p] <= x
        invariant
            v@ == s,
            p <= s.len(),
            forall|i: int| 0 <= i < p ==> s[i] <= x,
        decreases s.len() - p,
    {
        p += 1;
    }
    v.insert(p, x);
    proof {
        let t = v@;
        assert forall|i: int, j: int| 0 <= i <= j < t.len() implies t[i] <= t[j] by {
            let a = if i < p { i } else { i - 1 };
            let b = if j < p { j } else { j - 1 };
            if i != p && j != p {
                assert(s[a] <= s[b]);
            } else if i == p && j != p {
                assert(s[p as int] <= s[b]);
            }
        }
        vstd::seq_lib::to_multiset_insert(s, p as int, x);
    }
}

/// The table with one more hit on entry `i`; the count stops at its maximum.
pub open spec fn counted(s: Seq<Breakpoint>, i: int) -> Seq<Breakpoint> {
    s.update(
        i,
        Breakpoint {
            hit_count: if s[i].hit_count < u64::MAX {
                (s[i].hit_count + 1) as u64
            } else {
                u64::MAX
            },
            ..s[i]
        },
    )
}

proof fn lemma_counted(s: Seq<Breakpoint>, i: int)
    requires
        0 <= i < s.len(),
    ensures
        exec_addrs(counted(s, i)) == exec_addrs(s),
        by_id(s) ==> by_id(counted(s, i)),
    decreases s.len(),
{
    let t = counted(s, i);
    if i < s.len() - 1 {
        lemma_counted(s.drop_last(), i);
        assert(t.drop_last() =~= counted(s.drop_last(), i));
    } else {
        assert(t.drop_last() =~= s.drop_last());
    }
}

impl BreakpointTable {
    /// Counts a hit on the first breakpoint that executing `pc` hits and gives
    /// its id.
    pub fn count_hit(&mut self, pc: u32) -> (r: Option<u32>)
        requires
            old(self).wf(),
        ensures
            final(self).wf(),
            r is None ==> final(self).entries@ == old(self).entries@ && forall|i: int|
                0 <= i < old(self).entries@.len() ==> !(
                #[trigger] old(self).entries@[i]).hit_by_exec(pc),
            r matches Some(id) ==> exists|i: int|
                #[trigger] first_exec(old(self).entries@, pc, i) && id == old(self).entries@[i].id
                    && final(self).entries@ == counted(old(self).entries@, i),
    {
        let mut i: usize = 0;
        while i < self.entries.len()
            invariant
                self.entries@ == old(self).entries@,
                self.exec_pcs@ == old(self).exec_pcs@,
                old(self).wf(),
                i <= self.entries@.len(),
                forall|j: int| 0 <= j < i ==> !(#[trigger] old(self).entries@[j]).hit_by_exec(pc),
            decreases self.entries@.len() - i,
        {
            let mut b = self.entries[i];
            if b.enabled && b.kind == BpKind::Exec && b.addr == pc {
                proof {
                    assert(first_exec(old(self).entries@, pc, i as int));
                    lemma_counted(old(self).entries@, i as int);
                }
                if b.hit_count < u64::MAX {
                    b.hit_count = b.hit_count + 1;
                }
                let id: u32 = b.id;
                self.entries.set(i, b);
                proof {
                    assert(self.entries@ =~= counted(old(self).entries@, i as int));
                }
                return Some(id);
            }
            i += 1;
        }
        None
    }
}

/// Copy-on-write handle to the table. Readers take a snapshot and keep it for
/// one check; a change makes a new table and leaves the snapshots alone.
/// There is one handle: its holders share it behind a lock, and what a holder
/// sees after another's change is not stated here.
#[derive(Debug)]
pub struct SharedBreakpoints {
    pub table: Arc<BreakpointTable>,
}

impl SharedBreakpoints {
    /// An empty table.
    pub fn new() -> (r: Self)
        ensures
            r.table.wf(),
            r.table.entries@.len() == 0,
    {
        SharedBreakpoints { table: Arc::new(BreakpointTable::default()) }
    }

    /// The table as it is now.
    pub fn snapshot(&self) -> (r: Arc<BreakpointTable>)
        ensures
            *r == *self.table,
    {
        self.table.clone()
    }

    /// Applies `f` to a copy of the table and makes the copy the table.
    pub fn update<R, F: FnOnce(&mut BreakpointTable) -> R>(&mut self, f: F) -> (r: R)
        requires
            forall|t: &mut BreakpointTable|
                (*t).entries@ == old(self).table.entries@ && (*t).exec_pcs@
                    == old(self).table.exec_pcs@ ==> #[trigger] call_requires(f, (t,)),
        ensures
            exists|t: &mut BreakpointTable|
                {
                    &&& (*t).entries@ == old(self).table.entries@
                    &&& (*t).exec_pcs@ == old(self).table.exec_pcs@
                    &&& #[trigger] call_ensures(f, (t,), r)
                    &&& *final(t) == *final(self).table
                },
    {
        let mut copy = (*self.table).clone();
        let r = f(&mut copy);
        self.table = Arc::new(copy);
        r
    }
}

/// The per-instruction check and the search agree: a well-formed table's
/// address list holds `pc` exactly when some entry is hit by executing it.
pub proof fn law_fast_path_agrees(t: BreakpointTable, pc: u32)
    requires
        t.wf(),
    ensures
        t.exec_pcs@.contains(pc) <==> exists|i: int|
            0 <= i < t.entries@.len() && (#[trigger] t.entries@[i]).hit_by_exec(pc),
{
    lemma_exec_addrs(t.entries@, pc);
    assert(t.exec_pcs@.to_multiset().count(pc) == exec_addrs(t.entries@).to_multiset().count(pc));
}

/// Removing a breakpoint that was just added under a fresh id gives the table
/// back.
pub proof fn law_add_then_remove(s: Seq<Breakpoint>, bp: Breakpoint)
    requires
        by_id(s),
        forall|i: int| 0 <= i < s.len() ==> (#[trigger] s[i]).id != bp.id,
    ensures
        without(s.insert(slot_for(s, bp.id), bp), bp.id) == s,
{
    lemma_slot_range(s, bp.id);
    lemma_without_insert(s, slot_for(s, bp.id), bp);
}

/// A breakpoint that is added is found from then on: executing the address of an
/// enabled exec breakpoint hits the table, and so does each access that an
/// enabled watchpoint reacts to.
pub proof fn law_added_is_hit(s: Seq<Breakpoint>, bp: Breakpoint, pc: u32, write: bool)
    requires
        by_id(s),
    ensures
        bp.hit_by_exec(pc) ==> exists|i: int|
            0 <= i < s.len() + 1 && (#[trigger] s.insert(slot_for(s, bp.id), bp)[i]).hit_by_exec(pc),
        bp.hit_by_access(pc, write) ==> exists|i: int|
            0 <= i < s.len() + 1 && (#[trigger] s.insert(slot_for(s, bp.id), bp)[i]).hit_by_access(
                pc,
                write,
            ),
{
    lemma_slot_range(s, bp.id);
    assert(s.insert(slot_for(s, bp.id), bp)[slot_for(s, bp.id)] == bp);
}

proof fn lemma_without_insert(s: Seq<Breakpoint>, p: int, bp: Breakpoint)
    requires
        0 <= p <= s.len(),
        forall|i: int| 0 <= i < s.len() ==> (#[trigger] s[i]).id != bp.id,
    ensures
        without(s.insert(p, bp), bp.id) == s,
    decreases s.len(),
{
    let t = s.insert(p, bp);
    if p == s.len() {
        assert(t.drop_last() =~= s);
        lemma_without_none(s, bp.id);
    } else {
        let head = s.drop_last();
        assert forall|i: int| 0 <= i < head.len() implies (#[trigger] head[i]).id != bp.id by {
            assert(head[i] == s[i]);
        }
        lemma_without_insert(head, p, bp);
        assert(t.drop_last() =~= head.insert(p, bp));
        assert(t.last() == s[s.len() - 1]);
        assert(head.push(s.last()) =~= s);
    }
}

/// After a removal no entry has the id, and every other entry is still there.
pub proof fn law_remove_is_exact(s: Seq<Breakpoint>, id: u32, b: Breakpoint)
    ensures
        without(s, id).contains(b) <==> s.contains(b) && b.id != id,
    decreases s.len(),
{
    lemma_without(s, id);
    if s.len() > 0 {
        let head = s.drop_last();
        law_remove_is_exact(head, id, b);
        if s.contains(b) && b.id != id {
            let k = choose|k: int| 0 <= k < s.len() && s[k] == b;
            if k < head.len() {
                assert(head[k] == b);
                let m = choose|m: int| 0 <= m < without(head, id).len() && without(head, id)[m] == b;
                assert(without(s, id)[m] == b);
            } else {
                assert(without(s, id)[without(s, id).len() - 1] == b);
            }
        }
    }
}

/// Each kind reacts to what it is called: an exec breakpoint to execution alone, a
/// read or write watchpoint to its own side of the bus, an access watchpoint to
/// both; all of them at their own address and while enabled.
pub proof fn law_kinds_react(b: Breakpoint, at: u32)
    ensures
        b.hit_by_exec(at) ==> b.enabled && b.addr == at,
        b.hit_by_access(at, true) || b.hit_by_access(at, false) ==> b.enabled && b.addr == at,
        b.enabled && b.addr == at ==> {
            let seen = (b.hit_by_exec(at), b.hit_by_access(at, false), b.hit_by_access(at, true));
            &&& b.kind == BpKind::Exec ==> seen == (true, false, false)
            &&& b.kind == BpKind::Read ==> seen == (false, true, false)
            &&& b.kind == BpKind::Write ==> seen == (false, false, true)
            &&& b.kind == BpKind::Access ==> seen == (false, true, true)
        },
{
}

/// The core is told to watch exactly what the kind reacts to: bit 0 for execution,
/// bit 1 for reads, bit 2 for writes.
pub proof fn law_masks()
    ensures
        LIBRA_BP_EXEC == 1,
        LIBRA_BP_READ == 2,
        LIBRA_BP_WRITE == 4,
        LIBRA_BP_ACCESS == LIBRA_BP_READ + LIBRA_BP_WRITE,
{
}

/// Every kind is found under its own name, in any case; `execute` and `rw` are
/// other names of the first and the last.
pub proof fn law_kind_names(name: Seq<char>)
    ensures
        BpKind::named(lower(name)) == Some(BpKind::Exec) <==> lower(name) == "exec"@ || lower(name)
            == "execute"@,
        BpKind::named(lower(name)) == Some(BpKind::Read) <==> lower(name) == "read"@,
        BpKind::named(lower(name)) == Some(BpKind::Write) <==> lower(name) == "write"@,
        BpKind::named(lower(name)) == Some(BpKind::Access) <==> lower(name) == "access"@ || lower(
            name,
        ) == "rw"@,
        BpSpace::named(lower(name)) == Some(BpSpace::Rom) <==> lower(name) == "rom"@,
        BpSpace::named(lower(name)) == Some(BpSpace::Ram) <==> lower(name) == "ram"@,
{
    reveal_strlit("exec");
    reveal_strlit("execute");
    reveal_strlit("read");
    reveal_strlit("write");
    reveal_strlit("access");
    reveal_strlit("rw");
    reveal_strlit("rom");
    reveal_strlit("ram");
    assert("exec"@[0] == 'e' && "read"@[0] == 'r');
    assert("rom"@[1] == 'o' && "ram"@[1] == 'a');
    assert("exec"@.len() == 4 && "execute"@.len() == 7 && "read"@.len() == 4 && "write"@.len() == 5
        && "access"@.len() == 6 && "rw"@.len() == 2);
}

/// Counting a hit adds one to the entry that was hit and changes nothing else.
pub proof fn law_count_is_one(s: Seq<Breakpoint>, i: int, j: int)
    requires
        0 <= i < s.len(),
        0 <= j < s.len(),
        s[i].hit_count < u64::MAX,
    ensures
        ({
            let t = counted(s, i);
            &&& t.len() == s.len()
            &&& t[j].hit_count == s[j].hit_count + if i == j {
                1int
            } else {
                0
            }
            &&& t[j].id == s[j].id
            &&& t[j].addr == s[j].addr
            &&& t[j].kind == s[j].kind
            &&& t[j].space == s[j].space
            &&& t[j].enabled == s[j].enabled
        }),
{
}

/// A breakpoint that is added is in the table, together with all that were there,
/// in their order, and the table is still sorted by id.
pub proof fn law_add_keeps_others(s: Seq<Breakpoint>, bp: Breakpoint)
    requires
        by_id(s),
    ensures
        ({
            let t = s.insert(slot_for(s, bp.id), bp);
            &&& t.contains(bp)
            &&& t.remove(slot_for(s, bp.id)) == s
            &&& by_id(t)
        }),
{
    lemma_slot_range(s, bp.id);
    let p = slot_for(s, bp.id);
    let t = s.insert(p, bp);
    assert(t[p] == bp);
    assert(t.remove(p) =~= s);
    assert forall|i: int, j: int| 0 <= i <= j < t.len() implies t[i].id <= t[j].id by {
        let a = if i < p {
            i
        } else {
            i - 1
        };
        let b = if j < p {
            j
        } else {
            j - 1
        };
        if i != p && j != p {
            assert(s[a].id <= s[b].id);
        }
    }
}

/// Of several breakpoints that are hit the one that stands first in the table
/// counts, and only one does.
pub proof fn law_first_hit_counts(
    s: Seq<Breakpoint>,
    at: u32,
    write: bool,
    i: int,
    j: int,
)
    requires
        0 <= j < s.len(),
    ensures
        first_exec(s, at, i) && s[j].hit_by_exec(at) ==> i <= j && s[i].hit_by_exec(at),
        first_access(s, at, write, i) && s[j].hit_by_access(at, write) ==> i <= j
            && s[i].hit_by_access(at, write),
        first_exec(s, at, i) && first_exec(s, at, j) ==> i == j,
        first_access(s, at, write, i) && first_access(s, at, write, j) ==> i == j,
{
}

} // verus!
