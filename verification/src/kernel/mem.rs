//! Physical frame allocator, per-process page tables and copy-on-write paging.
use vstd::prelude::*;

verus! {

/// Page size (4 KiB).
pub const PAGE_SIZE: usize = 4096;
/// Number of physical frames (128 MiB of RAM in 4 KiB frames).
pub const TOTAL_PHYSICAL_FRAMES: usize = 32768;
/// First frame that is not reserved for the BIOS and the kernel image.
pub const FIRST_USER_FRAME: usize = 4096;

/// Who owns a physical frame.
#[derive(Debug, Clone, Copy, PartialEq, Eq, Structural)]
pub enum FrameOwner {
    Free,
    Kernel,
    Process(u32),
    Shared,
    Cow(u32),
}

/// A page table entry.
#[derive(Debug, Clone, Copy, PartialEq, Eq, Structural)]
pub struct PageTableEntry {
    pub frame_id: u32,
    pub present: bool,
    pub writable: bool,
    pub user_accessible: bool,
}

/// A level-1 page table (512 entries, 2 MiB of virtual space).
#[derive(Debug)]
pub struct PageTable {
    pub entries: Vec<PageTableEntry>,
}

/// One virtual page of a process mapped to an entry.
#[derive(Debug, Clone, Copy, PartialEq, Eq, Structural)]
pub struct PageMapping {
    pub vaddr: u64,
    pub entry: PageTableEntry,
}

/// The page mappings of one process, in the order they were first made.
#[derive(Debug)]
pub struct ProcessPageTable {
    pub pid: u32,
    pub mappings: Vec<PageMapping>,
}

/// Frame ownership, page tables and copy-on-write reference counts.
/// `cow_references[f]` is the number of address spaces sharing frame `f`; 0 means none is recorded.
pub struct MemoryManager {
    pub frames: Vec<FrameOwner>,
    pub tables: Vec<ProcessPageTable>,
    pub cow_references: Vec<u32>,
}

/// No two mappings of `ms` share a virtual page.
pub open spec fn vaddrs_unique(ms: Seq<PageMapping>) -> bool {
    forall|i: int, j: int| 0 <= i < ms.len() && 0 <= j < ms.len() && i != j ==> ms[i].vaddr != ms[j].vaddr
}

/// No two tables of `ts` belong to the same pid, and each has unique pages.
pub open spec fn tables_wf(ts: Seq<ProcessPageTable>) -> bool {
    &&& forall|i: int, j: int| 0 <= i < ts.len() && 0 <= j < ts.len() && i != j ==> ts[i].pid != ts[j].pid
    &&& forall|i: int| 0 <= i < ts.len() ==> vaddrs_unique(#[trigger] ts[i].mappings@)
}

impl MemoryManager {
    /// Frame and reference-count arrays cover all frames; tables are well formed.
    pub open spec fn wf(&self) -> bool {
        &&& self.frames@.len() == TOTAL_PHYSICAL_FRAMES
        &&& self.cow_references@.len() == TOTAL_PHYSICAL_FRAMES
        &&& tables_wf(self.tables@)
    }
}

/// The page containing `vaddr`.
pub open spec fn page_base(vaddr: u64) -> u64 {
    vaddr & !(4095u64)
}

/// Whether `ts` has a table for `pid`.
pub open spec fn has_table(ts: Seq<ProcessPageTable>, pid: u32) -> bool {
    exists|i: int| 0 <= i < ts.len() && ts[i].pid == pid
}

/// Index of the table of `pid` (meaningful when `has_table`).
pub open spec fn table_index(ts: Seq<ProcessPageTable>, pid: u32) -> int {
    choose|i: int| 0 <= i < ts.len() && ts[i].pid == pid
}

/// `ts` without the table of `pid`.
pub open spec fn tables_without(ts: Seq<ProcessPageTable>, pid: u32) -> Seq<ProcessPageTable> {
    if has_table(ts, pid) {
        ts.remove(table_index(ts, pid))
    } else {
        ts
    }
}

/// Whether `ms` maps page `va`.
pub open spec fn has_mapping(ms: Seq<PageMapping>, va: u64) -> bool {
    exists|i: int| 0 <= i < ms.len() && ms[i].vaddr == va
}

/// Index of the mapping of page `va` (meaningful when `has_mapping`).
pub open spec fn mapping_index(ms: Seq<PageMapping>, va: u64) -> int {
    choose|i: int| 0 <= i < ms.len() && ms[i].vaddr == va
}

/// `ms` with page `va` mapped to `e` (replacing an existing mapping in place).
pub open spec fn mappings_insert(ms: Seq<PageMapping>, va: u64, e: PageTableEntry) -> Seq<PageMapping> {
    if has_mapping(ms, va) {
        ms.update(mapping_index(ms, va), PageMapping { vaddr: va, entry: e })
    } else {
        ms.push(PageMapping { vaddr: va, entry: e })
    }
}

/// The entry `pid` maps page `va` to, if any.
pub open spec fn lookup(ts: Seq<ProcessPageTable>, pid: u32, va: u64) -> Option<PageTableEntry> {
    if has_table(ts, pid) && has_mapping(ts[table_index(ts, pid)].mappings@, va) {
        let ms = ts[table_index(ts, pid)].mappings@;
        Some(ms[mapping_index(ms, va)].entry)
    } else {
        None
    }
}

/// The mappings of every table in `ts`, as `(pid, mappings)` pairs.
pub open spec fn tables_view(ts: Seq<ProcessPageTable>) -> Seq<(u32, Seq<PageMapping>)> {
    ts.map_values(|t: ProcessPageTable| (t.pid, t.mappings@))
}

/// Frames are Kernel below `FIRST_USER_FRAME` and Free above it.
pub open spec fn initial_frame(i: int) -> FrameOwner {
    if i < FIRST_USER_FRAME {
        FrameOwner::Kernel
    } else {
        FrameOwner::Free
    }
}

/// A memory manager with the BIOS and kernel frames reserved and no page tables.
pub fn init_mem() -> (mm: MemoryManager)
    ensures
        mm.wf(),
        forall|i: int| 0 <= i < TOTAL_PHYSICAL_FRAMES ==> mm.frames@[i] == initial_frame(i),
        mm.tables@.len() == 0,
        forall|i: int| 0 <= i < TOTAL_PHYSICAL_FRAMES ==> mm.cow_references@[i] == 0,
{
    let mut frames: Vec<FrameOwner> = Vec::new();
    let mut cow: Vec<u32> = Vec::new();
    let mut i: usize = 0;
    while i < TOTAL_PHYSICAL_FRAMES
        invariant
            i <= TOTAL_PHYSICAL_FRAMES,
            frames@.len() == i,
            cow@.len() == i,
            forall|k: int| 0 <= k < i ==> frames@[k] == initial_frame(k),
            forall|k: int| 0 <= k < i ==> cow@[k] == 0,
        decreases TOTAL_PHYSICAL_FRAMES - i,
    {
        if i < FIRST_USER_FRAME {
            frames.push(FrameOwner::Kernel);
        } else {
            frames.push(FrameOwner::Free);
        }
        cow.push(0);
        i = i + 1;
    }
    MemoryManager { frames, tables: Vec::new(), cow_references: cow }
}

/// The first free frame at or above `FIRST_USER_FRAME`.
pub fn first_free_frame(frames: &Vec<FrameOwner>) -> (r: Option<usize>)
    requires
        frames@.len() == TOTAL_PHYSICAL_FRAMES,
    ensures
        r matches Some(f) ==> FIRST_USER_FRAME <= f < TOTAL_PHYSICAL_FRAMES
            && frames@[f as int] == FrameOwner::Free
            && forall|k: int| FIRST_USER_FRAME <= k < f ==> frames@[k] != FrameOwner::Free,
        r is None ==> forall|k: int|
            FIRST_USER_FRAME <= k < TOTAL_PHYSICAL_FRAMES ==> frames@[k] != FrameOwner::Free,
{
    let mut i: usize = FIRST_USER_FRAME;
    while i < TOTAL_PHYSICAL_FRAMES
        invariant
            FIRST_USER_FRAME <= i <= TOTAL_PHYSICAL_FRAMES,
            frames@.len() == TOTAL_PHYSICAL_FRAMES,
            forall|k: int| FIRST_USER_FRAME <= k < i ==> frames@[k] != FrameOwner::Free,
        decreases TOTAL_PHYSICAL_FRAMES - i,
    {
        if frames[i] == FrameOwner::Free {
            return Some(i);
        }
        i = i + 1;
    }
    None
}

/// Allocates the first free user frame to `pid`.
pub fn allocate_frame(mm: &mut MemoryManager, pid: u32) -> (r: Result<u32, String>)
    requires
        old(mm).wf(),
    ensures
        final(mm).wf(),
        final(mm).tables == old(mm).tables,
        final(mm).cow_references == old(mm).cow_references,
        match r {
            Ok(f) => FIRST_USER_FRAME <= f < TOTAL_PHYSICAL_FRAMES
                && old(mm).frames@[f as int] == FrameOwner::Free
                && (forall|k: int| FIRST_USER_FRAME <= k < f ==> old(mm).frames@[k] != FrameOwner::Free)
                && final(mm).frames@ == old(mm).frames@.update(f as int, FrameOwner::Process(pid)),
            Err(e) => e@ == "Out of physical memory frames"@
                && (forall|k: int| FIRST_USER_FRAME <= k < TOTAL_PHYSICAL_FRAMES ==> old(mm).frames@[k] != FrameOwner::Free)
                && final(mm).frames == old(mm).frames,
        },
{
    match first_free_frame(&mm.frames) {
        Some(f) => {
            mm.frames.set(f, FrameOwner::Process(pid));
            Ok(f as u32)
        },
        None => Err(String::from_str("Out of physical memory frames")),
    }
}

/// Frees physical frame `frame_id` and forgets its copy-on-write count.
pub fn free_frame(mm: &mut MemoryManager, frame_id: u32)
    requires
        old(mm).wf(),
    ensures
        final(mm).wf(),
        final(mm).tables == old(mm).tables,
        (frame_id as int) < TOTAL_PHYSICAL_FRAMES ==> final(mm).frames@ == old(mm).frames@.update(frame_id as int, FrameOwner::Free)
            && final(mm).cow_references@ == old(mm).cow_references@.update(frame_id as int, 0),
        (frame_id as int) >= TOTAL_PHYSICAL_FRAMES ==> final(mm).frames == old(mm).frames
            && final(mm).cow_references == old(mm).cow_references,
{
    let f = frame_id as usize;
    if f < TOTAL_PHYSICAL_FRAMES {
        mm.frames.set(f, FrameOwner::Free);
        mm.cow_references.set(f, 0);
    }
}

/// Index of the table of `pid`, if any.
pub fn find_table(ts: &Vec<ProcessPageTable>, pid: u32) -> (r: Option<usize>)
    requires
        tables_wf(ts@),
    ensures
        r matches Some(i) ==> i < ts@.len() && ts@[i as int].pid == pid && has_table(ts@, pid)
            && table_index(ts@, pid) == i,
        r is None ==> !has_table(ts@, pid),
{
    let mut i: usize = 0;
    while i < ts.len()
        invariant
            i <= ts.len(),
            tables_wf(ts@),
            forall|k: int| 0 <= k < i ==> ts@[k].pid != pid,
        decreases ts.len() - i,
    {
        if ts[i].pid == pid {
            assert(has_table(ts@, pid));
            proof {
                let c = table_index(ts@, pid);
                assert(0 <= c < ts@.len() && ts@[c].pid == pid);
                if c != i {
                    assert(ts@[c].pid != ts@[i as int].pid);
                }
            }
            return Some(i);
        }
        i = i + 1;
    }
    None
}

/// Index of the mapping of page `va`, if any.
pub fn find_mapping(ms: &Vec<PageMapping>, va: u64) -> (r: Option<usize>)
    requires
        vaddrs_unique(ms@),
    ensures
        r matches Some(i) ==> i < ms@.len() && ms@[i as int].vaddr == va && has_mapping(ms@, va)
            && mapping_index(ms@, va) == i,
        r is None ==> !has_mapping(ms@, va),
{
    let mut i: usize = 0;
    while i < ms.len()
        invariant
            i <= ms.len(),
            vaddrs_unique(ms@),
            forall|k: int| 0 <= k < i ==> ms@[k].vaddr != va,
        decreases ms.len() - i,
    {
        if ms[i].vaddr == va {
            assert(has_mapping(ms@, va));
            proof {
                let c = mapping_index(ms@, va);
                assert(0 <= c < ms@.len() && ms@[c].vaddr == va);
                if c != i {
                    assert(ms@[c].vaddr != ms@[i as int].vaddr);
                }
            }
            return Some(i);
        }
        i = i + 1;
    }
    None
}

/// Maps the page containing `virtual_addr` of `pid` to `frame_id` (present, user accessible).
pub fn map_page(mm: &mut MemoryManager, pid: u32, virtual_addr: u64, frame_id: u32, writable: bool) -> (r: Result<(), String>)
    requires
        old(mm).wf(),
    ensures
        final(mm).wf(),
        r is Ok,
        final(mm).frames == old(mm).frames,
        final(mm).cow_references == old(mm).cow_references,
        ({
            let e = PageTableEntry { frame_id, present: true, writable, user_accessible: true };
            let va = page_base(virtual_addr);
            let ts = old(mm).tables@;
            if has_table(ts, pid) {
                let i = table_index(ts, pid);
                &&& tables_view(final(mm).tables@) == tables_view(ts).update(i, (pid, mappings_insert(ts[i].mappings@, va, e)))
            } else {
                &&& tables_view(final(mm).tables@) == tables_view(ts).push((pid, seq![PageMapping { vaddr: va, entry: e }]))
            }
        }),
{
    let page_addr = virtual_addr & !(4095u64);
    let e = PageTableEntry { frame_id, present: true, writable, user_accessible: true };
    let m = PageMapping { vaddr: page_addr, entry: e };
    let ghost ts = old(mm).tables@;
    match find_table(&mm.tables, pid) {
        Some(i) => {
            let mut t = mm.tables.remove(i);
            match find_mapping(&t.mappings, page_addr) {
                Some(j) => {
                    t.mappings.set(j, m);
                },
                None => {
                    t.mappings.push(m);
                },
            }
            assert(t.mappings@ == mappings_insert(ts[i as int].mappings@, page_addr, e));
            proof {
                let ms = t.mappings@;
                assert forall|a: int, b: int| 0 <= a < ms.len() && 0 <= b < ms.len() && a != b implies ms[a].vaddr != ms[b].vaddr by {
                    assert(vaddrs_unique(ts[i as int].mappings@));
                }
            }
            mm.tables.insert(i, t);
            assert(tables_view(mm.tables@) =~= tables_view(ts).update(i as int, (pid, mappings_insert(ts[i as int].mappings@, page_addr, e))));
            proof {
                let nt = mm.tables@;
                assert forall|a: int| 0 <= a < nt.len() implies vaddrs_unique(#[trigger] nt[a].mappings@) by {
                    if a != i {
                        assert(nt[a] == ts[a]);
                    }
                }
                assert forall|a: int, b: int| 0 <= a < nt.len() && 0 <= b < nt.len() && a != b implies nt[a].pid != nt[b].pid by {
                    assert(nt[a].pid == ts[a].pid);
                    assert(nt[b].pid == ts[b].pid);
                }
            }
        },
        None => {
            let mut ms: Vec<PageMapping> = Vec::new();
            ms.push(m);
            mm.tables.push(ProcessPageTable { pid, mappings: ms });
            assert(tables_view(mm.tables@) =~= tables_view(ts).push((pid, seq![m])));
            proof {
                let nt = mm.tables@;
                assert forall|a: int| 0 <= a < nt.len() implies vaddrs_unique(#[trigger] nt[a].mappings@) by {
                    if a < ts.len() {
                        assert(nt[a] == ts[a]);
                    }
                }
                assert forall|a: int, b: int| 0 <= a < nt.len() && 0 <= b < nt.len() && a != b implies nt[a].pid != nt[b].pid by {
                    if a == ts.len() {
                        assert(nt[b] == ts[b]);
                    } else if b == ts.len() {
                        assert(nt[a] == ts[a]);
                    }
                }
            }
        },
    }
    Ok(())
}


/// The tables' contents as `(pid, mappings)` pairs.
pub type TablesView = Seq<(u32, Seq<PageMapping>)>;

/// Whether mapping `m` is selected for release: it maps frame `f` and, when `va` is given, page `va`.
pub open spec fn selects(m: PageMapping, f: u32, va: Option<u64>) -> bool {
    m.entry.frame_id == f && match va {
        Some(v) => m.vaddr == v,
        None => true,
    }
}

/// `m` made writable when it is selected.
pub open spec fn writable_if(m: PageMapping, f: u32, va: Option<u64>) -> PageMapping {
    if selects(m, f, va) {
        PageMapping { vaddr: m.vaddr, entry: PageTableEntry { writable: true, ..m.entry } }
    } else {
        m
    }
}

/// Every selected mapping of every table made writable.
pub open spec fn make_writable_spec(tv: TablesView, f: u32, va: Option<u64>) -> TablesView {
    tv.map_values(|t: (u32, Seq<PageMapping>)| (t.0, t.1.map_values(|m: PageMapping| writable_if(m, f, va))))
}

/// Whether `ms` has a selected mapping.
pub open spec fn has_selected(ms: Seq<PageMapping>, f: u32, va: Option<u64>) -> bool {
    exists|k: int| 0 <= k < ms.len() && selects(ms[k], f, va)
}

/// The pid of the last table with a selected mapping.
pub open spec fn last_owner(tv: TablesView, f: u32, va: Option<u64>) -> Option<u32>
    decreases tv.len(),
{
    if tv.len() == 0 {
        None
    } else if has_selected(tv.last().1, f, va) {
        Some(tv.last().0)
    } else {
        last_owner(tv.drop_last(), f, va)
    }
}


/// Makes every selected mapping writable; returns the pid of the last table that had one.
fn make_writable(ts: &mut Vec<ProcessPageTable>, f: u32, va: Option<u64>) -> (r: Option<u32>)
    requires
        tables_wf(old(ts)@),
    ensures
        tables_wf(final(ts)@),
        final(ts)@.len() == old(ts)@.len(),
        forall|k: int| 0 <= k < final(ts)@.len() ==> (#[trigger] final(ts)@[k]).pid == old(ts)@[k].pid,
        tables_view(final(ts)@) == make_writable_spec(tables_view(old(ts)@), f, va),
        r == last_owner(tables_view(old(ts)@), f, va),
{
    let ghost tv0 = tables_view(old(ts)@);
    let mut owner: Option<u32> = None;
    let mut i: usize = 0;
    while i < ts.len()
        invariant
            tv0 == tables_view(old(ts)@),
            i <= ts@.len(),
            ts@.len() == old(ts)@.len(),
            tables_wf(ts@),
            forall|k: int| 0 <= k < ts@.len() ==> ts@[k].pid == old(ts)@[k].pid,
            forall|k: int| 0 <= k < i ==> (#[trigger] tables_view(ts@)[k]) == make_writable_spec(tv0, f, va)[k],
            forall|k: int| i <= k < ts@.len() ==> ts@[k] == old(ts)@[k],
            owner == last_owner(tv0.subrange(0, i as int), f, va),
        decreases ts@.len() - i,
    {
        let ghost pre = ts@;
        let mut t = ts.remove(i);
        let ghost ms0 = t.mappings@;
        assert(ms0 == old(ts)@[i as int].mappings@);
        assert(vaddrs_unique(ms0));
        let mut found = false;
        let mut j: usize = 0;
        while j < t.mappings.len()
            invariant
                j <= t.mappings@.len(),
                t.pid == pre[i as int].pid,
                t.mappings@.len() == ms0.len(),
                forall|k: int| 0 <= k < j ==> t.mappings@[k] == writable_if(ms0[k], f, va),
                forall|k: int| j <= k < t.mappings@.len() ==> t.mappings@[k] == ms0[k],
                found == exists|k: int| 0 <= k < j && selects(ms0[k], f, va),
            decreases t.mappings@.len() - j,
        {
            let m = t.mappings[j];
            let hit = m.entry.frame_id == f && match va {
                Some(v) => m.vaddr == v,
                None => true,
            };
            proof {
                if hit {
                    assert(selects(ms0[j as int], f, va));
                } else {
                    assert(!selects(ms0[j as int], f, va));
                }
            }
            if hit {
                let nm = PageMapping {
                    vaddr: m.vaddr,
                    entry: PageTableEntry {
                        frame_id: m.entry.frame_id,
                        present: m.entry.present,
                        writable: true,
                        user_accessible: m.entry.user_accessible,
                    },
                };
                t.mappings.set(j, nm);
                found = true;
            }
            j = j + 1;
            proof {
                if found {
                    assert(exists|k: int| 0 <= k < j && selects(ms0[k], f, va)) by {
                        if hit {
                            assert(selects(ms0[j - 1], f, va));
                        }
                    }
                } else {
                    assert forall|k: int| 0 <= k < j implies !selects(ms0[k], f, va) by {}
                }
            }
        }
        assert(t.mappings@ =~= ms0.map_values(|m: PageMapping| writable_if(m, f, va)));
        assert(found == has_selected(ms0, f, va));
        let ghost pid = t.pid;
        proof {
            let ms = t.mappings@;
            assert forall|a: int, b: int| 0 <= a < ms.len() && 0 <= b < ms.len() && a != b implies ms[a].vaddr != ms[b].vaddr by {
                assert(ms[a].vaddr == ms0[a].vaddr);
                assert(ms[b].vaddr == ms0[b].vaddr);
            }
        }
        let tpid = t.pid;
        ts.insert(i, t);
        proof {
            let nt = ts@;
            assert(nt =~= pre.update(i as int, t));
            assert forall|a: int| 0 <= a < nt.len() implies nt[a].pid == old(ts)@[a].pid by {
                if a != i {
                    assert(nt[a] == pre[a]);
                }
            }
            assert(tables_view(nt)[i as int] == make_writable_spec(tv0, f, va)[i as int]);
            assert forall|k: int| 0 <= k < i + 1 implies (#[trigger] tables_view(nt)[k]) == make_writable_spec(tv0, f, va)[k] by {
                if k < i {
                    assert(nt[k] == pre[k]);
                    assert(tables_view(nt)[k] == tables_view(pre)[k]);
                }
            }
            assert forall|a: int, b: int| 0 <= a < nt.len() && 0 <= b < nt.len() && a != b implies nt[a].pid != nt[b].pid by {
                assert(old(ts)@[a].pid != old(ts)@[b].pid);
            }
            assert forall|a: int| 0 <= a < nt.len() implies vaddrs_unique(#[trigger] nt[a].mappings@) by {
                if a != i {
                    assert(nt[a] == pre[a]);
                }
            }
            let prefix = tv0.subrange(0, i + 1);
            assert(prefix.drop_last() =~= tv0.subrange(0, i as int));
            assert(prefix.last() == tv0[i as int]);
        }
        if found {
            owner = Some(tpid);
        }
        i = i + 1;
    }
    assert(tables_view(ts@) =~= make_writable_spec(tv0, f, va));
    assert(tv0.subrange(0, ts@.len() as int) =~= tv0);
    owner
}


/// The state a memory operation acts on: tables, frame owners, copy-on-write counts.
pub type MemState = (TablesView, Seq<FrameOwner>, Seq<u32>);

/// The abstract state of `mm`.
pub open spec fn mem_view(mm: MemoryManager) -> MemState {
    (tables_view(mm.tables@), mm.frames@, mm.cow_references@)
}

/// The first free frame at or above `FIRST_USER_FRAME`, if any.
pub open spec fn first_free_spec(frames: Seq<FrameOwner>) -> Option<int> {
    if exists|k: int| FIRST_USER_FRAME <= k < TOTAL_PHYSICAL_FRAMES && frames[k] == FrameOwner::Free {
        Some(choose|k: int| FIRST_USER_FRAME <= k < TOTAL_PHYSICAL_FRAMES && frames[k] == FrameOwner::Free
            && forall|k2: int| FIRST_USER_FRAME <= k2 < k ==> frames[k2] != FrameOwner::Free)
    } else {
        None
    }
}

proof fn lemma_first_free(frames: Seq<FrameOwner>, f: int)
    requires
        FIRST_USER_FRAME <= f < TOTAL_PHYSICAL_FRAMES,
        frames[f] == FrameOwner::Free,
        forall|k: int| FIRST_USER_FRAME <= k < f ==> frames[k] != FrameOwner::Free,
    ensures
        first_free_spec(frames) == Some(f),
{
    let c = choose|k: int| FIRST_USER_FRAME <= k < TOTAL_PHYSICAL_FRAMES && frames[k] == FrameOwner::Free
        && forall|k2: int| FIRST_USER_FRAME <= k2 < k ==> frames[k2] != FrameOwner::Free;
    assert(FIRST_USER_FRAME <= c < TOTAL_PHYSICAL_FRAMES && frames[c] == FrameOwner::Free
        && forall|k2: int| FIRST_USER_FRAME <= k2 < c ==> frames[k2] != FrameOwner::Free);
    if c < f {
        assert(frames[c] != FrameOwner::Free);
    } else if f < c {
        assert(frames[f] != FrameOwner::Free);
    }
}

/// One mapping of a freed address space released: a shared frame loses a reference (and when
/// at most one sharer is left, its mappings become writable and it owns the frame again); any
/// other frame becomes free.
pub open spec fn free_step(st: MemState, m: PageMapping) -> MemState {
    let tv = st.0;
    let frames = st.1;
    let cow = st.2;
    let f = m.entry.frame_id;
    if f as int >= TOTAL_PHYSICAL_FRAMES {
        st
    } else if cow[f as int] != 0 {
        let c = (cow[f as int] - 1) as u32;
        if c <= 1 {
            let frames2 = match last_owner(tv, f, None) {
                Some(p) => frames.update(f as int, FrameOwner::Process(p)),
                None => frames,
            };
            (make_writable_spec(tv, f, None), frames2, cow.update(f as int, 0))
        } else {
            (tv, frames, cow.update(f as int, c))
        }
    } else {
        (tv, frames.update(f as int, FrameOwner::Free), cow)
    }
}

/// The mappings `ms` released one after another.
pub open spec fn free_fold(st: MemState, ms: Seq<PageMapping>) -> MemState
    decreases ms.len(),
{
    if ms.len() == 0 {
        st
    } else {
        free_step(free_fold(st, ms.drop_last()), ms.last())
    }
}

/// Frame owners with every frame owned by `pid` free again.
pub open spec fn release_owned(frames: Seq<FrameOwner>, pid: u32) -> Seq<FrameOwner> {
    frames.map_values(|o: FrameOwner| if o == FrameOwner::Process(pid) { FrameOwner::Free } else { o })
}

/// Memory state once the mappings of `pid` are released (its table removed).
pub open spec fn unmapped_spec(mm: MemoryManager, pid: u32) -> MemState {
    let ts = mm.tables@;
    if has_table(ts, pid) {
        free_fold(
            (tables_view(tables_without(ts, pid)), mm.frames@, mm.cow_references@),
            ts[table_index(ts, pid)].mappings@,
        )
    } else {
        mem_view(mm)
    }
}

/// Memory state after the address space of `pid` is freed: its mappings released, then every
/// frame it still owns (mapped or not) freed.
pub open spec fn free_space_spec(mm: MemoryManager, pid: u32) -> MemState {
    let st = unmapped_spec(mm, pid);
    (st.0, release_owned(st.1, pid), st.2)
}

/// Frees every frame owned by `pid`.
fn release_frames_of(frames: &mut Vec<FrameOwner>, pid: u32)
    ensures
        final(frames)@ == release_owned(old(frames)@, pid),
{
    let mut i: usize = 0;
    while i < frames.len()
        invariant
            i <= frames@.len(),
            frames@.len() == old(frames)@.len(),
            forall|k: int| 0 <= k < i ==> frames@[k] == release_owned(old(frames)@, pid)[k],
            forall|k: int| i <= k < frames@.len() ==> frames@[k] == old(frames)@[k],
        decreases frames@.len() - i,
    {
        if frames[i] == FrameOwner::Process(pid) {
            frames.set(i, FrameOwner::Free);
        }
        i = i + 1;
    }
    assert(frames@ =~= release_owned(old(frames)@, pid));
}

/// Removes the page table of `pid`, releases every frame it mapped, and frees every frame
/// still allocated to it.
pub fn free_process_address_space(mm: &mut MemoryManager, pid: u32) -> (r: Result<(), String>)
    requires
        old(mm).wf(),
    ensures
        final(mm).wf(),
        r is Ok,
        mem_view(*final(mm)) == free_space_spec(*old(mm), pid),
        forall|f: int| 0 <= f < TOTAL_PHYSICAL_FRAMES ==> final(mm).frames@[f] != FrameOwner::Process(pid),
        !has_table(old(mm).tables@, pid) ==> tables_view(final(mm).tables@) == tables_view(old(mm).tables@)
            && final(mm).frames@ == release_owned(old(mm).frames@, pid)
            && final(mm).cow_references@ == old(mm).cow_references@,
{
    let ghost st = unmapped_spec(*mm, pid);
    unmap_address_space(mm, pid);
    assert(mem_view(*mm) == st);
    release_frames_of(&mut mm.frames, pid);
    Ok(())
}

/// Removes the page table of `pid` and releases every frame it mapped.
fn unmap_address_space(mm: &mut MemoryManager, pid: u32)
    requires
        old(mm).wf(),
    ensures
        final(mm).wf(),
        mem_view(*final(mm)) == unmapped_spec(*old(mm), pid),
{
    match find_table(&mm.tables, pid) {
        None => {},
        Some(i) => {
            let t = mm.tables.remove(i);
            let ghost st0 = (tables_view(mm.tables@), mm.frames@, mm.cow_references@);
            assert(tables_wf(mm.tables@)) by {
                let a0 = old(mm).tables@;
                let nt = mm.tables@;
                assert forall|a: int| 0 <= a < nt.len() implies vaddrs_unique(#[trigger] nt[a].mappings@) by {
                    if a < i { assert(nt[a] == a0[a]); } else { assert(nt[a] == a0[a + 1]); }
                }
                assert forall|a: int, b: int| 0 <= a < nt.len() && 0 <= b < nt.len() && a != b implies nt[a].pid != nt[b].pid by {
                    let a1 = if a < i { a } else { a + 1 };
                    let b1 = if b < i { b } else { b + 1 };
                    assert(nt[a] == a0[a1]);
                    assert(nt[b] == a0[b1]);
                }
            }
            let ghost removed = mm.tables@;
            let mut j: usize = 0;
            while j < t.mappings.len()
                invariant
                    j <= t.mappings@.len(),
                    mm.frames@.len() == TOTAL_PHYSICAL_FRAMES,
                    mm.cow_references@.len() == TOTAL_PHYSICAL_FRAMES,
                    tables_wf(mm.tables@),
                    mm.tables@.len() == removed.len(),
                    forall|k: int| 0 <= k < removed.len() ==> (#[trigger] mm.tables@[k]).pid == removed[k].pid,
                    mem_view(*mm) == free_fold(st0, t.mappings@.subrange(0, j as int)),
                decreases t.mappings@.len() - j,
            {
                let m = t.mappings[j];
                let f = m.entry.frame_id as usize;
                let ghost prev = mem_view(*mm);
                if f < TOTAL_PHYSICAL_FRAMES {
                    let refs = mm.cow_references[f];
                    if refs != 0 {
                        let c = refs - 1;
                        if c <= 1 {
                            let ghost tv = tables_view(mm.tables@);
                            let ghost pre_tables = mm.tables@;
                            let owner = make_writable(&mut mm.tables, m.entry.frame_id, None);
                            match owner {
                                Some(p) => {
                                    mm.frames.set(f, FrameOwner::Process(p));
                                },
                                None => {},
                            }
                            mm.cow_references.set(f, 0);
                        } else {
                            mm.cow_references.set(f, c);
                        }
                    } else {
                        mm.frames.set(f, FrameOwner::Free);
                    }
                }
                assert(mem_view(*mm) == free_step(prev, m));
                j = j + 1;
                assert(t.mappings@.subrange(0, j as int).drop_last() =~= t.mappings@.subrange(0, j - 1));
            }
            assert(t.mappings@.subrange(0, t.mappings@.len() as int) =~= t.mappings@);
            assert(mm.tables@.len() == removed.len());
        },
    }
}


/// `m` made read-only.
pub open spec fn readonly(m: PageMapping) -> PageMapping {
    PageMapping { vaddr: m.vaddr, entry: PageTableEntry { writable: false, ..m.entry } }
}

/// Copy-on-write counts after forking the writable mappings `ms`: each one adds a sharer
/// (a frame that had no count starts from one owner).
pub open spec fn fork_cow_spec(cow: Seq<u32>, ms: Seq<PageMapping>) -> Seq<u32>
    decreases ms.len(),
{
    if ms.len() == 0 {
        cow
    } else {
        let c = fork_cow_spec(cow, ms.drop_last());
        let m = ms.last();
        if m.entry.writable {
            let f = m.entry.frame_id as int;
            let base: u32 = if c[f] == 0 { 1 } else { c[f] };
            c.update(f, (base + 1) as u32)
        } else {
            c
        }
    }
}

/// Frame owners after forking `ms`: each writable mapping's frame is labelled `Cow(parent)`.
pub open spec fn fork_frames_spec(frames: Seq<FrameOwner>, ms: Seq<PageMapping>, parent: u32) -> Seq<FrameOwner>
    decreases ms.len(),
{
    if ms.len() == 0 {
        frames
    } else {
        let fr = fork_frames_spec(frames, ms.drop_last(), parent);
        let m = ms.last();
        if m.entry.writable {
            fr.update(m.entry.frame_id as int, FrameOwner::Cow(parent))
        } else {
            fr
        }
    }
}

/// Every writable mapping of `ms` maps a real frame.
pub open spec fn writable_frames_valid(ms: Seq<PageMapping>) -> bool {
    forall|k: int| 0 <= k < ms.len() && (#[trigger] ms[k]).entry.writable ==> (ms[k].entry.frame_id as int) < TOTAL_PHYSICAL_FRAMES
}

/// Tables after a fork: parent and child both map the parent's pages read-only.
pub open spec fn fork_tables_spec(ts: Seq<ProcessPageTable>, parent: u32, child: u32) -> TablesView {
    let ro = ts[table_index(ts, parent)].mappings@.map_values(|m: PageMapping| readonly(m));
    let tv = tables_view(ts).update(table_index(ts, parent), (parent, ro));
    if has_table(ts, child) {
        tv.update(table_index(ts, child), (child, ro))
    } else {
        tv.push((child, ro))
    }
}

/// Copy-on-write fork leaves nothing writable: after a fork of a parent that has a page
/// table, every mapping of the parent and every mapping of the child is read-only, and the
/// child maps the same pages to the same frames as the parent did before, so that the first
/// write by either side faults and gets a private copy.
pub proof fn lemma_fork_leaves_both_read_only(mm0: MemoryManager, mm1: MemoryManager, parent: u32, child: u32)
    requires
        mm0.wf(),
        has_table(mm0.tables@, parent),
        tables_view(mm1.tables@) == fork_tables_spec(mm0.tables@, parent, child),
    ensures
        ({
            let tv = tables_view(mm1.tables@);
            let ms0 = mm0.tables@[table_index(mm0.tables@, parent)].mappings@;
            &&& forall|k: int, j: int| 0 <= k < tv.len() && (tv[k].0 == parent || tv[k].0 == child)
                && 0 <= j < tv[k].1.len() ==> !(#[trigger] tv[k].1[j]).entry.writable
            &&& exists|k: int| 0 <= k < tv.len() && tv[k].0 == child
            &&& forall|k: int| 0 <= k < tv.len() && (tv[k].0 == parent || tv[k].0 == child) ==>
                (#[trigger] tv[k].1).len() == ms0.len()
                && forall|j: int| 0 <= j < ms0.len() ==> tv[k].1[j].vaddr == ms0[j].vaddr
                    && tv[k].1[j].entry.frame_id == ms0[j].entry.frame_id
        }),
{
    let ts = mm0.tables@;
    let pi = table_index(ts, parent);
    let ms0 = ts[pi].mappings@;
    let ro = ms0.map_values(|m: PageMapping| readonly(m));
    let tv0 = tables_view(ts);
    let tv = tables_view(mm1.tables@);
    assert(0 <= pi < ts.len() && ts[pi].pid == parent);
    if has_table(ts, child) {
        let ci = table_index(ts, child);
        assert(0 <= ci < ts.len() && ts[ci].pid == child);
        assert forall|k: int| 0 <= k < tv.len() && (tv[k].0 == parent || tv[k].0 == child)
            implies tv[k].1 == ro by {
            if k != pi && k != ci {
                assert(tv[k] == tv0[k]);
                assert(tv0[k].0 == ts[k].pid);
            }
        }
        assert(tv[ci].0 == child);
    } else {
        assert forall|k: int| 0 <= k < tv.len() && (tv[k].0 == parent || tv[k].0 == child)
            implies tv[k].1 == ro by {
            if k != pi && k < ts.len() {
                assert(tv[k] == tv0[k]);
                assert(tv0[k].0 == ts[k].pid);
            }
        }
        assert(tv[ts.len() as int].0 == child);
    }
}

/// Some writable mapping of `ms` maps frame `f`.
pub open spec fn maps_writable(ms: Seq<PageMapping>, f: int) -> bool {
    exists|k: int| 0 <= k < ms.len() && ms[k].entry.writable && ms[k].entry.frame_id as int == f
}

/// A fork shares exactly the frames the parent could write: each of them is labelled
/// `Cow(parent)` and counted as held by at least two address spaces, while every other frame
/// keeps its owner and its count.
#[verifier::spinoff_prover]
pub proof fn lemma_fork_shares_writable_frames(frames: Seq<FrameOwner>, cow: Seq<u32>, ms: Seq<PageMapping>, parent: u32)
    requires
        frames.len() == TOTAL_PHYSICAL_FRAMES,
        cow.len() == TOTAL_PHYSICAL_FRAMES,
        writable_frames_valid(ms),
        forall|f: int| 0 <= f < TOTAL_PHYSICAL_FRAMES ==> cow[f] + ms.len() + 1 <= u32::MAX,
    ensures
        fork_frames_spec(frames, ms, parent).len() == frames.len(),
        fork_cow_spec(cow, ms).len() == cow.len(),
        forall|f: int| 0 <= f < TOTAL_PHYSICAL_FRAMES && maps_writable(ms, f) ==>
            #[trigger] fork_frames_spec(frames, ms, parent)[f] == FrameOwner::Cow(parent)
            && fork_cow_spec(cow, ms)[f] >= 2,
        forall|f: int| 0 <= f < TOTAL_PHYSICAL_FRAMES && !maps_writable(ms, f) ==>
            #[trigger] fork_frames_spec(frames, ms, parent)[f] == frames[f]
            && fork_cow_spec(cow, ms)[f] == cow[f],
        forall|f: int| 0 <= f < TOTAL_PHYSICAL_FRAMES ==> #[trigger] fork_cow_spec(cow, ms)[f] <= cow[f] + ms.len() + 1,
    decreases ms.len(),
{
    if ms.len() > 0 {
        let t = ms.drop_last();
        assert forall|k: int| 0 <= k < t.len() && (#[trigger] t[k]).entry.writable implies (t[k].entry.frame_id as int) < TOTAL_PHYSICAL_FRAMES by {
            assert(t[k] == ms[k]);
        }
        lemma_fork_shares_writable_frames(frames, cow, t, parent);
        let m = ms.last();
        assert(m == ms[ms.len() - 1]);
        let fr = fork_frames_spec(frames, t, parent);
        let c = fork_cow_spec(cow, t);
        assert forall|f: int| 0 <= f < TOTAL_PHYSICAL_FRAMES implies
            (maps_writable(ms, f) <==> (maps_writable(t, f) || (m.entry.writable && m.entry.frame_id as int == f))) by {
            if maps_writable(ms, f) {
                let k = choose|k: int| 0 <= k < ms.len() && ms[k].entry.writable && ms[k].entry.frame_id as int == f;
                if k < t.len() {
                    assert(t[k] == ms[k]);
                }
            }
            if maps_writable(t, f) {
                let k = choose|k: int| 0 <= k < t.len() && t[k].entry.writable && t[k].entry.frame_id as int == f;
                assert(t[k] == ms[k]);
            }
        }
        if m.entry.writable {
            let g = m.entry.frame_id as int;
            assert(g < TOTAL_PHYSICAL_FRAMES);
            assert(c[g] <= cow[g] + t.len() + 1);
            assert(fork_frames_spec(frames, ms, parent) == fr.update(g, FrameOwner::Cow(parent)));
            assert forall|f: int| 0 <= f < TOTAL_PHYSICAL_FRAMES && !maps_writable(ms, f) implies
                #[trigger] fork_frames_spec(frames, ms, parent)[f] == frames[f]
                && fork_cow_spec(cow, ms)[f] == cow[f] by {
                assert(f != g);
                assert(!maps_writable(t, f));
                assert(fr[f] == frames[f]);
                assert(c[f] == cow[f]);
            }
        } else {
            assert(fork_frames_spec(frames, ms, parent) == fr);
            assert(fork_cow_spec(cow, ms) == c);
            assert forall|f: int| 0 <= f < TOTAL_PHYSICAL_FRAMES && !maps_writable(ms, f) implies
                #[trigger] fork_frames_spec(frames, ms, parent)[f] == frames[f]
                && fork_cow_spec(cow, ms)[f] == cow[f] by {
                assert(!maps_writable(t, f));
            }
        }
    }
}

/// Copy-on-write fork: the child gets the parent's mappings, both read-only; each writable
/// page's frame becomes shared and labelled `Cow(parent)`.
pub fn fork_address_space(mm: &mut MemoryManager, parent_pid: u32, child_pid: u32) -> (r: Result<(), String>)
    requires
        old(mm).wf(),
        has_table(old(mm).tables@, parent_pid) ==> ({
            let ms = old(mm).tables@[table_index(old(mm).tables@, parent_pid)].mappings@;
            &&& writable_frames_valid(ms)
            &&& forall|f: int| 0 <= f < TOTAL_PHYSICAL_FRAMES ==> old(mm).cow_references@[f] + ms.len() + 1 <= u32::MAX
        }),
    ensures
        final(mm).wf(),
        r is Ok,
        !has_table(old(mm).tables@, parent_pid) ==> mem_view(*final(mm)) == mem_view(*old(mm)),
        has_table(old(mm).tables@, parent_pid) ==> ({
            let ts = old(mm).tables@;
            let ms = ts[table_index(ts, parent_pid)].mappings@;
            &&& tables_view(final(mm).tables@) == fork_tables_spec(ts, parent_pid, child_pid)
            &&& final(mm).frames@ == fork_frames_spec(old(mm).frames@, ms, parent_pid)
            &&& final(mm).cow_references@ == fork_cow_spec(old(mm).cow_references@, ms)
        }),
{
    let pi = match find_table(&mm.tables, parent_pid) {
        None => return Ok(()),
        Some(pi) => pi,
    };
    let ghost ts = old(mm).tables@;
    let ghost ms0 = ts[pi as int].mappings@;
    let mut ro: Vec<PageMapping> = Vec::new();
    let mut k: usize = 0;
    let n = mm.tables[pi].mappings.len();
    while k < n
        invariant
            pi < mm.tables@.len(),
            mm.tables@ == ts,
            ms0 == ts[pi as int].mappings@,
            n == ms0.len(),
            k <= n,
            writable_frames_valid(ms0),
            mm.frames@.len() == TOTAL_PHYSICAL_FRAMES,
            mm.cow_references@.len() == TOTAL_PHYSICAL_FRAMES,
            forall|f: int| 0 <= f < TOTAL_PHYSICAL_FRAMES ==> old(mm).cow_references@[f] + ms0.len() + 1 <= u32::MAX,
            forall|f: int| 0 <= f < TOTAL_PHYSICAL_FRAMES ==> mm.cow_references@[f] <= old(mm).cow_references@[f] + k + 1,
            mm.cow_references@ == fork_cow_spec(old(mm).cow_references@, ms0.subrange(0, k as int)),
            mm.frames@ == fork_frames_spec(old(mm).frames@, ms0.subrange(0, k as int), parent_pid),
            ro@ == ms0.subrange(0, k as int).map_values(|m: PageMapping| readonly(m)),
        decreases n - k,
    {
        let m = mm.tables[pi].mappings[k];
        if m.entry.writable {
            let f = m.entry.frame_id as usize;
            assert(ms0[k as int].entry.writable);
            let c = mm.cow_references[f];
            let base: u32 = if c == 0 { 1 } else { c };
            mm.cow_references.set(f, base + 1);
            mm.frames.set(f, FrameOwner::Cow(parent_pid));
        }
        ro.push(PageMapping {
            vaddr: m.vaddr,
            entry: PageTableEntry {
                frame_id: m.entry.frame_id,
                present: m.entry.present,
                writable: false,
                user_accessible: m.entry.user_accessible,
            },
        });
        k = k + 1;
        assert(ms0.subrange(0, k as int).drop_last() =~= ms0.subrange(0, k - 1));
        assert(ro@ =~= ms0.subrange(0, k as int).map_values(|m: PageMapping| readonly(m)));
    }
    assert(ms0.subrange(0, n as int) =~= ms0);
    assert(vaddrs_unique(ro@)) by {
        assert(vaddrs_unique(ms0));
        assert forall|a: int, b: int| 0 <= a < ro@.len() && 0 <= b < ro@.len() && a != b implies ro@[a].vaddr != ro@[b].vaddr by {
            assert(ro@[a].vaddr == ms0[a].vaddr);
            assert(ro@[b].vaddr == ms0[b].vaddr);
        }
    }
    let ro2 = copy_mappings(&ro);
    let mut pt = mm.tables.remove(pi);
    pt.mappings = ro;
    mm.tables.insert(pi, pt);
    let ghost mid = mm.tables@;
    assert(mid =~= ts.update(pi as int, mid[pi as int]));
    assert(tables_wf(mid)) by {
        assert forall|a: int| 0 <= a < mid.len() implies vaddrs_unique(#[trigger] mid[a].mappings@) by {
            if a != pi { assert(mid[a] == ts[a]); }
        }
        assert forall|a: int, b: int| 0 <= a < mid.len() && 0 <= b < mid.len() && a != b implies mid[a].pid != mid[b].pid by {
            assert(mid[a].pid == ts[a].pid);
            assert(mid[b].pid == ts[b].pid);
        }
    }
    assert(tables_view(mid) =~= tables_view(ts).update(pi as int, (parent_pid, ro2@)));
    match find_table(&mm.tables, child_pid) {
        Some(ci) => {
            let mut ct = mm.tables.remove(ci);
            ct.mappings = ro2;
            mm.tables.insert(ci, ct);
            proof {
                let nt = mm.tables@;
                assert(nt =~= mid.update(ci as int, nt[ci as int]));
                assert forall|a: int| 0 <= a < nt.len() implies vaddrs_unique(#[trigger] nt[a].mappings@) by {
                    if a != ci { assert(nt[a] == mid[a]); }
                }
                assert forall|a: int, b: int| 0 <= a < nt.len() && 0 <= b < nt.len() && a != b implies nt[a].pid != nt[b].pid by {
                    assert(nt[a].pid == mid[a].pid);
                    assert(nt[b].pid == mid[b].pid);
                }
                assert(has_table(ts, child_pid)) by {
                    assert(ts[ci as int].pid == child_pid);
                }
                let c2 = table_index(ts, child_pid);
                assert(0 <= c2 < ts.len() && ts[c2].pid == child_pid);
                if c2 != ci {
                    assert(mid[c2].pid == ts[c2].pid);
                    assert(mid[ci as int].pid == ts[ci as int].pid);
                }
                assert(tables_view(nt) =~= fork_tables_spec(ts, parent_pid, child_pid));
            }
        },
        None => {
            mm.tables.push(ProcessPageTable { pid: child_pid, mappings: ro2 });
            proof {
                let nt = mm.tables@;
                assert forall|a: int| 0 <= a < nt.len() implies vaddrs_unique(#[trigger] nt[a].mappings@) by {
                    if a < mid.len() { assert(nt[a] == mid[a]); }
                }
                assert forall|a: int, b: int| 0 <= a < nt.len() && 0 <= b < nt.len() && a != b implies nt[a].pid != nt[b].pid by {
                    if a < mid.len() && b < mid.len() {
                        assert(nt[a] == mid[a]);
                        assert(nt[b] == mid[b]);
                    } else if a < mid.len() {
                        assert(nt[a] == mid[a]);
                        assert(mid[a].pid == ts[a].pid);
                    } else {
                        assert(nt[b] == mid[b]);
                        assert(mid[b].pid == ts[b].pid);
                    }
                }
                assert(!has_table(ts, child_pid)) by {
                    if has_table(ts, child_pid) {
                        let c2 = table_index(ts, child_pid);
                        assert(mid[c2].pid == ts[c2].pid);
                    }
                }
                assert(tables_view(nt) =~= fork_tables_spec(ts, parent_pid, child_pid));
            }
        },
    }
    Ok(())
}

/// A copy of a list of mappings.
fn copy_mappings(v: &Vec<PageMapping>) -> (r: Vec<PageMapping>)
    ensures
        r@ == v@,
{
    let mut r: Vec<PageMapping> = Vec::new();
    let mut i: usize = 0;
    while i < v.len()
        invariant
            i <= v.len(),
            r@ == v@.subrange(0, i as int),
        decreases v.len() - i,
    {
        r.push(v[i]);
        i = i + 1;
    }
    assert(r@ =~= v@);
    r
}


/// Outcome of a page fault of `pid` at `vaddr`: the error message, or the new state.
pub open spec fn page_fault_spec(mm: MemoryManager, pid: u32, vaddr: u64, write_fault: bool) -> Result<MemState, Seq<char>> {
    let va = page_base(vaddr);
    let ts = mm.tables@;
    if !has_table(ts, pid) {
        Err("Process page table not found"@)
    } else {
        let ti = table_index(ts, pid);
        let ms = ts[ti].mappings@;
        if !has_mapping(ms, va) {
            Err("Segmentation Fault (Address not mapped)"@)
        } else {
            let mi = mapping_index(ms, va);
            let e = ms[mi].entry;
            if !(e.present && !e.writable && write_fault) {
                if !e.present {
                    Err("Segmentation Fault (Page not present)"@)
                } else {
                    Ok(mem_view(mm))
                }
            } else {
                let f = e.frame_id;
                let refs: u32 = if (f as int) < TOTAL_PHYSICAL_FRAMES { mm.cow_references@[f as int] } else { 0 };
                if refs <= 1 {
                    Err("Segmentation Fault (Attempted write to read-only page)"@)
                } else {
                    match first_free_spec(mm.frames@) {
                        None => Err("Out of physical frames resolving COW"@),
                        Some(nf) => {
                            let ne = PageTableEntry { frame_id: nf as u32, writable: true, ..e };
                            let tv1 = tables_view(ts).update(ti, (pid, ms.update(mi, PageMapping { vaddr: va, entry: ne })));
                            let frames1 = mm.frames@.update(nf, FrameOwner::Process(pid));
                            let c = (refs - 1) as u32;
                            let cow1 = mm.cow_references@.update(f as int, c);
                            if c <= 1 {
                                let frames2 = match last_owner(tv1, f, Some(va)) {
                                    Some(p) => frames1.update(f as int, FrameOwner::Process(p)),
                                    None => frames1,
                                };
                                Ok((make_writable_spec(tv1, f, Some(va)), frames2, cow1))
                            } else {
                                Ok((tv1, frames1, cow1))
                            }
                        },
                    }
                }
            }
        }
    }
}

/// Below a free frame there is a least free frame.
proof fn lemma_least_free(frames: Seq<FrameOwner>, k: int) -> (m: int)
    requires
        FIRST_USER_FRAME <= k < TOTAL_PHYSICAL_FRAMES,
        frames[k] == FrameOwner::Free,
    ensures
        FIRST_USER_FRAME <= m <= k,
        frames[m] == FrameOwner::Free,
        forall|j: int| FIRST_USER_FRAME <= j < m ==> frames[j] != FrameOwner::Free,
    decreases k,
{
    if exists|j: int| FIRST_USER_FRAME <= j < k && frames[j] == FrameOwner::Free {
        let j = choose|j: int| FIRST_USER_FRAME <= j < k && frames[j] == FrameOwner::Free;
        lemma_least_free(frames, j)
    } else {
        k
    }
}

/// A write to a page shared copy-on-write gives the writer a page of its own: its mapping
/// now points, writable, to a frame that was free and now belongs to the writer, and the
/// shared frame has one sharer fewer.
pub proof fn lemma_cow_write_gives_private_copy(mm: MemoryManager, pid: u32, vaddr: u64)
    requires
        mm.wf(),
        lookup(mm.tables@, pid, page_base(vaddr)) matches Some(e) && e.present && !e.writable
            && (e.frame_id as int) < TOTAL_PHYSICAL_FRAMES && mm.cow_references@[e.frame_id as int] > 1
            && mm.frames@[e.frame_id as int] != FrameOwner::Free,
        first_free_spec(mm.frames@) is Some,
    ensures
        page_fault_spec(mm, pid, vaddr, true) matches Ok(st) && ({
            let va = page_base(vaddr);
            let e = lookup(mm.tables@, pid, va)->Some_0;
            let nf = first_free_spec(mm.frames@)->Some_0;
            let ti = table_index(mm.tables@, pid);
            let mi = mapping_index(mm.tables@[ti].mappings@, va);
            &&& mm.frames@[nf] == FrameOwner::Free
            &&& nf != e.frame_id
            &&& st.1[nf] == FrameOwner::Process(pid)
            &&& st.0[ti].1[mi] == (PageMapping { vaddr: va, entry: PageTableEntry { frame_id: nf as u32, writable: true, ..e } })
            &&& st.2[e.frame_id as int] == mm.cow_references@[e.frame_id as int] - 1
        }),
{
    let va = page_base(vaddr);
    let ts = mm.tables@;
    let ti = table_index(ts, pid);
    let ms = ts[ti].mappings@;
    let mi = mapping_index(ms, va);
    let e = ms[mi].entry;
    let f = e.frame_id;
    let k = choose|k: int| FIRST_USER_FRAME <= k < TOTAL_PHYSICAL_FRAMES && mm.frames@[k] == FrameOwner::Free;
    let m = lemma_least_free(mm.frames@, k);
    lemma_first_free(mm.frames@, m);
    let nf = first_free_spec(mm.frames@)->Some_0;
    assert(FIRST_USER_FRAME <= nf < TOTAL_PHYSICAL_FRAMES && mm.frames@[nf] == FrameOwner::Free);
    assert(nf != f as int);
    let ne = PageTableEntry { frame_id: nf as u32, writable: true, ..e };
    let nm = PageMapping { vaddr: va, entry: ne };
    let tv1 = tables_view(ts).update(ti, (pid, ms.update(mi, nm)));
    assert(tv1[ti].1[mi] == nm);
    assert(!selects(nm, f, Some(va)));
    assert(make_writable_spec(tv1, f, Some(va))[ti].1[mi] == writable_if(tv1[ti].1[mi], f, Some(va)));
}


/// Page-fault handler: resolves a write to a shared copy-on-write page by giving the faulting
/// process a fresh writable frame; when one sharer is left, its mapping becomes writable again.
pub fn handle_page_fault(mm: &mut MemoryManager, pid: u32, virtual_addr: u64, write_fault: bool) -> (r: Result<(), String>)
    requires
        old(mm).wf(),
    ensures
        final(mm).wf(),
        match page_fault_spec(*old(mm), pid, virtual_addr, write_fault) {
            Ok(st) => r is Ok && mem_view(*final(mm)) == st,
            Err(msg) => r matches Err(e) && e@ == msg && mem_view(*final(mm)) == mem_view(*old(mm)),
        },
{
    let page_addr = virtual_addr & !(4095u64);
    let ti = match find_table(&mm.tables, pid) {
        None => return Err(String::from_str("Process page table not found")),
        Some(ti) => ti,
    };
    let mi = match find_mapping(&mm.tables[ti].mappings, page_addr) {
        None => return Err(String::from_str("Segmentation Fault (Address not mapped)")),
        Some(mi) => mi,
    };
    let e = mm.tables[ti].mappings[mi].entry;
    let frame_id = e.frame_id;
    if !(e.present && !e.writable && write_fault) {
        if !e.present {
            return Err(String::from_str("Segmentation Fault (Page not present)"));
        } else {
            return Ok(());
        }
    }
    let fu = frame_id as usize;
    let refs: u32 = if fu < TOTAL_PHYSICAL_FRAMES { mm.cow_references[fu] } else { 0 };
    if refs <= 1 {
        return Err(String::from_str("Segmentation Fault (Attempted write to read-only page)"));
    }
    let nf = match first_free_frame(&mm.frames) {
        None => return Err(String::from_str("Out of physical frames resolving COW")),
        Some(nf) => nf,
    };
    proof {
        lemma_first_free(mm.frames@, nf as int);
    }
    let ghost ts = mm.tables@;
    mm.frames.set(nf, FrameOwner::Process(pid));
    let mut t = mm.tables.remove(ti);
    let ne = PageTableEntry {
        frame_id: nf as u32,
        present: e.present,
        writable: true,
        user_accessible: e.user_accessible,
    };
    t.mappings.set(mi, PageMapping { vaddr: page_addr, entry: ne });
    proof {
        let ms = t.mappings@;
        let ms0 = ts[ti as int].mappings@;
        assert(vaddrs_unique(ms0));
        assert forall|a: int, b: int| 0 <= a < ms.len() && 0 <= b < ms.len() && a != b implies ms[a].vaddr != ms[b].vaddr by {
            assert(ms[a].vaddr == ms0[a].vaddr);
            assert(ms[b].vaddr == ms0[b].vaddr);
        }
    }
    mm.tables.insert(ti, t);
    proof {
        let nt = mm.tables@;
        assert(nt =~= ts.update(ti as int, nt[ti as int]));
        assert forall|a: int| 0 <= a < nt.len() implies vaddrs_unique(#[trigger] nt[a].mappings@) by {
            if a != ti { assert(nt[a] == ts[a]); }
        }
        assert forall|a: int, b: int| 0 <= a < nt.len() && 0 <= b < nt.len() && a != b implies nt[a].pid != nt[b].pid by {
            assert(nt[a].pid == ts[a].pid);
            assert(nt[b].pid == ts[b].pid);
        }
        assert(tables_view(nt) =~= tables_view(ts).update(ti as int, (pid, ts[ti as int].mappings@.update(mi as int, PageMapping { vaddr: page_addr, entry: ne }))));
    }
    let c = refs - 1;
    mm.cow_references.set(fu, c);
    if c <= 1 {
        let owner = make_writable(&mut mm.tables, frame_id, Some(page_addr));
        match owner {
            Some(p) => {
                mm.frames.set(fu, FrameOwner::Process(p));
            },
            None => {},
        }
    }
    Ok(())
}

/// Frame owners and, per process with a page table, the number of mapped pages.
pub fn get_memory_snapshot(mm: &MemoryManager) -> (r: (Vec<FrameOwner>, Vec<(u32, usize)>))
    ensures
        r.0@ == mm.frames@,
        r.1@ == mm.tables@.map_values(|t: ProcessPageTable| (t.pid, t.mappings@.len() as usize)),
{
    let frames = copy_frames(&mm.frames);
    let mut counts: Vec<(u32, usize)> = Vec::new();
    let mut i: usize = 0;
    while i < mm.tables.len()
        invariant
            i <= mm.tables@.len(),
            counts@ == mm.tables@.subrange(0, i as int).map_values(|t: ProcessPageTable| (t.pid, t.mappings@.len() as usize)),
        decreases mm.tables@.len() - i,
    {
        counts.push((mm.tables[i].pid, mm.tables[i].mappings.len()));
        i = i + 1;
        assert(counts@ =~= mm.tables@.subrange(0, i as int).map_values(|t: ProcessPageTable| (t.pid, t.mappings@.len() as usize)));
    }
    assert(mm.tables@.subrange(0, i as int) =~= mm.tables@);
    (frames, counts)
}

/// A copy of the frame-owner array.
fn copy_frames(v: &Vec<FrameOwner>) -> (r: Vec<FrameOwner>)
    ensures
        r@ == v@,
{
    let mut r: Vec<FrameOwner> = Vec::new();
    let mut i: usize = 0;
    while i < v.len()
        invariant
            i <= v.len(),
            r@ == v@.subrange(0, i as int),
        decreases v.len() - i,
    {
        r.push(v[i]);
        i = i + 1;
    }
    assert(r@ =~= v@);
    r
}

/// Whether some page of some process maps frame `f` as `(pid, page, writable)`.
pub open spec fn maps_frame(ts: Seq<ProcessPageTable>, f: u32, x: (u32, u64, bool)) -> bool {
    exists|i: int, k: int| 0 <= i < ts.len() && 0 <= k < ts[i].mappings@.len()
        && ts[i].pid == x.0 && ts[i].mappings@[k].vaddr == x.1
        && ts[i].mappings@[k].entry.frame_id == f && ts[i].mappings@[k].entry.writable == x.2
}

/// Some mapping of frame `frame_id` as `(pid, page, writable)`, or `None` when no page maps it.
pub fn get_frame_mapping(mm: &MemoryManager, frame_id: u32) -> (r: Option<(u32, u64, bool)>)
    ensures
        r matches Some(x) ==> maps_frame(mm.tables@, frame_id, x),
        r is None ==> forall|x: (u32, u64, bool)| !maps_frame(mm.tables@, frame_id, x),
{
    let mut i: usize = 0;
    while i < mm.tables.len()
        invariant
            i <= mm.tables@.len(),
            forall|a: int, k: int| 0 <= a < i && 0 <= k < mm.tables@[a].mappings@.len()
                ==> mm.tables@[a].mappings@[k].entry.frame_id != frame_id,
        decreases mm.tables@.len() - i,
    {
        let mut k: usize = 0;
        while k < mm.tables[i].mappings.len()
            invariant
                i < mm.tables@.len(),
                k <= mm.tables@[i as int].mappings@.len(),
                forall|b: int| 0 <= b < k ==> mm.tables@[i as int].mappings@[b].entry.frame_id != frame_id,
            decreases mm.tables@[i as int].mappings@.len() - k,
        {
            let m = mm.tables[i].mappings[k];
            if m.entry.frame_id == frame_id {
                let x = (mm.tables[i].pid, m.vaddr, m.entry.writable);
                assert(maps_frame(mm.tables@, frame_id, x)) by {
                    assert(mm.tables@[i as int].mappings@[k as int] == m);
                }
                return Some(x);
            }
            k = k + 1;
        }
        i = i + 1;
    }
    None
}

} // verus!
