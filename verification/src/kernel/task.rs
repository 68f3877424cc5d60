//! Process control blocks and the process table.
use vstd::prelude::*;
use crate::kernel::mem::MemoryManager;
use crate::kernel::mem::{free_process_address_space, free_space_spec, mem_view};

verus! {

/// Life-cycle state of a process.
#[derive(Debug, Clone, Copy, PartialEq, Eq, Structural)]
pub enum ProcessState {
    Running,
    Ready,
    Blocked,
    Killed,
}

/// Scheduling priority of a process.
#[derive(Debug, Clone, Copy, PartialEq, Eq, Structural)]
pub enum ProcessPriority {
    RealTime,
    High,
    Normal,
    Low,
}

/// Numeric level of a priority: RealTime 3, High 2, Normal 1, Low 0.
pub open spec fn priority_level_spec(p: ProcessPriority) -> u8 {
    match p {
        ProcessPriority::RealTime => 3,
        ProcessPriority::High => 2,
        ProcessPriority::Normal => 1,
        ProcessPriority::Low => 0,
    }
}

impl ProcessPriority {
    /// Numeric level of this priority (higher runs first).
    pub fn level(&self) -> (r: u8)
        ensures
            r == priority_level_spec(*self),
    {
        match self {
            ProcessPriority::RealTime => 3,
            ProcessPriority::High => 2,
            ProcessPriority::Normal => 1,
            ProcessPriority::Low => 0,
        }
    }
}

/// Capability permissions a process may hold.
#[derive(Debug, Clone, Copy, PartialEq, Eq, Hash, Structural)]
pub enum Capability {
    SysAdmin,
    FileRead,
    FileWrite,
    NetworkRaw,
    ProcessKill,
}

/// Simulated CPU registers of a thread.
#[derive(Debug, Clone, Copy, PartialEq, Eq, Structural)]
pub struct CpuContext {
    pub rip: u64,
    pub rsp: u64,
    pub rax: u64,
    pub rbx: u64,
    pub rdi: u64,
    pub rsi: u64,
}

/// A process control block.
#[derive(Debug)]
pub struct Process {
    pub pid: u32,
    pub name: String,
    pub state: ProcessState,
    pub priority: ProcessPriority,
    pub capabilities: Vec<Capability>,
    pub file_descriptors: Vec<usize>,
    pub context: CpuContext,
    pub owner_uid: u32,
    pub cpu_ticks: u64,
}

/// Copies a vector element by element.
pub fn copy_vec<T: Copy>(v: &Vec<T>) -> (r: Vec<T>)
    ensures
        r@ == v@,
{
    let mut r: Vec<T> = Vec::new();
    let mut i: usize = 0;
    while i < v.len()
        invariant
            i <= v.len(),
            r@ == v@.subrange(0, i as int),
        decreases v.len() - i,
    {
        r.push(v[i]);
        i = i + 1;
    }
    assert(r@ =~= v@);
    r
}

/// `a` and `b` hold the same values in every field.
pub open spec fn same_process(a: Process, b: Process) -> bool {
    &&& a.pid == b.pid
    &&& a.name@ == b.name@
    &&& a.state == b.state
    &&& a.priority == b.priority
    &&& a.capabilities@ == b.capabilities@
    &&& a.file_descriptors@ == b.file_descriptors@
    &&& a.context == b.context
    &&& a.owner_uid == b.owner_uid
    &&& a.cpu_ticks == b.cpu_ticks
}

impl Process {
    /// A field-for-field copy of this process control block.
    pub fn duplicate(&self) -> (r: Process)
        ensures
            same_process(r, *self),
    {
        let caps = copy_vec(&self.capabilities);
        let fds = copy_vec(&self.file_descriptors);
        Process {
            pid: self.pid,
            name: self.name.clone(),
            state: self.state,
            priority: self.priority,
            capabilities: caps,
            file_descriptors: fds,
            context: self.context,
            owner_uid: self.owner_uid,
            cpu_ticks: self.cpu_ticks,
        }
    }
}

/// `p` with its state replaced by `s`.
pub open spec fn with_state(p: Process, s: ProcessState) -> Process {
    Process { state: s, ..p }
}

/// `p` with one more CPU tick.
pub open spec fn with_tick(p: Process) -> Process {
    Process { cpu_ticks: (p.cpu_ticks + 1) as u64, ..p }
}

/// Every process in `s` whose pid is `pid` gets state `st`; the others stay.
pub open spec fn set_state_spec(s: Seq<Process>, pid: u32, st: ProcessState) -> Seq<Process> {
    s.map_values(|p: Process| if p.pid == pid { with_state(p, st) } else { p })
}

/// Every process in `s` whose pid is `pid` gets one more tick; the others stay.
pub open spec fn tick_spec(s: Seq<Process>, pid: u32) -> Seq<Process> {
    s.map_values(|p: Process| if p.pid == pid { with_tick(p) } else { p })
}

/// The process table: processes ordered by pid, the running pid and the next pid.
pub struct TaskTable {
    pub procs: Vec<Process>,
    pub current_pid: u32,
    pub next_pid: u32,
}

/// Whether some process in `s` has pid `pid`.
pub open spec fn has_pid(s: Seq<Process>, pid: u32) -> bool {
    exists|i: int| 0 <= i < s.len() && s[i].pid == pid
}

impl TaskTable {
    /// Pids are strictly increasing and all below `next_pid`.
    pub open spec fn wf(&self) -> bool {
        &&& forall|i: int, j: int|
            0 <= i < j < self.procs@.len() ==> self.procs@[i].pid < self.procs@[j].pid
        &&& forall|i: int| 0 <= i < self.procs@.len() ==> self.procs@[i].pid < self.next_pid
    }
}

/// Builds `vec![0, 1, 2]`, the standard streams every process starts with.
fn standard_streams() -> (r: Vec<usize>)
    ensures
        r@ == seq![0usize, 1, 2],
{
    let mut v: Vec<usize> = Vec::new();
    v.push(0);
    v.push(1);
    v.push(2);
    v
}

/// A process table holding only the running idle process; pid 1 comes next.
pub fn init_task() -> (tt: TaskTable)
    ensures
        tt.wf(),
        tt.procs@.len() == 1,
        tt.procs@[0].pid == 0,
        tt.procs@[0].name@ == "idle"@,
        tt.procs@[0].state == ProcessState::Running,
        tt.procs@[0].priority == ProcessPriority::Low,
        tt.procs@[0].capabilities@ == Seq::<Capability>::empty(),
        tt.procs@[0].file_descriptors@ == seq![0usize, 1, 2],
        tt.procs@[0].owner_uid == 0,
        tt.procs@[0].cpu_ticks == 0,
        tt.current_pid == 0,
        tt.next_pid == 1,
{
    let idle = Process {
        pid: 0,
        name: String::from_str("idle"),
        state: ProcessState::Running,
        priority: ProcessPriority::Low,
        capabilities: Vec::new(),
        file_descriptors: standard_streams(),
        context: CpuContext { rip: 0, rsp: 0, rax: 0, rbx: 0, rdi: 0, rsi: 0 },
        owner_uid: 0,
        cpu_ticks: 0,
    };
    let mut procs: Vec<Process> = Vec::new();
    procs.push(idle);
    TaskTable { procs, current_pid: 0, next_pid: 1 }
}

/// Index of the process with pid `pid`, if any.
pub fn find_process(procs: &Vec<Process>, pid: u32) -> (r: Option<usize>)
    ensures
        r matches Some(i) ==> i < procs@.len() && procs@[i as int].pid == pid,
        r is None ==> !has_pid(procs@, pid),
{
    let mut i: usize = 0;
    while i < procs.len()
        invariant
            i <= procs.len(),
            forall|k: int| 0 <= k < i ==> procs@[k].pid != pid,
        decreases procs.len() - i,
    {
        if procs[i].pid == pid {
            return Some(i);
        }
        i = i + 1;
    }
    None
}

/// Creates a Ready process with the next pid, the standard streams and a stack of its own.
pub fn create_process(
    tt: &mut TaskTable,
    name: &str,
    priority: ProcessPriority,
    capabilities: Vec<Capability>,
    uid: u32,
) -> (r: Result<u32, String>)
    requires
        old(tt).wf(),
        old(tt).next_pid < u32::MAX,
    ensures
        final(tt).wf(),
        r == Ok::<u32, String>(old(tt).next_pid),
        final(tt).next_pid == old(tt).next_pid + 1,
        final(tt).current_pid == old(tt).current_pid,
        final(tt).procs@.len() == old(tt).procs@.len() + 1,
        final(tt).procs@.drop_last() == old(tt).procs@,
        ({
            let p = final(tt).procs@.last();
            &&& p.pid == old(tt).next_pid
            &&& p.name@ == name@
            &&& p.state == ProcessState::Ready
            &&& p.priority == priority
            &&& p.capabilities@ == capabilities@
            &&& p.file_descriptors@ == seq![0usize, 1, 2]
            &&& p.context == (CpuContext {
                rip: 0x201000,
                rsp: (0x400000 + p.pid * 0x10000) as u64,
                rax: 0,
                rbx: 0,
                rdi: 0,
                rsi: 0,
            })
            &&& p.owner_uid == uid
            &&& p.cpu_ticks == 0
        }),
{
    let pid = tt.next_pid;
    let p = Process {
        pid,
        name: String::from_str(name),
        state: ProcessState::Ready,
        priority,
        capabilities,
        file_descriptors: standard_streams(),
        context: CpuContext {
            rip: 0x201000,
            rsp: 0x400000 + (pid as u64) * 0x10000,
            rax: 0,
            rbx: 0,
            rdi: 0,
            rsi: 0,
        },
        owner_uid: uid,
        cpu_ticks: 0,
    };
    tt.procs.push(p);
    tt.next_pid = pid + 1;
    assert(tt.procs@.drop_last() =~= old(tt).procs@);
    Ok(pid)
}

proof fn lemma_unique_pid(tt: &TaskTable, i: int, j: int)
    requires
        tt.wf(),
        0 <= i < tt.procs@.len(),
        0 <= j < tt.procs@.len(),
        tt.procs@[i].pid == tt.procs@[j].pid,
    ensures
        i == j,
{
    if i < j {
    } else if j < i {
    }
}

/// Sets the state of the process with pid `pid`; nothing happens when there is none.
pub fn set_process_state(tt: &mut TaskTable, pid: u32, state: ProcessState)
    requires
        old(tt).wf(),
    ensures
        final(tt).wf(),
        final(tt).procs@ == set_state_spec(old(tt).procs@, pid, state),
        final(tt).current_pid == old(tt).current_pid,
        final(tt).next_pid == old(tt).next_pid,
{
    match find_process(&tt.procs, pid) {
        Some(i) => {
            let mut p = tt.procs.remove(i);
            p.state = state;
            tt.procs.insert(i, p);
            assert forall|k: int| 0 <= k < tt.procs@.len() implies tt.procs@[k]
                == set_state_spec(old(tt).procs@, pid, state)[k] by {
                if k != i {
                    if old(tt).procs@[k].pid == pid {
                        lemma_unique_pid(old(tt), k, i as int);
                    }
                }
            }
            assert(tt.procs@ =~= set_state_spec(old(tt).procs@, pid, state));
        },
        None => {
            assert(tt.procs@ =~= set_state_spec(old(tt).procs@, pid, state));
        },
    }
}

/// The pid of the running process.
pub fn get_current_pid(tt: &TaskTable) -> (r: u32)
    ensures
        r == tt.current_pid,
{
    tt.current_pid
}

/// Records `pid` as the running process.
pub fn set_current_pid(tt: &mut TaskTable, pid: u32)
    ensures
        final(tt).current_pid == pid,
        final(tt).procs == old(tt).procs,
        final(tt).next_pid == old(tt).next_pid,
{
    tt.current_pid = pid;
}

/// A copy of every process control block, in pid order.
pub fn get_process_list(tt: &TaskTable) -> (r: Vec<Process>)
    ensures
        r@.len() == tt.procs@.len(),
        forall|i: int| 0 <= i < r@.len() ==> same_process(#[trigger] r@[i], tt.procs@[i]),
{
    let mut r: Vec<Process> = Vec::new();
    let mut i: usize = 0;
    while i < tt.procs.len()
        invariant
            i <= tt.procs.len(),
            r@.len() == i,
            forall|k: int| 0 <= k < i ==> same_process(#[trigger] r@[k], tt.procs@[k]),
        decreases tt.procs.len() - i,
    {
        r.push(tt.procs[i].duplicate());
        i = i + 1;
    }
    r
}

/// Mutable access to the process control blocks.
pub fn drv_process_table(tt: &mut TaskTable) -> (r: &mut Vec<Process>)
    ensures
        *r == old(tt).procs,
        final(tt).procs == *final(r),
        final(tt).current_pid == old(tt).current_pid,
        final(tt).next_pid == old(tt).next_pid,
{
    &mut tt.procs
}

/// Why `kill_process` refused.
pub open spec fn kill_error(tt: TaskTable, pid: u32) -> Option<Seq<char>> {
    if pid == 0 {
        Some("Cannot kill idle process"@)
    } else if !has_pid(tt.procs@, pid) {
        Some("Process not found"@)
    } else {
        None
    }
}

/// Kills `pid`: frees its address space and marks it Killed. The idle process cannot be killed.
pub fn kill_process(tt: &mut TaskTable, mm: &mut MemoryManager, pid: u32) -> (r: Result<(), String>)
    requires
        old(tt).wf(),
        old(mm).wf(),
    ensures
        final(tt).wf(),
        final(mm).wf(),
        final(tt).current_pid == old(tt).current_pid,
        final(tt).next_pid == old(tt).next_pid,
        match kill_error(*old(tt), pid) {
            Some(msg) => r matches Err(e) && e@ == msg && final(tt).procs@ == old(tt).procs@,
            None => r is Ok && final(tt).procs@ == set_state_spec(
                old(tt).procs@,
                pid,
                ProcessState::Killed,
            ),
        },
        pid == 0 ==> mem_view(*final(mm)) == mem_view(*old(mm)),
        pid != 0 ==> mem_view(*final(mm)) == free_space_spec(*old(mm), pid),
{
    if pid == 0 {
        return Err(String::from_str("Cannot kill idle process"));
    }
    let _ = free_process_address_space(mm, pid);
    match find_process(&tt.procs, pid) {
        Some(_) => {
            set_process_state(tt, pid, ProcessState::Killed);
            Ok(())
        },
        None => Err(String::from_str("Process not found")),
    }
}

} // verus!
