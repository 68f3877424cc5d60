//! The hybrid kernel: processes, scheduling, memory, locks, IPC, security, system calls,
//! interrupts and boot.
use vstd::prelude::*;
use crate::kernel::mem::{MemoryManager, init_mem};
use crate::kernel::task::{TaskTable, init_task};
use crate::kernel::scheduler::Scheduler;
use crate::kernel::mutex::MutexTable;
use crate::kernel::ipc::IpcQueues;
use crate::kernel::security::{AuditLog, init_security};
use crate::kernel::syscall::{SyscallLog, init_syscall};
use crate::kernel::interrupts::{Interrupts, init_interrupts, console_println};

pub mod mem;
pub mod task;
pub mod scheduler;
pub mod mutex;
pub mod ipc;
pub mod security;
pub mod syscall;
pub mod interrupts;
pub mod boot;
pub mod bare;

verus! {

/// Every kernel subsystem's state. The mutex table and the message queues exist only once
/// they are initialised.
pub struct Kernel {
    pub mem: MemoryManager,
    pub tasks: TaskTable,
    pub sched: Scheduler,
    pub mutexes: Option<MutexTable>,
    pub ipc: Option<IpcQueues>,
    pub audit: AuditLog,
    pub syscalls: SyscallLog,
    pub interrupts: Interrupts,
}

impl Kernel {
    /// Each subsystem is consistent.
    pub open spec fn wf(&self) -> bool {
        &&& self.mem.wf()
        &&& self.tasks.wf()
        &&& (self.mutexes matches Some(m) ==> m.wf())
        &&& (self.ipc matches Some(q) ==> q.wf())
        &&& self.audit.wf()
        &&& self.syscalls.wf()
    }
}

/// Brings up memory, interrupts, the audit log, the process table and the system-call log,
/// and reports it on the console. The mutex table and the message queues are left
/// uninitialised.
pub fn init_kernel(vga: &mut Option<crate::drivers::vga::VgaWriter>) -> (k: Kernel)
    requires
        *old(vga) matches Some(w) ==> w.wf(),
    ensures
        k.wf(),
        k.tasks.procs@.len() == 1,
        k.tasks.current_pid == 0,
        k.tasks.next_pid == 1,
        k.audit.view() == Seq::<crate::kernel::security::AuditView>::empty(),
        k.syscalls.view() == Seq::<crate::kernel::syscall::TraceView>::empty(),
        k.interrupts == crate::kernel::interrupts::init_interrupts_spec(),
        k.mutexes is None,
        k.ipc is None,
        k.sched.policy == crate::kernel::scheduler::SchedulingPolicy::RoundRobin,
        *final(vga) matches Some(w) ==> w.wf(),
{
    let mem = init_mem();
    let interrupts = init_interrupts();
    let audit = init_security();
    let tasks = init_task();
    let syscalls = init_syscall();
    let k = Kernel {
        mem,
        tasks,
        sched: Scheduler::new(),
        mutexes: None,
        ipc: None,
        audit,
        syscalls,
        interrupts,
    };
    console_println(vga, "[Kernel init] All virtual subsystems configured successfully.");
    k
}

} // verus!
