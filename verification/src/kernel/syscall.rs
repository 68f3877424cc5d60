//! System-call dispatch and the system-call trace log.
use vstd::prelude::*;
use crate::text::{decimal, chars_to_string, push_str, push_decimal};
use crate::kernel::Kernel;
use crate::kernel::task::{Capability, ProcessPriority, ProcessState, find_process, create_process, kill_process, kill_error,
    has_pid, get_current_pid, set_state_spec};
use crate::kernel::mem::{fork_address_space, has_table, table_index, writable_frames_valid, TOTAL_PHYSICAL_FRAMES,
    mem_view, free_space_spec, tables_view, fork_tables_spec, fork_frames_spec, fork_cow_spec};
use crate::kernel::scheduler::{schedule_next, ticks_bounded, ready_pids, schedule_choice, switch_spec, schedule_step};
use crate::kernel::task::TaskTable;
use crate::kernel::security::{check_capability, capability_granted, capability_audit, enforce_mac_path, audit_push,
    mac_violation, mac_clean_path, mac_message, mac_record};
use crate::filesystem::{Vfs, vfs_read, vfs_write, vfs_list_dir, read_post, write_post, write_target,
    descriptor_file_path, list_dir_result};
use crate::drivers::Devices;
use crate::drivers::input::KeyCode;
use crate::networking::NetStack;
use crate::networking::tcp::{bind_socket, port_listening, listening_socket};

verus! {

/// Traces kept before the oldest is dropped.
pub const SYSCALL_LOG_LIMIT: usize = 100;

/// One traced system call.
#[derive(Debug)]
pub struct SyscallTrace {
    pub syscall_name: String,
    pub pid: u32,
    pub args: [u64; 3],
    pub result: Result<u64, String>,
}

/// A trace as plain values: name, pid, arguments and result.
pub type TraceView = (Seq<char>, u32, Seq<u64>, Result<u64, Seq<char>>);

/// The view of a result.
pub open spec fn result_view(r: Result<u64, String>) -> Result<u64, Seq<char>> {
    match r {
        Ok(v) => Ok(v),
        Err(e) => Err(e@),
    }
}

/// The view of a trace.
pub open spec fn trace_view(t: SyscallTrace) -> TraceView {
    (t.syscall_name@, t.pid, t.args@, result_view(t.result))
}

/// The views of a trace list.
pub open spec fn traces_view(s: Seq<SyscallTrace>) -> Seq<TraceView> {
    s.map_values(|t: SyscallTrace| trace_view(t))
}

/// The trace log.
pub struct SyscallLog {
    pub traces: Vec<SyscallTrace>,
}

impl SyscallLog {
    /// At most one trace past the limit.
    pub open spec fn wf(&self) -> bool {
        self.traces@.len() <= SYSCALL_LOG_LIMIT + 1
    }

    /// The traces, oldest first.
    pub open spec fn view(&self) -> Seq<TraceView> {
        traces_view(self.traces@)
    }
}

/// The log after recording `t`: past the limit the oldest trace is dropped first.
pub open spec fn trace_push(log: Seq<TraceView>, t: TraceView) -> Seq<TraceView> {
    if log.len() > SYSCALL_LOG_LIMIT { log.drop_first().push(t) } else { log.push(t) }
}

/// An empty trace log.
pub fn init_syscall() -> (log: SyscallLog)
    ensures
        log.wf(),
        log.view() == Seq::<TraceView>::empty(),
{
    let log = SyscallLog { traces: Vec::new() };
    assert(log.view() =~= Seq::<TraceView>::empty());
    log
}

/// Records one system call.
pub fn log_syscall(log: &mut SyscallLog, name: &str, pid: u32, args: [u64; 3], res: Result<u64, String>)
    requires
        old(log).wf(),
    ensures
        final(log).wf(),
        final(log).view() == trace_push(old(log).view(), (name@, pid, args@, result_view(res))),
{
    let ghost v0 = log.traces@;
    if log.traces.len() > SYSCALL_LOG_LIMIT {
        log.traces.remove(0);
    }
    let ghost v1 = log.traces@;
    let ghost rv = result_view(res);
    log.traces.push(SyscallTrace { syscall_name: String::from_str(name), pid, args, result: res });
    proof {
        if v0.len() > SYSCALL_LOG_LIMIT {
            assert(traces_view(v1) =~= traces_view(v0).drop_first());
        }
        assert(traces_view(log.traces@) =~= traces_view(v1).push((name@, pid, args@, rv)));
    }
}

/// A copy of a result.
fn copy_result(r: &Result<u64, String>) -> (c: Result<u64, String>)
    ensures
        result_view(c) == result_view(*r),
{
    match r {
        Ok(v) => Ok(*v),
        Err(e) => Err(e.clone()),
    }
}

/// The traced name of system call `id`.
pub open spec fn syscall_name(id: u32) -> Seq<char> {
    if id == 1 { "sys_exit"@ }
    else if id == 2 { "sys_fork"@ }
    else if id == 3 { "sys_read"@ }
    else if id == 4 { "sys_write"@ }
    else if id == 5 { "sys_yield"@ }
    else if id == 6 { "sys_kill"@ }
    else if id == 7 { "sys_socket"@ }
    else { "sys_unknown"@ }
}

/// The traced name of system call `id`.
fn syscall_name_str(id: u32) -> (r: &'static str)
    ensures
        r@ == syscall_name(id),
{
    if id == 1 { "sys_exit" }
    else if id == 2 { "sys_fork" }
    else if id == 3 { "sys_read" }
    else if id == 4 { "sys_write" }
    else if id == 5 { "sys_yield" }
    else if id == 6 { "sys_kill" }
    else if id == 7 { "sys_socket" }
    else { "sys_unknown" }
}

/// The owner and capabilities a forked child inherits: those of `pid`, or user 1001 with
/// none when `pid` is not in the table.
pub open spec fn fork_inheritance(k: Kernel, pid: u32) -> (u32, Seq<Capability>) {
    if has_pid(k.tasks.procs@, pid) {
        let p = k.tasks.procs@[crate::kernel::security::pid_index(k.tasks.procs@, pid)];
        (p.owner_uid, p.capabilities@)
    } else {
        (1001, Seq::empty())
    }
}

/// The user a write runs as: the owner of `pid`, or root when `pid` is not in the table.
pub open spec fn writer_uid(k: Kernel, pid: u32) -> u32 {
    if has_pid(k.tasks.procs@, pid) {
        k.tasks.procs@[crate::kernel::security::pid_index(k.tasks.procs@, pid)].owner_uid
    } else {
        0
    }
}

/// `n` copies of the byte `b`.
pub open spec fn filled(n: nat, b: u8) -> Seq<u8> {
    Seq::new(n, |i: int| b)
}

/// A byte count as a system call returns it.
pub open spec fn count_result(r: Result<usize, String>) -> Result<u64, String> {
    match r {
        Ok(n) => Ok(n as u64),
        Err(e) => Err(e),
    }
}

/// The MAC rule a write by `uid` to descriptor `fd` breaks, 0 for none: while the root
/// directory lists, the file the descriptor names is checked as a write.
pub open spec fn write_violation(v: Vfs, fd: usize, uid: u32) -> int {
    match write_target(v, fd) {
        Some(p) => if list_dir_result(v, "/"@) is Ok { mac_violation(uid, mac_clean_path(p), true) } else { 0 },
        None => 0,
    }
}

/// What the read (3) and write (4) calls do to the files, devices and audit log and return:
/// a read of `arg3` bytes from descriptor `arg1` into a zeroed buffer; a write of `arg3`
/// spaces to it as the caller's owner, unless the access rules refuse the file it names,
/// which is audited and returned. Other calls are not described here.
#[verifier::opaque]
pub open spec fn file_call_post(k0: Kernel, k1: Kernel, v0: Vfs, v1: Vfs, d0: Devices, d1: Devices, id: u32,
    arg1: u64, arg3: u64, r: Result<u64, String>) -> bool
{
    &&& id == 3 ==> exists|b1: Seq<u8>, rr: Result<usize, String>|
        #[trigger] read_post(v0, v1, d0, d1, arg1 as usize, filled((arg3 as usize) as nat, 0u8), b1, rr)
            && r == count_result(rr)
    &&& id == 4 ==> write_call_post(k0, k1, v0, v1, d0, d1, arg1 as usize, filled((arg3 as usize) as nat, 32u8), r)
}

/// What a write of `buf` to descriptor `fd` by the running process does and returns: refused
/// by the access rules for the file the descriptor names (audited), or `buf` written as the
/// process's owner.
pub open spec fn write_call_post(k0: Kernel, k1: Kernel, v0: Vfs, v1: Vfs, d0: Devices, d1: Devices, fd: usize,
    buf: Seq<u8>, r: Result<u64, String>) -> bool
{
    let uid = writer_uid(k0, k0.tasks.current_pid);
    let w = write_violation(v0, fd, uid);
    if w != 0 {
        &&& r matches Err(e) && e@ == mac_message(w)
        &&& v1 == v0 && d1 == d0
        &&& k1.audit.view() == audit_push(k0.audit.view(), mac_record(uid, mac_clean_path(write_target(v0, fd)->Some_0), w))
    } else {
        &&& k1.audit.view() == k0.audit.view()
        &&& exists|rw: Result<usize, String>| #[trigger] write_post(v0, v1, d0, d1, fd, buf, uid, rw) && r == count_result(rw)
    }
}

/// The write system call's work on the caller's buffer `data`: the access rules are checked
/// on the file the descriptor names while the root directory lists, then `data` is written
/// as the running process's owner. Nothing is traced here.
fn write_checked(k: &mut Kernel, vfs: &mut Vfs, dev: &mut Devices, fd: usize, data: &[u8]) -> (r: Result<u64, String>)
    requires
        old(k).wf(),
        old(vfs).wf(),
        old(dev).wf(),
    ensures
        final(k).wf(),
        final(vfs).wf(),
        final(dev).wf(),
        final(vfs).next_fd == old(vfs).next_fd,
        final(dev).input == old(dev).input,
        *final(k) == (Kernel { audit: final(k).audit, ..*old(k) }),
        write_call_post(*old(k), *final(k), *old(vfs), *final(vfs), *old(dev), *final(dev), fd, data@, r),
        r matches Ok(n) ==> n == data@.len(),
{
    let pid = get_current_pid(&k.tasks);
    let uid: u32 = match find_process(&k.tasks.procs, pid) {
        Some(i) => {
            proof {
                let j = crate::kernel::security::pid_index(k.tasks.procs@, pid);
                assert(0 <= j < k.tasks.procs@.len() && k.tasks.procs@[j].pid == pid);
                if j != i as int {
                    if j < i as int { assert(k.tasks.procs@[j].pid < k.tasks.procs@[i as int].pid); }
                    else { assert(k.tasks.procs@[i as int].pid < k.tasks.procs@[j].pid); }
                }
            }
            k.tasks.procs[i].owner_uid
        },
        None => 0,
    };
    assert(uid == writer_uid(*old(k), pid));
    if vfs_list_dir(vfs, "/").is_ok() {
        match descriptor_file_path(vfs, fd) {
            Some(path) => {
                match enforce_mac_path(&mut k.audit, uid, path.as_str(), true) {
                    Ok(()) => {},
                    Err(e) => { return Err(e); },
                }
            },
            None => {},
        }
    }
    assert(write_violation(*old(vfs), fd, uid) == 0);
    let rw = vfs_write(vfs, dev, fd, data, uid);
    assert(write_post(*old(vfs), *vfs, *old(dev), *dev, fd, data@, writer_uid(*old(k), pid), rw));
    match rw {
        Ok(n) => Ok(n as u64),
        Err(e) => Err(e),
    }
}

/// The write system call with the caller's buffer: writes `data` to descriptor `fd` as
/// `write_checked` does and, when it completes, traces `sys_write` with the arguments
/// `[fd, 0, data length]`; a failure passed up from the write is returned untraced.
pub fn sys_write_data(k: &mut Kernel, vfs: &mut Vfs, dev: &mut Devices, fd: usize, data: &[u8]) -> (r: Result<u64, String>)
    requires
        old(k).wf(),
        old(vfs).wf(),
        old(dev).wf(),
    ensures
        final(k).wf(),
        final(vfs).wf(),
        final(dev).wf(),
        final(vfs).next_fd == old(vfs).next_fd,
        final(dev).input == old(dev).input,
        final(k).tasks == old(k).tasks,
        final(k).mem == old(k).mem,
        final(k).mutexes == old(k).mutexes,
        final(k).ipc == old(k).ipc,
        write_call_post(*old(k), *final(k), *old(vfs), *final(vfs), *old(dev), *final(dev), fd, data@, r),
        r matches Ok(n) ==> n == data@.len(),
        r is Ok ==> final(k).syscalls.view() == trace_push(old(k).syscalls.view(),
            ("sys_write"@, old(k).tasks.current_pid, seq![fd as u64, 0u64, data@.len() as u64], result_view(r))),
        r is Err ==> final(k).syscalls.view() == old(k).syscalls.view(),
{
    let pid = get_current_pid(&k.tasks);
    let res = write_checked(k, vfs, dev, fd, data);
    match res {
        Ok(n) => {
            log_syscall(&mut k.syscalls, "sys_write", pid, [fd as u64, 0, data.len() as u64], Ok(n));
            assert(seq![fd as u64, 0u64, data@.len() as u64] =~= [fd as u64, 0u64, data.len() as u64]@);
            Ok(n)
        },
        Err(e) => Err(e),
    }
}

/// What `sys_call` may assume so that nothing it calls can fail on arithmetic or bounds:
/// forking needs a pid to spare and consistent page mappings, and yielding needs tick counters
/// below their maximum.
pub open spec fn syscall_ready(k: Kernel, vfs: Vfs, dev: Devices, id: u32, arg1: u64, arg3: u64) -> bool {
    let pid = k.tasks.current_pid;
    &&& id == 2 ==> k.tasks.next_pid < u32::MAX
    &&& id == 2 && has_table(k.mem.tables@, pid) ==> ({
        let ms = k.mem.tables@[table_index(k.mem.tables@, pid)].mappings@;
        &&& writable_frames_valid(ms)
        &&& forall|f: int| 0 <= f < TOTAL_PHYSICAL_FRAMES ==> k.mem.cow_references@[f] + ms.len() + 1 <= u32::MAX
    })
    &&& id == 5 ==> ticks_bounded(k.tasks.procs@)
}

/// Whether the call is traced: it completed, or it was refused by the dispatcher itself
/// (an unknown id, or a kill without the capability). A failure passed up from a callee is
/// returned untraced.
pub open spec fn traced(r: Result<u64, String>, id: u32, k: Kernel) -> bool {
    r is Ok || id < 1 || id > 7 || (id == 6 && !capability_granted(k.tasks, k.tasks.current_pid, Capability::ProcessKill))
}

/// Dispatches system call `id` for the running process.
///
/// 1 exit (kills the caller and frees its memory, returns 0), 2 fork (a Ready child
/// "child_task" inherits owner and capabilities, the address space is shared copy-on-write),
/// 3 read (`arg3` bytes from descriptor `arg1`), 4 write (`arg3` spaces to descriptor `arg1`
/// as the caller's owner, after the access rules accept the file it names), 5 yield to the
/// scheduler, 6 kill process `arg1` (needs the ProcessKill capability), 7 bind a socket to
/// port `arg1` after an audited NetworkRaw check. Completed calls are traced; a failure
/// passed up from a callee is not. The buffer address `arg2` names no memory here, so a read
/// fills a zeroed buffer and a write sends spaces; `sys_write_data` takes a real buffer.
#[verifier::rlimit(60)]
#[verifier::spinoff_prover]
pub fn sys_call(k: &mut Kernel, vfs: &mut Vfs, dev: &mut Devices, net: &mut NetStack, id: u32, arg1: u64, arg2: u64, arg3: u64)
    -> (r: Result<u64, String>)
    requires
        old(k).wf(),
        old(vfs).wf(),
        old(dev).wf(),
        syscall_ready(*old(k), *old(vfs), *old(dev), id, arg1, arg3),
    ensures
        final(k).wf(),
        final(vfs).wf(),
        final(dev).wf(),
        final(vfs).next_fd == old(vfs).next_fd,
        final(k).tasks.next_pid <= old(k).tasks.next_pid + 1,
        final(k).mutexes == old(k).mutexes,
        final(k).ipc == old(k).ipc,
        id == 3 ==> final(vfs).fs == old(vfs).fs && final(vfs).mounts == old(vfs).mounts && final(dev).disk == old(dev).disk
            && final(k).tasks == old(k).tasks && final(k).audit == old(k).audit,
        (id == 7 || id < 1 || id > 7) ==> *final(vfs) == *old(vfs) && *final(dev) == *old(dev)
            && final(k).tasks == old(k).tasks,
        (id == 1 || id == 2 || id == 5 || id == 6) ==> *final(vfs) == *old(vfs) && *final(dev) == *old(dev),
        id != 7 ==> *final(net) == *old(net),
        (id == 1 || id == 2 || id == 5 || id < 1 || id > 7) ==> final(k).audit == old(k).audit,
        final(dev).input.keyboard.view() == old(dev).input.keyboard.view()
            || (old(dev).input.keyboard.view().len() > 0 && final(dev).input.keyboard.view() == old(dev).input.keyboard.view().drop_first()),
        ({
            let pid = old(k).tasks.current_pid;
            let procs0 = old(k).tasks.procs@;
            let procs1 = final(k).tasks.procs@;
            &&& traced(r, id, *old(k)) ==> final(k).syscalls.view() == trace_push(old(k).syscalls.view(),
                (syscall_name(id), pid, seq![arg1, arg2, arg3], result_view(r)))
            &&& !traced(r, id, *old(k)) ==> final(k).syscalls.view() == old(k).syscalls.view()
            &&& (id < 1 || id > 7) ==> (r matches Err(e) && e@ == "Unknown syscall identifier: "@ + decimal(id as nat))
                && procs1 == procs0
            &&& id == 1 ==> r == Ok::<u64, String>(0)
                && (kill_error(old(k).tasks, pid) is None ==> procs1 == set_state_spec(procs0, pid, ProcessState::Killed))
                && (kill_error(old(k).tasks, pid) is Some ==> procs1 == procs0)
                && (pid != 0 ==> mem_view(final(k).mem) == free_space_spec(old(k).mem, pid))
                && (pid == 0 ==> mem_view(final(k).mem) == mem_view(old(k).mem))
            &&& id == 2 ==> ({
                let child = old(k).tasks.next_pid;
                let c = procs1.last();
                let ts = old(k).mem.tables@;
                &&& r == Ok::<u64, String>(child as u64)
                &&& procs1.drop_last() == procs0
                &&& c.pid == child && c.name@ == "child_task"@ && c.state == ProcessState::Ready
                &&& c.priority == ProcessPriority::Normal
                &&& c.owner_uid == fork_inheritance(*old(k), pid).0
                &&& c.capabilities@ == fork_inheritance(*old(k), pid).1
                &&& !has_table(ts, pid) ==> mem_view(final(k).mem) == mem_view(old(k).mem)
                &&& has_table(ts, pid) ==> ({
                    let ms = ts[table_index(ts, pid)].mappings@;
                    &&& tables_view(final(k).mem.tables@) == fork_tables_spec(ts, pid, child)
                    &&& final(k).mem.frames@ == fork_frames_spec(old(k).mem.frames@, ms, pid)
                    &&& final(k).mem.cow_references@ == fork_cow_spec(old(k).mem.cow_references@, ms)
                })
            })
            &&& file_call_post(*old(k), *final(k), *old(vfs), *final(vfs), *old(dev), *final(dev), id, arg1, arg3, r)
            &&& id == 4 ==> (r matches Ok(n) ==> n == (arg3 as usize) as u64)
            &&& id == 5 ==> schedule_step(old(k).tasks, final(k).tasks, old(k).sched.policy)
            &&& id == 5 ==> r == Ok::<u64, String>(0) && ({
                let next = schedule_choice(procs0, pid, old(k).sched.policy);
                &&& ready_pids(procs0).len() == 0 ==> procs1 == procs0 && final(k).tasks.current_pid == pid
                &&& ready_pids(procs0).len() > 0 ==> procs1 == switch_spec(procs0, pid, next)
                    && final(k).tasks.current_pid == next
            })
            &&& id == 6 ==> final(k).audit.view() == capability_audit(old(k).audit.view(), old(k).tasks, pid, Capability::ProcessKill)
            &&& id == 6 ==> (!capability_granted(old(k).tasks, pid, Capability::ProcessKill) ==>
                (r matches Err(e) && e@ == "Operation not permitted: lacks ProcessKill capability"@)
                && procs1 == procs0)
            &&& id == 6 ==> (capability_granted(old(k).tasks, pid, Capability::ProcessKill) ==> ({
                let target = arg1 as u32;
                &&& kill_error(old(k).tasks, target) matches Some(msg) ==> (r matches Err(e) && e@ == msg) && procs1 == procs0
                &&& kill_error(old(k).tasks, target) is None ==> r == Ok::<u64, String>(0)
                    && procs1 == set_state_spec(procs0, target, ProcessState::Killed)
                &&& target != 0 ==> mem_view(final(k).mem) == free_space_spec(old(k).mem, target)
                &&& target == 0 ==> mem_view(final(k).mem) == mem_view(old(k).mem)
            }))
            &&& id == 7 ==> final(k).audit.view() == capability_audit(old(k).audit.view(), old(k).tasks, pid, Capability::NetworkRaw)
            &&& id == 7 ==> (port_listening(old(net).tcp.view(), arg1 as u16) ==> (r matches Err(e) && e@ == "Port already in use"@)
                && final(net).tcp.view() == old(net).tcp.view())
                && (!port_listening(old(net).tcp.view(), arg1 as u16) ==> r == Ok::<u64, String>(0)
                && final(net).tcp.view() == old(net).tcp.view().push(listening_socket(arg1 as u16)))
        }),
{
    proof { reveal(file_call_post); }
    let pid = get_current_pid(&k.tasks);
    let name = syscall_name_str(id);
    let res: Result<u64, String> = if id == 1 {
        let _ = kill_process(&mut k.tasks, &mut k.mem, pid);
        Ok(0)
    } else if id == 2 {
        let (uid, caps) = match find_process(&k.tasks.procs, pid) {
            Some(i) => {
                proof {
                    let j = crate::kernel::security::pid_index(k.tasks.procs@, pid);
                    assert(0 <= j < k.tasks.procs@.len() && k.tasks.procs@[j].pid == pid);
                    if j != i as int {
                        if j < i as int { assert(k.tasks.procs@[j].pid < k.tasks.procs@[i as int].pid); }
                        else { assert(k.tasks.procs@[i as int].pid < k.tasks.procs@[j].pid); }
                    }
                }
                (k.tasks.procs[i].owner_uid, crate::kernel::task::copy_vec(&k.tasks.procs[i].capabilities))
            },
            None => (1001, Vec::new()),
        };
        let child = create_process(&mut k.tasks, "child_task", ProcessPriority::Normal, caps, uid)?;
        fork_address_space(&mut k.mem, pid, child)?;
        Ok(child as u64)
    } else if id == 3 {
        let fd = arg1 as usize;
        let len = arg3 as usize;
        let mut buf = vec![0u8; len];
        let ghost b0 = buf@;
        assert(b0 =~= filled(len as nat, 0u8));
        let rr = vfs_read(vfs, dev, fd, &mut buf);
        assert(read_post(*old(vfs), *vfs, *old(dev), *dev, fd, filled(len as nat, 0u8), buf@, rr)
            && count_result(rr) == count_result(rr));
        match rr {
            Ok(n) => Ok(n as u64),
            Err(e) => { return Err(e); },
        }
    } else if id == 4 {
        let fd = arg1 as usize;
        let len = arg3 as usize;
        let raw = vec![32u8; len];
        assert(raw@ =~= filled(len as nat, 32u8));
        match write_checked(k, vfs, dev, fd, raw.as_slice()) {
            Ok(n) => Ok(n),
            Err(e) => { return Err(e); },
        }
    } else if id == 5 {
        let _ = schedule_next(&mut k.tasks, &k.sched);
        Ok(0)
    } else if id == 6 {
        let target = arg1 as u32;
        if check_capability(&mut k.audit, &k.tasks, pid, Capability::ProcessKill) {
            kill_process(&mut k.tasks, &mut k.mem, target)?;
            Ok(0)
        } else {
            Err(String::from_str("Operation not permitted: lacks ProcessKill capability"))
        }
    } else if id == 7 {
        let port = arg1 as u16;
        let _ = check_capability(&mut k.audit, &k.tasks, pid, Capability::NetworkRaw);
        bind_socket(&mut net.tcp, port)?;
        Ok(0)
    } else {
        let mut msg: Vec<char> = Vec::new();
        push_str(&mut msg, "Unknown syscall identifier: ");
        push_decimal(&mut msg, id as u64);
        Err(chars_to_string(msg.as_slice()))
    };
    let logged = copy_result(&res);
    log_syscall(&mut k.syscalls, name, pid, [arg1, arg2, arg3], logged);
    res
}

/// Yielding through the system call acts as one call of the scheduler: from the same process
/// table and policy, the table after `sys_call(5, ..)` (`k1`) and the table after one
/// `schedule_next` (`tt1`) hold the same processes, ticks and states and run the same process.
pub proof fn lemma_yield_is_one_schedule(k0: Kernel, k1: Kernel, tt1: TaskTable)
    requires
        schedule_step(k0.tasks, k1.tasks, k0.sched.policy),
        schedule_step(k0.tasks, tt1, k0.sched.policy),
    ensures
        k1.tasks.procs@ == tt1.procs@,
        k1.tasks.current_pid == tt1.current_pid,
{
}

/// A copy of a trace.
fn copy_trace(t: &SyscallTrace) -> (r: SyscallTrace)
    ensures
        trace_view(r) == trace_view(*t),
{
    SyscallTrace { syscall_name: t.syscall_name.clone(), pid: t.pid, args: t.args, result: copy_result(&t.result) }
}

/// The traced system calls, oldest first.
pub fn get_syscall_traces(log: &SyscallLog) -> (r: Vec<SyscallTrace>)
    ensures
        traces_view(r@) == log.view(),
{
    let mut r: Vec<SyscallTrace> = Vec::new();
    let mut i: usize = 0;
    while i < log.traces.len()
        invariant
            i <= log.traces@.len(),
            traces_view(r@) == traces_view(log.traces@.subrange(0, i as int)),
        decreases log.traces@.len() - i,
    {
        let ghost prev = r@;
        r.push(copy_trace(&log.traces[i]));
        i = i + 1;
        assert(traces_view(r@) =~= traces_view(prev).push(trace_view(log.traces@[i - 1])));
        assert(traces_view(log.traces@.subrange(0, i as int)) =~= traces_view(log.traces@.subrange(0, i - 1)).push(trace_view(log.traces@[i - 1])));
    }
    assert(log.traces@.subrange(0, i as int) =~= log.traces@);
    r
}

} // verus!
