use novaos::drivers::input::{push_key_event, KeyCode, KeyEvent};
use novaos::filesystem::{vfs_close, vfs_open, vfs_read};
use novaos::kernel::security::get_security_audit_logs;
use novaos::kernel::syscall::{get_syscall_traces, sys_call};
use novaos::kernel::task::{create_process, get_process_list, set_current_pid, Capability, ProcessPriority, ProcessState};
use novaos::system::{boot, System};

#[test]
fn write_call_stores_spaces_and_read_call_counts_bytes() {
    let mut sys = boot();
    let fd = vfs_open(&mut sys.vfs, "/students/student1001/notes.txt", true, true, 1001).unwrap();
    let w = sys_call(&mut sys.kernel, &mut sys.vfs, &mut sys.dev, &mut sys.net, 4, fd as u64, 0, 5);
    assert_eq!(w, Ok(5));
    vfs_close(&mut sys.vfs, fd).unwrap();

    let fd2 = vfs_open(&mut sys.vfs, "/students/student1001/notes.txt", false, false, 1001).unwrap();
    let r = sys_call(&mut sys.kernel, &mut sys.vfs, &mut sys.dev, &mut sys.net, 3, fd2 as u64, 0, 3);
    assert_eq!(r, Ok(3));
    let mut buf = vec![0u8; 16];
    let n = vfs_read(&mut sys.vfs, &mut sys.dev, fd2, &mut buf).unwrap();
    // The read call advanced the offset by three of the five spaces.
    assert_eq!(&buf[0..n], b"  ");
    vfs_close(&mut sys.vfs, fd2).unwrap();

    let traces = get_syscall_traces(&sys.kernel.syscalls);
    let last = traces.last().unwrap();
    assert_eq!(last.syscall_name, "sys_read");
    assert_eq!(last.result, Ok(3));
}

#[test]
fn file_calls_on_bad_descriptors_fail_untraced() {
    let mut sys = boot();
    let before = get_syscall_traces(&sys.kernel.syscalls).len();
    let r = sys_call(&mut sys.kernel, &mut sys.vfs, &mut sys.dev, &mut sys.net, 3, 999, 0, 4);
    assert_eq!(r, Err("Invalid file descriptor".to_string()));
    let w = sys_call(&mut sys.kernel, &mut sys.vfs, &mut sys.dev, &mut sys.net, 4, 999, 0, 4);
    assert_eq!(w, Err("Invalid file descriptor".to_string()));
    assert_eq!(get_syscall_traces(&sys.kernel.syscalls).len(), before);
}

/// Starts a process owned by `uid` with `caps` and makes it the running one.
fn run_as(sys: &mut System, uid: u32, caps: Vec<Capability>) -> u32 {
    let pid = create_process(&mut sys.kernel.tasks, "student_shell", ProcessPriority::Normal, caps, uid).unwrap();
    set_current_pid(&mut sys.kernel.tasks, pid);
    pid
}

fn state_of(sys: &System, pid: u32) -> ProcessState {
    get_process_list(&sys.kernel.tasks).into_iter().find(|p| p.pid == pid).unwrap().state
}

#[test]
fn exit_returns_zero_and_kills_the_caller() {
    let mut sys = boot();
    let pid = run_as(&mut sys, 1001, vec![]);
    let r = sys_call(&mut sys.kernel, &mut sys.vfs, &mut sys.dev, &mut sys.net, 1, 5, 0, 0);
    assert_eq!(r, Ok(0));
    assert_eq!(state_of(&sys, pid), ProcessState::Killed);
    let last = get_syscall_traces(&sys.kernel.syscalls).pop().unwrap();
    assert_eq!(last.syscall_name, "sys_exit");
    assert_eq!(last.pid, pid);
}

#[test]
fn fork_creates_a_ready_child_task() {
    let mut sys = boot();
    let pid = run_as(&mut sys, 1001, vec![Capability::FileWrite]);
    let r = sys_call(&mut sys.kernel, &mut sys.vfs, &mut sys.dev, &mut sys.net, 2, 0, 0, 0);
    assert_eq!(r, Ok((pid + 1) as u64));
    let child = get_process_list(&sys.kernel.tasks).into_iter().find(|p| p.pid == pid + 1).unwrap();
    assert_eq!(child.name, "child_task");
    assert_eq!(child.state, ProcessState::Ready);
    assert_eq!(child.owner_uid, 1001);
    assert_eq!(child.capabilities, vec![Capability::FileWrite]);
}

#[test]
fn student_write_outside_workspace_is_refused_and_audited() {
    let mut sys = boot();
    let fd = vfs_open(&mut sys.vfs, "/courses/notes.txt", true, true, 0).unwrap();
    run_as(&mut sys, 1001, vec![]);
    let audits = get_security_audit_logs(&sys.kernel.audit).len();
    let w = sys_call(&mut sys.kernel, &mut sys.vfs, &mut sys.dev, &mut sys.net, 4, fd as u64, 0, 4);
    assert_eq!(w, Err("MAC Violation: Students may only write inside their own workspace or /shared".to_string()));
    let logs = get_security_audit_logs(&sys.kernel.audit);
    assert_eq!(logs.len(), audits + 1);
    let e = logs.last().unwrap();
    assert_eq!(e.user_uid, 1001);
    assert_eq!(e.action, "WRITE_OUTSIDE_WORKSPACE");
    assert_eq!(e.status, "DENIED");
    assert_eq!(e.details, "Attempt to write outside workspace: /courses/notes.txt");
}

#[test]
fn student_write_inside_workspace_or_shared_succeeds() {
    let mut sys = boot();
    run_as(&mut sys, 1001, vec![]);
    let fd = vfs_open(&mut sys.vfs, "/students/student1001/a.txt", true, true, 1001).unwrap();
    let w = sys_call(&mut sys.kernel, &mut sys.vfs, &mut sys.dev, &mut sys.net, 4, fd as u64, 0, 3);
    assert_eq!(w, Ok(3));
    let fd2 = vfs_open(&mut sys.vfs, "/shared/b.txt", true, true, 1001).unwrap();
    let w2 = sys_call(&mut sys.kernel, &mut sys.vfs, &mut sys.dev, &mut sys.net, 4, fd2 as u64, 0, 2);
    assert_eq!(w2, Ok(2));
}

#[test]
fn zero_length_read_of_stdin_with_a_key_queued_reads_nothing() {
    let mut sys = boot();
    push_key_event(&mut sys.dev.input, KeyEvent { code: KeyCode::Char('x'), shift: false, ctrl: false, alt: false });
    let r = sys_call(&mut sys.kernel, &mut sys.vfs, &mut sys.dev, &mut sys.net, 3, 0, 0, 0);
    assert_eq!(r, Ok(0));
}

#[test]
fn yield_switches_to_a_ready_process() {
    let mut sys = boot();
    let other = create_process(&mut sys.kernel.tasks, "worker", ProcessPriority::Normal, vec![], 1001).unwrap();
    let r = sys_call(&mut sys.kernel, &mut sys.vfs, &mut sys.dev, &mut sys.net, 5, 0, 0, 0);
    assert_eq!(r, Ok(0));
    assert_eq!(sys.kernel.tasks.current_pid, other);
    assert_eq!(state_of(&sys, other), ProcessState::Running);
}

#[test]
fn kill_with_capability_kills_the_target() {
    let mut sys = boot();
    let target = create_process(&mut sys.kernel.tasks, "victim", ProcessPriority::Normal, vec![], 1001).unwrap();
    run_as(&mut sys, 1001, vec![Capability::ProcessKill]);
    let r = sys_call(&mut sys.kernel, &mut sys.vfs, &mut sys.dev, &mut sys.net, 6, target as u64, 0, 0);
    assert_eq!(r, Ok(0));
    assert_eq!(state_of(&sys, target), ProcessState::Killed);
}

#[test]
fn kill_without_capability_is_refused() {
    let mut sys = boot();
    let target = create_process(&mut sys.kernel.tasks, "victim", ProcessPriority::Normal, vec![], 1001).unwrap();
    run_as(&mut sys, 1001, vec![]);
    let r = sys_call(&mut sys.kernel, &mut sys.vfs, &mut sys.dev, &mut sys.net, 6, target as u64, 0, 0);
    assert_eq!(r, Err("Operation not permitted: lacks ProcessKill capability".to_string()));
    assert_eq!(state_of(&sys, target), ProcessState::Ready);
}

#[test]
fn socket_audits_a_network_raw_check_and_binds() {
    let mut sys = boot();
    let pid = run_as(&mut sys, 1001, vec![]);
    let audits = get_security_audit_logs(&sys.kernel.audit).len();
    let r = sys_call(&mut sys.kernel, &mut sys.vfs, &mut sys.dev, &mut sys.net, 7, 8123, 0, 0);
    assert_eq!(r, Ok(0));
    let logs = get_security_audit_logs(&sys.kernel.audit);
    assert_eq!(logs.len(), audits + 1);
    let e = logs.last().unwrap();
    assert_eq!(e.pid, pid);
    assert_eq!(e.action, "CAPABILITY_CHECK:NetworkRaw");
    assert_eq!(e.status, "DENIED");
    let again = sys_call(&mut sys.kernel, &mut sys.vfs, &mut sys.dev, &mut sys.net, 7, 8123, 0, 0);
    assert_eq!(again, Err("Port already in use".to_string()));
}
