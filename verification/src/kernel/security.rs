//! Security auditing, capability checks and mandatory access control on paths.
use vstd::prelude::*;
use crate::text::{is_prefix, trim_spec, replace_char_spec, decimal};
use crate::text::{str_to_chars, chars_to_string, push_str, push_chars, push_decimal, starts_with, trim_chars, replace_char};
use crate::kernel::task::{Capability, Process, TaskTable, find_process, has_pid};

verus! {

/// Entries kept in the audit log before the oldest is dropped.
pub const AUDIT_LOG_LIMIT: usize = 500;

/// Timestamp stamped on every audit record.
pub const AUDIT_TIMESTAMP: u64 = 98765432;

/// One audited security decision.
#[derive(Debug)]
pub struct AuditLogEntry {
    pub timestamp: u64,
    pub pid: u32,
    pub user_uid: u32,
    pub action: String,
    pub status: String,
    pub details: String,
}

/// What an audit record says: pid, uid, action, status and details.
pub type AuditView = (u32, u32, Seq<char>, Seq<char>, Seq<char>);

/// The view of one audit record.
pub open spec fn audit_view(e: AuditLogEntry) -> AuditView {
    (e.pid, e.user_uid, e.action@, e.status@, e.details@)
}

/// The views of a list of audit records.
pub open spec fn audit_views(s: Seq<AuditLogEntry>) -> Seq<AuditView> {
    s.map_values(|e: AuditLogEntry| audit_view(e))
}

/// The audit log after recording `e`: past the limit the oldest record is dropped first.
pub open spec fn audit_push(log: Seq<AuditView>, e: AuditView) -> Seq<AuditView> {
    if log.len() > AUDIT_LOG_LIMIT { log.drop_first().push(e) } else { log.push(e) }
}

/// The system audit log.
pub struct AuditLog {
    pub entries: Vec<AuditLogEntry>,
}

impl AuditLog {
    /// Records carry the fixed timestamp and the log never exceeds one record past the limit.
    pub open spec fn wf(&self) -> bool {
        &&& self.entries@.len() <= AUDIT_LOG_LIMIT + 1
        &&& forall|i: int| 0 <= i < self.entries@.len() ==> (#[trigger] self.entries@[i]).timestamp == AUDIT_TIMESTAMP
    }

    /// The recorded decisions, oldest first.
    pub open spec fn view(&self) -> Seq<AuditView> {
        audit_views(self.entries@)
    }
}

/// An empty audit log.
pub fn init_security() -> (log: AuditLog)
    ensures
        log.wf(),
        log.view() == Seq::<AuditView>::empty(),
{
    let log = AuditLog { entries: Vec::new() };
    assert(audit_views(log.entries@) =~= Seq::<AuditView>::empty());
    log
}

/// Records one security decision.
pub fn log_security_event(log: &mut AuditLog, pid: u32, uid: u32, action: &str, status: &str, details: &str)
    requires
        old(log).wf(),
    ensures
        final(log).wf(),
        final(log).view() == audit_push(old(log).view(), (pid, uid, action@, status@, details@)),
{
    let ghost v0 = log.entries@;
    if log.entries.len() > AUDIT_LOG_LIMIT {
        log.entries.remove(0);
    }
    let ghost v1 = log.entries@;
    log.entries.push(AuditLogEntry {
        timestamp: AUDIT_TIMESTAMP,
        pid,
        user_uid: uid,
        action: String::from_str(action),
        status: String::from_str(status),
        details: String::from_str(details),
    });
    proof {
        let e = (pid, uid, action@, status@, details@);
        if v0.len() > AUDIT_LOG_LIMIT {
            assert(v1 =~= v0.drop_first());
            assert(audit_views(v1) =~= audit_views(v0).drop_first());
        } else {
            assert(v1 == v0);
        }
        assert(audit_views(log.entries@) =~= audit_views(v1).push(e));
        assert forall|i: int| 0 <= i < log.entries@.len() implies (#[trigger] log.entries@[i]).timestamp == AUDIT_TIMESTAMP by {
            if i < log.entries@.len() - 1 {
                assert(log.entries@[i] == v1[i]);
                if v0.len() > AUDIT_LOG_LIMIT {
                    assert(v1[i] == v0[i + 1]);
                }
            }
        }
    }
}

/// The name a capability is audited under.
pub open spec fn capability_name(c: Capability) -> Seq<char> {
    match c {
        Capability::SysAdmin => "SysAdmin"@,
        Capability::FileRead => "FileRead"@,
        Capability::FileWrite => "FileWrite"@,
        Capability::NetworkRaw => "NetworkRaw"@,
        Capability::ProcessKill => "ProcessKill"@,
    }
}

/// The name a capability is audited under, as text.
pub fn capability_str(c: Capability) -> (r: &'static str)
    ensures
        r@ == capability_name(c),
{
    proof {
        reveal_strlit("SysAdmin");
        reveal_strlit("FileRead");
        reveal_strlit("FileWrite");
        reveal_strlit("NetworkRaw");
        reveal_strlit("ProcessKill");
    }
    match c {
        Capability::SysAdmin => "SysAdmin",
        Capability::FileRead => "FileRead",
        Capability::FileWrite => "FileWrite",
        Capability::NetworkRaw => "NetworkRaw",
        Capability::ProcessKill => "ProcessKill",
    }
}

/// Index of the process `pid` in the table (meaningful when it exists).
pub open spec fn pid_index(s: Seq<Process>, pid: u32) -> int {
    choose|i: int| 0 <= i < s.len() && s[i].pid == pid
}

/// Whether `pid` may use `cap`: it exists and is owned by root or holds the capability.
pub open spec fn capability_granted(tt: TaskTable, pid: u32, cap: Capability) -> bool {
    has_pid(tt.procs@, pid) && {
        let p = tt.procs@[pid_index(tt.procs@, pid)];
        p.owner_uid == 0 || p.capabilities@.contains(cap)
    }
}

/// Whether a refused capability check is audited: the process exists, is not root-owned and lacks it.
pub open spec fn capability_denied(tt: TaskTable, pid: u32, cap: Capability) -> bool {
    has_pid(tt.procs@, pid) && !capability_granted(tt, pid, cap)
}

/// The audit log after checking that `pid` holds `cap`: a refusal of an existing process
/// adds a record naming it.
pub open spec fn capability_audit(log: Seq<AuditView>, tt: TaskTable, pid: u32, cap: Capability) -> Seq<AuditView> {
    if capability_denied(tt, pid, cap) {
        let p = tt.procs@[pid_index(tt.procs@, pid)];
        audit_push(log, (pid, p.owner_uid, "CAPABILITY_CHECK:"@ + capability_name(cap), "DENIED"@,
            "Process '"@ + p.name@ + "' lack capabilities"@))
    } else {
        log
    }
}

/// Whether `v` holds `c`.
fn has_capability(v: &Vec<Capability>, c: Capability) -> (r: bool)
    ensures
        r == v@.contains(c),
{
    let mut i: usize = 0;
    while i < v.len()
        invariant
            i <= v.len(),
            forall|k: int| 0 <= k < i ==> v@[k] != c,
        decreases v.len() - i,
    {
        if v[i] == c {
            assert(v@[i as int] == c);
            return true;
        }
        i = i + 1;
    }
    false
}

/// Checks that `pid` holds `cap` (root-owned processes hold every capability); a refusal
/// of an existing process is audited.
pub fn check_capability(log: &mut AuditLog, tt: &TaskTable, pid: u32, cap: Capability) -> (r: bool)
    requires
        old(log).wf(),
        tt.wf(),
    ensures
        final(log).wf(),
        r == capability_granted(*tt, pid, cap),
        final(log).view() == capability_audit(old(log).view(), *tt, pid, cap),
{
    match find_process(&tt.procs, pid) {
        None => false,
        Some(i) => {
            let p = &tt.procs[i];
            proof {
                let j = pid_index(tt.procs@, pid);
                assert(0 <= j < tt.procs@.len() && tt.procs@[j].pid == pid);
                if j != i as int {
                    if j < i as int { assert(tt.procs@[j].pid < tt.procs@[i as int].pid); }
                    else { assert(tt.procs@[i as int].pid < tt.procs@[j].pid); }
                }
            }
            if p.owner_uid == 0 {
                return true;
            }
            let held = has_capability(&p.capabilities, cap);
            if !held {
                let mut action: Vec<char> = Vec::new();
                push_str(&mut action, "CAPABILITY_CHECK:");
                push_str(&mut action, capability_str(cap));
                let mut details: Vec<char> = Vec::new();
                push_str(&mut details, "Process '");
                let name = str_to_chars(p.name.as_str());
                push_chars(&mut details, name.as_slice());
                push_str(&mut details, "' lack capabilities");
                let a = chars_to_string(action.as_slice());
                let d = chars_to_string(details.as_slice());
                log_security_event(log, pid, p.owner_uid, a.as_str(), "DENIED", d.as_str());
            }
            held
        },
    }
}

/// The path MAC rules look at: trimmed, with backslashes turned into slashes.
pub open spec fn mac_clean_path(path: Seq<char>) -> Seq<char> {
    replace_char_spec(trim_spec(path), '\\', '/')
}

/// Whether the cleaned path lies under an immutable system directory.
pub open spec fn is_system_path(p: Seq<char>) -> bool {
    is_prefix("/bin"@, p) || is_prefix("/etc"@, p) || is_prefix("/boot"@, p)
}

/// The workspace a non-root user may reach under `/students`.
pub open spec fn student_workspace(uid: u32) -> Seq<char> {
    "/students/student"@ + decimal(uid as nat)
}

/// Which MAC rule, if any, forbids `uid` the cleaned path `p`: 1 for a write to a system
/// directory, 2 for another student's workspace, 3 for a write outside the user's own
/// workspace and `/shared`.
pub open spec fn mac_violation(uid: u32, p: Seq<char>, write: bool) -> int {
    if uid == 0 {
        0
    } else if write && is_system_path(p) {
        1
    } else if is_prefix("/students"@, p) && !is_prefix(student_workspace(uid), p) {
        2
    } else if write && !is_prefix(student_workspace(uid), p) && !is_prefix("/shared"@, p) {
        3
    } else {
        0
    }
}

/// The message of a refusal under MAC rule `v` (1 to 3).
pub open spec fn mac_message(v: int) -> Seq<char> {
    if v == 1 {
        "MAC Violation: Writing to immutable system directories is forbidden"@
    } else if v == 2 {
        "MAC Violation: Cannot access other student workspace directory"@
    } else {
        "MAC Violation: Students may only write inside their own workspace or /shared"@
    }
}

/// The audit record of a refusal of the cleaned path `p` to `uid` under MAC rule `v` (1 to 3).
pub open spec fn mac_record(uid: u32, p: Seq<char>, v: int) -> AuditView {
    if v == 1 {
        (0u32, uid, "WRITE_SYSTEM_DIR"@, "DENIED"@, "Attempt to write system directory: "@ + p)
    } else if v == 2 {
        (0u32, uid, "MAC_VIOLATION"@, "DENIED"@, "Attempt to cross-access workspace: "@ + p)
    } else {
        (0u32, uid, "WRITE_OUTSIDE_WORKSPACE"@, "DENIED"@, "Attempt to write outside workspace: "@ + p)
    }
}

/// Enforces mandatory access control: root passes; others may not write under /bin, /etc
/// or /boot, nor reach a workspace under /students other than their own, nor write anywhere
/// but their own workspace and /shared. Violations are audited.
pub fn enforce_mac_path(log: &mut AuditLog, uid: u32, path: &str, write_requested: bool) -> (r: Result<(), String>)
    requires
        old(log).wf(),
    ensures
        final(log).wf(),
        ({
            let p = mac_clean_path(path@);
            let v = mac_violation(uid, p, write_requested);
            &&& v == 0 ==> r is Ok && final(log).view() == old(log).view()
            &&& v != 0 ==> (r matches Err(e) && e@ == mac_message(v))
                && final(log).view() == audit_push(old(log).view(), mac_record(uid, p, v))
        }),
{
    if uid == 0 {
        return Ok(());
    }
    let raw = str_to_chars(path);
    let t = trim_chars(raw.as_slice());
    let clean = replace_char(t.as_slice(), '\\', '/');
    let bin = str_to_chars("/bin");
    let etc = str_to_chars("/etc");
    let boot = str_to_chars("/boot");
    if write_requested && (starts_with(clean.as_slice(), bin.as_slice()) || starts_with(clean.as_slice(), etc.as_slice())
        || starts_with(clean.as_slice(), boot.as_slice())) {
        let mut d: Vec<char> = Vec::new();
        push_str(&mut d, "Attempt to write system directory: ");
        push_chars(&mut d, clean.as_slice());
        let ds = chars_to_string(d.as_slice());
        log_security_event(log, 0, uid, "WRITE_SYSTEM_DIR", "DENIED", ds.as_str());
        return Err(String::from_str("MAC Violation: Writing to immutable system directories is forbidden"));
    }
    let students = str_to_chars("/students");
    let mut expected: Vec<char> = Vec::new();
    push_str(&mut expected, "/students/student");
    push_decimal(&mut expected, uid as u64);
    let own = starts_with(clean.as_slice(), expected.as_slice());
    if starts_with(clean.as_slice(), students.as_slice()) && !own {
        let mut d: Vec<char> = Vec::new();
        push_str(&mut d, "Attempt to cross-access workspace: ");
        push_chars(&mut d, clean.as_slice());
        let ds = chars_to_string(d.as_slice());
        log_security_event(log, 0, uid, "MAC_VIOLATION", "DENIED", ds.as_str());
        return Err(String::from_str("MAC Violation: Cannot access other student workspace directory"));
    }
    let shared = str_to_chars("/shared");
    if write_requested && !own && !starts_with(clean.as_slice(), shared.as_slice()) {
        let mut d: Vec<char> = Vec::new();
        push_str(&mut d, "Attempt to write outside workspace: ");
        push_chars(&mut d, clean.as_slice());
        let ds = chars_to_string(d.as_slice());
        log_security_event(log, 0, uid, "WRITE_OUTSIDE_WORKSPACE", "DENIED", ds.as_str());
        return Err(String::from_str("MAC Violation: Students may only write inside their own workspace or /shared"));
    }
    Ok(())
}

/// A copy of one audit record.
fn copy_entry(e: &AuditLogEntry) -> (r: AuditLogEntry)
    ensures
        audit_view(r) == audit_view(*e),
        r.timestamp == e.timestamp,
{
    AuditLogEntry {
        timestamp: e.timestamp,
        pid: e.pid,
        user_uid: e.user_uid,
        action: e.action.clone(),
        status: e.status.clone(),
        details: e.details.clone(),
    }
}

/// A copy of the audit log, oldest record first.
pub fn get_security_audit_logs(log: &AuditLog) -> (r: Vec<AuditLogEntry>)
    ensures
        audit_views(r@) == log.view(),
        forall|i: int| 0 <= i < r@.len() ==> (#[trigger] r@[i]).timestamp == log.entries@[i].timestamp,
{
    let mut r: Vec<AuditLogEntry> = Vec::new();
    let mut i: usize = 0;
    while i < log.entries.len()
        invariant
            i <= log.entries@.len(),
            audit_views(r@) == audit_views(log.entries@.subrange(0, i as int)),
            r@.len() == i,
            forall|k: int| 0 <= k < i ==> (#[trigger] r@[k]).timestamp == log.entries@[k].timestamp,
        decreases log.entries@.len() - i,
    {
        let ghost prev = r@;
        r.push(copy_entry(&log.entries[i]));
        i = i + 1;
        assert(audit_views(r@) =~= audit_views(prev).push(audit_view(log.entries@[i - 1])));
        assert(audit_views(log.entries@.subrange(0, i as int)) =~= audit_views(log.entries@.subrange(0, i - 1)).push(audit_view(log.entries@[i - 1])));
    }
    assert(log.entries@.subrange(0, i as int) =~= log.entries@);
    r
}

} // verus!
