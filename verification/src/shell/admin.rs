//! The shell's system commands: packages, snapshots, message queues, mutexes and the
//! deadlock demonstration.
use vstd::prelude::*;
use crate::text::{str_to_chars, chars_to_string, push_str, push_chars, push_decimal, str_eq, decimal};
use crate::system::System;
use crate::kernel::syscall::sys_call;
use crate::kernel::ipc::{has_queue, queue_index, queues_view, msgs_view, recv_spec, send_spec, create_queue,
    send_message, recv_message, get_queues};
use crate::kernel::mutex::{create_mutex, run_deadlock_simulation, resolve_deadlock};
use crate::filesystem::novafs::{create_snapshot, restore_snapshot, snapshot_of, inode_lookup};
use crate::userspace::novapkg::{PackageDatabase, list_installed, install_package, remove_package, names_view,
    is_available, not_found_message};
use crate::shell::session::strings_view;
use crate::shell::format::join_spec;
use crate::shell::commands::{join_words};
use crate::shell::numbers::{parse_unsigned, parse_unsigned_str};

verus! {

/// How `{:?}` writes a character inside a quoted string: backslash escapes for the quote,
/// the backslash, newline, carriage return, tab and NUL; other characters as they are.
pub open spec fn escape_char(c: char) -> Seq<char> {
    if c == '"' { seq!['\\', '"'] }
    else if c == '\\' { seq!['\\', '\\'] }
    else if c == '\n' { seq!['\\', 'n'] }
    else if c == '\r' { seq!['\\', 'r'] }
    else if c == '\t' { seq!['\\', 't'] }
    else if c == '\0' { seq!['\\', '0'] }
    else { seq![c] }
}

/// `s` with each character escaped.
pub open spec fn escape_seq(s: Seq<char>) -> Seq<char>
    decreases s.len(),
{
    if s.len() == 0 { Seq::empty() } else { escape_seq(s.drop_last()) + escape_char(s.last()) }
}

/// `s` quoted as `{:?}` writes it.
pub open spec fn debug_str(s: Seq<char>) -> Seq<char> {
    seq!['"'] + escape_seq(s) + seq!['"']
}

/// The quoted items of `v`, separated by `, `.
pub open spec fn debug_items(v: Seq<Seq<char>>) -> Seq<char>
    decreases v.len(),
{
    if v.len() == 0 {
        Seq::empty()
    } else if v.len() == 1 {
        debug_str(v[0])
    } else {
        debug_items(v.drop_last()) + ", "@ + debug_str(v.last())
    }
}

/// A list of names as `{:?}` writes it: `["a", "b"]`.
pub open spec fn debug_list(v: Seq<Seq<char>>) -> Seq<char> {
    seq!['['] + debug_items(v) + seq![']']
}

/// Appends `s` quoted and escaped.
fn push_debug_str(out: &mut Vec<char>, s: &str)
    ensures
        final(out)@ == old(out)@ + debug_str(s@),
{
    let cs = str_to_chars(s);
    out.push('"');
    let ghost start = out@;
    let mut i: usize = 0;
    while i < cs.len()
        invariant
            cs@ == s@,
            i <= cs@.len(),
            out@ == start + escape_seq(s@.subrange(0, i as int)),
        decreases cs@.len() - i,
    {
        let ghost before = out@;
        let c = cs[i];
        if c == '"' { out.push('\\'); out.push('"'); }
        else if c == '\\' { out.push('\\'); out.push('\\'); }
        else if c == '\n' { out.push('\\'); out.push('n'); }
        else if c == '\r' { out.push('\\'); out.push('r'); }
        else if c == '\t' { out.push('\\'); out.push('t'); }
        else if c == '\0' { out.push('\\'); out.push('0'); }
        else { out.push(c); }
        assert(s@.subrange(0, i + 1).drop_last() =~= s@.subrange(0, i as int));
        assert(out@ =~= before + escape_char(c));
        i = i + 1;
    }
    assert(s@.subrange(0, cs@.len() as int) =~= s@);
    out.push('"');
    assert(out@ =~= old(out)@ + debug_str(s@));
}

/// Appends the names as `{:?}` writes the list.
fn push_debug_list(out: &mut Vec<char>, v: &Vec<String>)
    ensures
        final(out)@ == old(out)@ + debug_list(strings_view(v@)),
{
    let ghost sv = strings_view(v@);
    out.push('[');
    let ghost start = out@;
    let mut i: usize = 0;
    while i < v.len()
        invariant
            sv == strings_view(v@),
            i <= v@.len(),
            out@ == start + debug_items(sv.subrange(0, i as int)),
        decreases v@.len() - i,
    {
        let ghost before = out@;
        if i > 0 {
            push_str(out, ", ");
        }
        push_debug_str(out, v[i].as_str());
        assert(sv.subrange(0, i + 1).drop_last() =~= sv.subrange(0, i as int));
        assert(sv[i as int] == v@[i as int]@);
        if i == 0 {
            assert(debug_items(sv.subrange(0, 1)) == debug_str(sv[0]));
        }
        assert(out@ =~= start + debug_items(sv.subrange(0, i + 1)));
        i = i + 1;
    }
    assert(sv.subrange(0, v@.len() as int) =~= sv);
    out.push(']');
    assert(out@ =~= old(out)@ + debug_list(sv));
}

/// The installed packages, one line each.
pub open spec fn package_lines(v: Seq<Seq<char>>) -> Seq<char>
    decreases v.len(),
{
    if v.len() == 0 { Seq::empty() } else { package_lines(v.drop_last()) + "  - "@ + v.last() + "\n"@ }
}

/// What `novapkg` with arguments `av` prints and does to the installed packages (`s0`
/// before, `s1` after).
pub open spec fn novapkg_post(s0: System, s1: System, av: Seq<Seq<char>>, r: Seq<char>) -> bool {
    let inst = s0.pkgs.installed();
    let repo = s0.pkgs.available();
    if av.len() == 0 {
        r == "Usage: novapkg [install|remove|list] <package>"@ && s1.pkgs.installed() == inst
    } else if av[0] == "list"@ {
        r == "Installed packages:\n"@ + package_lines(inst) && s1.pkgs.installed() == inst
    } else if av[0] == "install"@ {
        if av.len() < 2 {
            r == "Usage: novapkg install <package>"@ && s1.pkgs.installed() == inst
        } else if !is_available(repo, av[1]) {
            r == "NovaPkg Error: "@ + not_found_message(av[1]) && s1.pkgs.installed() == inst
        } else if inst.contains(av[1]) {
            r == "NovaPkg Error: "@ + ("Package '"@ + av[1] + "' is already installed"@) && s1.pkgs.installed() == inst
        } else {
            let added = s1.pkgs.installed().subrange(inst.len() as int, s1.pkgs.installed().len() as int);
            ||| (r == "Installation complete. Installed packages: "@ + debug_list(added)
                && s1.pkgs.installed() == inst + added
                && crate::userspace::novapkg::valid_install(repo, inst, av[1], added))
            ||| (crate::text::is_prefix("NovaPkg Error: "@, r) && s1.pkgs.installed() == inst)
        }
    } else if av[0] == "remove"@ {
        if av.len() < 2 {
            r == "Usage: novapkg remove <package>"@ && s1.pkgs.installed() == inst
        } else if !inst.contains(av[1]) {
            r == "NovaPkg Error: "@ + ("Package '"@ + av[1] + "' is not installed"@) && s1.pkgs.installed() == inst
        } else if forall|i: int| 0 <= i < inst.len()
            ==> !#[trigger] crate::userspace::novapkg::is_dependent(repo, inst[i], av[1]) {
            r == "Package '"@ + av[1] + "' removed successfully."@
                && s1.pkgs.installed() == inst.remove(inst.index_of(av[1]))
        } else {
            let i = choose|i: int| 0 <= i < inst.len() && crate::userspace::novapkg::is_dependent(repo, inst[i], av[1])
                && forall|k: int| 0 <= k < i ==> !crate::userspace::novapkg::is_dependent(repo, inst[k], av[1]);
            r == "NovaPkg Error: "@ + ("Cannot remove '"@ + av[1] + "': Package '"@ + inst[i] + "' depends on it"@)
                && s1.pkgs.installed() == inst
        }
    } else {
        r == "Unknown novapkg action."@ && s1.pkgs.installed() == inst
    }
}

/// `novapkg list|install|remove`: the package manager. Installing also traces binding a
/// socket on port 80.
pub fn cmd_novapkg(sys: &mut System, args: &Vec<String>) -> (r: String)
    requires
        old(sys).wf(),
    ensures
        final(sys).wf(),
        crate::system::aside_unchanged(*old(sys), *final(sys)),
        final(sys).vfs.next_fd == old(sys).vfs.next_fd,
        final(sys).vfs.fs == old(sys).vfs.fs,
        final(sys).dev.input == old(sys).dev.input,
        final(sys).kernel.tasks.next_pid == old(sys).kernel.tasks.next_pid,
        final(sys).kernel.mutexes == old(sys).kernel.mutexes,
        final(sys).kernel.ipc == old(sys).kernel.ipc,
        final(sys).users == old(sys).users,
        final(sys).shell == old(sys).shell,
        final(sys).pkgs.available() == old(sys).pkgs.available(),
        novapkg_post(*old(sys), *final(sys), strings_view(args@), r@),
{
    let ghost av = strings_view(args@);
    let ghost inst = sys.pkgs.installed();
    if args.len() == 0 {
        return String::from_str("Usage: novapkg [install|remove|list] <package>");
    }
    assert(av[0] == args@[0]@);
    let mut out: Vec<char> = Vec::new();
    if str_eq(args[0].as_str(), "list") {
        let installed = list_installed(&sys.pkgs);
        let ghost iv = strings_view(installed@);
        assert(iv =~= names_view(installed@));
        push_str(&mut out, "Installed packages:\n");
        let ghost head = out@;
        let mut i: usize = 0;
        while i < installed.len()
            invariant
                iv == strings_view(installed@),
                iv == inst,
                i <= installed@.len(),
                out@ == head + package_lines(iv.subrange(0, i as int)),
            decreases installed@.len() - i,
        {
            assert(iv.subrange(0, i + 1).drop_last() =~= iv.subrange(0, i as int));
            assert(iv[i as int] == installed@[i as int]@);
            push_str(&mut out, "  - ");
            push_str(&mut out, installed[i].as_str());
            push_str(&mut out, "\n");
            i = i + 1;
            assert(out@ =~= head + package_lines(iv.subrange(0, i as int)));
        }
        assert(iv.subrange(0, installed@.len() as int) =~= iv);
        return chars_to_string(out.as_slice());
    }
    if str_eq(args[0].as_str(), "install") {
        if args.len() < 2 {
            return String::from_str("Usage: novapkg install <package>");
        }
        assert(av[1] == args@[1]@);
        let _ = sys_call(&mut sys.kernel, &mut sys.vfs, &mut sys.dev, &mut sys.net, 7, 80, 0, 0);
        match install_package(&mut sys.pkgs, args[1].as_str()) {
            Ok(installed) => {
                push_str(&mut out, "Installation complete. Installed packages: ");
                push_debug_list(&mut out, &installed);
                proof {
                    let fin = sys.pkgs.installed();
                    assert(strings_view(installed@) =~= names_view(installed@));
                    assert(fin.subrange(inst.len() as int, fin.len() as int) =~= names_view(installed@));
                }
            },
            Err(e) => {
                push_str(&mut out, "NovaPkg Error: ");
                push_str(&mut out, e.as_str());
                assert(out@.subrange(0, "NovaPkg Error: "@.len() as int) =~= "NovaPkg Error: "@);
            },
        }
        return chars_to_string(out.as_slice());
    }
    if str_eq(args[0].as_str(), "remove") {
        if args.len() < 2 {
            return String::from_str("Usage: novapkg remove <package>");
        }
        assert(av[1] == args@[1]@);
        match remove_package(&mut sys.pkgs, args[1].as_str()) {
            Ok(()) => {
                push_str(&mut out, "Package '");
                push_str(&mut out, args[1].as_str());
                push_str(&mut out, "' removed successfully.");
            },
            Err(e) => {
                push_str(&mut out, "NovaPkg Error: ");
                push_str(&mut out, e.as_str());
                assert(out@.subrange(0, "NovaPkg Error: "@.len() as int) =~= "NovaPkg Error: "@);
            },
        }
        return chars_to_string(out.as_slice());
    }
    String::from_str("Unknown novapkg action.")
}

/// The snapshot number `snapshot` takes: its second argument in decimal, else 1.
pub open spec fn snapshot_id_arg(arg: Seq<char>) -> u32 {
    match parse_unsigned(arg, 10, 0xffff_ffff) {
        Some(v) => v as u32,
        None => 1u32,
    }
}

/// What `snapshot` did to the machine and answered.
pub open spec fn snapshot_post(s0: System, s1: System, args: Seq<Seq<char>>, r: Seq<char>) -> bool {
    &&& crate::system::aside_unchanged(s0, s1)
    &&& s1.vfs.files() == s0.vfs.files()
    &&& s1.vfs.next_fd == s0.vfs.next_fd
    &&& s1.vfs.mounts == s0.vfs.mounts
    &&& s1.dev.input == s0.dev.input
    &&& s1.kernel == s0.kernel
    &&& s1.users == s0.users
    &&& s1.pkgs == s0.pkgs
    &&& s1.shell == s0.shell
    &&& ({
        let av = args;
        let fs0 = s0.vfs.fs;
        if av.len() < 2 {
            r == "Usage: snapshot <create|restore> <snapshot_id>"@
        } else {
            let id = snapshot_id_arg(av[1]);
            if av[0] == "create"@ {
                match inode_lookup(fs0.meta.view(), 0) {
                    Err(e) => r == "Failed to create snapshot: "@ + e + "\n"@,
                    Ok(_) => r == "Snapshot "@ + decimal(id as nat) + " created successfully.\n"@
                        && snapshot_of(s1.vfs.fs, id) == Some((s0.dev.disk.view(), fs0.meta.view())),
                }
            } else if av[0] == "restore"@ {
                match snapshot_of(fs0, id) {
                    None => r == "Failed to restore snapshot: "@ + "Snapshot ID not found"@ + "\n"@,
                    Some((d, m)) => r == "Snapshot "@ + decimal(id as nat) + " restored successfully. Filesystem state reverted.\n"@
                        && s1.dev.disk.view() == d && s1.vfs.fs.meta.view() == m,
                }
            } else {
                r == "Unknown snapshot command. Choose 'create' or 'restore'.\n"@
            }
        }
    })
}

/// `snapshot create|restore <id>`: saves or brings back the disk and its metadata.
pub fn cmd_snapshot(sys: &mut System, args: &Vec<String>) -> (r: String)
    requires
        old(sys).wf(),
    ensures
        final(sys).wf(),
        snapshot_post(*old(sys), *final(sys), strings_view(args@), r@),
{
    let ghost av = strings_view(args@);
    if args.len() < 2 {
        return String::from_str("Usage: snapshot <create|restore> <snapshot_id>");
    }
    assert(av[0] == args@[0]@ && av[1] == args@[1]@);
    let id: u32 = match parse_unsigned_str(args[1].as_str(), 10, 0xffff_ffff) {
        Some(v) => v as u32,
        None => 1,
    };
    let mut out: Vec<char> = Vec::new();
    if str_eq(args[0].as_str(), "create") {
        match create_snapshot(&mut sys.vfs.fs, &sys.dev.disk, id) {
            Ok(()) => {
                push_str(&mut out, "Snapshot ");
                push_decimal(&mut out, id as u64);
                push_str(&mut out, " created successfully.\n");
            },
            Err(e) => {
                push_str(&mut out, "Failed to create snapshot: ");
                push_str(&mut out, e.as_str());
                push_str(&mut out, "\n");
            },
        }
        chars_to_string(out.as_slice())
    } else if str_eq(args[0].as_str(), "restore") {
        match restore_snapshot(&mut sys.vfs.fs, &mut sys.dev.disk, id) {
            Ok(()) => {
                push_str(&mut out, "Snapshot ");
                push_decimal(&mut out, id as u64);
                push_str(&mut out, " restored successfully. Filesystem state reverted.\n");
            },
            Err(e) => {
                push_str(&mut out, "Failed to restore snapshot: ");
                push_str(&mut out, e.as_str());
                push_str(&mut out, "\n");
            },
        }
        chars_to_string(out.as_slice())
    } else {
        String::from_str("Unknown snapshot command. Choose 'create' or 'restore'.\n")
    }
}

/// Builds `a + b + c` as a `String`.
fn text3(a: &str, b: &str, c: &str) -> (r: String)
    ensures
        r@ == a@ + b@ + c@,
{
    let mut out: Vec<char> = Vec::new();
    push_str(&mut out, a);
    push_str(&mut out, b);
    push_str(&mut out, c);
    chars_to_string(out.as_slice())
}

/// What `mq_send` did to the machine and answered.
pub open spec fn mq_send_post(s0: System, s1: System, args: Seq<Seq<char>>, r: Seq<char>) -> bool {
    &&& crate::system::aside_unchanged(s0, s1)
    &&& s1.vfs == s0.vfs
    &&& s1.dev == s0.dev
    &&& s1.kernel.tasks == s0.kernel.tasks
    &&& s1.kernel.mutexes == s0.kernel.mutexes
    &&& s1.users == s0.users
    &&& s1.pkgs == s0.pkgs
    &&& s1.shell == s0.shell
    &&& ({
        let av = args;
        if av.len() < 2 {
            r == "Usage: mq_send <queue_name> <message>"@ && s1.kernel.ipc == s0.kernel.ipc
        } else {
            let msg = join_spec(av.subrange(1, av.len() as int), " "@);
            match s0.kernel.ipc {
                None => r == "mq_send failed: IPC uninitialized\n"@ && s1.kernel.ipc is None,
                Some(q0) => r == "Sent message to queue '"@ + av[0] + "'.\n"@ && (s1.kernel.ipc matches Some(q1) && ({
                    let qs = if has_queue(q0.queues@, av[0]) { queues_view(q0.queues@) }
                        else { queues_view(q0.queues@).push((av[0], Seq::<Seq<char>>::empty())) };
                    let i = if has_queue(q0.queues@, av[0]) { queue_index(q0.queues@, av[0]) } else { q0.queues@.len() as int };
                    queues_view(q1.queues@) == qs.update(i, (av[0], send_spec(qs[i].1, msg)))
                })),
            }
        }
    })
}

/// `mq_send <queue> <message...>`: creates the queue when missing and appends the words of
/// the message. The message queues must have been started.
pub fn cmd_mq_send(sys: &mut System, args: &Vec<String>) -> (r: String)
    requires
        old(sys).wf(),
    ensures
        final(sys).wf(),
        mq_send_post(*old(sys), *final(sys), strings_view(args@), r@),
{
    let ghost av = strings_view(args@);
    if args.len() < 2 {
        return String::from_str("Usage: mq_send <queue_name> <message>");
    }
    assert(av[0] == args@[0]@);
    let mut rest: Vec<String> = Vec::new();
    let mut i: usize = 1;
    while i < args.len()
        invariant
            av == strings_view(args@),
            1 <= i <= args@.len(),
            strings_view(rest@) == av.subrange(1, i as int),
        decreases args@.len() - i,
    {
        assert(av[i as int] == args@[i as int]@);
        let ghost r0 = rest@;
        let w = args[i].clone();
        assert(w@ == av[i as int]);
        rest.push(w);
        assert(strings_view(rest@) =~= strings_view(r0).push(av[i as int]));
        assert(av.subrange(1, i + 1) =~= av.subrange(1, i as int).push(av[i as int]));
        i = i + 1;
    }
    let words = join_words(&rest, " ");
    let msg = chars_to_string(words.as_slice());
    let qlen = args[0].as_str().len() as u64;
    let mlen = msg.as_str().len() as u64;
    let _ = sys_call(&mut sys.kernel, &mut sys.vfs, &mut sys.dev, &mut sys.net, 8, qlen, mlen, 0);
    match &mut sys.kernel.ipc {
        None => String::from_str("mq_send failed: IPC uninitialized\n"),
        Some(iq) => {
            let ghost q0 = iq.queues@;
            let _ = create_queue(iq, args[0].as_str());
            let ghost q1 = iq.queues@;
            proof { lemma_created_queue(q0, q1, av[0]); }
            match send_message(iq, args[0].as_str(), msg) {
                Ok(()) => text3("Sent message to queue '", args[0].as_str(), "'.\n"),
                Err(e) => text3("mq_send failed: ", e.as_str(), "\n"),
            }
        },
    }
}

/// After creating queue `name` (refused when it exists) the queue is there: the new, empty
/// one at the end, or the one that was already there, unchanged.
proof fn lemma_created_queue(q0: Seq<crate::kernel::ipc::MessageQueue>, q1: Seq<crate::kernel::ipc::MessageQueue>,
    name: Seq<char>)
    requires
        forall|i: int, j: int| 0 <= i < q0.len() && 0 <= j < q0.len() && i != j ==> q0[i].name@ != q0[j].name@,
        forall|i: int, j: int| 0 <= i < q1.len() && 0 <= j < q1.len() && i != j ==> q1[i].name@ != q1[j].name@,
        has_queue(q0, name) ==> queues_view(q1) == queues_view(q0),
        !has_queue(q0, name) ==> queues_view(q1) == queues_view(q0).push((name, Seq::<Seq<char>>::empty())),
    ensures
        has_queue(q1, name),
        !has_queue(q0, name) ==> queue_index(q1, name) == q0.len() as int
            && msgs_view(q1[q0.len() as int].messages@) == Seq::<Seq<char>>::empty(),
        has_queue(q0, name) ==> queue_index(q1, name) == queue_index(q0, name)
            && msgs_view(q1[queue_index(q1, name)].messages@) == queues_view(q0)[queue_index(q0, name)].1,
{
    if !has_queue(q0, name) {
        assert(queues_view(q1).len() == q1.len());
        let last = q1.len() - 1;
        assert(queues_view(q1)[last] == (name, Seq::<Seq<char>>::empty()));
        assert(q1[last].name@ == name);
        assert(has_queue(q1, name));
        let c = queue_index(q1, name);
        if c != last {
            assert(queues_view(q1)[c] == queues_view(q0)[c]);
            assert(q0[c].name@ == name);
        }
    } else {
        let c0 = queue_index(q0, name);
        assert(queues_view(q1)[c0] == queues_view(q0)[c0]);
        assert(q1[c0].name@ == name);
        assert(has_queue(q1, name));
        let c1 = queue_index(q1, name);
        assert(queues_view(q1)[c1] == queues_view(q0)[c1]);
        assert(q0[c1].name@ == name);
        if c0 != c1 { assert(q0[c0].name@ == q0[c1].name@); }
        assert(msgs_view(q1[c1].messages@) == queues_view(q1)[c1].1);
    }
}

/// What `mq_recv` did to the machine and answered.
pub open spec fn mq_recv_post(s0: System, s1: System, args: Seq<Seq<char>>, r: Seq<char>) -> bool {
    &&& crate::system::aside_unchanged(s0, s1)
    &&& s1.vfs == s0.vfs
    &&& s1.dev == s0.dev
    &&& s1.kernel.tasks == s0.kernel.tasks
    &&& s1.kernel.mutexes == s0.kernel.mutexes
    &&& s1.users == s0.users
    &&& s1.pkgs == s0.pkgs
    &&& s1.shell == s0.shell
    &&& ({
        let av = args;
        if av.len() == 0 {
            r == "Usage: mq_recv <queue_name>"@ && s1.kernel.ipc == s0.kernel.ipc
        } else {
            match s0.kernel.ipc {
                None => r == "mq_recv failed: IPC uninitialized\n"@ && s1.kernel.ipc is None,
                Some(q0) => s1.kernel.ipc matches Some(q1) && if !has_queue(q0.queues@, av[0]) {
                    r == "mq_recv failed: "@ + "Queue not found"@ + "\n"@ && queues_view(q1.queues@) == queues_view(q0.queues@)
                } else {
                    let i = queue_index(q0.queues@, av[0]);
                    let (got, rest) = recv_spec(msgs_view(q0.queues@[i].messages@));
                    &&& queues_view(q1.queues@) == queues_view(q0.queues@).update(i, (av[0], rest))
                    &&& match got {
                        Some(m) => r == "Received: "@ + m + "\n"@,
                        None => r == "No messages in queue.\n"@,
                    }
                },
            }
        }
    })
}

/// `mq_recv <queue>`: takes the oldest message of the queue.
pub fn cmd_mq_recv(sys: &mut System, args: &Vec<String>) -> (r: String)
    requires
        old(sys).wf(),
    ensures
        final(sys).wf(),
        mq_recv_post(*old(sys), *final(sys), strings_view(args@), r@),
{
    let ghost av = strings_view(args@);
    if args.len() == 0 {
        return String::from_str("Usage: mq_recv <queue_name>");
    }
    assert(av[0] == args@[0]@);
    let qlen = args[0].as_str().len() as u64;
    let _ = sys_call(&mut sys.kernel, &mut sys.vfs, &mut sys.dev, &mut sys.net, 9, qlen, 0, 0);
    match &mut sys.kernel.ipc {
        None => String::from_str("mq_recv failed: IPC uninitialized\n"),
        Some(iq) => match recv_message(iq, args[0].as_str()) {
            Ok(Some(m)) => text3("Received: ", m.as_str(), "\n"),
            Ok(None) => String::from_str("No messages in queue.\n"),
            Err(e) => text3("mq_recv failed: ", e.as_str(), "\n"),
        },
    }
}

/// The lines of `mq_list` for the queues.
pub open spec fn queue_lines(qs: Seq<(Seq<char>, Seq<Seq<char>>)>) -> Seq<char>
    decreases qs.len(),
{
    if qs.len() == 0 {
        Seq::empty()
    } else {
        queue_lines(qs.drop_last()) + "  - '"@ + qs.last().0 + "' ("@ + decimal(qs.last().1.len()) + " messages pending)\n"@
    }
}

/// What `mq_list` prints for the queues.
pub open spec fn mq_list_output(qs: Seq<(Seq<char>, Seq<Seq<char>>)>) -> Seq<char> {
    if qs.len() == 0 {
        "No active message queues.\n"@
    } else {
        "Active message queues:\n"@ + queue_lines(qs)
    }
}

/// `mq_list`: every queue with its number of pending messages.
pub fn cmd_mq_list(k: &crate::kernel::Kernel) -> (r: String)
    ensures
        r@ == mq_list_output(match k.ipc {
            Some(q) => queues_view(q.queues@),
            None => Seq::empty(),
        }),
{
    match &k.ipc {
        None => String::from_str("No active message queues.\n"),
        Some(iq) => {
            let queues = get_queues(iq);
            let ghost qs = queues_view(iq.queues@);
            if queues.len() == 0 {
                return String::from_str("No active message queues.\n");
            }
            let mut out: Vec<char> = Vec::new();
            push_str(&mut out, "Active message queues:\n");
            let ghost head = out@;
            let mut i: usize = 0;
            while i < queues.len()
                invariant
                    qs == queues_view(iq.queues@),
                    queues@.len() == iq.queues@.len(),
                    forall|j: int| 0 <= j < queues@.len() ==> (#[trigger] queues@[j]).0@ == iq.queues@[j].name@
                        && queues@[j].1 == iq.queues@[j].messages@.len()
                        && msgs_view(queues@[j].2@) == msgs_view(iq.queues@[j].messages@),
                    i <= queues@.len(),
                    out@ == head + queue_lines(qs.subrange(0, i as int)),
                decreases queues@.len() - i,
            {
                let ghost before = out@;
                assert(qs.subrange(0, i + 1).drop_last() =~= qs.subrange(0, i as int));
                assert(queues@[i as int].0@ == qs[i as int].0);
                assert(queues@[i as int].1 == qs[i as int].1.len());
                push_str(&mut out, "  - '");
                push_str(&mut out, queues[i].0.as_str());
                push_str(&mut out, "' (");
                push_decimal(&mut out, queues[i].1 as u64);
                push_str(&mut out, " messages pending)\n");
                i = i + 1;
                assert(out@ =~= head + queue_lines(qs.subrange(0, i as int)));
            }
            assert(qs.subrange(0, queues@.len() as int) =~= qs);
            chars_to_string(out.as_slice())
        },
    }
}

/// What `mutex_create` did to the machine and answered.
pub open spec fn mutex_create_post(s0: System, s1: System, args: Seq<Seq<char>>, r: Seq<char>) -> bool {
    &&& crate::system::aside_unchanged(s0, s1)
    &&& s1.vfs == s0.vfs
    &&& s1.dev == s0.dev
    &&& s1.kernel.tasks == s0.kernel.tasks
    &&& s1.kernel.ipc == s0.kernel.ipc
    &&& s1.users == s0.users
    &&& s1.pkgs == s0.pkgs
    &&& s1.shell == s0.shell
    &&& ({
        let av = args;
        if av.len() == 0 {
            r == "Usage: mutex_create <name>"@ && s1.kernel.mutexes == s0.kernel.mutexes
        } else {
            match s0.kernel.mutexes {
                None => r == "mutex_create failed: Mutex table uninitialized\n"@ && s1.kernel.mutexes is None,
                Some(m0) => r == "Mutex '"@ + av[0] + "' created with ID "@ + decimal(m0.next_id as nat) + ".\n"@
                    && (s1.kernel.mutexes matches Some(m1) && m1.next_id == m0.next_id + 1
                    && crate::kernel::mutex::mutexes_view(m1.mutexes@) == crate::kernel::mutex::mutexes_view(m0.mutexes@).push(
                        (m0.next_id, av[0], None::<u32>, Seq::<u32>::empty()))),
            }
        }
    })
}

/// `mutex_create <name>`: a new unlocked mutex, once the mutex table has been started.
pub fn cmd_mutex_create(sys: &mut System, args: &Vec<String>) -> (r: String)
    requires
        old(sys).wf(),
        old(sys).kernel.mutexes matches Some(m) ==> m.next_id < u32::MAX,
    ensures
        final(sys).wf(),
        mutex_create_post(*old(sys), *final(sys), strings_view(args@), r@),
{
    let ghost av = strings_view(args@);
    if args.len() == 0 {
        return String::from_str("Usage: mutex_create <name>");
    }
    assert(av[0] == args@[0]@);
    let nlen = args[0].as_str().len() as u64;
    let _ = sys_call(&mut sys.kernel, &mut sys.vfs, &mut sys.dev, &mut sys.net, 10, nlen, 0, 0);
    match &mut sys.kernel.mutexes {
        None => String::from_str("mutex_create failed: Mutex table uninitialized\n"),
        Some(mt) => match create_mutex(mt, args[0].as_str()) {
            Ok(id) => {
                let mut out: Vec<char> = Vec::new();
                push_str(&mut out, "Mutex '");
                push_str(&mut out, args[0].as_str());
                push_str(&mut out, "' created with ID ");
                push_decimal(&mut out, id as u64);
                push_str(&mut out, ".\n");
                chars_to_string(out.as_slice())
            },
            Err(e) => text3("mutex_create failed: ", e.as_str(), "\n"),
        },
    }
}

/// `mutex_lock <id>` and `mutex_unlock <id>` go through system calls 11 and 12, which the
/// dispatcher does not know: they report the refusal. `id` is 11 for lock, 12 for unlock.
pub open spec fn mutex_call_output(args: Seq<Seq<char>>, lock: bool) -> Seq<char> {
    if args.len() == 0 {
        if lock { "Usage: mutex_lock <id>"@ } else { "Usage: mutex_unlock <id>"@ }
    } else if parse_unsigned(args[0], 10, 0xffff_ffff) is None {
        "Invalid mutex ID"@
    } else if lock {
        "mutex_lock failed: "@ + ("Unknown syscall identifier: "@ + decimal(11)) + "\n"@
    } else {
        "mutex_unlock failed: "@ + ("Unknown syscall identifier: "@ + decimal(12)) + "\n"@
    }
}

/// What `mutex_lock` (with `lock`) or `mutex_unlock` did to the machine and answered.
pub open spec fn mutex_call_post(s0: System, s1: System, args: Seq<Seq<char>>, lock: bool, r: Seq<char>) -> bool {
    &&& crate::system::aside_unchanged(s0, s1)
    &&& s1.vfs == s0.vfs
    &&& s1.dev == s0.dev
    &&& s1.kernel.tasks == s0.kernel.tasks
    &&& s1.kernel.mutexes == s0.kernel.mutexes
    &&& s1.kernel.ipc == s0.kernel.ipc
    &&& s1.users == s0.users
    &&& s1.pkgs == s0.pkgs
    &&& s1.shell == s0.shell
    &&& r == mutex_call_output(args, lock)
}

/// `mutex_lock <id>` (with `lock`) or `mutex_unlock <id>`: the system call for the mutex.
pub fn cmd_mutex_call(sys: &mut System, args: &Vec<String>, lock: bool) -> (r: String)
    requires
        old(sys).wf(),
    ensures
        final(sys).wf(),
        mutex_call_post(*old(sys), *final(sys), strings_view(args@), lock, r@),
{
    let ghost av = strings_view(args@);
    if args.len() == 0 {
        return if lock { String::from_str("Usage: mutex_lock <id>") } else { String::from_str("Usage: mutex_unlock <id>") };
    }
    assert(av[0] == args@[0]@);
    let id = match parse_unsigned_str(args[0].as_str(), 10, 0xffff_ffff) {
        Some(n) => n,
        None => { return String::from_str("Invalid mutex ID"); },
    };
    let pid = crate::kernel::task::get_current_pid(&sys.kernel.tasks);
    let call: u32 = if lock { 11 } else { 12 };
    let res = sys_call(&mut sys.kernel, &mut sys.vfs, &mut sys.dev, &mut sys.net, call, id, 0, 0);
    let mut out: Vec<char> = Vec::new();
    match res {
        Ok(v) => {
            if lock && v == 1 {
                push_str(&mut out, "Mutex ");
                push_decimal(&mut out, id);
                push_str(&mut out, " locked by process PID ");
                push_decimal(&mut out, pid as u64);
                push_str(&mut out, ".\n");
            } else if lock && v == 0 {
                push_str(&mut out, "Mutex ");
                push_decimal(&mut out, id);
                push_str(&mut out, " is busy. Process PID ");
                push_decimal(&mut out, pid as u64);
                push_str(&mut out, " is now BLOCKED.\n");
            } else if lock {
                push_str(&mut out, "Syscall returned: ");
                push_decimal(&mut out, v);
                push_str(&mut out, "\n");
            } else {
                push_str(&mut out, "Mutex ");
                push_decimal(&mut out, id);
                push_str(&mut out, " unlocked.\n");
            }
        },
        Err(e) => {
            if lock { push_str(&mut out, "mutex_lock failed: "); } else { push_str(&mut out, "mutex_unlock failed: "); }
            push_str(&mut out, e.as_str());
            push_str(&mut out, "\n");
        },
    }
    chars_to_string(out.as_slice())
}

/// `deadlock_demo`: three philosophers each hold one chopstick and wait for the next.
pub fn cmd_deadlock_demo(sys: &mut System) -> (r: String)
    requires
        old(sys).wf(),
        old(sys).kernel.tasks.next_pid + 3 < u32::MAX,
        old(sys).kernel.mutexes matches Some(m) ==> m.next_id + 3 < u32::MAX,
    ensures
        final(sys).wf(),
        crate::system::aside_unchanged(*old(sys), *final(sys)),
        final(sys).vfs == old(sys).vfs,
        final(sys).dev == old(sys).dev,
        final(sys).kernel.ipc == old(sys).kernel.ipc,
        final(sys).users == old(sys).users,
        final(sys).pkgs == old(sys).pkgs,
        final(sys).shell == old(sys).shell,
        final(sys).kernel.tasks.next_pid <= old(sys).kernel.tasks.next_pid + 3,
        match old(sys).kernel.mutexes {
            None => r@ == "Simulation failed: Mutex table uninitialized\n"@ && final(sys).kernel == old(sys).kernel,
            Some(m0) => r@ == "Dining Philosophers simulation started. 3 philosopher tasks blocked. DEADLOCK DETECTED.\n"@
                && (final(sys).kernel.mutexes matches Some(m1) && m1.next_id == m0.next_id + 3
                && crate::kernel::mutex::mutexes_view(m1.mutexes@) == crate::kernel::mutex::mutexes_view(m0.mutexes@)
                    + crate::kernel::mutex::philosopher_mutexes(m0.next_id, old(sys).kernel.tasks.next_pid)),
        },
{
    match &mut sys.kernel.mutexes {
        None => String::from_str("Simulation failed: Mutex table uninitialized\n"),
        Some(mt) => match run_deadlock_simulation(mt, &mut sys.kernel.tasks) {
            Ok(()) => String::from_str("Dining Philosophers simulation started. 3 philosopher tasks blocked. DEADLOCK DETECTED.\n"),
            Err(e) => text3("Simulation failed: ", e.as_str(), "\n"),
        },
    }
}

/// What `deadlock_resolve` prints once victim `v` is chosen and the processes waiting on
/// what it held are `woken`: the idle process cannot be killed, and a victim must be in the
/// process table.
pub open spec fn resolve_output(v: u32, woken: Seq<crate::kernel::task::Process>) -> Seq<char> {
    if v == 0 {
        "Resolve failed: "@ + "Cannot kill idle process"@ + "\n"@
    } else if crate::kernel::task::has_pid(woken, v) {
        "Deadlock resolved: "@ + crate::kernel::mutex::killed_message(v) + "\n"@
    } else {
        "Resolve failed: "@ + "Process not found"@ + "\n"@
    }
}

/// What `deadlock_resolve` prints and does to the mutexes and processes (`s0` before, `s1`
/// after): without a wait cycle nothing changes; else a process on a cycle is the victim.
pub open spec fn deadlock_resolve_post(s0: System, s1: System, r: Seq<char>) -> bool {
    match s0.kernel.mutexes {
        None => r == "Resolve failed: No deadlock detected\n"@ && s1.kernel == s0.kernel,
        Some(m0) => {
            &&& (forall|c: Seq<u32>| !crate::kernel::mutex::is_cycle(crate::kernel::mutex::wait_graph(m0.mutexes@), c))
                ==> r == "Resolve failed: "@ + "No deadlock detected"@ + "\n"@
            &&& (exists|c: Seq<u32>| crate::kernel::mutex::is_cycle(crate::kernel::mutex::wait_graph(m0.mutexes@), c))
                ==> (exists|v: u32| {
                    let vs = crate::kernel::mutex::mutexes_view(m0.mutexes@);
                    let woken = crate::kernel::mutex::wake_spec(s0.kernel.tasks.procs@, vs, v);
                    &&& #[trigger] crate::kernel::mutex::on_cycle(crate::kernel::mutex::wait_graph(m0.mutexes@), v)
                    &&& r == resolve_output(v, woken)
                    &&& s1.kernel.mutexes matches Some(m1)
                        && crate::kernel::mutex::mutexes_view(m1.mutexes@) == crate::kernel::mutex::release_spec(vs, v)
                    &&& s1.kernel.tasks.procs@ == if v != 0 && crate::kernel::task::has_pid(woken, v) {
                        crate::kernel::task::set_state_spec(woken, v, crate::kernel::task::ProcessState::Killed)
                    } else {
                        woken
                    }
                })
        },
    }
}

/// `deadlock_resolve`: kills a process on a wait cycle, releasing what it held.
pub fn cmd_deadlock_resolve(sys: &mut System) -> (r: String)
    requires
        old(sys).wf(),
    ensures
        final(sys).wf(),
        crate::system::aside_unchanged(*old(sys), *final(sys)),
        final(sys).vfs == old(sys).vfs,
        final(sys).dev == old(sys).dev,
        final(sys).kernel.ipc == old(sys).kernel.ipc,
        final(sys).users == old(sys).users,
        final(sys).pkgs == old(sys).pkgs,
        final(sys).shell == old(sys).shell,
        final(sys).kernel.tasks.next_pid == old(sys).kernel.tasks.next_pid,
        final(sys).kernel.mutexes is Some == old(sys).kernel.mutexes is Some,
        (final(sys).kernel.mutexes matches Some(m1) ==> (old(sys).kernel.mutexes matches Some(m0) && m1.next_id == m0.next_id)),
        deadlock_resolve_post(*old(sys), *final(sys), r@),
{
    match &mut sys.kernel.mutexes {
        None => String::from_str("Resolve failed: No deadlock detected\n"),
        Some(mt) => {
            let res = resolve_deadlock(mt, &mut sys.kernel.tasks, &mut sys.kernel.mem);
            match res {
                Ok(msg) => text3("Deadlock resolved: ", msg.as_str(), "\n"),
                Err(e) => {
                    let out = text3("Resolve failed: ", e.as_str(), "\n");
                    assert(out@.subrange(0, "Resolve failed: "@.len() as int) =~= "Resolve failed: "@);
                    out
                },
            }
        },
    }
}

} // verus!
