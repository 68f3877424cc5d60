//! NovaShell: the command interpreter over the kernel, the filesystem and userspace.
use vstd::prelude::*;
use crate::text::{str_to_chars, chars_to_string, push_str, push_chars, trim_chars, trim_spec, contains_char, str_eq};
use crate::system::System;
use crate::userspace::get_current_user;
use crate::kernel::syscall::{sys_call, sys_write_data, write_call_post};
use crate::kernel::Kernel;
use crate::drivers::Devices;
use crate::kernel::task::TaskTable;
use crate::filesystem::{Vfs, vfs_open, vfs_close, list_dir_result, open_result, fd_stream, mkdir_post, open_post};
use crate::userspace::account;
use crate::shell::session::{strings_view, split_args_spec, split_arguments, expand_spec, expand_env_variables,
    resolve_spec, resolve_absolute_path, env_set, home_dir};
use crate::shell::commands::{session_user, command_ready, command_keeps, help_text, export_spec, login_succeeds, logout_post,
    login_output, unknown_command_output, cmd_help, cmd_pwd, cmd_echo, cmd_export, cmd_quota, cmd_login, cmd_logout,
    cmd_clear, cmd_unknown};
use crate::shell::files::{chunked_text, ls_output, ls_path, grep_output, cmd_cd, cmd_ls, cmd_mkdir, cmd_rm, cmd_chmod, cmd_cat,
    cmd_cp, cmd_grep, chmod_meta, chmod_mode, cp_effect};
use crate::shell::procs::{ps_header, ps_lines, top_output, cmd_ps, cmd_top};
use crate::shell::admin::{mq_list_output, mutex_call_output, cmd_novapkg, cmd_snapshot, cmd_mq_send, cmd_mq_recv,
    cmd_mq_list, cmd_mutex_create, cmd_mutex_call, cmd_deadlock_demo, cmd_deadlock_resolve, snapshot_post, mq_send_post,
    mq_recv_post, mutex_create_post, mutex_call_post};

pub mod session;
pub mod format;
pub mod commands;
pub mod numbers;
pub mod files;
pub mod procs;
pub mod admin;

verus! {

/// The command name and arguments of a command line; a piped-in text is added as the last
/// argument when it is not empty.
pub open spec fn parse_command(line: Seq<char>, pipe: Seq<char>) -> Option<(Seq<char>, Seq<Seq<char>>)> {
    let t = split_args_spec(line);
    if t.len() == 0 {
        None
    } else {
        Some((t[0], if pipe.len() > 0 { t.drop_first().push(pipe) } else { t.drop_first() }))
    }
}

/// The names the shell handles itself; any other name is looked up among the packages.
pub open spec fn builtin_names() -> Seq<Seq<char>> {
    seq!["help"@, "cd"@, "pwd"@, "export"@, "login"@, "logout"@, "clear"@, "ls"@, "cat"@, "echo"@, "mkdir"@, "rm"@,
        "cp"@, "ps"@, "top"@, "grep"@, "chmod"@, "novapkg"@, "snapshot"@, "mq_send"@, "mq_recv"@, "mq_list"@,
        "mutex_create"@, "mutex_lock"@, "mutex_unlock"@, "deadlock_demo"@, "deadlock_resolve"@, "quota"@]
}

/// What a command prints, by command name, where that follows from the machine's state
/// before it runs; `None` for `deadlock_resolve`, a `novapkg` install of a new package or a
/// removal others depend on, a `mkdir` that creates and a `cp` that reads its source, whose
/// output rests on what their work does.
pub open spec fn query_output(s: System, name: Seq<char>, args: Seq<Seq<char>>) -> Option<Seq<char>> {
    let cwd = s.shell.current_dir@;
    let uid = session_user(s.users)->Some_0.0;
    if name == "help"@ {
        Some(help_text())
    } else if name == "pwd"@ {
        Some(cwd + "\n"@)
    } else if name == "echo"@ {
        Some(crate::shell::format::join_spec(args, " "@) + "\n"@)
    } else if name == "grep"@ {
        Some(grep_output(args))
    } else if name == "quota"@ {
        Some("NovaOS User Quota limits for UID "@ + crate::text::decimal(session_user(s.users)->Some_0.0 as nat)
            + ":\n  - Max storage size: 102400 bytes (100 KB)\n  - Current Usage: Active within lab boundary.\n"@)
    } else if name == "ls"@ {
        Some(ls_output(ls_path(cwd, args), list_dir_result(s.vfs, ls_path(cwd, args))))
    } else if name == "cd"@ {
        Some(if args.len() == 0 {
            "Usage: cd <path>"@
        } else {
            match list_dir_result(s.vfs, resolve_spec(cwd, args[0])) {
                Ok(_) => Seq::empty(),
                Err(e) => "cd: "@ + e,
            }
        })
    } else if name == "ps"@ {
        Some(ps_header() + ps_lines(s.kernel.tasks.procs@))
    } else if name == "top"@ {
        Some(top_output(s.kernel.tasks.procs@))
    } else if name == "mq_list"@ {
        Some(mq_list_output(match s.kernel.ipc {
            Some(q) => crate::kernel::ipc::queues_view(q.queues@),
            None => Seq::empty(),
        }))
    } else if name == "mutex_lock"@ {
        Some(mutex_call_output(args, true))
    } else if name == "mutex_unlock"@ {
        Some(mutex_call_output(args, false))
    } else if name == "export"@ {
        Some(export_spec(args, s.shell.env_view()).0)
    } else if name == "login"@ {
        Some(login_output(args, s.users.accounts()))
    } else if name == "logout"@ {
        Some("Logged out. Current session reset.\n"@)
    } else if name == "clear"@ {
        Some(Seq::empty())
    } else if name == "cat"@ {
        Some(if args.len() == 0 {
            "Usage: cat <file>"@
        } else {
            match open_result(s.vfs, resolve_spec(cwd, args[0]), false, uid) {
                Err(e) => "cat: "@ + e,
                Ok(f) => match fd_stream(s.vfs.fs.meta.view(), s.dev.disk.view(), f) {
                    Ok(b) => chunked_text(b),
                    Err(e) => "cat read error: "@ + e,
                },
            }
        })
    } else if name == "rm"@ {
        Some(if args.len() == 0 {
            "Usage: rm <file>"@
        } else {
            match open_result(s.vfs, resolve_spec(cwd, args[0]), true, uid) {
                Ok(_) => "File "@ + args[0] + " deleted successfully.\n"@,
                Err(e) => "rm: Cannot delete "@ + args[0] + ": "@ + e,
            }
        })
    } else if name == "chmod"@ {
        Some(if args.len() < 2 {
            "Usage: chmod <octal_mode> <file>"@
        } else {
            match open_result(s.vfs, resolve_spec(cwd, args[1]), true, uid) {
                Ok(_) => "Permissions changed successfully.\n"@,
                Err(e) => "chmod: "@ + e,
            }
        })
    } else if name == "mutex_create"@ {
        Some(if args.len() == 0 {
            "Usage: mutex_create <name>"@
        } else {
            match s.kernel.mutexes {
                None => "mutex_create failed: Mutex table uninitialized\n"@,
                Some(m0) => "Mutex '"@ + args[0] + "' created with ID "@ + crate::text::decimal(m0.next_id as nat) + ".\n"@,
            }
        })
    } else if name == "mq_send"@ {
        Some(if args.len() < 2 {
            "Usage: mq_send <queue_name> <message>"@
        } else {
            match s.kernel.ipc {
                None => "mq_send failed: IPC uninitialized\n"@,
                Some(_) => "Sent message to queue '"@ + args[0] + "'.\n"@,
            }
        })
    } else if name == "mq_recv"@ {
        Some(if args.len() == 0 {
            "Usage: mq_recv <queue_name>"@
        } else {
            match s.kernel.ipc {
                None => "mq_recv failed: IPC uninitialized\n"@,
                Some(q0) => if !crate::kernel::ipc::has_queue(q0.queues@, args[0]) {
                    "mq_recv failed: "@ + "Queue not found"@ + "\n"@
                } else {
                    let i = crate::kernel::ipc::queue_index(q0.queues@, args[0]);
                    match crate::kernel::ipc::recv_spec(crate::kernel::ipc::msgs_view(q0.queues@[i].messages@)).0 {
                        Some(m) => "Received: "@ + m + "\n"@,
                        None => "No messages in queue.\n"@,
                    }
                },
            }
        })
    } else if name == "snapshot"@ {
        Some(if args.len() < 2 {
            "Usage: snapshot <create|restore> <snapshot_id>"@
        } else {
            let id = crate::shell::admin::snapshot_id_arg(args[1]);
            if args[0] == "create"@ {
                match crate::filesystem::novafs::inode_lookup(s.vfs.fs.meta.view(), 0) {
                    Err(e) => "Failed to create snapshot: "@ + e + "\n"@,
                    Ok(_) => "Snapshot "@ + crate::text::decimal(id as nat) + " created successfully.\n"@,
                }
            } else if args[0] == "restore"@ {
                match crate::filesystem::novafs::snapshot_of(s.vfs.fs, id) {
                    None => "Failed to restore snapshot: "@ + "Snapshot ID not found"@ + "\n"@,
                    Some(_) => "Snapshot "@ + crate::text::decimal(id as nat) + " restored successfully. Filesystem state reverted.\n"@,
                }
            } else {
                "Unknown snapshot command. Choose 'create' or 'restore'.\n"@
            }
        })
    } else if name == "mkdir"@ {
        if args.len() == 0 {
            Some("Usage: mkdir <dir>"@)
        } else {
            match crate::filesystem::mkdir_known(s.vfs, resolve_spec(cwd, args[0])) {
                Some(Ok(())) => Some(Seq::empty()),
                Some(Err(e)) => Some("mkdir: "@ + e),
                None => None,
            }
        }
    } else if name == "cp"@ {
        if args.len() < 2 {
            Some("Usage: cp <source> <destination>"@)
        } else {
            match open_result(s.vfs, resolve_spec(cwd, args[0]), false, uid) {
                Err(e) => Some("cp source open failed: "@ + e),
                Ok(f) => match fd_stream(s.vfs.fs.meta.view(), s.dev.disk.view(), f) {
                    Err(e) => Some("cp source read failed: "@ + e),
                    Ok(_) => None,
                },
            }
        }
    } else if name == "novapkg"@ {
        let inst = s.pkgs.installed();
        let repo = s.pkgs.available();
        if args.len() == 0 {
            Some("Usage: novapkg [install|remove|list] <package>"@)
        } else if args[0] == "list"@ {
            Some("Installed packages:\n"@ + crate::shell::admin::package_lines(inst))
        } else if args[0] == "install"@ {
            if args.len() < 2 {
                Some("Usage: novapkg install <package>"@)
            } else if !crate::userspace::novapkg::is_available(repo, args[1]) {
                Some("NovaPkg Error: "@ + crate::userspace::novapkg::not_found_message(args[1]))
            } else if inst.contains(args[1]) {
                Some("NovaPkg Error: "@ + ("Package '"@ + args[1] + "' is already installed"@))
            } else {
                None
            }
        } else if args[0] == "remove"@ {
            if args.len() < 2 {
                Some("Usage: novapkg remove <package>"@)
            } else if !inst.contains(args[1]) {
                Some("NovaPkg Error: "@ + ("Package '"@ + args[1] + "' is not installed"@))
            } else if forall|i: int| 0 <= i < inst.len()
                ==> !#[trigger] crate::userspace::novapkg::is_dependent(repo, inst[i], args[1]) {
                Some("Package '"@ + args[1] + "' removed successfully."@)
            } else {
                None
            }
        } else {
            Some("Unknown novapkg action."@)
        }
    } else if name == "deadlock_demo"@ {
        Some(match s.kernel.mutexes {
            None => "Simulation failed: Mutex table uninitialized\n"@,
            Some(_) => "Dining Philosophers simulation started. 3 philosopher tasks blocked. DEADLOCK DETECTED.\n"@,
        })
    } else if !builtin_names().contains(name) {
        Some(unknown_command_output(name, s.pkgs.installed()))
    } else {
        None
    }
}

/// What `cd` did: only the working directory moves, to the resolved path when it lists.
pub open spec fn cd_post(s0: System, s1: System, args: Seq<Seq<char>>) -> bool {
    &&& s1 == System { shell: s1.shell, ..s0 }
    &&& s1.shell.env == s0.shell.env
    &&& if args.len() > 0 && list_dir_result(s0.vfs, resolve_spec(s0.shell.current_dir@, args[0])) is Ok {
        s1.shell.current_dir@ == resolve_spec(s0.shell.current_dir@, args[0])
    } else {
        s1.shell.current_dir == s0.shell.current_dir
    }
}

/// What `export` did: only the environment changes, as `export_spec` says.
pub open spec fn export_post(s0: System, s1: System, args: Seq<Seq<char>>) -> bool {
    &&& s1 == System { shell: s1.shell, ..s0 }
    &&& s1.shell.current_dir == s0.shell.current_dir
    &&& s1.shell.env_view() == export_spec(args, s0.shell.env_view()).1
}

/// What `login` did: with the right password the session, home directory and `USER` move to
/// the user; otherwise nothing changes.
pub open spec fn login_post(s0: System, s1: System, args: Seq<Seq<char>>) -> bool {
    &&& s1 == System { users: s1.users, shell: s1.shell, ..s0 }
    &&& s1.users.accounts() == s0.users.accounts()
    &&& if login_succeeds(args, s0.users.accounts()) {
        &&& s1.users.session() == Some(args[0])
        &&& s1.shell.current_dir@ == home_dir(args[0], account(s0.users.accounts(), args[0])->Some_0.0)
        &&& s1.shell.env_view() == env_set(s0.shell.env_view(), "USER"@, args[0])
    } else {
        s1.users.session() == s0.users.session() && s1.shell == s0.shell
    }
}

/// What `mkdir` did: only the filesystem changes, as `vfs_mkdir` of the resolved path as the
/// session user (mode 755) leaves it.
pub open spec fn mkdir_cmd_post(s0: System, s1: System, args: Seq<Seq<char>>) -> bool {
    &&& s1 == System { vfs: s1.vfs, ..s0 }
    &&& args.len() == 0 ==> s1.vfs == s0.vfs
    &&& args.len() > 0 ==> exists|rr: Result<(), String>| #[trigger] mkdir_post(s0.vfs, s1.vfs,
        resolve_spec(s0.shell.current_dir@, args[0]), 0o755, session_user(s0.users)->Some_0.0, rr)
}

/// What `rm` did: the open files and the metadata stay as they were.
pub open spec fn rm_post(s0: System, s1: System) -> bool {
    &&& s1 == System { vfs: s1.vfs, ..s0 }
    &&& s1.vfs.files() == s0.vfs.files()
    &&& s1.vfs.fs.meta.view() == s0.vfs.fs.meta.view()
}

/// What `chmod` did: the metadata changes as `chmod_meta` says when the file opens for writing.
pub open spec fn chmod_post(s0: System, s1: System, args: Seq<Seq<char>>) -> bool {
    let m0 = s0.vfs.fs.meta.view();
    &&& s1 == System { vfs: s1.vfs, ..s0 }
    &&& s1.vfs.files() == s0.vfs.files()
    &&& if args.len() >= 2 && open_result(s0.vfs, resolve_spec(s0.shell.current_dir@, args[1]), true,
        session_user(s0.users)->Some_0.0) is Ok {
        s1.vfs.fs.meta.view() == chmod_meta(m0, chmod_mode(args[0]))
    } else {
        s1.vfs.fs.meta.view() == m0
    }
}

/// What `clear` did: a blank console, white on black, with the cursor at the top left.
pub open spec fn clear_post(s0: System, s1: System) -> bool {
    &&& s1 == System { dev: s1.dev, ..s0 }
    &&& s1.dev.vga matches Some(w) && w.color_code.0 == 15 && w.cursor == (0usize, 0usize)
    &&& s1.dev.input == s0.dev.input
    &&& s1.dev.disk == s0.dev.disk
}

/// What `cp` did: only the filesystem and the devices change, as `cp_effect` says for the
/// session user, and no key is taken.
pub open spec fn cp_post(s0: System, s1: System, args: Seq<Seq<char>>, r: Seq<char>) -> bool {
    &&& s1 == System { vfs: s1.vfs, dev: s1.dev, ..s0 }
    &&& s1.dev.input == s0.dev.input
    &&& cp_effect(s0.vfs, s0.dev, s1.vfs, s1.dev, s0.shell.current_dir@, args, session_user(s0.users)->Some_0.0, r)
}

/// What a command did to the machine, for the commands that change it, and where its output is
/// not a function of the machine before it: the victim `deadlock_resolve` picks, and what
/// `novapkg` installs or removes.
pub open spec fn command_post(s0: System, s1: System, name: Seq<char>, args: Seq<Seq<char>>, r: Seq<char>) -> bool {
    if name == "deadlock_resolve"@ {
        crate::shell::admin::deadlock_resolve_post(s0, s1, r)
    } else if name == "novapkg"@ {
        crate::shell::admin::novapkg_post(s0, s1, args, r)
    } else if name == "cd"@ {
        cd_post(s0, s1, args)
    } else if name == "export"@ {
        export_post(s0, s1, args)
    } else if name == "login"@ {
        login_post(s0, s1, args)
    } else if name == "logout"@ {
        logout_post(s0, s1, r)
    } else if name == "mkdir"@ {
        mkdir_cmd_post(s0, s1, args)
    } else if name == "rm"@ {
        rm_post(s0, s1)
    } else if name == "chmod"@ {
        chmod_post(s0, s1, args)
    } else if name == "clear"@ {
        clear_post(s0, s1)
    } else if name == "cp"@ {
        cp_post(s0, s1, args, r)
    } else if name == "snapshot"@ {
        snapshot_post(s0, s1, args, r)
    } else if name == "mq_send"@ {
        mq_send_post(s0, s1, args, r)
    } else if name == "mq_recv"@ {
        mq_recv_post(s0, s1, args, r)
    } else if name == "mutex_create"@ {
        mutex_create_post(s0, s1, args, r)
    } else if name == "mutex_lock"@ {
        mutex_call_post(s0, s1, args, true, r)
    } else if name == "mutex_unlock"@ {
        mutex_call_post(s0, s1, args, false, r)
    } else {
        true
    }
}

/// The commands that only read the machine: their runs leave it as it was.
pub open spec fn pure_query(name: Seq<char>) -> bool {
    name == "help"@ || name == "pwd"@ || name == "echo"@ || name == "grep"@ || name == "quota"@ || name == "ls"@
        || name == "ps"@ || name == "top"@ || name == "mq_list"@ || !builtin_names().contains(name)
}

/// What a pipe stage run on `s` hands on, where that is known: nothing for an empty stage,
/// else the command's output.
pub open spec fn stage_output(s: System, stage: Seq<char>) -> Option<Seq<char>> {
    match parse_command(stage, Seq::empty()) {
        None => Some(Seq::empty()),
        Some((n, a)) => query_output(s, n, a),
    }
}

/// The stage leaves the machine as it was: it is empty or only reads the machine.
pub open spec fn stage_keeps(stage: Seq<char>) -> bool {
    match parse_command(stage, Seq::empty()) {
        None => true,
        Some((n, _)) => pure_query(n),
    }
}

/// Commands whose output depends on their arguments alone.
pub open spec fn state_free_query(name: Seq<char>) -> bool {
    name == "help"@ || name == "echo"@ || name == "grep"@ || name == "mutex_lock"@ || name == "mutex_unlock"@
        || name == "logout"@ || name == "clear"@
}

/// What a pipe gives: the second stage's output with the first stage's output as its last
/// argument, where the second stage reads nothing the first may have changed.
pub open spec fn pipe_output(s: System, first: Seq<char>, second: Seq<char>, r: Seq<char>) -> bool {
    stage_output(s, first) matches Some(o1) ==> match parse_command(second, o1) {
        None => r == Seq::<char>::empty(),
        Some((n, a)) => (stage_keeps(first) || state_free_query(n)) ==> (query_output(s, n, a) matches Some(o2)
            ==> r == o2),
    }
}

/// A command whose output depends on its arguments alone answers the same on any machine.
pub proof fn lemma_state_free_query(s1: System, s2: System, name: Seq<char>, args: Seq<Seq<char>>)
    requires
        state_free_query(name),
    ensures
        query_output(s1, name, args) == query_output(s2, name, args),
{
    reveal_strlit("help");
    reveal_strlit("pwd");
    reveal_strlit("echo");
    reveal_strlit("grep");
    reveal_strlit("quota");
    reveal_strlit("ls");
    reveal_strlit("cd");
    reveal_strlit("ps");
    reveal_strlit("top");
    reveal_strlit("mq_list");
    reveal_strlit("mutex_lock");
    reveal_strlit("mutex_unlock");
    reveal_strlit("export");
    reveal_strlit("login");
    reveal_strlit("logout");
    reveal_strlit("clear");
    if name == "help"@ {
        assert(query_output(s1, name, args) == Some(help_text()));
        assert(query_output(s2, name, args) == Some(help_text()));
    } else if name == "echo"@ {
        assert(name.len() == 4 && name[0] == 'e');
    } else if name == "grep"@ {
        assert(name.len() == 4 && name[0] == 'g');
    } else if name == "mutex_lock"@ {
        assert(name.len() == 10 && name[0] == 'm');
        assert(name != "help"@ && name != "pwd"@ && name != "echo"@ && name != "grep"@ && name != "quota"@);
        assert(name != "ls"@ && name != "cd"@ && name != "ps"@ && name != "top"@ && name != "mq_list"@);
    } else if name == "mutex_unlock"@ {
        assert(name.len() == 12 && name[0] == 'm');
        assert(name != "help"@ && name != "pwd"@ && name != "echo"@ && name != "grep"@ && name != "quota"@);
        assert(name != "ls"@ && name != "cd"@ && name != "ps"@ && name != "top"@ && name != "mq_list"@);
        assert(name != "mutex_lock"@);
    } else if name == "logout"@ {
        assert(name.len() == 6 && name[0] == 'l');
        assert(name != "help"@ && name != "pwd"@ && name != "echo"@ && name != "grep"@ && name != "quota"@);
        assert(name != "ls"@ && name != "cd"@ && name != "ps"@ && name != "top"@ && name != "mq_list"@);
        assert(name != "mutex_lock"@ && name != "mutex_unlock"@ && name != "export"@ && name != "login"@);
    } else {
        assert(name == "clear"@);
        assert(name.len() == 5 && name[0] == 'c');
        assert(name != "help"@ && name != "pwd"@ && name != "echo"@ && name != "grep"@ && name != "quota"@);
        assert(name != "ls"@ && name != "cd"@ && name != "ps"@ && name != "top"@ && name != "mq_list"@);
        assert(name != "mutex_lock"@ && name != "mutex_unlock"@ && name != "export"@ && name != "login"@);
        assert(name != "logout"@);
    }
}

/// Whether `s` equals the literal `lit`.
fn is_name(s: &String, lit: &str) -> (r: bool)
    ensures
        r == (s@ == lit@),
{
    str_eq(s.as_str(), lit)
}

/// What running the command line `line` (with piped-in `input`) did to the machine and answered.
pub open spec fn single_post(s0: System, s1: System, line: Seq<char>, input: Seq<char>, r: Seq<char>) -> bool {
    &&& command_keeps(s0, s1)
    &&& session_user(s1.users) is Some
        || (parse_command(line, input) matches Some((n, _)) && n == "logout"@)
    &&& (parse_command(line, input) matches Some((n, _)) && pure_query(n)) ==> s1 == s0
    &&& match parse_command(line, input) {
        None => r.len() == 0 && s1 == s0,
        Some((name, args)) => (query_output(s0, name, args) matches Some(o) ==> r == o)
            && command_post(s0, s1, name, args, r),
    }
}

/// Runs one command (no pipe or redirection) with an optional piped-in text.
pub fn run_single_command(sys: &mut System, cmd_line: &str, pipe_input: &str) -> (r: String)
    requires
        command_ready(*old(sys)),
    ensures
        single_post(*old(sys), *final(sys), cmd_line@, pipe_input@, r@),
{
    let mut tokens = split_arguments(cmd_line);
    let ghost tv = strings_view(tokens@);
    if tokens.len() == 0 {
        return String::new();
    }
    let cmd = tokens.remove(0);
    let mut args = tokens;
    assert(strings_view(args@) =~= tv.drop_first());
    if pipe_input.unicode_len() > 0 {
        let ghost a0 = strings_view(args@);
        args.push(String::from_str(pipe_input));
        assert(strings_view(args@) =~= a0.push(pipe_input@));
    }
    let ghost av = strings_view(args@);
    assert(cmd@ == tv[0]);
    assert(parse_command(cmd_line@, pipe_input@) == Some((cmd@, av)));
    let user = match get_current_user(&sys.users) {
        Some(u) => u,
        None => {
            assert(false);
            return String::new();
        },
    };
    let uid = user.uid;
    proof {
        reveal_strlit("help"); reveal_strlit("cd"); reveal_strlit("pwd"); reveal_strlit("export");
        reveal_strlit("login"); reveal_strlit("logout"); reveal_strlit("clear"); reveal_strlit("ls");
        reveal_strlit("cat"); reveal_strlit("echo"); reveal_strlit("mkdir"); reveal_strlit("rm"); reveal_strlit("cp");
        reveal_strlit("ps"); reveal_strlit("top"); reveal_strlit("grep"); reveal_strlit("chmod");
        reveal_strlit("novapkg"); reveal_strlit("snapshot"); reveal_strlit("mq_send"); reveal_strlit("mq_recv");
        reveal_strlit("mq_list"); reveal_strlit("mutex_create"); reveal_strlit("mutex_lock");
        reveal_strlit("mutex_unlock"); reveal_strlit("deadlock_demo"); reveal_strlit("deadlock_resolve");
        reveal_strlit("quota");
    }
    if is_name(&cmd, "help") {
        assert(cmd@.len() == 4 && cmd@[0] == 'h' && cmd@[1] == 'e' && cmd@[2] == 'l' && cmd@[3] == 'p');
        cmd_help()
    } else if is_name(&cmd, "cd") {
        assert(cmd@.len() == 2 && cmd@[0] == 'c' && cmd@[1] == 'd');
        cmd_cd(&sys.vfs, &mut sys.shell, &args)
    } else if is_name(&cmd, "pwd") {
        assert(cmd@.len() == 3 && cmd@[0] == 'p' && cmd@[1] == 'w' && cmd@[2] == 'd');
        cmd_pwd(&sys.shell)
    } else if is_name(&cmd, "export") {
        assert(cmd@.len() == 6 && cmd@[0] == 'e' && cmd@[1] == 'x' && cmd@[2] == 'p' && cmd@[3] == 'o' && cmd@[4] == 'r' && cmd@[5] == 't');
        cmd_export(&mut sys.shell, &args)
    } else if is_name(&cmd, "login") {
        assert(cmd@.len() == 5 && cmd@[0] == 'l' && cmd@[1] == 'o' && cmd@[2] == 'g' && cmd@[3] == 'i' && cmd@[4] == 'n');
        cmd_login(&mut sys.users, &mut sys.shell, &args)
    } else if is_name(&cmd, "logout") {
        assert(cmd@.len() == 6 && cmd@[0] == 'l' && cmd@[1] == 'o' && cmd@[2] == 'g' && cmd@[3] == 'o' && cmd@[4] == 'u' && cmd@[5] == 't');
        cmd_logout(sys)
    } else if is_name(&cmd, "clear") {
        assert(cmd@.len() == 5 && cmd@[0] == 'c' && cmd@[1] == 'l' && cmd@[2] == 'e' && cmd@[3] == 'a' && cmd@[4] == 'r');
        cmd_clear(&mut sys.dev)
    } else if is_name(&cmd, "ls") {
        assert(cmd@.len() == 2 && cmd@[0] == 'l' && cmd@[1] == 's');
        cmd_ls(&sys.vfs, &sys.shell, &args)
    } else if is_name(&cmd, "cat") {
        assert(cmd@.len() == 3 && cmd@[0] == 'c' && cmd@[1] == 'a' && cmd@[2] == 't');
        cmd_cat(sys, &args, uid)
    } else if is_name(&cmd, "echo") {
        assert(cmd@.len() == 4 && cmd@[0] == 'e' && cmd@[1] == 'c' && cmd@[2] == 'h' && cmd@[3] == 'o');
        cmd_echo(&args)
    } else if is_name(&cmd, "mkdir") {
        assert(cmd@.len() == 5 && cmd@[0] == 'm' && cmd@[1] == 'k' && cmd@[2] == 'd' && cmd@[3] == 'i' && cmd@[4] == 'r');
        cmd_mkdir(&mut sys.vfs, &sys.shell, &args, uid)
    } else if is_name(&cmd, "rm") {
        assert(cmd@.len() == 2 && cmd@[0] == 'r' && cmd@[1] == 'm');
        cmd_rm(&mut sys.vfs, &sys.shell, &args, uid)
    } else if is_name(&cmd, "cp") {
        assert(cmd@.len() == 2 && cmd@[0] == 'c' && cmd@[1] == 'p');
        cmd_cp(&mut sys.vfs, &mut sys.dev, &sys.shell, &args, uid)
    } else if is_name(&cmd, "ps") {
        assert(cmd@.len() == 2 && cmd@[0] == 'p' && cmd@[1] == 's');
        cmd_ps(&sys.kernel.tasks)
    } else if is_name(&cmd, "top") {
        assert(cmd@.len() == 3 && cmd@[0] == 't' && cmd@[1] == 'o' && cmd@[2] == 'p');
        cmd_top(&sys.kernel.tasks)
    } else if is_name(&cmd, "grep") {
        assert(cmd@.len() == 4 && cmd@[0] == 'g' && cmd@[1] == 'r' && cmd@[2] == 'e' && cmd@[3] == 'p');
        cmd_grep(&args)
    } else if is_name(&cmd, "chmod") {
        assert(cmd@.len() == 5 && cmd@[0] == 'c' && cmd@[1] == 'h' && cmd@[2] == 'm' && cmd@[3] == 'o' && cmd@[4] == 'd');
        cmd_chmod(&mut sys.vfs, &sys.shell, &args, uid)
    } else if is_name(&cmd, "novapkg") {
        assert(cmd@.len() == 7 && cmd@[0] == 'n' && cmd@[1] == 'o' && cmd@[2] == 'v' && cmd@[3] == 'a' && cmd@[4] == 'p' && cmd@[5] == 'k' && cmd@[6] == 'g');
        cmd_novapkg(sys, &args)
    } else if is_name(&cmd, "snapshot") {
        assert(cmd@.len() == 8 && cmd@[0] == 's' && cmd@[1] == 'n' && cmd@[2] == 'a' && cmd@[3] == 'p' && cmd@[4] == 's' && cmd@[5] == 'h' && cmd@[6] == 'o' && cmd@[7] == 't');
        cmd_snapshot(sys, &args)
    } else if is_name(&cmd, "mq_send") {
        assert(cmd@.len() == 7 && cmd@[0] == 'm' && cmd@[1] == 'q' && cmd@[2] == '_' && cmd@[3] == 's' && cmd@[4] == 'e' && cmd@[5] == 'n' && cmd@[6] == 'd');
        cmd_mq_send(sys, &args)
    } else if is_name(&cmd, "mq_recv") {
        assert(cmd@.len() == 7 && cmd@[0] == 'm' && cmd@[1] == 'q' && cmd@[2] == '_' && cmd@[3] == 'r' && cmd@[4] == 'e' && cmd@[5] == 'c' && cmd@[6] == 'v');
        cmd_mq_recv(sys, &args)
    } else if is_name(&cmd, "mq_list") {
        assert(cmd@.len() == 7 && cmd@[0] == 'm' && cmd@[1] == 'q' && cmd@[2] == '_' && cmd@[3] == 'l' && cmd@[4] == 'i' && cmd@[5] == 's' && cmd@[6] == 't');
        cmd_mq_list(&sys.kernel)
    } else if is_name(&cmd, "mutex_create") {
        assert(cmd@.len() == 12 && cmd@[0] == 'm' && cmd@[1] == 'u' && cmd@[2] == 't' && cmd@[3] == 'e' && cmd@[4] == 'x' && cmd@[5] == '_' && cmd@[6] == 'c' && cmd@[7] == 'r' && cmd@[8] == 'e' && cmd@[9] == 'a' && cmd@[10] == 't' && cmd@[11] == 'e');
        cmd_mutex_create(sys, &args)
    } else if is_name(&cmd, "mutex_lock") {
        assert(cmd@.len() == 10 && cmd@[0] == 'm' && cmd@[1] == 'u' && cmd@[2] == 't' && cmd@[3] == 'e' && cmd@[4] == 'x' && cmd@[5] == '_' && cmd@[6] == 'l' && cmd@[7] == 'o' && cmd@[8] == 'c' && cmd@[9] == 'k');
        cmd_mutex_call(sys, &args, true)
    } else if is_name(&cmd, "mutex_unlock") {
        assert(cmd@.len() == 12 && cmd@[0] == 'm' && cmd@[1] == 'u' && cmd@[2] == 't' && cmd@[3] == 'e' && cmd@[4] == 'x' && cmd@[5] == '_' && cmd@[6] == 'u' && cmd@[7] == 'n' && cmd@[8] == 'l' && cmd@[9] == 'o' && cmd@[10] == 'c' && cmd@[11] == 'k');
        cmd_mutex_call(sys, &args, false)
    } else if is_name(&cmd, "deadlock_demo") {
        assert(cmd@.len() == 13 && cmd@[0] == 'd' && cmd@[1] == 'e' && cmd@[2] == 'a' && cmd@[3] == 'd' && cmd@[4] == 'l' && cmd@[5] == 'o' && cmd@[6] == 'c' && cmd@[7] == 'k' && cmd@[8] == '_' && cmd@[9] == 'd' && cmd@[10] == 'e' && cmd@[11] == 'm' && cmd@[12] == 'o');
        cmd_deadlock_demo(sys)
    } else if is_name(&cmd, "deadlock_resolve") {
        assert(cmd@.len() == 16 && cmd@[0] == 'd' && cmd@[1] == 'e' && cmd@[2] == 'a' && cmd@[3] == 'd' && cmd@[4] == 'l' && cmd@[5] == 'o' && cmd@[6] == 'c' && cmd@[7] == 'k' && cmd@[8] == '_' && cmd@[9] == 'r' && cmd@[10] == 'e' && cmd@[11] == 's' && cmd@[12] == 'o' && cmd@[13] == 'l' && cmd@[14] == 'v' && cmd@[15] == 'e');
        cmd_deadlock_resolve(sys)
    } else if is_name(&cmd, "quota") {
        assert(cmd@.len() == 5 && cmd@[0] == 'q' && cmd@[1] == 'u' && cmd@[2] == 'o' && cmd@[3] == 't' && cmd@[4] == 'a');
        cmd_quota(uid)
    } else {
        proof {
            assert(!builtin_names().contains(cmd@)) by {
                if builtin_names().contains(cmd@) {
                    let k = choose|k: int| 0 <= k < builtin_names().len() && builtin_names()[k] == cmd@;
                    assert(builtin_names()[k] == cmd@);
                }
            }
        }
        cmd_unknown(&sys.pkgs, cmd.as_str())
    }
}

/// What the pipe `first | second` did from `s0` to `s1` and answered: `first` runs on `s0`,
/// then `second` runs on the machine it left, with `first`'s output as its last argument.
pub open spec fn pipe_post(s0: System, s1: System, first: Seq<char>, second: Seq<char>, r: Seq<char>) -> bool {
    exists|sa: System, o1: Seq<char>| #[trigger] single_post(s0, sa, first, Seq::<char>::empty(), o1)
        && single_post(sa, s1, second, o1, r)
}

/// Runs `first`, then `second` with the output of `first` as its last argument.
fn run_pipe(sys: &mut System, first: &str, second: &str) -> (r: String)
    requires
        command_ready(*old(sys)),
        old(sys).vfs.next_fd + 5 < usize::MAX,
        old(sys).kernel.tasks.next_pid + 6 < u32::MAX,
        old(sys).kernel.mutexes matches Some(m) ==> m.next_id + 6 < u32::MAX,
        !(parse_command(first@, Seq::empty()) matches Some((n, _)) && n == "logout"@),
    ensures
        final(sys).wf(),
        final(sys).users.accounts() == old(sys).users.accounts(),
        final(sys).vfs.next_fd <= old(sys).vfs.next_fd + 4,
        final(sys).kernel.tasks.next_pid <= old(sys).kernel.tasks.next_pid + 6,
        final(sys).terminal_input == old(sys).terminal_input,
        final(sys).classroom == old(sys).classroom,
        stage_name(second@) != Some("logout"@) ==> session_user(final(sys).users) is Some,
        pipe_output(*old(sys), first@, second@, r@),
        pipe_post(*old(sys), *final(sys), first@, second@, r@),
{
    proof { reveal_strlit(""); }
    let ghost s0 = *sys;
    let out1 = run_single_command(sys, first, "");
    let ghost s1 = *sys;
    assert(""@ =~= Seq::<char>::empty());
    assert(single_post(s0, s1, first@, Seq::<char>::empty(), out1@));
    let r = run_single_command(sys, second, out1.as_str());
    proof {
        if stage_output(s0, first@) is Some {
            assert(stage_output(s0, first@) == Some(out1@));
            if stage_keeps(first@) {
                assert(s1 == s0);
            }
            match parse_command(second@, out1@) {
                Some((n, a)) => {
                    if state_free_query(n) {
                        lemma_state_free_query(s0, s1, n, a);
                    }
                    if stage_keeps(first@) || state_free_query(n) {
                        assert(query_output(s0, n, a) == query_output(s1, n, a));
                        if query_output(s0, n, a) is Some {
                            assert(r@ == query_output(s0, n, a)->Some_0);
                        }
                    }
                },
                None => {
                    assert(r@ == Seq::<char>::empty());
                },
            }
        }
    }
    assert(single_post(s1, *sys, second@, out1@, r@));
    r
}

/// The pieces of `s` between occurrences of `sep`, empty ones included, after the current
/// piece `cur`.
pub open spec fn split_all_from(s: Seq<char>, sep: char, cur: Seq<char>) -> Seq<Seq<char>>
    decreases s.len(),
{
    if s.len() == 0 {
        seq![cur]
    } else if s[0] == sep {
        seq![cur] + split_all_from(s.drop_first(), sep, Seq::empty())
    } else {
        split_all_from(s.drop_first(), sep, cur.push(s[0]))
    }
}

/// The pieces of `s` between occurrences of `sep`, empty ones included (`str::split`).
pub open spec fn split_all(s: Seq<char>, sep: char) -> Seq<Seq<char>> {
    split_all_from(s, sep, Seq::empty())
}

/// Splits `s` at every `sep`, keeping empty pieces.
fn split_all_pieces(s: &[char], sep: char) -> (r: Vec<Vec<char>>)
    ensures
        crate::text::pieces_view(r@) == split_all(s@, sep),
{
    let mut acc: Vec<Vec<char>> = Vec::new();
    let mut cur: Vec<char> = Vec::new();
    let mut i: usize = 0;
    assert(s@.subrange(0, s@.len() as int) =~= s@);
    assert(crate::text::pieces_view(acc@) + split_all(s@, sep) =~= split_all(s@, sep));
    while i < s.len()
        invariant
            i <= s@.len(),
            crate::text::pieces_view(acc@) + split_all_from(s@.subrange(i as int, s@.len() as int), sep, cur@) == split_all(s@, sep),
        decreases s@.len() - i,
    {
        let ghost rest = s@.subrange(i as int, s@.len() as int);
        assert(rest.drop_first() =~= s@.subrange(i + 1, s@.len() as int));
        if s[i] == sep {
            let ghost a0 = crate::text::pieces_view(acc@);
            let ghost c0 = cur@;
            acc.push(cur);
            cur = Vec::new();
            assert(crate::text::pieces_view(acc@) =~= a0.push(c0));
            assert(crate::text::pieces_view(acc@) + split_all_from(s@.subrange(i + 1, s@.len() as int), sep, cur@)
                =~= a0 + (seq![c0] + split_all_from(s@.subrange(i + 1, s@.len() as int), sep, Seq::empty())));
        } else {
            cur.push(s[i]);
        }
        i = i + 1;
    }
    assert(s@.subrange(i as int, s@.len() as int) =~= Seq::<char>::empty());
    let ghost a0 = crate::text::pieces_view(acc@);
    let ghost c0 = cur@;
    acc.push(cur);
    assert(crate::text::pieces_view(acc@) =~= a0 + seq![c0]);
    acc
}

/// The command line after trimming and expanding variables.
pub open spec fn expanded_line(s: System, line: Seq<char>) -> Seq<char> {
    expand_spec(s.shell.env_view(), trim_spec(line))
}

/// The line pipes a `logout` into another command (the session it needs is then gone).
pub open spec fn pipes_from_logout(s: System, line: Seq<char>) -> bool {
    let e = expanded_line(s, line);
    let parts = split_all(e, '|');
    &&& trim_spec(line).len() > 0
    &&& e.contains('|')
    &&& parts.len() == 2
    &&& parse_command(trim_spec(parts[0]), Seq::empty()) matches Some((n, _)) && n == "logout"@
}

/// Whether the line pipes a `logout` into another command, which would leave that command
/// without a session; callers refuse such a line.
pub fn pipes_from_logout_check(sys: &System, line: &str) -> (r: bool)
    ensures
        r == pipes_from_logout(*sys, line@),
{
    let lc = str_to_chars(line);
    let tc = trim_chars(lc.as_slice());
    if tc.len() == 0 {
        return false;
    }
    let trimmed = chars_to_string(tc.as_slice());
    let expanded = expand_env_variables(&sys.shell, trimmed.as_str());
    let ec = str_to_chars(expanded.as_str());
    if !contains_char(ec.as_slice(), '|') {
        return false;
    }
    let parts = split_all_pieces(ec.as_slice(), '|');
    if parts.len() != 2 {
        return false;
    }
    let ghost pv = crate::text::pieces_view(parts@);
    assert(pv[0] == parts@[0]@);
    let p0 = trim_chars(parts[0].as_slice());
    let s0 = chars_to_string(p0.as_slice());
    let tokens = split_arguments(s0.as_str());
    if tokens.len() == 0 {
        return false;
    }
    assert(strings_view(tokens@)[0] == tokens@[0]@);
    proof { reveal_strlit(""); }
    is_name(&tokens[0], "logout")
}

/// What a line may assume: a consistent machine with room for two commands and a
/// descriptor, a logged-in user, and no pipe out of `logout`.
pub open spec fn line_ready(s: System, line: Seq<char>) -> bool {
    &&& s.wf()
    &&& s.vfs.next_fd + 5 < usize::MAX
    &&& s.kernel.tasks.next_pid + 6 < u32::MAX
    &&& (s.kernel.mutexes matches Some(m) ==> m.next_id + 6 < u32::MAX)
    &&& session_user(s.users) is Some
    &&& !pipes_from_logout(s, line)
}

/// The name of the command a line stage runs, if it has one.
pub open spec fn stage_name(stage: Seq<char>) -> Option<Seq<char>> {
    match parse_command(stage, Seq::empty()) {
        Some((n, _)) => Some(n),
        None => None,
    }
}

/// The line ends the session: the command it finally runs (the second stage of a pipe, the
/// command before a redirection, or the whole line) is `logout`.
pub open spec fn line_logs_out(s: System, line: Seq<char>) -> bool {
    let e = expanded_line(s, line);
    &&& trim_spec(line).len() > 0
    &&& if e.contains('|') {
        split_all(e, '|').len() == 2 && stage_name(trim_spec(split_all(e, '|')[1])) == Some("logout"@)
    } else if e.contains('>') {
        stage_name(trim_spec(split_all(e, '>')[0])) == Some("logout"@)
    } else {
        stage_name(e) == Some("logout"@)
    }
}

/// Whether a line stage runs the command `lit`.
fn stage_named(stage: &[char], lit: &str) -> (r: bool)
    ensures
        r == (stage_name(stage@) == Some(lit@)),
{
    let s0 = chars_to_string(stage);
    let tokens = split_arguments(s0.as_str());
    if tokens.len() == 0 {
        return false;
    }
    assert(strings_view(tokens@)[0] == tokens@[0]@);
    is_name(&tokens[0], lit)
}

/// Whether the line ends the session: its command, or the command a pipe feeds or a
/// redirection saves, is `logout`. A front end that shows the user's prompt after a line
/// refuses such a line.
pub fn line_logs_out_check(sys: &System, line: &str) -> (r: bool)
    ensures
        r == line_logs_out(*sys, line@),
{
    let lc = str_to_chars(line);
    let tc = trim_chars(lc.as_slice());
    if tc.len() == 0 {
        return false;
    }
    let trimmed = chars_to_string(tc.as_slice());
    let expanded = expand_env_variables(&sys.shell, trimmed.as_str());
    let ec = str_to_chars(expanded.as_str());
    if contains_char(ec.as_slice(), '|') {
        let parts = split_all_pieces(ec.as_slice(), '|');
        if parts.len() != 2 {
            return false;
        }
        let ghost pv = crate::text::pieces_view(parts@);
        assert(pv[1] == parts@[1]@);
        let p1 = trim_chars(parts[1].as_slice());
        stage_named(p1.as_slice(), "logout")
    } else if contains_char(ec.as_slice(), '>') {
        let parts = split_all_pieces(ec.as_slice(), '>');
        let ghost pv = crate::text::pieces_view(parts@);
        proof { lemma_split_all_from_len(ec@, '>', Seq::empty()); }
        assert(pv[0] == parts@[0]@);
        let p0 = trim_chars(parts[0].as_slice());
        stage_named(p0.as_slice(), "logout")
    } else {
        stage_named(ec.as_slice(), "logout")
    }
}

/// The user a redirection opens its file as: the session user, or 1001 with none.
pub open spec fn redirect_uid(s: System) -> u32 {
    match session_user(s.users) {
        Some(u) => u.0,
        None => 1001,
    }
}

/// What the read of the standard input that a redirection makes leaves as it was: the
/// filesystem, mounts and descriptor numbering, the disk, the processes and audit log, the
/// accounts and the shell.
pub open spec fn read_step(sa: System, sb: System) -> bool {
    &&& sb.wf()
    &&& sb.vfs.fs == sa.vfs.fs
    &&& sb.vfs.mounts == sa.vfs.mounts
    &&& sb.vfs.next_fd == sa.vfs.next_fd
    &&& sb.dev.disk == sa.dev.disk
    &&& sb.kernel.tasks == sa.kernel.tasks
    &&& sb.kernel.audit == sa.kernel.audit
    &&& sb.users == sa.users
    &&& sb.shell == sa.shell
}

/// What writing a command's output `out` to the resolved `target` did, from `sb` to `s1`, and
/// answered: the target is opened (created when missing) for writing as `uid`; when that
/// fails the open error is reported; otherwise the write system call is made with `out`'s
/// bytes on the new descriptor, the filesystem is left as that write leaves it, and the
/// answer names `file` or gives the write error.
pub open spec fn redirect_write_post(sb: System, s1: System, target: Seq<char>, file: Seq<char>, out: Seq<char>, uid: u32,
    r: Seq<char>) -> bool
{
    exists|v4: Vfs, ro: Result<usize, String>| #[trigger] open_post(sb.vfs, v4, target, true, true, uid, ro) && match ro {
        Err(e) => r == "Redirection failed: "@ + e@,
        Ok(fd) => exists|k5: Kernel, v5: Vfs, d5: Devices, w: Result<u64, String>|
            #[trigger] write_call_post(sb.kernel, k5, v4, v5, sb.dev, d5, fd, vstd::utf8::encode_utf8(out), w)
            && s1.vfs.fs == v5.fs && match w {
                Ok(_) => r == "Output redirected to "@ + file,
                Err(e) => r == "Write error: "@ + e@,
            },
    }
}

/// What `cmd > file` did from `s0` to `s1` and answered: `cmd` runs as a command line of its
/// own, the standard input is read once, and its output is written to `file` (resolved in the
/// working directory) as `redirect_write_post` says.
pub open spec fn redirect_post(s0: System, s1: System, cmd: Seq<char>, file: Seq<char>, r: Seq<char>) -> bool {
    exists|sa: System, out: Seq<char>, sb: System|
        #![trigger single_post(s0, sa, cmd, Seq::<char>::empty(), out), read_step(sa, sb)]
        single_post(s0, sa, cmd, Seq::<char>::empty(), out) && read_step(sa, sb)
            && redirect_write_post(sb, s1, resolve_spec(sa.shell.current_dir@, file), file, out, redirect_uid(sa), r)
}

/// The file a redirection names: what follows the first `>`, trimmed.
pub open spec fn redirect_target(e: Seq<char>) -> Seq<char> {
    trim_spec(split_all(e, '>')[1])
}

/// What running the line `line` did to the machine (`s0` before, `s1` after) and answered.
pub open spec fn exec_post(s0: System, s1: System, line: Seq<char>, r: Seq<char>) -> bool {
    &&& s1.wf()
    &&& s1.users.accounts() == s0.users.accounts()
    &&& s1.vfs.next_fd <= s0.vfs.next_fd + 5
    &&& s1.kernel.tasks.next_pid <= s0.kernel.tasks.next_pid + 6
    &&& s1.terminal_input == s0.terminal_input
    &&& s1.classroom == s0.classroom
    &&& !line_logs_out(s0, line) ==> session_user(s1.users) is Some
    &&& ({
        let t = trim_spec(line);
        let e = expanded_line(s0, line);
        if t.len() == 0 {
            r == Seq::<char>::empty() && s1 == s0
        } else if e.contains('|') {
            let parts = split_all(e, '|');
            if parts.len() != 2 {
                r == "NovaShell Error: Multistage pipes not supported in current lab."@ && s1 == s0
            } else {
                pipe_output(s0, trim_spec(parts[0]), trim_spec(parts[1]), r)
                    && pipe_post(s0, s1, trim_spec(parts[0]), trim_spec(parts[1]), r)
            }
        } else if e.contains('>') {
            redirect_post(s0, s1, trim_spec(split_all(e, '>')[0]), redirect_target(e), r)
        } else {
            match parse_command(e, Seq::empty()) {
                None => r.len() == 0,
                Some((n, a)) => (query_output(s0, n, a) matches Some(o) ==> r == o)
                    && command_post(s0, s1, n, a, r),
            }
        }
    })
}

/// Runs a command line: variables are expanded; `a | b` runs `b` with the output of `a` as
/// its last argument; `cmd > file` writes what `cmd` printed to `file` through the
/// write system call (created when missing) and reports where.
#[verifier::spinoff_prover]
#[verifier::rlimit(60)]
pub fn execute_command(sys: &mut System, line: &str) -> (r: String)
    requires
        line_ready(*old(sys), line@),
    ensures
        exec_post(*old(sys), *final(sys), line@, r@),
{
    let lc = str_to_chars(line);
    let tc = trim_chars(lc.as_slice());
    if tc.len() == 0 {
        return String::new();
    }
    let trimmed = chars_to_string(tc.as_slice());
    let expanded = expand_env_variables(&sys.shell, trimmed.as_str());
    let ec = str_to_chars(expanded.as_str());
    let ghost e = ec@;
    assert(e == expanded_line(*old(sys), line@));
    if contains_char(ec.as_slice(), '|') {
        let parts = split_all_pieces(ec.as_slice(), '|');
        if parts.len() != 2 {
            return String::from_str("NovaShell Error: Multistage pipes not supported in current lab.");
        }
        let ghost pv = crate::text::pieces_view(parts@);
        assert(pv[0] == parts@[0]@ && pv[1] == parts@[1]@);
        let p0 = trim_chars(parts[0].as_slice());
        let p1 = trim_chars(parts[1].as_slice());
        let s0 = chars_to_string(p0.as_slice());
        let s1 = chars_to_string(p1.as_slice());
        return run_pipe(sys, s0.as_str(), s1.as_str());
    }
    if contains_char(ec.as_slice(), '>') {
        let parts = split_all_pieces(ec.as_slice(), '>');
        let ghost pv = crate::text::pieces_view(parts@);
        assert(parts@.len() >= 2) by {
            assert(e.contains('>'));
            lemma_split_all_two(e, '>');
        }
        assert(pv[0] == parts@[0]@ && pv[1] == parts@[1]@);
        let cmd = trim_chars(parts[0].as_slice());
        let file_path = trim_chars(parts[1].as_slice());
        let cs = chars_to_string(cmd.as_slice());
        let fp = chars_to_string(file_path.as_slice());
        proof { reveal_strlit(""); }
        let ghost s0 = *sys;
        let out = run_single_command(sys, cs.as_str(), "");
        let ghost sa = *sys;
        assert(single_post(s0, sa, cmd@, Seq::<char>::empty(), out@));
        let uid: u32 = match get_current_user(&sys.users) {
            Some(u) => u.uid,
            None => 1001,
        };
        assert(uid == redirect_uid(sa));
        let resolved = resolve_absolute_path(&sys.shell, fp.as_str());
        let _ = sys_call(&mut sys.kernel, &mut sys.vfs, &mut sys.dev, &mut sys.net, 3, 0, 0, 0);
        let ghost sb = *sys;
        assert(read_step(sa, sb));
        let mut msg: Vec<char> = Vec::new();
        let ro = vfs_open(&mut sys.vfs, resolved.as_str(), true, true, uid);
        let ghost v4 = sys.vfs;
        assert(open_post(sb.vfs, v4, resolved@, true, true, uid, ro));
        match ro {
            Ok(fd) => {
                let bytes = out.as_str().as_bytes();
                let w = sys_write_data(&mut sys.kernel, &mut sys.vfs, &mut sys.dev, fd, bytes);
                assert(write_call_post(sb.kernel, sys.kernel, v4, sys.vfs, sb.dev, sys.dev, fd,
                    vstd::utf8::encode_utf8(out@), w));
                let ghost v5 = sys.vfs;
                let _ = vfs_close(&mut sys.vfs, fd);
                assert(sys.vfs.fs == v5.fs);
                match w {
                    Err(e) => {
                        push_str(&mut msg, "Write error: ");
                        push_str(&mut msg, e.as_str());
                    },
                    Ok(_) => {
                        push_str(&mut msg, "Output redirected to ");
                        push_chars(&mut msg, file_path.as_slice());
                    },
                }
            },
            Err(e) => {
                push_str(&mut msg, "Redirection failed: ");
                push_str(&mut msg, e.as_str());
            },
        }
        assert(redirect_write_post(sb, *sys, resolved@, file_path@, out@, uid, msg@));
        assert(redirect_post(s0, *sys, cmd@, file_path@, msg@));
        return chars_to_string(msg.as_slice());
    }
    proof { reveal_strlit(""); }
    run_single_command(sys, expanded.as_str(), "")
}

/// A text holding `sep` splits into at least two pieces.
proof fn lemma_split_all_two(s: Seq<char>, sep: char)
    requires
        s.contains(sep),
    ensures
        split_all(s, sep).len() >= 2,
{
    lemma_split_all_from_len(s, sep, Seq::empty());
}

/// Splitting gives one piece more than there are separators ahead, so at least two when one
/// is ahead.
proof fn lemma_split_all_from_len(s: Seq<char>, sep: char, cur: Seq<char>)
    ensures
        split_all_from(s, sep, cur).len() >= 1,
        s.contains(sep) ==> split_all_from(s, sep, cur).len() >= 2,
    decreases s.len(),
{
    if s.len() > 0 {
        if s[0] == sep {
            lemma_split_all_from_len(s.drop_first(), sep, Seq::empty());
        } else {
            lemma_split_all_from_len(s.drop_first(), sep, cur.push(s[0]));
            if s.contains(sep) {
                let k = choose|k: int| 0 <= k < s.len() && s[k] == sep;
                assert(s.drop_first()[k - 1] == sep);
            }
        }
    }
}

} // verus!
