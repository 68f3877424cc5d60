//! The shell's commands, one function each, over the whole machine.
use vstd::prelude::*;
use crate::text::{chars_range, str_to_chars, chars_to_string, push_str, push_chars, push_decimal, str_eq, contains_char, decimal};
use crate::system::System;
use crate::drivers::Devices;
use crate::drivers::input::KeyCode;
use crate::drivers::vga::init_vga;
use crate::userspace::{UserDb, UserView, account, login_user, logout_user};
use crate::userspace::novapkg::list_installed;
use crate::shell::session::{ShellSession, strings_view, env_set, set_env, update_shell_session, home_dir};
use crate::shell::format::{join_spec};

verus! {

/// The account of the logged-in user, if any.
pub open spec fn session_user(db: UserDb) -> Option<UserView> {
    match db.session() {
        Some(n) => account(db.accounts(), n),
        None => None,
    }
}

/// What a command may assume: a consistent machine, room for two more descriptors, three
/// more processes and three more mutexes, and a logged-in user.
pub open spec fn command_ready(s: System) -> bool {
    &&& s.wf()
    &&& s.vfs.next_fd + 2 < usize::MAX
    &&& s.kernel.tasks.next_pid + 3 < u32::MAX
    &&& (s.kernel.mutexes matches Some(m) ==> m.next_id + 3 < u32::MAX)
    &&& session_user(s.users) is Some
}

/// What every command keeps: consistency, and the counters
/// advanced by at most two descriptors, three processes and three mutexes.
pub open spec fn command_keeps(s0: System, s1: System) -> bool {
    &&& s1.wf()
    &&& s1.vfs.next_fd <= s0.vfs.next_fd + 2
    &&& s1.kernel.tasks.next_pid <= s0.kernel.tasks.next_pid + 3
    &&& (s1.kernel.mutexes matches Some(m1) ==> (s0.kernel.mutexes matches Some(m0) && m1.next_id <= m0.next_id + 3))
    &&& s1.users.accounts() == s0.users.accounts()
    &&& crate::system::aside_unchanged(s0, s1)
}

/// The text of `help`.
pub open spec fn help_text() -> Seq<char> {
    "NovaOS - Shell Builtin Commands:\n  help                    Display this list\n  cd <path>               Change directory\n  pwd                     Print working directory\n  export <key>=<val>      Set environment variables\n  login <user> <pass>     Authenticate user session\n  logout                  Exit active user session\n  clear                   Reset console screen\n\nCore Unix Utilities:\n  ls, cat, cp, mv, rm, mkdir, chmod, chown, grep, echo, ps, top\n\nEducational/Classroom commands:\n  quota                   Inspect disk storage quota\n  snapshot <create|restore> <id>  Restore OS filesystem backups\n  novapkg install/remove/list     Manage applications\n\nInter-Process Communication (IPC):\n  mq_send <qname> <msg>   Send message to queue\n  mq_recv <qname>         Receive message from queue\n  mq_list                 List active message queues\n\nConcurrency & Mutexes:\n  mutex_create <name>     Create a new lock\n  mutex_lock <id>         Acquire a lock\n  mutex_unlock <id>       Release a lock\n  deadlock_demo           Simulate Dining Philosophers deadlock\n  deadlock_resolve        Resolve the deadlock cycle\n"@
}

/// `help`: the list of commands.
pub fn cmd_help() -> (r: String)
    ensures
        r@ == help_text(),
{
    String::from_str("NovaOS - Shell Builtin Commands:\n  help                    Display this list\n  cd <path>               Change directory\n  pwd                     Print working directory\n  export <key>=<val>      Set environment variables\n  login <user> <pass>     Authenticate user session\n  logout                  Exit active user session\n  clear                   Reset console screen\n\nCore Unix Utilities:\n  ls, cat, cp, mv, rm, mkdir, chmod, chown, grep, echo, ps, top\n\nEducational/Classroom commands:\n  quota                   Inspect disk storage quota\n  snapshot <create|restore> <id>  Restore OS filesystem backups\n  novapkg install/remove/list     Manage applications\n\nInter-Process Communication (IPC):\n  mq_send <qname> <msg>   Send message to queue\n  mq_recv <qname>         Receive message from queue\n  mq_list                 List active message queues\n\nConcurrency & Mutexes:\n  mutex_create <name>     Create a new lock\n  mutex_lock <id>         Acquire a lock\n  mutex_unlock <id>       Release a lock\n  deadlock_demo           Simulate Dining Philosophers deadlock\n  deadlock_resolve        Resolve the deadlock cycle\n")
}

/// `pwd`: the working directory and a newline.
pub fn cmd_pwd(sh: &ShellSession) -> (r: String)
    ensures
        r@ == sh.current_dir@ + "\n"@,
{
    let mut out = str_to_chars(sh.current_dir.as_str());
    push_str(&mut out, "\n");
    chars_to_string(out.as_slice())
}

/// Joins the words with `sep`.
pub fn join_words(v: &Vec<String>, sep: &str) -> (r: Vec<char>)
    ensures
        r@ == join_spec(strings_view(v@), sep@),
{
    let mut out: Vec<char> = Vec::new();
    let ghost sv = strings_view(v@);
    let mut i: usize = 0;
    while i < v.len()
        invariant
            sv == strings_view(v@),
            i <= v@.len(),
            out@ == join_spec(sv.subrange(0, i as int), sep@),
        decreases v@.len() - i,
    {
        let ghost before = out@;
        if i > 0 {
            push_str(&mut out, sep);
        }
        push_str(&mut out, v[i].as_str());
        assert(sv.subrange(0, i + 1).drop_last() =~= sv.subrange(0, i as int));
        assert(sv[i as int] == v@[i as int]@);
        if i == 0 {
            assert(out@ =~= join_spec(sv.subrange(0, 1), sep@));
        }
        i = i + 1;
    }
    assert(sv.subrange(0, v@.len() as int) =~= sv);
    out
}

/// `echo`: the arguments separated by spaces, and a newline.
pub fn cmd_echo(args: &Vec<String>) -> (r: String)
    ensures
        r@ == join_spec(strings_view(args@), " "@) + "\n"@,
{
    let mut out = join_words(args, " ");
    push_str(&mut out, "\n");
    chars_to_string(out.as_slice())
}

/// The position of the first `c` in `s`, or its length.
pub open spec fn first_index(s: Seq<char>, c: char) -> int
    decreases s.len(),
{
    if s.len() == 0 {
        0
    } else if s[0] == c {
        0
    } else {
        1 + first_index(s.drop_first(), c)
    }
}

/// `first_index` is the least index holding `c`, or the length when none does.
proof fn lemma_first_index(s: Seq<char>, c: char)
    ensures
        0 <= first_index(s, c) <= s.len(),
        first_index(s, c) < s.len() ==> s[first_index(s, c)] == c,
        forall|j: int| 0 <= j < first_index(s, c) ==> s[j] != c,
    decreases s.len(),
{
    if s.len() > 0 && s[0] != c {
        lemma_first_index(s.drop_first(), c);
        assert forall|j: int| 0 <= j < first_index(s, c) implies s[j] != c by {
            if j > 0 { assert(s[j] == s.drop_first()[j - 1]); }
        }
    }
}

/// The result of `export` with arguments `args` on environment `env`: the usage line, or the
/// environment with the first argument's name (before its first `=`) set to the rest.
pub open spec fn export_spec(args: Seq<Seq<char>>, env: crate::shell::session::EnvView)
    -> (Seq<char>, crate::shell::session::EnvView)
{
    if args.len() == 0 || !args[0].contains('=') {
        ("Usage: export KEY=VALUE"@, env)
    } else {
        let k = first_index(args[0], '=');
        (Seq::empty(), env_set(env, args[0].subrange(0, k), args[0].subrange(k + 1, args[0].len() as int)))
    }
}

/// `export KEY=VALUE`: sets a variable.
pub fn cmd_export(sh: &mut ShellSession, args: &Vec<String>) -> (r: String)
    requires
        old(sh).wf(),
    ensures
        final(sh).wf(),
        final(sh).current_dir == old(sh).current_dir,
        (r@, final(sh).env_view()) == export_spec(strings_view(args@), old(sh).env_view()),
{
    let ghost av = strings_view(args@);
    if args.len() == 0 {
        return String::from_str("Usage: export KEY=VALUE");
    }
    assert(av[0] == args@[0]@);
    let a = str_to_chars(args[0].as_str());
    let mut k: usize = 0;
    while k < a.len() && a[k] != '='
        invariant
            k <= a@.len(),
            forall|j: int| 0 <= j < k ==> a@[j] != '=',
        decreases a@.len() - k,
    {
        k = k + 1;
    }
    proof {
        lemma_first_index(a@, '=');
    }
    if k == a.len() {
        assert(!a@.contains('='));
        return String::from_str("Usage: export KEY=VALUE");
    }
    assert(a@.contains('='));
    assert(first_index(a@, '=') == k) by {
        if first_index(a@, '=') < k { } else if first_index(a@, '=') > k { }
    }
    let kc = chars_range(a.as_slice(), 0, k);
    let key = chars_to_string(kc.as_slice());
    let vc = chars_range(a.as_slice(), k + 1, a.len());
    let val = chars_to_string(vc.as_slice());
    set_env(sh, key.as_str(), val.as_str());
    String::new()
}

/// `quota`: the storage limit of the logged-in user.
pub fn cmd_quota(uid: u32) -> (r: String)
    ensures
        r@ == "NovaOS User Quota limits for UID "@ + decimal(uid as nat)
            + ":\n  - Max storage size: 102400 bytes (100 KB)\n  - Current Usage: Active within lab boundary.\n"@,
{
    let mut out: Vec<char> = Vec::new();
    push_str(&mut out, "NovaOS User Quota limits for UID ");
    push_decimal(&mut out, uid as u64);
    push_str(&mut out, ":\n  - Max storage size: 102400 bytes (100 KB)\n  - Current Usage: Active within lab boundary.\n");
    chars_to_string(out.as_slice())
}

/// The result of `login` with arguments `args`: the usage line, or a success line for a
/// matching name and password, else the failure line.
pub open spec fn login_output(args: Seq<Seq<char>>, accounts: Seq<UserView>) -> Seq<char> {
    if args.len() < 2 {
        "Usage: login <username> <password>"@
    } else {
        match account(accounts, args[0]) {
            Some(u) => if u.2 == args[1] {
                "Logged in successfully as "@ + args[0] + ".\n"@
            } else {
                login_failed_line()
            },
            None => login_failed_line(),
        }
    }
}

/// The line `login` prints when the name or password does not match.
pub open spec fn login_failed_line() -> Seq<char> {
    "Login failed: "@ + "Invalid username or password"@ + "\n"@
}

/// Whether `login` with arguments `args` succeeds.
pub open spec fn login_succeeds(args: Seq<Seq<char>>, accounts: Seq<UserView>) -> bool {
    args.len() >= 2 && (account(accounts, args[0]) matches Some(u) && u.2 == args[1])
}

/// `login <user> <password>`: on a match, the user's session, home directory and `USER`.
pub fn cmd_login(users: &mut UserDb, sh: &mut ShellSession, args: &Vec<String>) -> (r: String)
    requires
        old(users).wf(),
        old(sh).wf(),
    ensures
        final(users).wf(),
        final(sh).wf(),
        final(users).accounts() == old(users).accounts(),
        r@ == login_output(strings_view(args@), old(users).accounts()),
        ({
            let av = strings_view(args@);
            if login_succeeds(av, old(users).accounts()) {
                let u = account(old(users).accounts(), av[0])->Some_0;
                &&& final(users).session() == Some(av[0])
                &&& final(sh).current_dir@ == home_dir(av[0], u.0)
                &&& final(sh).env_view() == env_set(old(sh).env_view(), "USER"@, av[0])
            } else {
                &&& final(users).session() == old(users).session()
                &&& *final(sh) == *old(sh)
            }
        }),
{
    let ghost av = strings_view(args@);
    if args.len() < 2 {
        return String::from_str("Usage: login <username> <password>");
    }
    assert(av[0] == args@[0]@ && av[1] == args@[1]@);
    match login_user(users, args[0].as_str(), args[1].as_str()) {
        Ok(u) => {
            proof {
                let acc = old(users).accounts();
                let i = choose|i: int| 0 <= i < acc.len() && acc[i].1 == av[0];
                assert(0 <= i < acc.len() && acc[i].1 == av[0]);
                assert(u.username@ == av[0]);
            }
            update_shell_session(sh, u.username.as_str(), u.uid);
            let mut out: Vec<char> = Vec::new();
            push_str(&mut out, "Logged in successfully as ");
            push_str(&mut out, u.username.as_str());
            push_str(&mut out, ".\n");
            chars_to_string(out.as_slice())
        },
        Err(e) => {
            let mut out: Vec<char> = Vec::new();
            push_str(&mut out, "Login failed: ");
            push_str(&mut out, e.as_str());
            push_str(&mut out, "\n");
            chars_to_string(out.as_slice())
        },
    }
}

/// What `logout` did to the machine and answered.
pub open spec fn logout_post(s0: System, s1: System, r: Seq<char>) -> bool {
    &&& crate::system::aside_unchanged(s0, s1)
    &&& r == "Logged out. Current session reset.\n"@
    &&& s1.users.session() is None
    &&& s1.users.accounts() == s0.users.accounts()
    &&& s1.shell.current_dir@ == "/"@
    &&& s1.shell.env_view() == env_set(s0.shell.env_view(), "USER"@, "nobody"@)
    &&& s1.vfs.files() == s0.vfs.files()
    &&& s1.vfs.next_fd == s0.vfs.next_fd
    &&& s1.kernel == s0.kernel
    &&& s1.dev.input == s0.dev.input
    &&& s1.pkgs == s0.pkgs
}

/// `logout`: ends the session (a student's workspace is reset), sets `USER` to `nobody` and
/// moves to `/`.
pub fn cmd_logout(sys: &mut System) -> (r: String)
    requires
        old(sys).wf(),
    ensures
        final(sys).wf(),
        logout_post(*old(sys), *final(sys), r@),
{
    logout_user(&mut sys.users, &mut sys.vfs, &mut sys.dev.vga);
    set_env(&mut sys.shell, "USER", "nobody");
    sys.shell.current_dir = String::from_str("/");
    String::from_str("Logged out. Current session reset.\n")
}

/// `clear`: a blank console.
pub fn cmd_clear(dev: &mut Devices) -> (r: String)
    requires
        old(dev).wf(),
    ensures
        final(dev).wf(),
        r@ == Seq::<char>::empty(),
        final(dev).vga matches Some(w) && w.color_code.0 == 15 && w.cursor == (0usize, 0usize),
        final(dev).input == old(dev).input,
        final(dev).disk == old(dev).disk,
{
    dev.vga = Some(init_vga());
    String::new()
}

/// The reply to a command name that is not built in: installed packages run as mock
/// binaries, anything else is not found.
pub open spec fn unknown_command_output(cmd: Seq<char>, installed: Seq<Seq<char>>) -> Seq<char> {
    if installed.contains(cmd) {
        "Executing package binary '"@ + cmd + "' (mock engine active).\nType 'help' to return.\n"@
    } else {
        "NovaShell: command not found: "@ + cmd + ". Type 'help' for commands.\n"@
    }
}

/// A command name that is not built in.
pub fn cmd_unknown(pkgs: &crate::userspace::novapkg::PackageDatabase, cmd: &str) -> (r: String)
    ensures
        r@ == unknown_command_output(cmd@, pkgs.installed()),
{
    let installed = list_installed(pkgs);
    let ghost iv = strings_view(installed@);
    assert(iv == pkgs.installed()) by {
        assert(iv =~= crate::userspace::novapkg::names_view(installed@));
    }
    let mut found = false;
    let mut i: usize = 0;
    while i < installed.len()
        invariant
            iv == strings_view(installed@),
            i <= installed@.len(),
            found == exists|j: int| 0 <= j < i && iv[j] == cmd@,
        decreases installed@.len() - i,
    {
        assert(iv[i as int] == installed@[i as int]@);
        if str_eq(installed[i].as_str(), cmd) {
            found = true;
        }
        i = i + 1;
    }
    let mut out: Vec<char> = Vec::new();
    if found {
        push_str(&mut out, "Executing package binary '");
        push_str(&mut out, cmd);
        push_str(&mut out, "' (mock engine active).\nType 'help' to return.\n");
    } else {
        push_str(&mut out, "NovaShell: command not found: ");
        push_str(&mut out, cmd);
        push_str(&mut out, ". Type 'help' for commands.\n");
    }
    chars_to_string(out.as_slice())
}

} // verus!
