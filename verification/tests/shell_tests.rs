use novaos::shell::execute_command;
use novaos::kernel::task::{create_process, ProcessPriority, ProcessState};
use novaos::system::{boot, System};

fn run(sys: &mut System, line: &str) -> String {
    execute_command(sys, line)
}

#[test]
fn shell_pwd_and_echo() {
    let mut sys = boot();
    assert_eq!(run(&mut sys, "pwd"), "/students/student1\n");
    assert_eq!(run(&mut sys, "echo hello   world"), "hello world\n");
    assert_eq!(run(&mut sys, "echo \"a  b\" c"), "a  b c\n");
    assert_eq!(run(&mut sys, "   "), "");
}

#[test]
fn shell_variables_expand_and_export() {
    let mut sys = boot();
    assert_eq!(run(&mut sys, "echo $USER"), "student1\n");
    assert_eq!(run(&mut sys, "echo $PATH"), "/bin:/usr/bin\n");
    assert_eq!(run(&mut sys, "export COLOR=blue"), "");
    assert_eq!(run(&mut sys, "echo $COLOR"), "blue\n");
    assert_eq!(run(&mut sys, "export COLOR=red=dark"), "");
    assert_eq!(run(&mut sys, "echo $COLOR"), "red=dark\n");
    assert_eq!(run(&mut sys, "export NOVALUE"), "Usage: export KEY=VALUE");
    assert_eq!(run(&mut sys, "export"), "Usage: export KEY=VALUE");
}

#[test]
fn shell_cd_and_ls() {
    let mut sys = boot();
    assert_eq!(run(&mut sys, "cd /students"), "");
    assert_eq!(run(&mut sys, "pwd"), "/students\n");
    assert_eq!(run(&mut sys, "cd /nowhere"), "cd: Directory path not found: /nowhere");
    assert_eq!(run(&mut sys, "pwd"), "/students\n");
    assert_eq!(run(&mut sys, "cd"), "Usage: cd <path>");
    let listing = run(&mut sys, "ls");
    assert!(listing.starts_with("Directory list for /students:\n"));
    assert!(listing.contains("student1001\n"));
    assert!(listing.contains("  d700"));
    let fat = run(&mut sys, "ls /mnt/fat32");
    assert!(fat.starts_with("Directory list for /mnt/fat32:\n"));
}

#[test]
fn shell_mkdir_and_listing_line() {
    let mut sys = boot();
    assert_eq!(run(&mut sys, "cd /students/student1001"), "");
    assert_eq!(run(&mut sys, "mkdir lab2"), "");
    let listing = run(&mut sys, "ls");
    assert!(listing.contains("  d755        54 bytes  lab2\n"), "{}", listing);
    assert_eq!(run(&mut sys, "mkdir"), "Usage: mkdir <dir>");
    assert_eq!(run(&mut sys, "mkdir /mnt/fat32/x"), "mkdir: Cannot create directory inside mounted partitions");
    assert_eq!(run(&mut sys, "mkdir /a/b/c"), "mkdir: Parent directory not found for: a");
}

#[test]
fn shell_cat_reads_assignment() {
    let mut sys = boot();
    let text = run(&mut sys, "cat /assignments/lab1_instructions.txt");
    assert!(text.starts_with("Welcome to Lab 1: Systems Programming.\n"), "{}", text);
    assert_eq!(run(&mut sys, "cat"), "Usage: cat <file>");
    assert_eq!(run(&mut sys, "cat /missing.txt"), "cat: VFS path not found: /missing.txt");
}

#[test]
fn shell_redirect_writes_through_syscall() {
    let mut sys = boot();
    assert_eq!(
        run(&mut sys, "echo hi > /students/student1001/hello.txt"),
        "Output redirected to /students/student1001/hello.txt"
    );
    // The file holds what the command printed.
    assert_eq!(run(&mut sys, "cat /students/student1001/hello.txt"), "hi\n");
    assert_eq!(
        run(&mut sys, "echo hi > /mnt/fat32/out.txt"),
        "Redirection failed: FAT32 partition is mounted read-only"
    );
}

#[test]
fn shell_pipes() {
    let mut sys = boot();
    let out = run(&mut sys, "ls / | grep stu");
    assert_eq!(out, "  d755       126 bytes  students\n");
    assert_eq!(
        run(&mut sys, "ls | grep a | grep b"),
        "NovaShell Error: Multistage pipes not supported in current lab."
    );
    assert_eq!(run(&mut sys, "grep x"), "Usage: grep <pattern> <string_input> or use piping");
    assert_eq!(run(&mut sys, "grep"), "Usage: grep <pattern> [content_string]");
}

#[test]
fn shell_unknown_and_packages() {
    let mut sys = boot();
    assert_eq!(run(&mut sys, "python"), "NovaShell: command not found: python. Type 'help' for commands.\n");
    assert_eq!(
        run(&mut sys, "novapkg install python"),
        "Installation complete. Installed packages: [\"libm\", \"python\"]"
    );
    assert_eq!(
        run(&mut sys, "python"),
        "Executing package binary 'python' (mock engine active).\nType 'help' to return.\n"
    );
    assert_eq!(run(&mut sys, "novapkg list"), "Installed packages:\n  - libc\n  - libm\n  - python\n");
    assert_eq!(run(&mut sys, "novapkg install python"), "NovaPkg Error: Package 'python' is already installed");
    assert_eq!(run(&mut sys, "novapkg install rust"), "NovaPkg Error: Package 'rust' not found in NovaOS repository");
    assert_eq!(
        run(&mut sys, "novapkg remove libm"),
        "NovaPkg Error: Cannot remove 'libm': Package 'python' depends on it"
    );
    assert_eq!(run(&mut sys, "novapkg remove python"), "Package 'python' removed successfully.");
    assert_eq!(run(&mut sys, "novapkg remove git"), "NovaPkg Error: Package 'git' is not installed");
    assert_eq!(run(&mut sys, "novapkg fly"), "Unknown novapkg action.");
    assert_eq!(run(&mut sys, "novapkg"), "Usage: novapkg [install|remove|list] <package>");
}

#[test]
fn shell_snapshots() {
    let mut sys = boot();
    assert_eq!(run(&mut sys, "snapshot create 1"), "Snapshot 1 created successfully.\n");
    assert_eq!(run(&mut sys, "mkdir /students/student1001/temp"), "");
    assert_eq!(
        run(&mut sys, "snapshot restore 1"),
        "Snapshot 1 restored successfully. Filesystem state reverted.\n"
    );
    let listing = run(&mut sys, "ls /students/student1001");
    assert!(!listing.contains("temp"), "{}", listing);
    assert_eq!(run(&mut sys, "snapshot restore 9"), "Failed to restore snapshot: Snapshot ID not found\n");
    assert_eq!(run(&mut sys, "snapshot create x"), "Snapshot 1 created successfully.\n");
    assert_eq!(run(&mut sys, "snapshot undo 1"), "Unknown snapshot command. Choose 'create' or 'restore'.\n");
    assert_eq!(run(&mut sys, "snapshot create"), "Usage: snapshot <create|restore> <snapshot_id>");
}

#[test]
fn shell_ipc_and_mutex_commands_before_initialisation() {
    let mut sys = boot();
    assert_eq!(run(&mut sys, "mq_send q hello there"), "mq_send failed: IPC uninitialized\n");
    assert_eq!(run(&mut sys, "mq_recv q"), "mq_recv failed: IPC uninitialized\n");
    assert_eq!(run(&mut sys, "mq_list"), "No active message queues.\n");
    assert_eq!(run(&mut sys, "mutex_create m"), "mutex_create failed: Mutex table uninitialized\n");
    assert_eq!(run(&mut sys, "mutex_lock 3"), "mutex_lock failed: Unknown syscall identifier: 11\n");
    assert_eq!(run(&mut sys, "mutex_unlock 3"), "mutex_unlock failed: Unknown syscall identifier: 12\n");
    assert_eq!(run(&mut sys, "mutex_lock abc"), "Invalid mutex ID");
    assert_eq!(run(&mut sys, "mutex_lock"), "Usage: mutex_lock <id>");
    assert_eq!(run(&mut sys, "deadlock_demo"), "Simulation failed: Mutex table uninitialized\n");
    assert_eq!(run(&mut sys, "deadlock_resolve"), "Resolve failed: No deadlock detected\n");
}

#[test]
fn shell_ipc_and_mutex_commands_after_initialisation() {
    let mut sys = boot();
    sys.kernel.ipc = Some(novaos::kernel::ipc::init_ipc());
    sys.kernel.mutexes = Some(novaos::kernel::mutex::init_mutex());
    assert_eq!(run(&mut sys, "mq_send jobs build the kernel"), "Sent message to queue 'jobs'.\n");
    assert_eq!(run(&mut sys, "mq_list"), "Active message queues:\n  - 'jobs' (1 messages pending)\n");
    assert_eq!(run(&mut sys, "mq_recv jobs"), "Received: build the kernel\n");
    assert_eq!(run(&mut sys, "mq_recv jobs"), "No messages in queue.\n");
    assert_eq!(run(&mut sys, "mq_recv other"), "mq_recv failed: Queue not found\n");
    assert_eq!(run(&mut sys, "mutex_create printer"), "Mutex 'printer' created with ID 1.\n");
    assert_eq!(
        run(&mut sys, "deadlock_demo"),
        "Dining Philosophers simulation started. 3 philosopher tasks blocked. DEADLOCK DETECTED.\n"
    );
    let resolved = run(&mut sys, "deadlock_resolve");
    assert!(resolved.starts_with("Deadlock resolved: Killed PID "), "{}", resolved);
    assert_eq!(run(&mut sys, "deadlock_resolve"), "Resolve failed: No deadlock detected\n");
}

#[test]
fn shell_login_logout_quota() {
    let mut sys = boot();
    assert_eq!(
        run(&mut sys, "quota"),
        "NovaOS User Quota limits for UID 1001:\n  - Max storage size: 102400 bytes (100 KB)\n  - Current Usage: Active within lab boundary.\n"
    );
    assert_eq!(run(&mut sys, "login teacher wrong"), "Login failed: Invalid username or password\n");
    assert_eq!(run(&mut sys, "login teacher"), "Usage: login <username> <password>");
    assert_eq!(run(&mut sys, "login teacher teacher123"), "Logged in successfully as teacher.\n");
    assert_eq!(run(&mut sys, "pwd"), "/students/teacher\n");
    assert_eq!(run(&mut sys, "echo $USER"), "teacher\n");
    assert_eq!(run(&mut sys, "login root admin123"), "Logged in successfully as root.\n");
    assert_eq!(run(&mut sys, "pwd"), "/\n");
    assert_eq!(run(&mut sys, "logout"), "Logged out. Current session reset.\n");
    assert!(novaos::userspace::get_current_user(&sys.users).is_none());
}

#[test]
fn shell_ps_top_help_clear() {
    let mut sys = boot();
    let ps = run(&mut sys, "ps");
    assert!(ps.starts_with("PID  USER    PRIORITY  STATE     CPU_TICKS  NAME\n"));
    assert!(ps.contains("0    root    "), "{}", ps);
    let top = run(&mut sys, "top");
    assert!(top.starts_with("NovaOS Top Monitor:\nActive processes list (sorted by ticks):\nPID   STATE     TICKS  COMMAND\n"));
    let help = run(&mut sys, "help");
    assert!(help.starts_with("NovaOS - Shell Builtin Commands:\n"));
    assert!(help.ends_with("  deadlock_resolve        Resolve the deadlock cycle\n"));
    assert_eq!(run(&mut sys, "clear"), "");
}

#[test]
fn shell_rm_chmod_cp() {
    let mut sys = boot();
    assert_eq!(
        run(&mut sys, "rm /assignments/lab1_instructions.txt"),
        "rm: Cannot delete /assignments/lab1_instructions.txt: Permission denied"
    );
    assert_eq!(run(&mut sys, "rm"), "Usage: rm <file>");
    assert_eq!(run(&mut sys, "echo x > /students/student1001/a.txt"), "Output redirected to /students/student1001/a.txt");
    assert_eq!(run(&mut sys, "rm /students/student1001/a.txt"), "File /students/student1001/a.txt deleted successfully.\n");
    assert_eq!(run(&mut sys, "chmod 600 /students/student1001/a.txt"), "Permissions changed successfully.\n");
    assert_eq!(run(&mut sys, "chmod 600"), "Usage: chmod <octal_mode> <file>");
    assert_eq!(run(&mut sys, "chmod 600 /nope"), "chmod: VFS path not found: /nope");
    assert_eq!(run(&mut sys, "cp /assignments/lab1_instructions.txt /students/student1001/copy.txt"), "");
    let copied = run(&mut sys, "cat /students/student1001/copy.txt");
    assert!(copied.starts_with("Welcome to Lab 1"), "{}", copied);
    assert_eq!(run(&mut sys, "cp /none /x"), "cp source open failed: VFS path not found: /none");
    assert_eq!(run(&mut sys, "cp a"), "Usage: cp <source> <destination>");
}

#[test]
fn shell_top_orders_by_ticks_and_keeps_ties_in_table_order() {
    let mut sys = boot();
    for name in ["a", "b", "c", "d", "e", "f"] {
        create_process(&mut sys.kernel.tasks, name, ProcessPriority::Normal, Vec::new(), 1001).unwrap();
    }
    let ticks = [5u64, 9, 1, 9, 7, 3, 2];
    for (i, t) in ticks.iter().enumerate() {
        sys.kernel.tasks.procs[i].cpu_ticks = *t;
    }
    sys.kernel.tasks.procs[5].state = ProcessState::Killed;
    let top = run(&mut sys, "top");
    let lines: Vec<&str> = top.lines().skip(3).collect();
    // Five busiest: pids 1 (9), 3 (9), 4 (7), 0 (5), 5 (3, killed: not shown).
    assert_eq!(lines, vec![
        "1     Ready     9      a",
        "3     Ready     9      c",
        "4     Ready     7      d",
        "0     Running   5      idle",
    ]);
}

#[test]
fn cp_copies_the_source_bytes() {
    let mut sys = boot();
    assert_eq!(
        run(&mut sys, "echo copy me > /students/student1001/src.txt"),
        "Output redirected to /students/student1001/src.txt"
    );
    assert_eq!(run(&mut sys, "cp /students/student1001/src.txt /students/student1001/dst.txt"), "");
    assert_eq!(run(&mut sys, "cat /students/student1001/dst.txt"), "copy me\n");
}
