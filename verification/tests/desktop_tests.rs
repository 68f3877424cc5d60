use novaos::gui::assistant::NovaAssistant;
use novaos::gui::terminal::{terminal_backspace, terminal_interrupt, terminal_submit, terminal_type};
use novaos::gui::{is_admin, record_exchange, teacher_command, NovaGuiApp, Tab};
use novaos::kernel::bare::{bare_metal_command, bare_shell_key, scancode_to_ascii, BareMetalAction, BareShell, KeyOutcome};
use novaos::shell::numbers::parse_unsigned_str;
use novaos::shell::session::{init_shell, resolve_absolute_path, split_arguments};
use novaos::system::boot;
use novaos::userspace::User;

#[test]
fn assistant_answers_by_topic() {
    let a = NovaAssistant::new();
    let sched = a.ask("scheduler");
    assert!(sched.starts_with("NovaSchool OS uses three scheduler policies:"));
    // Case and surrounding spaces do not matter.
    assert_eq!(a.ask("  SCHEDULER  "), sched);
    // A question that mentions a topic gets that topic's answer.
    assert_eq!(a.ask("explain scheduling"), sched);
    assert_eq!(a.ask("what is the scheduler doing"), sched);
    assert_eq!(a.ask("paging"), a.ask("memory"));
    assert_eq!(a.ask(""), "How can I assist you today? Type 'help' to see topics.");
    assert_eq!(
        a.ask("quantum physics"),
        "I'm not sure about that concept yet. Try asking about 'scheduler', 'memory', 'filesystem', 'syscall', or 'novapkg'!"
    );
}

#[test]
fn conversation_drops_oldest_beyond_ten() {
    let mut h: Vec<(String, String)> = Vec::new();
    h.push(("assistant".to_string(), "hi".to_string()));
    record_exchange(&mut h, "q1".to_string(), "r1".to_string());
    assert_eq!(h.len(), 3);
    assert_eq!(h[1], ("user".to_string(), "q1".to_string()));
    assert_eq!(h[2], ("assistant".to_string(), "r1".to_string()));
    for i in 0..4 {
        record_exchange(&mut h, format!("q{}", i), format!("r{}", i));
    }
    assert_eq!(h.len(), 11);
    record_exchange(&mut h, "last".to_string(), "answer".to_string());
    assert_eq!(h.len(), 12);
    assert_eq!(h[0], ("user".to_string(), "q1".to_string()));
}

#[test]
fn desktop_login_portal() {
    let mut sys = boot();
    let mut app = NovaGuiApp::new(&mut sys);
    assert!(!app.is_authenticated());
    assert!(novaos::userspace::get_current_user(&sys.users).is_none());
    app.set_login_fields("", "x");
    app.submit_login(&mut sys);
    assert_eq!(app.login_error(), Some("Please fill in all fields".to_string()));
    app.set_login_fields("student1", "nope");
    app.submit_login(&mut sys);
    assert_eq!(app.login_error(), Some("Invalid username or password".to_string()));
    assert!(!app.is_authenticated());
    app.set_login_fields("student1", "student123");
    app.submit_login(&mut sys);
    assert!(app.is_authenticated());
    assert_eq!(app.login_error(), None);
    app.select_tab(Tab::TeacherDashboard);
    app.begin_frame(&sys.users);
    assert_eq!(app.active_tab(), Tab::KernelVisualizer);
    assert!(app.is_authenticated());
}

#[test]
fn desktop_chat_and_demo_processes() {
    let mut sys = boot();
    let before = sys.kernel.tasks.procs.len();
    let mut app = NovaGuiApp::new(&mut sys);
    assert_eq!(sys.kernel.tasks.procs.len(), before + 2);
    assert_eq!(sys.kernel.tasks.procs[before].name, "kswapd");
    assert_eq!(sys.kernel.tasks.procs[before + 1].name, "sshd");
    assert_eq!(sys.chat.as_ref().unwrap().len(), 1);
    app.set_chat_input("syscall");
    app.send_chat(&mut sys);
    let h = sys.chat.as_ref().unwrap();
    assert_eq!(h.len(), 3);
    assert_eq!(h[1].1, "syscall");
    assert!(h[2].1.starts_with("System Calls (syscalls) bridge userspace and the kernel."));
}

#[test]
fn teacher_terminal_commands() {
    let mut sys = boot();
    let _app = NovaGuiApp::new(&mut sys);
    teacher_command(&mut sys, "lock");
    assert!(sys.classroom.terminal_locked);
    teacher_command(&mut sys, "unlock");
    assert!(!sys.classroom.terminal_locked);
    teacher_command(&mut sys, "msg Quiz on Friday");
    let ann = novaos::gui::classroom::get_announcements(&sys.classroom);
    assert_eq!(
        ann,
        vec![
            "TERMINAL LOCKED BY INSTRUCTOR. Pay attention to board.".to_string(),
            "Student terminals unlocked.".to_string(),
            "Quiz on Friday".to_string()
        ]
    );
    teacher_command(&mut sys, "dance");
    assert_eq!(novaos::gui::classroom::get_announcements(&sys.classroom).len(), 3);
}

#[test]
fn administrators_are_wheel_faculty_or_root() {
    let teacher = User { uid: 500, username: "teacher".to_string(), password_hash: "t".to_string(), groups: vec!["faculty".to_string()] };
    let student = User { uid: 1001, username: "s".to_string(), password_hash: "p".to_string(), groups: vec!["students".to_string()] };
    let root = User { uid: 0, username: "root".to_string(), password_hash: "r".to_string(), groups: vec![] };
    assert!(is_admin(&teacher));
    assert!(!is_admin(&student));
    assert!(is_admin(&root));
}

#[test]
fn bare_metal_console_keys() {
    assert_eq!(scancode_to_ascii(0x1E), Some('a'));
    assert_eq!(scancode_to_ascii(0x39), Some(' '));
    assert_eq!(scancode_to_ascii(0x01), None);
    let mut sh = BareShell::new();
    for code in [0x23u8, 0x12, 0x26, 0x19] {
        assert!(matches!(bare_shell_key(&mut sh, code), KeyOutcome::Typed(_)));
    }
    assert_eq!(bare_shell_key(&mut sh, 0x9C), KeyOutcome::Ignored);
    assert_eq!(bare_shell_key(&mut sh, 0x1C), KeyOutcome::Execute(BareMetalAction::Help));
    assert_eq!(bare_shell_key(&mut sh, 0x0E), KeyOutcome::Ignored);
    assert_eq!(bare_shell_key(&mut sh, 0x10), KeyOutcome::Typed('q'));
    assert_eq!(bare_shell_key(&mut sh, 0x0E), KeyOutcome::Erased);
    assert_eq!(bare_metal_command("  reboot "), BareMetalAction::Reboot);
    assert_eq!(bare_metal_command("fly"), BareMetalAction::Unknown("fly".to_string()));
    assert_eq!(bare_metal_command("   "), BareMetalAction::Nothing);
    for _ in 0..130 {
        bare_shell_key(&mut sh, 0x1E);
    }
    assert_eq!(sh.buffer.len(), 120);
}

#[test]
fn numbers_parse_like_the_standard_library() {
    assert_eq!(parse_unsigned_str("42", 10, 0xffff_ffff), Some(42));
    assert_eq!(parse_unsigned_str("+42", 10, 0xffff_ffff), Some(42));
    assert_eq!(parse_unsigned_str("+", 10, 0xffff_ffff), None);
    assert_eq!(parse_unsigned_str("", 10, 0xffff_ffff), None);
    assert_eq!(parse_unsigned_str("-1", 10, 0xffff_ffff), None);
    assert_eq!(parse_unsigned_str("4294967296", 10, 0xffff_ffff), None);
    assert_eq!(parse_unsigned_str("4294967295", 10, 0xffff_ffff), Some(4294967295));
    assert_eq!(parse_unsigned_str("755", 8, 0xffff), Some(0o755));
    assert_eq!(parse_unsigned_str("8", 8, 0xffff), None);
    assert_eq!(parse_unsigned_str("200000", 8, 0xffff), None);
    for s in ["0", "7", "17", "+10", "x1", "12a"] {
        assert_eq!(parse_unsigned_str(s, 10, 0xffff_ffff), s.parse::<u32>().ok().map(|v| v as u64));
    }
}

#[test]
fn session_paths_and_arguments() {
    let sh = init_shell();
    assert_eq!(resolve_absolute_path(&sh, "/etc/x"), "/etc/x");
    assert_eq!(resolve_absolute_path(&sh, "notes.txt"), "/students/student1/notes.txt");
    assert_eq!(split_arguments("  a \"b c\"  d\"e\" "), vec!["a".to_string(), "b c".to_string(), "de".to_string()]);
    assert_eq!(split_arguments(""), Vec::<String>::new());
}

#[test]
fn student_terminal_types_and_runs_lines() {
    let mut sys = boot();
    for c in "pwdx".chars() {
        terminal_type(&mut sys, c);
    }
    assert_eq!(sys.terminal_input, "pwdx");
    terminal_backspace(&mut sys);
    assert_eq!(sys.terminal_input, "pwd");
    assert_eq!(terminal_submit(&mut sys), "/students/student1\n");
    assert_eq!(sys.terminal_input, "");
    assert_eq!(sys.kernel.syscalls.traces[0].syscall_name, "sys_exit");
    sys.classroom.terminal_locked = true;
    terminal_type(&mut sys, 'x');
    assert_eq!(sys.terminal_input, "");
    terminal_interrupt(&mut sys);
    assert!(!sys.classroom.terminal_locked);
    terminal_interrupt(&mut sys);
    assert_eq!(sys.terminal_input, "c");
}

#[test]
fn teacher_reset_wipes_workspace_and_announces() {
    let mut sys = boot();
    novaos::gui::classroom::init_classroom(&mut sys.classroom);
    let fd = novaos::filesystem::vfs_open(&mut sys.vfs, "/students/student1001/junk.txt", true, true, 1001).unwrap();
    novaos::filesystem::vfs_close(&mut sys.vfs, fd).unwrap();
    teacher_command(&mut sys, "reset");
    let names: Vec<String> = novaos::filesystem::vfs_list_dir(&sys.vfs, "/students/student1001")
        .unwrap()
        .into_iter()
        .map(|row| row.0)
        .collect();
    assert_eq!(names, vec![".".to_string(), "..".to_string()]);
    let ann = novaos::gui::classroom::get_announcements(&sys.classroom);
    assert_eq!(ann.last().unwrap(), "Pristine workspace environment restored.");
}

#[test]
fn teacher_distribute_writes_the_handout() {
    let mut sys = boot();
    teacher_command(&mut sys, "distribute");
    let names: Vec<String> = novaos::filesystem::vfs_list_dir(&sys.vfs, "/students/student1001")
        .unwrap()
        .into_iter()
        .map(|row| row.0)
        .collect();
    assert!(names.contains(&"lab1_handout.txt".to_string()));
}

#[test]
fn terminal_submit_traces_exit_and_prints_output_then_prompt() {
    let mut sys = boot();
    for c in "echo hi".chars() {
        terminal_type(&mut sys, c);
    }
    let out = terminal_submit(&mut sys);
    assert_eq!(out, "hi\n");
    let last = novaos::kernel::syscall::get_syscall_traces(&sys.kernel.syscalls).pop().unwrap();
    assert_eq!(last.syscall_name, "sys_exit");
    assert_eq!(last.args, [0, 0, 0]);
    assert_eq!(last.result, Ok(0));
    assert!(sys.terminal_input.is_empty());
}
