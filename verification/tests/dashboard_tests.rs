use novaos::gui::assistant::NovaAssistant;
use novaos::gui::{converse, has_ticks_room, simulation_tick, start_dashboard};
use novaos::kernel::task::{get_current_pid, get_process_list};
use novaos::shell::{line_logs_out_check, pipes_from_logout_check};
use novaos::system::boot;

#[test]
fn dashboard_opens_with_greeting_and_demo_processes() {
    let mut sys = boot();
    let before = get_process_list(&sys.kernel.tasks).len();
    start_dashboard(&mut sys);
    let procs = get_process_list(&sys.kernel.tasks);
    assert_eq!(procs.len(), before + 2);
    assert!(procs.iter().any(|p| p.name == "kswapd"));
    assert!(procs.iter().any(|p| p.name == "sshd"));
    assert!(!sys.classroom.terminal_locked);
    let chat = sys.chat.clone().unwrap();
    assert_eq!(chat.len(), 1);
    assert_eq!(chat[0].0, "assistant");
    assert_eq!(
        chat[0].1,
        "Hello, I am Nova Assistant, your systems programming guide! Type 'help' to see topics."
    );
}

#[test]
fn simulation_tick_credits_running_process() {
    let mut sys = boot();
    start_dashboard(&mut sys);
    assert!(has_ticks_room(&sys.kernel.tasks, 1));
    let pid = get_current_pid(&sys.kernel.tasks);
    let ticks = |s: &novaos::system::System| {
        get_process_list(&s.kernel.tasks).iter().find(|p| p.pid == pid).map(|p| p.cpu_ticks).unwrap()
    };
    let t0 = ticks(&sys);
    simulation_tick(&mut sys, false);
    assert_eq!(ticks(&sys), t0 + 1);
    let timer0 = sys.kernel.interrupts.timer_count;
    simulation_tick(&mut sys, true);
    assert_eq!(sys.kernel.interrupts.timer_count, timer0 + 1);
}

#[test]
fn conversation_on_dashboard_adds_question_and_answer() {
    let mut sys = boot();
    start_dashboard(&mut sys);
    let agent = NovaAssistant::new();
    converse(&mut sys, &agent, "memory");
    let chat = sys.chat.clone().unwrap();
    assert_eq!(chat.len(), 3);
    assert_eq!(chat[1], ("user".to_string(), "memory".to_string()));
    assert_eq!(chat[2].0, "assistant");
    assert_eq!(chat[2].1, agent.ask("memory"));
    // Without an open conversation nothing is recorded.
    let mut other = boot();
    converse(&mut other, &agent, "memory");
    assert!(other.chat.is_none());
}

#[test]
fn lines_that_end_the_session() {
    let sys = boot();
    assert!(line_logs_out_check(&sys, "logout"));
    assert!(line_logs_out_check(&sys, "  logout  "));
    assert!(line_logs_out_check(&sys, "echo hi | logout"));
    assert!(line_logs_out_check(&sys, "logout > out.txt"));
    assert!(!line_logs_out_check(&sys, "ls"));
    assert!(!line_logs_out_check(&sys, "   "));
    assert!(!line_logs_out_check(&sys, "echo logout"));
    assert!(!line_logs_out_check(&sys, "a | b | logout"));
    assert!(pipes_from_logout_check(&sys, "logout | cat"));
    assert!(!pipes_from_logout_check(&sys, "echo hi | logout"));
}

#[test]
fn dashboard_processes_have_their_priorities_and_capabilities() {
    let mut sys = boot();
    start_dashboard(&mut sys);
    let procs = get_process_list(&sys.kernel.tasks);
    let k = procs.iter().find(|p| p.name == "kswapd").unwrap();
    assert_eq!(k.priority, novaos::kernel::task::ProcessPriority::High);
    assert_eq!(k.capabilities, vec![novaos::kernel::task::Capability::SysAdmin]);
    assert_eq!(k.owner_uid, 0);
    let s = procs.iter().find(|p| p.name == "sshd").unwrap();
    assert_eq!(s.priority, novaos::kernel::task::ProcessPriority::Normal);
    assert_eq!(s.capabilities, vec![novaos::kernel::task::Capability::NetworkRaw]);
}

#[test]
fn timer_tick_switches_to_a_ready_process() {
    let mut sys = boot();
    start_dashboard(&mut sys);
    let before = get_current_pid(&sys.kernel.tasks);
    simulation_tick(&mut sys, true);
    assert_ne!(get_current_pid(&sys.kernel.tasks), before);
}
