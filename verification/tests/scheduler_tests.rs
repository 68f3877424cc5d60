use novaos::kernel::scheduler::{schedule_next, set_scheduling_policy, Scheduler, SchedulingPolicy};
use novaos::kernel::task::{create_process, init_task, set_process_state, ProcessPriority, ProcessState};

#[test]
fn test_round_robin_scheduler() {
    let mut tt = init_task();
    let mut sched = Scheduler::new();
    set_scheduling_policy(&mut sched, SchedulingPolicy::RoundRobin);

    let pid1 = create_process(&mut tt, "task_a", ProcessPriority::Normal, Vec::new(), 1001).unwrap();
    let pid2 = create_process(&mut tt, "task_b", ProcessPriority::Normal, Vec::new(), 1001).unwrap();

    set_process_state(&mut tt, pid1, ProcessState::Ready);
    set_process_state(&mut tt, pid2, ProcessState::Ready);

    let next1 = schedule_next(&mut tt, &sched).unwrap();
    let next2 = schedule_next(&mut tt, &sched).unwrap();

    assert_ne!(next1, next2);
}

#[test]
fn test_priority_scheduler() {
    let mut tt = init_task();
    let mut sched = Scheduler::new();
    set_scheduling_policy(&mut sched, SchedulingPolicy::Priority);

    let pid_low = create_process(&mut tt, "low_task", ProcessPriority::Low, Vec::new(), 1001).unwrap();
    let pid_high = create_process(&mut tt, "high_task", ProcessPriority::High, Vec::new(), 1001).unwrap();

    set_process_state(&mut tt, pid_low, ProcessState::Ready);
    set_process_state(&mut tt, pid_high, ProcessState::Ready);

    let selected = schedule_next(&mut tt, &sched).unwrap();
    assert_eq!(selected, pid_high);
}
