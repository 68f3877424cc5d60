use novaos::kernel::ipc::{create_queue, get_queues, init_ipc, recv_message, send_message};
use novaos::kernel::mem::init_mem;
use novaos::kernel::mutex::{create_mutex, detect_deadlock, get_mutexes, init_mutex, lock_mutex, resolve_deadlock, unlock_mutex};
use novaos::kernel::task::{create_process, init_task, ProcessPriority};

#[test]
fn test_message_queue() {
    let mut iq = init_ipc();

    assert!(create_queue(&mut iq, "test_q").is_ok());
    assert!(create_queue(&mut iq, "test_q").is_err());

    assert!(send_message(&mut iq, "test_q", "hello".to_string()).is_ok());
    assert!(send_message(&mut iq, "test_q", "world".to_string()).is_ok());

    let queues = get_queues(&iq);
    let q = queues.iter().find(|(name, _, _)| name == "test_q").unwrap();
    assert_eq!(q.1, 2);

    assert_eq!(recv_message(&mut iq, "test_q").unwrap(), Some("hello".to_string()));
    assert_eq!(recv_message(&mut iq, "test_q").unwrap(), Some("world".to_string()));
    assert_eq!(recv_message(&mut iq, "test_q").unwrap(), None);
}

#[test]
fn test_mutex_concurrency() {
    let _mm = init_mem();
    let mut tt = init_task();
    let mut mt = init_mutex();

    let pid1 = create_process(&mut tt, "process1", ProcessPriority::Normal, Vec::new(), 1001).unwrap();
    let pid2 = create_process(&mut tt, "process2", ProcessPriority::Normal, Vec::new(), 1001).unwrap();

    let m1 = create_mutex(&mut mt, "resource1").unwrap();

    assert_eq!(lock_mutex(&mut mt, &mut tt, m1, pid1).unwrap(), true);
    assert_eq!(lock_mutex(&mut mt, &mut tt, m1, pid2).unwrap(), false);

    let mutexes = get_mutexes(&mt);
    let m_info = mutexes.iter().find(|m| m.id == m1).unwrap();
    assert_eq!(m_info.owner, Some(pid1));
    assert_eq!(m_info.waiters, vec![pid2]);

    assert!(unlock_mutex(&mut mt, &mut tt, m1, pid1).is_ok());

    let mutexes_after = get_mutexes(&mt);
    let m_info_after = mutexes_after.iter().find(|m| m.id == m1).unwrap();
    assert_eq!(m_info_after.owner, Some(pid2));
    assert!(m_info_after.waiters.is_empty());
}

#[test]
fn test_deadlock_detection_and_resolution() {
    let mut mm = init_mem();
    let mut tt = init_task();
    let mut mt = init_mutex();

    let pid1 = create_process(&mut tt, "philosopher1", ProcessPriority::Normal, Vec::new(), 1001).unwrap();
    let pid2 = create_process(&mut tt, "philosopher2", ProcessPriority::Normal, Vec::new(), 1001).unwrap();

    let chopstick1 = create_mutex(&mut mt, "c1").unwrap();
    let chopstick2 = create_mutex(&mut mt, "c2").unwrap();

    assert_eq!(lock_mutex(&mut mt, &mut tt, chopstick1, pid1).unwrap(), true);
    assert_eq!(lock_mutex(&mut mt, &mut tt, chopstick2, pid2).unwrap(), true);

    assert!(detect_deadlock(&mt).is_none());

    assert_eq!(lock_mutex(&mut mt, &mut tt, chopstick2, pid1).unwrap(), false);
    assert_eq!(lock_mutex(&mut mt, &mut tt, chopstick1, pid2).unwrap(), false);

    let cycle = detect_deadlock(&mt).expect("Deadlock should be detected");
    assert!(cycle.contains(&pid1));
    assert!(cycle.contains(&pid2));

    let res = resolve_deadlock(&mut mt, &mut tt, &mut mm).expect("Deadlock resolution should succeed");
    assert!(res.contains("Killed PID"));

    assert!(detect_deadlock(&mt).is_none());
}
