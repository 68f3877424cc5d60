use novaos::kernel::mem::{allocate_frame, fork_address_space, free_process_address_space, get_memory_snapshot, handle_page_fault, init_mem, map_page, FrameOwner};

#[test]
fn test_frame_allocator() {
    let mut mm = init_mem();

    let frame = allocate_frame(&mut mm, 101).expect("Should allocate frame");
    assert!(frame >= 4096);

    let (frames, _) = get_memory_snapshot(&mm);
    assert_eq!(frames[frame as usize], FrameOwner::Process(101));
}

#[test]
fn test_copy_on_write_fork() {
    let mut mm = init_mem();

    let frame = allocate_frame(&mut mm, 101).unwrap();
    map_page(&mut mm, 101, 0x200000, frame, true).unwrap();

    fork_address_space(&mut mm, 101, 102).unwrap();

    let (frames, _) = get_memory_snapshot(&mm);
    assert_eq!(frames[frame as usize], FrameOwner::Cow(101));

    handle_page_fault(&mut mm, 102, 0x200000, true).unwrap();

    let (updated_frames, _) = get_memory_snapshot(&mm);
    assert_eq!(updated_frames[frame as usize], FrameOwner::Process(101));
}

#[test]
fn test_free_process_address_space() {
    let mut mm = init_mem();

    let frame1 = allocate_frame(&mut mm, 101).unwrap();
    map_page(&mut mm, 101, 0x100000, frame1, true).unwrap();

    let frame2 = allocate_frame(&mut mm, 101).unwrap();
    map_page(&mut mm, 101, 0x200000, frame2, true).unwrap();

    fork_address_space(&mut mm, 101, 102).unwrap();

    let (frames_before, _) = get_memory_snapshot(&mm);
    assert_eq!(frames_before[frame1 as usize], FrameOwner::Cow(101));
    assert_eq!(frames_before[frame2 as usize], FrameOwner::Cow(101));

    free_process_address_space(&mut mm, 102).unwrap();

    let (frames_after, _) = get_memory_snapshot(&mm);
    assert_eq!(frames_after[frame1 as usize], FrameOwner::Process(101));
    assert_eq!(frames_after[frame2 as usize], FrameOwner::Process(101));

    free_process_address_space(&mut mm, 101).unwrap();

    let (frames_final, _) = get_memory_snapshot(&mm);
    assert_eq!(frames_final[frame1 as usize], FrameOwner::Free);
    assert_eq!(frames_final[frame2 as usize], FrameOwner::Free);
}

#[test]
fn test_free_releases_unmapped_frames() {
    let mut mm = init_mem();
    let f = allocate_frame(&mut mm, 101).unwrap();
    let (before, _) = get_memory_snapshot(&mm);
    assert_eq!(before[f as usize], FrameOwner::Process(101));
    free_process_address_space(&mut mm, 101).unwrap();
    let (after, _) = get_memory_snapshot(&mm);
    assert_eq!(after[f as usize], FrameOwner::Free);
}
