use novaos::drivers::input::{init_input, push_key_event, read_key_event, KeyCode, KeyEvent};
use novaos::filesystem::novafs::{create_snapshot, restore_snapshot};
use novaos::gui::classroom::{broadcast_announcement, classroom_state, get_announcements, init_classroom};
use novaos::drivers::init_drivers;
use novaos::filesystem::novafs::recover_journal;
use novaos::filesystem::{init_vfs, vfs_close, vfs_mkdir, vfs_open, vfs_write, Vfs};
use novaos::kernel::mem::{allocate_frame, fork_address_space, get_memory_snapshot, handle_page_fault, init_mem, map_page, FrameOwner};

#[test]
fn cow_write_fault_gives_the_writer_a_free_frame() {
    let mut mm = init_mem();
    let frame = allocate_frame(&mut mm, 101).unwrap();
    map_page(&mut mm, 101, 0x200000, frame, true).unwrap();
    fork_address_space(&mut mm, 101, 102).unwrap();
    let (before, _) = get_memory_snapshot(&mm);
    assert_eq!(before[frame as usize + 1], FrameOwner::Free);
    handle_page_fault(&mut mm, 102, 0x200123, true).unwrap();
    let (after, _) = get_memory_snapshot(&mm);
    assert_eq!(after[frame as usize + 1], FrameOwner::Process(102));
    assert_eq!(after[frame as usize], FrameOwner::Process(101));
}

#[test]
fn announcements_keep_at_most_eleven() {
    let mut c = classroom_state();
    init_classroom(&mut c);
    let mut vga = None;
    for i in 0..15 {
        broadcast_announcement(&mut c, &mut vga, &format!("note {}", i));
    }
    let all = get_announcements(&c);
    assert_eq!(all.len(), 11);
    assert_eq!(all[10], "note 14");
    assert_eq!(all[0], "note 4");
}

#[test]
fn writes_are_journaled_and_committed_on_success() {
    let mut dev = init_drivers();
    let mut vfs = Vfs::new();
    init_vfs(&mut vfs);
    vfs_mkdir(&mut vfs, "/lab", 0o755, 0).unwrap();
    let before = recover_journal(&vfs.fs.meta).len();

    // A successful write leaves its journal record committed: nothing new to recover.
    let fd = vfs_open(&mut vfs, "/lab/ok.txt", true, true, 0).unwrap();
    vfs_write(&mut vfs, &mut dev, fd, b"done", 0).unwrap();
    vfs_close(&mut vfs, fd).unwrap();
    assert_eq!(recover_journal(&vfs.fs.meta).len(), before);

    // A write refused after journaling (into a directory) stays uncommitted.
    let tx = vfs.fs.meta.superblock.journal_ptr;
    let dir = vfs_open(&mut vfs, "/lab", false, true, 0).unwrap();
    let r = vfs_write(&mut vfs, &mut dev, dir, b"x", 0);
    assert_eq!(r, Err("Cannot write data to directory".to_string()));
    let lines = recover_journal(&vfs.fs.meta);
    assert_eq!(lines.len(), before + 1);
    assert!(lines.contains(&format!(
        "[NovaFS Journal] Recovering transaction {}, uncommitted operation: WRITE",
        tx
    )));
}

#[test]
fn keyboard_queue_is_fifo_and_drops_beyond_256() {
    let mut input = init_input();
    for k in 0..300u32 {
        let c = char::from_u32(0x4E00 + k).unwrap();
        push_key_event(&mut input, KeyEvent { code: KeyCode::Char(c), shift: false, ctrl: false, alt: false });
    }
    for k in 0..256u32 {
        let e = read_key_event(&mut input).unwrap();
        assert_eq!(e.code, KeyCode::Char(char::from_u32(0x4E00 + k).unwrap()));
    }
    assert!(read_key_event(&mut input).is_none());
}

#[test]
fn snapshot_restore_undoes_a_later_write() {
    let mut dev = init_drivers();
    let mut vfs = Vfs::new();
    init_vfs(&mut vfs);
    let fd = vfs_open(&mut vfs, "/keep.txt", true, true, 0).unwrap();
    vfs_write(&mut vfs, &mut dev, fd, b"before", 0).unwrap();
    vfs_close(&mut vfs, fd).unwrap();
    create_snapshot(&mut vfs.fs, &dev.disk, 7).unwrap();
    let disk_then = dev.disk.storage.clone();
    let fd = vfs_open(&mut vfs, "/keep.txt", false, true, 0).unwrap();
    vfs_write(&mut vfs, &mut dev, fd, b"AFTER!", 0).unwrap();
    vfs_close(&mut vfs, fd).unwrap();
    assert_ne!(dev.disk.storage, disk_then);
    restore_snapshot(&mut vfs.fs, &mut dev.disk, 7).unwrap();
    assert_eq!(dev.disk.storage, disk_then);
}
