use novaos::drivers::init_drivers;
use novaos::filesystem::{init_vfs, vfs_close, vfs_mkdir, vfs_open, vfs_read, vfs_write, Vfs};

fn boot_vfs() -> (novaos::drivers::Devices, Vfs) {
    let dev = init_drivers();
    let mut vfs = Vfs::new();
    init_vfs(&mut vfs);
    (dev, vfs)
}

#[test]
fn test_vfs_mounts_and_file_io() {
    let (mut dev, mut vfs) = boot_vfs();

    vfs_mkdir(&mut vfs, "/students", 0o755, 0).expect("Should create /students");
    vfs_mkdir(&mut vfs, "/students/student1001", 0o755, 1001).expect("Should create student workspace");
    vfs_mkdir(&mut vfs, "/students/student1001/lab1", 0o755, 1001).expect("Should create directory");

    let fd = vfs_open(&mut vfs, "/students/student1001/lab1/report.txt", true, true, 1001)
        .expect("Should open/create file");

    let text = "Lab completed: Successful.";
    vfs_write(&mut vfs, &mut dev, fd, text.as_bytes(), 1001).expect("Should write file data");
    vfs_close(&mut vfs, fd).unwrap();

    let fd_read = vfs_open(&mut vfs, "/students/student1001/lab1/report.txt", false, false, 1001).unwrap();
    let mut buffer = vec![0u8; 100];
    let bytes_read = vfs_read(&mut vfs, &mut dev, fd_read, &mut buffer).unwrap();
    vfs_close(&mut vfs, fd_read).unwrap();

    let read_str = std::str::from_utf8(&buffer[0..bytes_read]).unwrap();
    assert_eq!(read_str, text);
}

#[test]
fn test_vfs_quota_limit() {
    let (mut dev, mut vfs) = boot_vfs();

    vfs_mkdir(&mut vfs, "/students", 0o755, 0).expect("Should create /students");
    vfs_mkdir(&mut vfs, "/students/student1001", 0o755, 1001).expect("Should create student workspace");

    let fd = vfs_open(&mut vfs, "/students/student1001/report_heavy.txt", true, true, 1001).unwrap();

    let heavy_data = vec![0u8; 2500];
    let write_res = vfs_write(&mut vfs, &mut dev, fd, &heavy_data, 1001);
    vfs_close(&mut vfs, fd).unwrap();

    assert!(write_res.is_err());
    assert!(write_res.err().unwrap().to_lowercase().contains("quota exceeded"));
}

#[test]
fn auto_reset_wipes_the_student_workspace() {
    let mut sys = novaos::system::boot();
    let fd = vfs_open(&mut sys.vfs, "/students/student1001/junk.txt", true, true, 1001).unwrap();
    vfs_close(&mut sys.vfs, fd).unwrap();
    let before = novaos::filesystem::vfs_list_dir(&sys.vfs, "/students/student1001").unwrap();
    assert!(before.iter().any(|row| row.0 == "junk.txt"));
    novaos::userspace::auto_reset_student_environment(&mut sys.vfs, &mut sys.dev.vga, 1001);
    let after = novaos::filesystem::vfs_list_dir(&sys.vfs, "/students/student1001").unwrap();
    let names: Vec<String> = after.into_iter().map(|row| row.0).collect();
    assert_eq!(names, vec![".".to_string(), "..".to_string()]);
}

#[test]
fn clearing_a_missing_directory_fails() {
    let mut sys = novaos::system::boot();
    let r = novaos::filesystem::vfs_clear_dir(&mut sys.vfs, "/nowhere");
    assert_eq!(r, Err("Directory path not found: /nowhere".to_string()));
}

#[test]
fn multi_block_write_reads_back_intact() {
    let mut dev = init_drivers();
    let mut vfs = Vfs::new();
    init_vfs(&mut vfs);
    let i = novaos::filesystem::novafs::allocate_inode(&mut vfs.fs.meta, false, 0, 0, 0o644).unwrap();
    let data: Vec<u8> = (0..600u32).map(|k| (k % 251) as u8).collect();
    novaos::filesystem::novafs::write_file_data(&mut vfs.fs, &mut dev.disk, i, 0, &data, 0).unwrap();
    let mut buf = vec![0u8; 600];
    let n = novaos::filesystem::novafs::read_file_data(&vfs.fs.meta, &dev.disk, i, 0, &mut buf).unwrap();
    assert_eq!(n, 600);
    assert_eq!(buf, data);
}
