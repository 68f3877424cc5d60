//! The shell's file commands: cd, ls, mkdir, rm, chmod, cat, cp and grep.
use vstd::prelude::*;
use crate::text::{str_to_chars, chars_to_string, push_str, push_chars, push_octal, decimal, octal, contains_seq,
    contains_chars, utf8_text};
use crate::filesystem::{Vfs, RowView, open_post, write_post, list_dir_result, vfs_list_dir, vfs_open, vfs_close, vfs_mkdir, vfs_read, vfs_write,
    mkdir_known, open_result, table_unchanged, fd_slot, is_stdin, lemma_fd_slot_at, read_offset_fits, with_offset,
    fd_stream, lemma_read_follows_stream};
use crate::filesystem::novafs::{Inode, MetaView, inode_lookup, with_inode, inode_encoded_len, INODE_SLOT_PAYLOAD,
    read_inode_disk, write_inode_disk};
use crate::drivers::Devices;
use crate::system::System;
use crate::kernel::syscall::sys_call;
use crate::shell::session::{ShellSession, strings_view, resolve_spec, resolve_absolute_path};
use crate::shell::format::{pad_left, push_padded_left, decimal_chars};
use crate::shell::numbers::{parse_unsigned, parse_unsigned_str};

verus! {

/// `cd <path>`: moves to the directory when it can be listed.
pub fn cmd_cd(vfs: &Vfs, sh: &mut ShellSession, args: &Vec<String>) -> (r: String)
    requires
        vfs.wf(),
        old(sh).wf(),
    ensures
        final(sh).wf(),
        final(sh).env == old(sh).env,
        ({
            let av = strings_view(args@);
            if av.len() == 0 {
                r@ == "Usage: cd <path>"@ && final(sh).current_dir == old(sh).current_dir
            } else {
                let t = resolve_spec(old(sh).current_dir@, av[0]);
                match list_dir_result(*vfs, t) {
                    Ok(_) => r@ == Seq::<char>::empty() && final(sh).current_dir@ == t,
                    Err(e) => r@ == "cd: "@ + e && final(sh).current_dir == old(sh).current_dir,
                }
            }
        }),
{
    let ghost av = strings_view(args@);
    if args.len() == 0 {
        return String::from_str("Usage: cd <path>");
    }
    assert(av[0] == args@[0]@);
    let target = resolve_absolute_path(sh, args[0].as_str());
    match vfs_list_dir(vfs, target.as_str()) {
        Ok(_) => {
            sh.current_dir = target;
            String::new()
        },
        Err(e) => {
            let mut out: Vec<char> = Vec::new();
            push_str(&mut out, "cd: ");
            push_str(&mut out, e.as_str());
            chars_to_string(out.as_slice())
        },
    }
}

/// One row of `ls`: type, octal mode, size right-aligned in eight columns, and name.
pub open spec fn ls_line(row: RowView) -> Seq<char> {
    "  "@ + (if row.2 { "d"@ } else { "-"@ }) + octal(row.3 as nat) + "  "@ + pad_left(decimal(row.1 as nat), 8)
        + " bytes  "@ + row.0 + "\n"@
}

/// The rows of `ls`, one line each.
pub open spec fn ls_lines(rows: Seq<RowView>) -> Seq<char>
    decreases rows.len(),
{
    if rows.len() == 0 { Seq::empty() } else { ls_lines(rows.drop_last()) + ls_line(rows.last()) }
}

/// What `ls` prints for `path` given the listing.
pub open spec fn ls_output(path: Seq<char>, listing: Result<Seq<RowView>, Seq<char>>) -> Seq<char> {
    match listing {
        Ok(rows) => "Directory list for "@ + path + ":\n"@ + ls_lines(rows),
        Err(e) => "ls: "@ + e,
    }
}

/// The directory `ls` lists: the working directory, or the argument made absolute.
pub open spec fn ls_path(cwd: Seq<char>, args: Seq<Seq<char>>) -> Seq<char> {
    if args.len() == 0 { cwd } else { resolve_spec(cwd, args[0]) }
}

/// `ls [path]`: the entries of a directory with type, mode and size.
pub fn cmd_ls(vfs: &Vfs, sh: &ShellSession, args: &Vec<String>) -> (r: String)
    requires
        vfs.wf(),
    ensures
        ({
            let p = ls_path(sh.current_dir@, strings_view(args@));
            r@ == ls_output(p, list_dir_result(*vfs, p))
        }),
{
    let ghost av = strings_view(args@);
    let path = if args.len() == 0 {
        sh.current_dir.clone()
    } else {
        assert(av[0] == args@[0]@);
        resolve_absolute_path(sh, args[0].as_str())
    };
    match vfs_list_dir(vfs, path.as_str()) {
        Ok(entries) => {
            let ghost rows = crate::filesystem::rows_view(entries@);
            let mut out: Vec<char> = Vec::new();
            push_str(&mut out, "Directory list for ");
            push_str(&mut out, path.as_str());
            push_str(&mut out, ":\n");
            let ghost head = out@;
            let mut i: usize = 0;
            while i < entries.len()
                invariant
                    rows == crate::filesystem::rows_view(entries@),
                    i <= entries@.len(),
                    out@ == head + ls_lines(rows.subrange(0, i as int)),
                decreases entries@.len() - i,
            {
                let ghost before = out@;
                let row = &entries[i];
                assert(rows[i as int] == (row.0@, row.1, row.2, row.3));
                push_str(&mut out, "  ");
                if row.2 { push_str(&mut out, "d"); } else { push_str(&mut out, "-"); }
                push_octal(&mut out, row.3 as u64);
                push_str(&mut out, "  ");
                let size = decimal_chars(row.1 as u64);
                push_padded_left(&mut out, size.as_slice(), 8);
                push_str(&mut out, " bytes  ");
                push_str(&mut out, row.0.as_str());
                push_str(&mut out, "\n");
                assert(rows.subrange(0, i + 1).drop_last() =~= rows.subrange(0, i as int));
                assert(out@ =~= before + ls_line(rows[i as int]));
                i = i + 1;
            }
            assert(rows.subrange(0, entries@.len() as int) =~= rows);
            chars_to_string(out.as_slice())
        },
        Err(e) => {
            let mut out: Vec<char> = Vec::new();
            push_str(&mut out, "ls: ");
            push_str(&mut out, e.as_str());
            chars_to_string(out.as_slice())
        },
    }
}

/// `mkdir <dir>`: creates the directory (mode 755) as `uid`.
pub fn cmd_mkdir(vfs: &mut Vfs, sh: &ShellSession, args: &Vec<String>, uid: u32) -> (r: String)
    requires
        old(vfs).wf(),
    ensures
        final(vfs).wf(),
        final(vfs).files() == old(vfs).files(),
        final(vfs).next_fd == old(vfs).next_fd,
        final(vfs).mounts == old(vfs).mounts,
        final(vfs).fs.quotas@ == old(vfs).fs.quotas@,
        final(vfs).fs.usages@ == old(vfs).fs.usages@,
        final(vfs).fs.snapshots@ == old(vfs).fs.snapshots@,
        strings_view(args@).len() > 0 ==> exists|rr: Result<(), String>| #[trigger] crate::filesystem::mkdir_post(*old(vfs),
            *final(vfs), resolve_spec(sh.current_dir@, strings_view(args@)[0]), 0o755, uid, rr),
        ({
            let av = strings_view(args@);
            if av.len() == 0 {
                r@ == "Usage: mkdir <dir>"@ && *final(vfs) == *old(vfs)
            } else {
                match mkdir_known(*old(vfs), resolve_spec(sh.current_dir@, av[0])) {
                    Some(Ok(())) => r@ == Seq::<char>::empty(),
                    Some(Err(e)) => r@ == "mkdir: "@ + e,
                    None => r@.len() == 0 || crate::text::is_prefix("mkdir: "@, r@),
                }
            }
        }),
{
    let ghost av = strings_view(args@);
    if args.len() == 0 {
        return String::from_str("Usage: mkdir <dir>");
    }
    assert(av[0] == args@[0]@);
    let target = resolve_absolute_path(sh, args[0].as_str());
    let res = vfs_mkdir(vfs, target.as_str(), 0o755, uid);
    assert(crate::filesystem::mkdir_post(*old(vfs), *vfs, target@, 0o755, uid, res));
    match res {
        Ok(()) => String::new(),
        Err(e) => {
            let mut out: Vec<char> = Vec::new();
            push_str(&mut out, "mkdir: ");
            push_str(&mut out, e.as_str());
            assert(out@ == "mkdir: "@ + e@);
            assert(out@.subrange(0, "mkdir: "@.len() as int) =~= "mkdir: "@);
            chars_to_string(out.as_slice())
        },
    }
}

/// Opens `path` as `uid` (for writing with `write_mode`) and closes it again at once.
fn open_and_close(vfs: &mut Vfs, path: &str, write_mode: bool, uid: u32) -> (r: Result<(), String>)
    requires
        old(vfs).wf(),
        old(vfs).next_fd < usize::MAX,
    ensures
        final(vfs).wf(),
        final(vfs).files() == old(vfs).files(),
        final(vfs).fs.meta.view() == old(vfs).fs.meta.view(),
        final(vfs).fs.quotas@ == old(vfs).fs.quotas@,
        final(vfs).fs.usages@ == old(vfs).fs.usages@,
        final(vfs).fs.snapshots@ == old(vfs).fs.snapshots@,
        final(vfs).mounts == old(vfs).mounts,
        final(vfs).next_fd <= old(vfs).next_fd + 1,
        match open_result(*old(vfs), path@, write_mode, uid) {
            Ok(_) => r is Ok,
            Err(e) => r matches Err(x) && x@ == e,
        },
{
    match vfs_open(vfs, path, false, write_mode, uid) {
        Ok(fd) => {
            let ghost v1 = *vfs;
            proof {
                lemma_fd_slot_at(v1, v1.files().len() - 1);
                assert(v1.files().remove(v1.files().len() - 1) =~= old(vfs).files());
            }
            let _ = vfs_close(vfs, fd);
            Ok(())
        },
        Err(e) => Err(e),
    }
}

/// `rm <file>`: checks that the file may be written and reports it deleted; no entry is
/// removed.
pub fn cmd_rm(vfs: &mut Vfs, sh: &ShellSession, args: &Vec<String>, uid: u32) -> (r: String)
    requires
        old(vfs).wf(),
        old(vfs).next_fd < usize::MAX,
    ensures
        final(vfs).wf(),
        final(vfs).files() == old(vfs).files(),
        final(vfs).fs.meta.view() == old(vfs).fs.meta.view(),
        final(vfs).fs.quotas@ == old(vfs).fs.quotas@,
        final(vfs).fs.usages@ == old(vfs).fs.usages@,
        final(vfs).fs.snapshots@ == old(vfs).fs.snapshots@,
        final(vfs).mounts == old(vfs).mounts,
        final(vfs).next_fd <= old(vfs).next_fd + 1,
        ({
            let av = strings_view(args@);
            if av.len() == 0 {
                r@ == "Usage: rm <file>"@
            } else {
                match open_result(*old(vfs), resolve_spec(sh.current_dir@, av[0]), true, uid) {
                    Ok(_) => r@ == "File "@ + av[0] + " deleted successfully.\n"@,
                    Err(e) => r@ == "rm: Cannot delete "@ + av[0] + ": "@ + e,
                }
            }
        }),
{
    let ghost av = strings_view(args@);
    if args.len() == 0 {
        return String::from_str("Usage: rm <file>");
    }
    assert(av[0] == args@[0]@);
    let target = resolve_absolute_path(sh, args[0].as_str());
    let mut out: Vec<char> = Vec::new();
    match open_and_close(vfs, target.as_str(), true, uid) {
        Ok(()) => {
            push_str(&mut out, "File ");
            push_str(&mut out, args[0].as_str());
            push_str(&mut out, " deleted successfully.\n");
        },
        Err(e) => {
            push_str(&mut out, "rm: Cannot delete ");
            push_str(&mut out, args[0].as_str());
            push_str(&mut out, ": ");
            push_str(&mut out, e.as_str());
        },
    }
    chars_to_string(out.as_slice())
}

/// The metadata after `chmod` gives mode `mode`: the simulator stamps it on inode 0 when
/// that inode exists and still fits its slot.
pub open spec fn chmod_meta(m: MetaView, mode: u16) -> MetaView {
    match inode_lookup(m, 0) {
        Ok(n) => {
            let n2 = Inode { permissions: mode, ..n };
            if inode_encoded_len(n2) <= INODE_SLOT_PAYLOAD { with_inode(m, 0, n2) } else { m }
        },
        Err(_) => m,
    }
}

/// The mode `chmod` applies: the first argument read in octal, else 644.
pub open spec fn chmod_mode(arg: Seq<char>) -> u16 {
    match parse_unsigned(arg, 8, 0xffff) {
        Some(v) => v as u16,
        None => 0o644u16,
    }
}

/// `chmod <octal_mode> <file>`: checks that the file may be written, then stamps the mode.
pub fn cmd_chmod(vfs: &mut Vfs, sh: &ShellSession, args: &Vec<String>, uid: u32) -> (r: String)
    requires
        old(vfs).wf(),
        old(vfs).next_fd < usize::MAX,
    ensures
        final(vfs).wf(),
        final(vfs).files() == old(vfs).files(),
        final(vfs).fs.quotas@ == old(vfs).fs.quotas@,
        final(vfs).fs.usages@ == old(vfs).fs.usages@,
        final(vfs).fs.snapshots@ == old(vfs).fs.snapshots@,
        final(vfs).mounts == old(vfs).mounts,
        final(vfs).next_fd <= old(vfs).next_fd + 1,
        ({
            let av = strings_view(args@);
            let m0 = old(vfs).fs.meta.view();
            if av.len() < 2 {
                r@ == "Usage: chmod <octal_mode> <file>"@ && final(vfs).fs.meta.view() == m0
            } else {
                match open_result(*old(vfs), resolve_spec(sh.current_dir@, av[1]), true, uid) {
                    Ok(_) => r@ == "Permissions changed successfully.\n"@
                        && final(vfs).fs.meta.view() == chmod_meta(m0, chmod_mode(av[0])),
                    Err(e) => r@ == "chmod: "@ + e && final(vfs).fs.meta.view() == m0,
                }
            }
        }),
{
    let ghost av = strings_view(args@);
    if args.len() < 2 {
        return String::from_str("Usage: chmod <octal_mode> <file>");
    }
    assert(av[0] == args@[0]@ && av[1] == args@[1]@);
    let mode: u16 = match parse_unsigned_str(args[0].as_str(), 8, 0xffff) {
        Some(v) => v as u16,
        None => 0o644,
    };
    let target = resolve_absolute_path(sh, args[1].as_str());
    match open_and_close(vfs, target.as_str(), true, uid) {
        Ok(()) => {
            let ghost m0 = vfs.fs.meta.view();
            match read_inode_disk(&vfs.fs.meta, 0) {
                Ok(inode) => {
                    let mut n = inode;
                    n.permissions = mode;
                    assert(n == Inode { permissions: mode, ..inode });
                    assert(crate::filesystem::novafs::inode_ok(n));
                    let _ = write_inode_disk(&mut vfs.fs.meta, 0, &n);
                },
                Err(_) => {},
            }
            String::from_str("Permissions changed successfully.\n")
        },
        Err(e) => {
            let mut out: Vec<char> = Vec::new();
            push_str(&mut out, "chmod: ");
            push_str(&mut out, e.as_str());
            chars_to_string(out.as_slice())
        },
    }
}

/// The first `n` bytes of `b`.
fn bytes_prefix(b: &Vec<u8>, n: usize) -> (r: Vec<u8>)
    requires
        n <= b@.len(),
    ensures
        r@ == b@.subrange(0, n as int),
{
    let mut r: Vec<u8> = Vec::new();
    let mut i: usize = 0;
    while i < n
        invariant
            i <= n <= b@.len(),
            r@ == b@.subrange(0, i as int),
        decreases n - i,
    {
        r.push(b[i]);
        i = i + 1;
        assert(r@ =~= b@.subrange(0, i as int));
    }
    r
}

/// The open file at table position `i` of `v` is not the keyboard.
pub open spec fn open_file_at(v: Vfs, fd: usize, i: int) -> bool {
    &&& 0 <= i < v.files().len()
    &&& v.files()[i].0 == fd
    &&& fd_slot(v.files(), fd) == Some(i)
    &&& !is_stdin(v.files()[i].1)
}

/// What `cat` shows for one chunk of bytes: the text when it is valid UTF-8, else nothing.
pub open spec fn chunk_text(b: Seq<u8>) -> Seq<char> {
    if vstd::utf8::valid_utf8(b) { vstd::utf8::decode_utf8(b) } else { Seq::empty() }
}

/// What `cat` shows for a stream of bytes read 4096 at a time.
pub open spec fn chunked_text(b: Seq<u8>) -> Seq<char>
    decreases b.len(),
{
    if b.len() == 0 {
        Seq::empty()
    } else if b.len() <= 4096 {
        chunk_text(b)
    } else {
        chunk_text(b.subrange(0, 4096)) + chunked_text(b.subrange(4096, b.len() as int))
    }
}

/// Reads descriptor `fd` to its end in chunks of 4096 bytes, keeping each chunk that is valid
/// UTF-8 text.
fn read_all_text(vfs: &mut Vfs, dev: &mut Devices, fd: usize, Ghost(i): Ghost<int>) -> (r: Result<String, String>)
    requires
        old(vfs).wf(),
        old(dev).wf(),
        open_file_at(*old(vfs), fd, i),
    ensures
        final(vfs).wf(),
        final(dev).wf(),
        final(vfs).fs == old(vfs).fs,
        final(vfs).mounts == old(vfs).mounts,
        final(vfs).next_fd == old(vfs).next_fd,
        final(dev).input == old(dev).input,
        final(dev).disk == old(dev).disk,
        final(vfs).files().len() == old(vfs).files().len(),
        open_file_at(*final(vfs), fd, i),
        forall|j: int| 0 <= j < old(vfs).files().len() && j != i ==> final(vfs).files()[j] == old(vfs).files()[j],
        match fd_stream(old(vfs).fs.meta.view(), old(dev).disk.view(), old(vfs).files()[i].1) {
            Ok(b) => r matches Ok(t) && t@ == chunked_text(b),
            Err(e) => r matches Err(x) && x@ == e,
        },
{
    let ghost m = vfs.fs.meta.view();
    let ghost d = dev.disk.view();
    let ghost s0 = fd_stream(m, d, vfs.files()[i].1);
    let mut buffer: Vec<u8> = vec![0u8; 4096];
    let mut out: Vec<char> = Vec::new();
    let mut done = false;
    while !done
        invariant
            vfs.wf(),
            dev.wf(),
            vfs.fs == old(vfs).fs,
            vfs.mounts == old(vfs).mounts,
            vfs.next_fd == old(vfs).next_fd,
            dev.input == old(dev).input,
            dev.disk == old(dev).disk,
            m == old(vfs).fs.meta.view(),
            d == old(dev).disk.view(),
            s0 == fd_stream(m, d, old(vfs).files()[i].1),
            vfs.files().len() == old(vfs).files().len(),
            open_file_at(*vfs, fd, i),
            forall|j: int| 0 <= j < old(vfs).files().len() && j != i ==> vfs.files()[j] == old(vfs).files()[j],
            buffer@.len() == 4096,
            match fd_stream(m, d, vfs.files()[i].1) {
                Ok(b) => s0 matches Ok(b0) && out@ + chunked_text(b) == chunked_text(b0),
                Err(e) => s0 == Err::<Seq<u8>, Seq<char>>(e) && out@.len() == 0,
            },
            done ==> (fd_stream(m, d, vfs.files()[i].1) matches Ok(b) && b.len() == 0),
        decreases (usize::MAX - vfs.files()[i].1.2) * 2 + (if done { 0int } else { 1int }),
    {
        let ghost v0 = *vfs;
        let ghost dev0 = *dev;
        let ghost bf0 = buffer@;
        let ghost f = v0.files()[i].1;
        let res = vfs_read(vfs, dev, fd, &mut buffer);
        proof {
            lemma_read_follows_stream(v0, *vfs, dev0, *dev, fd, i, bf0, buffer@, res);
        }
        match res {
            Ok(n) => {
                assert(read_offset_fits(v0, fd, Ok::<usize, String>(n)));
                assert(vfs.files() == v0.files().update(i, (fd, with_offset(f, (f.2 + n) as usize))));
                proof { lemma_fd_slot_at(*vfs, i); }
                if n == 0 {
                    done = true;
                } else {
                    let ghost b = fd_stream(m, d, f)->Ok_0;
                    let ghost o0 = out@;
                    let chunk = bytes_prefix(&buffer, n);
                    match utf8_text(chunk.as_slice()) {
                        Some(s) => push_str(&mut out, s),
                        None => {},
                    }
                    proof {
                        assert(chunk@ == b.subrange(0, n as int));
                        assert(out@ == o0 + chunk_text(chunk@)) by {
                            if !vstd::utf8::valid_utf8(chunk@) { assert(o0 + Seq::<char>::empty() =~= o0); }
                        }
                        if b.len() <= 4096 {
                            assert(b.subrange(0, n as int) =~= b);
                            assert(b.subrange(n as int, b.len() as int) =~= Seq::<u8>::empty());
                            assert(out@ + chunked_text(Seq::<u8>::empty()) =~= out@);
                        }
                    }
                }
            },
            Err(e) => {
                return Err(e);
            },
        }
    }
    Ok(chars_to_string(out.as_slice()))
}

/// `cat <file>`: traces a read system call, then prints the file's text chunk by chunk.
pub fn cmd_cat(sys: &mut System, args: &Vec<String>, uid: u32) -> (r: String)
    requires
        old(sys).wf(),
        old(sys).vfs.next_fd < usize::MAX,
    ensures
        final(sys).wf(),
        crate::system::aside_unchanged(*old(sys), *final(sys)),
        final(sys).vfs.next_fd <= old(sys).vfs.next_fd + 1,
        final(sys).vfs.fs.meta.view() == old(sys).vfs.fs.meta.view(),
        final(sys).vfs.fs.snapshots@ == old(sys).vfs.fs.snapshots@,
        final(sys).kernel.tasks.next_pid <= old(sys).kernel.tasks.next_pid + 1,
        final(sys).kernel.mutexes == old(sys).kernel.mutexes,
        final(sys).kernel.ipc == old(sys).kernel.ipc,
        final(sys).users == old(sys).users,
        final(sys).pkgs == old(sys).pkgs,
        final(sys).shell == old(sys).shell,
        ({
            let av = strings_view(args@);
            if av.len() == 0 {
                r@ == "Usage: cat <file>"@
            } else {
                match open_result(old(sys).vfs, resolve_spec(old(sys).shell.current_dir@, av[0]), false, uid) {
                    Err(e) => r@ == "cat: "@ + e,
                    Ok(f) => match fd_stream(old(sys).vfs.fs.meta.view(), old(sys).dev.disk.view(), f) {
                        Ok(b) => r@ == chunked_text(b),
                        Err(e) => r@ == "cat read error: "@ + e,
                    },
                }
            }
        }),
{
    let ghost av = strings_view(args@);
    if args.len() == 0 {
        return String::from_str("Usage: cat <file>");
    }
    assert(av[0] == args@[0]@);
    let target = resolve_absolute_path(&sys.shell, args[0].as_str());
    let _ = sys_call(&mut sys.kernel, &mut sys.vfs, &mut sys.dev, &mut sys.net, 3, 0, 0, 0);
    match vfs_open(&mut sys.vfs, target.as_str(), false, false, uid) {
        Ok(fd) => {
            let ghost v1 = sys.vfs;
            let ghost i = v1.files().len() - 1;
            proof { lemma_fd_slot_at(v1, i); }
            let res = read_all_text(&mut sys.vfs, &mut sys.dev, fd, Ghost(i));
            let _ = vfs_close(&mut sys.vfs, fd);
            match res {
                Ok(text) => text,
                Err(e) => {
                    let mut out: Vec<char> = Vec::new();
                    push_str(&mut out, "cat read error: ");
                    push_str(&mut out, e.as_str());
                    chars_to_string(out.as_slice())
                },
            }
        },
        Err(e) => {
            let mut out: Vec<char> = Vec::new();
            push_str(&mut out, "cat: ");
            push_str(&mut out, e.as_str());
            chars_to_string(out.as_slice())
        },
    }
}

/// Appends `prefix` and `e` to a new text.
fn message(prefix: &str, e: &str) -> (r: String)
    ensures
        r@ == prefix@ + e@,
{
    let mut out: Vec<char> = Vec::new();
    push_str(&mut out, prefix);
    push_str(&mut out, e);
    chars_to_string(out.as_slice())
}

/// What `cp` run in directory `cwd` with arguments `av` as `uid` did (`v0`, `d0` before; `v1`,
/// `d1` after) and answered: the source is opened and read (up to 4096 bytes) and closed,
/// then those bytes are written to the destination as `cp_dest_post` says.
pub open spec fn cp_effect(v0: Vfs, d0: Devices, v1: Vfs, d1: Devices, cwd: Seq<char>, av: Seq<Seq<char>>, uid: u32,
    r: Seq<char>) -> bool
{
    if av.len() < 2 {
        r == "Usage: cp <source> <destination>"@
    } else {
        match open_result(v0, resolve_spec(cwd, av[0]), false, uid) {
            Err(e) => r == "cp source open failed: "@ + e,
            Ok(f) => match fd_stream(v0.fs.meta.view(), d0.disk.view(), f) {
                Err(e) => r == "cp source read failed: "@ + e,
                Ok(b) => exists|vc: Vfs| #[trigger] source_closed(v0, vc)
                    && cp_dest_post(vc, d0, v1, d1, resolve_spec(cwd, av[1]),
                        b.subrange(0, if b.len() < 4096 { b.len() as int } else { 4096 }), uid, r),
            },
        }
    }
}

/// The VFS `v1` is `v0` again after a file was opened for reading, read and closed: the same
/// open files, filesystem and mounts, with one descriptor number used up.
pub open spec fn source_closed(v0: Vfs, v1: Vfs) -> bool {
    &&& v1.wf()
    &&& v1.files() == v0.files()
    &&& v1.next_fd == v0.next_fd + 1
    &&& v1.mounts == v0.mounts
    &&& v1.fs.meta.view() == v0.fs.meta.view()
    &&& v1.fs.quotas@ == v0.fs.quotas@
    &&& v1.fs.usages@ == v0.fs.usages@
    &&& v1.fs.snapshots@ == v0.fs.snapshots@
}

/// What `cp` did with the copied bytes `data` from `v0`/`d0` (the source read and closed) to
/// `v1`/`d1`, and answered: the destination `dest` is opened (created when missing) for
/// writing as `uid`; when that fails the open error is reported; otherwise `data` is written
/// to the new descriptor and the filesystem is left as that write leaves it, with an empty
/// answer or the write error.
pub open spec fn cp_dest_post(v0: Vfs, d0: Devices, v1: Vfs, d1: Devices, dest: Seq<char>, data: Seq<u8>, uid: u32,
    r: Seq<char>) -> bool
{
    exists|v2: Vfs, ro: Result<usize, String>| #[trigger] open_post(v0, v2, dest, true, true, uid, ro) && match ro {
        Err(e) => r == "cp destination open failed: "@ + e@ && v1.fs == v2.fs && d1 == d0,
        Ok(fd) => exists|v3: Vfs, rw: Result<usize, String>| #[trigger] write_post(v2, v3, d0, d1, fd, data, uid, rw)
            && v1.fs == v3.fs && match rw {
                Err(e) => r == "cp destination write failed: "@ + e@,
                Ok(_) => r == Seq::<char>::empty(),
            },
    }
}

/// `cp <source> <destination>`: copies the first 4096 bytes of the source into the
/// destination, which is created when missing.
pub fn cmd_cp(vfs: &mut Vfs, dev: &mut Devices, sh: &ShellSession, args: &Vec<String>, uid: u32) -> (r: String)
    requires
        old(vfs).wf(),
        old(dev).wf(),
        old(vfs).next_fd + 1 < usize::MAX,
    ensures
        final(vfs).wf(),
        final(dev).wf(),
        final(dev).input == old(dev).input,
        final(vfs).next_fd <= old(vfs).next_fd + 2,
        cp_effect(*old(vfs), *old(dev), *final(vfs), *final(dev), sh.current_dir@, strings_view(args@), uid, r@),
{
    let ghost av = strings_view(args@);
    if args.len() < 2 {
        return String::from_str("Usage: cp <source> <destination>");
    }
    assert(av[0] == args@[0]@ && av[1] == args@[1]@);
    let src = resolve_absolute_path(sh, args[0].as_str());
    let dest = resolve_absolute_path(sh, args[1].as_str());
    let fd_src = match vfs_open(vfs, src.as_str(), false, false, uid) {
        Ok(fd) => fd,
        Err(e) => { return message("cp source open failed: ", e.as_str()); },
    };
    let ghost v1 = *vfs;
    let ghost d1 = *dev;
    proof { lemma_fd_slot_at(v1, v1.files().len() - 1); }
    let mut buf: Vec<u8> = vec![0u8; 4096];
    let ghost bf0 = buf@;
    let res = vfs_read(vfs, dev, fd_src, &mut buf);
    proof {
        lemma_read_follows_stream(v1, *vfs, d1, *dev, fd_src, v1.files().len() - 1, bf0, buf@, res);
    }
    let read_bytes = match res {
        Ok(n) => n,
        Err(e) => {
            let _ = vfs_close(vfs, fd_src);
            return message("cp source read failed: ", e.as_str());
        },
    };
    let ghost v2 = *vfs;
    let _ = vfs_close(vfs, fd_src);
    let ghost v0 = *vfs;
    let ghost d0 = *dev;
    proof {
        let i = v1.files().len() - 1;
        assert(fd_slot(v2.files(), fd_src) == Some(i)) by {
            lemma_fd_slot_at(v2, i);
        }
        assert(v0.files() =~= old(vfs).files());
        assert(d0 == *old(dev));
        assert(source_closed(*old(vfs), v0));
    }
    let data = if read_bytes <= buf.len() { bytes_prefix(&buf, read_bytes) } else { bytes_prefix(&buf, buf.len()) };
    let ghost dest_path = dest@;
    let ro = vfs_open(vfs, dest.as_str(), true, true, uid);
    let ghost v3 = *vfs;
    assert(open_post(v0, v3, dest_path, true, true, uid, ro));
    let fd_dest = match ro {
        Ok(fd) => fd,
        Err(e) => {
            let m = message("cp destination open failed: ", e.as_str());
            assert(cp_dest_post(v0, d0, *vfs, *dev, dest_path, data@, uid, m@));
            return m;
        },
    };
    let rw = vfs_write(vfs, dev, fd_dest, data.as_slice(), uid);
    let ghost v4 = *vfs;
    assert(write_post(v3, v4, d0, *dev, fd_dest, data@, uid, rw));
    match rw {
        Ok(_) => {},
        Err(e) => {
            let _ = vfs_close(vfs, fd_dest);
            let m = message("cp destination write failed: ", e.as_str());
            assert(cp_dest_post(v0, d0, *vfs, *dev, dest_path, data@, uid, m@));
            return m;
        },
    }
    let _ = vfs_close(vfs, fd_dest);
    let out = String::new();
    assert(cp_dest_post(v0, d0, *vfs, *dev, dest_path, data@, uid, out@));
    out
}

/// The lines of `s` after the current one `cur`: split at each newline, a carriage return
/// before the newline dropped, and no empty line after a final newline.
pub open spec fn lines_from(s: Seq<char>, cur: Seq<char>) -> Seq<Seq<char>>
    decreases s.len(),
{
    if s.len() == 0 {
        if cur.len() > 0 { seq![cur] } else { Seq::empty() }
    } else if s[0] == '\n' {
        seq![if cur.len() > 0 && cur.last() == '\r' { cur.drop_last() } else { cur }] + lines_from(s.drop_first(), Seq::empty())
    } else {
        lines_from(s.drop_first(), cur.push(s[0]))
    }
}

/// The lines of `s`, as `str::lines` gives them.
pub open spec fn lines_spec(s: Seq<char>) -> Seq<Seq<char>> {
    lines_from(s, Seq::empty())
}

/// The lines of `ls` that contain `pattern`, each followed by a newline.
pub open spec fn matching_lines(lines: Seq<Seq<char>>, pattern: Seq<char>) -> Seq<char>
    decreases lines.len(),
{
    if lines.len() == 0 {
        Seq::empty()
    } else {
        matching_lines(lines.drop_last(), pattern)
            + (if contains_seq(lines.last(), pattern) { lines.last() + "\n"@ } else { Seq::empty() })
    }
}

/// What `grep` prints for its arguments.
pub open spec fn grep_output(args: Seq<Seq<char>>) -> Seq<char> {
    if args.len() == 0 {
        "Usage: grep <pattern> [content_string]"@
    } else if args.len() < 2 {
        "Usage: grep <pattern> <string_input> or use piping"@
    } else {
        matching_lines(lines_spec(args[1]), args[0])
    }
}

/// A line as `str::lines` yields it: without a carriage return at its end.
pub open spec fn without_cr(x: Seq<char>) -> Seq<char> {
    if x.len() > 0 && x.last() == '\r' { x.drop_last() } else { x }
}

/// A newline ends the current line: the text up to the first newline (after what was already
/// gathered) is one line, and the lines after it are the lines of the rest.
pub proof fn lemma_lines_split_at_newline(a: Seq<char>, b: Seq<char>, cur: Seq<char>)
    requires
        !a.contains('\n'),
    ensures
        lines_from(a + seq!['\n'] + b, cur) == seq![without_cr(cur + a)] + lines_from(b, Seq::empty()),
    decreases a.len(),
{
    let s = a + seq!['\n'] + b;
    if a.len() == 0 {
        assert(s[0] == '\n');
        assert(s.drop_first() =~= b);
        assert(cur + a =~= cur);
    } else {
        assert(s[0] == a[0]);
        assert(a[0] != '\n') by {
            assert(a.contains(a[0]));
        }
        assert(s.drop_first() =~= a.drop_first() + seq!['\n'] + b);
        assert(!a.drop_first().contains('\n')) by {
            if a.drop_first().contains('\n') {
                let k = choose|k: int| 0 <= k < a.drop_first().len() && a.drop_first()[k] == '\n';
                assert(a[k + 1] == '\n');
                assert(a.contains(a[k + 1]));
            }
        }
        lemma_lines_split_at_newline(a.drop_first(), b, cur.push(a[0]));
        assert(cur.push(a[0]) + a.drop_first() =~= cur + a);
    }
}

/// A text without a newline is a single line, or no line at all when nothing was gathered.
pub proof fn lemma_lines_last_line(a: Seq<char>, cur: Seq<char>)
    requires
        !a.contains('\n'),
    ensures
        (cur + a).len() > 0 ==> lines_from(a, cur) == seq![cur + a],
        (cur + a).len() == 0 ==> lines_from(a, cur) == Seq::<Seq<char>>::empty(),
    decreases a.len(),
{
    if a.len() == 0 {
        assert(cur + a =~= cur);
    } else {
        assert(a[0] != '\n') by {
            assert(a.contains(a[0]));
        }
        assert(!a.drop_first().contains('\n')) by {
            if a.drop_first().contains('\n') {
                let k = choose|k: int| 0 <= k < a.drop_first().len() && a.drop_first()[k] == '\n';
                assert(a[k + 1] == '\n');
                assert(a.contains(a[k + 1]));
            }
        }
        lemma_lines_last_line(a.drop_first(), cur.push(a[0]));
        assert(cur.push(a[0]) + a.drop_first() =~= cur + a);
    }
}

/// Grep looks at every line on its own: the output for a text made of two runs of lines is
/// the output for the first run followed by the output for the second.
pub proof fn lemma_grep_lines_concat(l1: Seq<Seq<char>>, l2: Seq<Seq<char>>, pattern: Seq<char>)
    ensures
        matching_lines(l1 + l2, pattern) == matching_lines(l1, pattern) + matching_lines(l2, pattern),
    decreases l2.len(),
{
    if l2.len() == 0 {
        assert(l1 + l2 =~= l1);
        assert(matching_lines(l1, pattern) + matching_lines(l2, pattern) =~= matching_lines(l1, pattern));
    } else {
        lemma_grep_lines_concat(l1, l2.drop_last(), pattern);
        assert((l1 + l2).drop_last() =~= l1 + l2.drop_last());
        assert((l1 + l2).last() == l2.last());
        let tail = if contains_seq(l2.last(), pattern) { l2.last() + "\n"@ } else { Seq::<char>::empty() };
        assert(matching_lines(l1 + l2, pattern) == matching_lines(l1 + l2.drop_last(), pattern) + tail);
        assert(matching_lines(l2, pattern) == matching_lines(l2.drop_last(), pattern) + tail);
        assert((matching_lines(l1, pattern) + matching_lines(l2.drop_last(), pattern)) + tail
            =~= matching_lines(l1, pattern) + (matching_lines(l2.drop_last(), pattern) + tail));
    }
}

/// A single line is printed, followed by a newline, exactly when it contains the pattern;
/// otherwise grep prints nothing for it.
pub proof fn lemma_grep_one_line(line: Seq<char>, pattern: Seq<char>)
    ensures
        contains_seq(line, pattern) ==> matching_lines(seq![line], pattern) == line + "\n"@,
        !contains_seq(line, pattern) ==> matching_lines(seq![line], pattern) == Seq::<char>::empty(),
{
    let one = seq![line];
    assert(one.drop_last() =~= Seq::<Seq<char>>::empty());
    assert(one.last() == line);
    assert(matching_lines(one.drop_last(), pattern) == Seq::<char>::empty());
    let tail = if contains_seq(line, pattern) { line + "\n"@ } else { Seq::<char>::empty() };
    assert(matching_lines(one, pattern) == matching_lines(one.drop_last(), pattern) + tail);
    assert(Seq::<char>::empty() + tail =~= tail);
}

/// Every line of the input that contains the pattern appears in grep's output, in input
/// order, each followed by a newline; no other line appears. Put as one law: the output for
/// the lines before a line, then that line's own output, then the output for the lines after.
pub proof fn lemma_grep_keeps_every_match(lines: Seq<Seq<char>>, k: int, pattern: Seq<char>)
    requires
        0 <= k < lines.len(),
    ensures
        matching_lines(lines, pattern) == matching_lines(lines.subrange(0, k), pattern)
            + (if contains_seq(lines[k], pattern) { lines[k] + "\n"@ } else { Seq::<char>::empty() })
            + matching_lines(lines.subrange(k + 1, lines.len() as int), pattern),
{
    let a = lines.subrange(0, k);
    let b = seq![lines[k]];
    let c = lines.subrange(k + 1, lines.len() as int);
    assert(lines =~= (a + b) + c);
    lemma_grep_lines_concat(a + b, c, pattern);
    lemma_grep_lines_concat(a, b, pattern);
    lemma_grep_one_line(lines[k], pattern);
}

/// The lines of `s`.
fn split_lines(s: &[char]) -> (r: Vec<Vec<char>>)
    ensures
        crate::text::pieces_view(r@) == lines_spec(s@),
{
    let mut acc: Vec<Vec<char>> = Vec::new();
    let mut cur: Vec<char> = Vec::new();
    let mut i: usize = 0;
    assert(s@.subrange(0, s@.len() as int) =~= s@);
    assert(crate::text::pieces_view(acc@) + lines_spec(s@) =~= lines_spec(s@));
    while i < s.len()
        invariant
            i <= s@.len(),
            crate::text::pieces_view(acc@) + lines_from(s@.subrange(i as int, s@.len() as int), cur@) == lines_spec(s@),
        decreases s@.len() - i,
    {
        let ghost rest = s@.subrange(i as int, s@.len() as int);
        assert(rest.drop_first() =~= s@.subrange(i + 1, s@.len() as int));
        if s[i] == '\n' {
            let ghost a0 = crate::text::pieces_view(acc@);
            let ghost c0 = cur@;
            let line = if cur.len() > 0 && cur[cur.len() - 1] == '\r' {
                let l = crate::text::chars_range(cur.as_slice(), 0, cur.len() - 1);
                assert(l@ =~= c0.drop_last());
                l
            } else {
                cur
            };
            acc.push(line);
            cur = Vec::new();
            assert(crate::text::pieces_view(acc@) =~= a0.push(if c0.len() > 0 && c0.last() == '\r' { c0.drop_last() } else { c0 }));
            assert(crate::text::pieces_view(acc@) + lines_from(s@.subrange(i + 1, s@.len() as int), cur@)
                =~= a0 + (seq![if c0.len() > 0 && c0.last() == '\r' { c0.drop_last() } else { c0 }]
                    + lines_from(s@.subrange(i + 1, s@.len() as int), Seq::empty())));
        } else {
            cur.push(s[i]);
        }
        i = i + 1;
    }
    assert(s@.subrange(i as int, s@.len() as int) =~= Seq::<char>::empty());
    if cur.len() > 0 {
        let ghost a0 = crate::text::pieces_view(acc@);
        let ghost c0 = cur@;
        acc.push(cur);
        assert(crate::text::pieces_view(acc@) =~= a0 + seq![c0]);
    } else {
        assert(crate::text::pieces_view(acc@) + Seq::<Seq<char>>::empty() =~= crate::text::pieces_view(acc@));
    }
    acc
}

/// `grep <pattern> <text>`: the lines of the text that contain the pattern.
pub fn cmd_grep(args: &Vec<String>) -> (r: String)
    ensures
        r@ == grep_output(strings_view(args@)),
{
    let ghost av = strings_view(args@);
    if args.len() == 0 {
        return String::from_str("Usage: grep <pattern> [content_string]");
    }
    if args.len() < 2 {
        return String::from_str("Usage: grep <pattern> <string_input> or use piping");
    }
    assert(av[0] == args@[0]@ && av[1] == args@[1]@);
    let pattern = str_to_chars(args[0].as_str());
    let text = str_to_chars(args[1].as_str());
    let lines = split_lines(text.as_slice());
    let ghost lv = crate::text::pieces_view(lines@);
    let mut out: Vec<char> = Vec::new();
    let mut i: usize = 0;
    while i < lines.len()
        invariant
            lv == crate::text::pieces_view(lines@),
            pattern@ == av[0],
            i <= lines@.len(),
            out@ == matching_lines(lv.subrange(0, i as int), av[0]),
        decreases lines@.len() - i,
    {
        assert(lv.subrange(0, i + 1).drop_last() =~= lv.subrange(0, i as int));
        assert(lv[i as int] == lines@[i as int]@);
        if contains_chars(lines[i].as_slice(), pattern.as_slice()) {
            push_chars(&mut out, lines[i].as_slice());
            push_str(&mut out, "\n");
        }
        i = i + 1;
        assert(out@ =~= matching_lines(lv.subrange(0, i as int), av[0]));
    }
    assert(lv.subrange(0, lines@.len() as int) =~= lv);
    chars_to_string(out.as_slice())
}

} // verus!
