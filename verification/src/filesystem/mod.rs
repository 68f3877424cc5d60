//! The virtual filesystem: mount points, open file descriptors and path resolution over
//! NovaFS and the read-only FAT32 and EXT2 partitions.
use vstd::prelude::*;
use vstd::string::StringSliceAdditionalSpecFns;
use crate::text::{is_prefix, trim_spec, replace_char_spec, split_nonempty, pieces_view, strip_leading};
use crate::text::{str_to_chars, chars_to_string, push_str, push_chars, starts_with, trim_chars, replace_char,
    split_pieces, strip_leading_from, chars_eq, str_eq};
use crate::filesystem::novafs::{NovaFs, NovaMeta, MetaView, EntryView, Inode, DirectoryEntry, entries_view, dirs_view,
    inode_lookup, dir_lookup, listing, perm_allows, MAX_FILE_BYTES, INODE_SLOTS};
use crate::filesystem::novafs::{read_directory_entries, read_inode_disk, allocate_inode, add_dir_entry,
    check_permission, init_novafs, blank_meta};

use crate::drivers::Devices;
use crate::drivers::input::{KeyCode, read_key_event};
use crate::filesystem::novafs::{file_read_effect, file_write_effect, read_file_data, write_file_data};

pub mod novafs;
pub mod fat32;
pub mod ext2;

verus! {

/// The kind of filesystem behind a mount point.
#[derive(Debug, Clone, Copy, PartialEq, Eq, Structural)]
pub enum MountType {
    NovaFS,
    FAT32,
    EXT2,
}

/// A mounted partition.
#[derive(Debug)]
pub struct MountPoint {
    pub path: String,
    pub mtype: MountType,
}

/// An open file.
#[derive(Debug)]
pub struct FileDescriptor {
    pub path: String,
    pub inode_id: Option<u32>,
    pub offset: usize,
    pub is_dir: bool,
    pub readable: bool,
    pub writable: bool,
    pub mount_type: MountType,
}

/// An open file as plain values: path, inode, offset, directory, readable, writable, mount.
pub type FdView = (Seq<char>, Option<u32>, usize, bool, bool, bool, MountType);

/// The view of an open file.
pub open spec fn fd_view(d: FileDescriptor) -> FdView {
    (d.path@, d.inode_id, d.offset, d.is_dir, d.readable, d.writable, d.mount_type)
}

/// The descriptor table as `(fd, file)` pairs.
pub open spec fn fds_view(s: Seq<(usize, FileDescriptor)>) -> Seq<(usize, FdView)> {
    s.map_values(|e: (usize, FileDescriptor)| (e.0, fd_view(e.1)))
}

/// The mount table as `(path, kind)` pairs.
pub open spec fn mounts_view(s: Seq<MountPoint>) -> Seq<(Seq<char>, MountType)> {
    s.map_values(|m: MountPoint| (m.path@, m.mtype))
}

/// The VFS: NovaFS, the open-file table ordered by descriptor number, the next descriptor
/// number, and the mount table.
pub struct Vfs {
    pub fs: NovaFs,
    pub fds: Vec<(usize, FileDescriptor)>,
    pub next_fd: usize,
    pub mounts: Vec<MountPoint>,
}

impl Vfs {
    /// NovaFS is well formed; descriptors are strictly increasing and below `next_fd`.
    pub open spec fn wf(&self) -> bool {
        &&& self.fs.wf()
        &&& forall|i: int, j: int| 0 <= i < j < self.fds@.len() ==> self.fds@[i].0 < self.fds@[j].0
        &&& forall|i: int| 0 <= i < self.fds@.len() ==> (#[trigger] self.fds@[i]).0 < self.next_fd
    }

    /// The open files as plain values.
    pub open spec fn files(&self) -> Seq<(usize, FdView)> {
        fds_view(self.fds@)
    }

    /// The mount table as plain values.
    pub open spec fn mount_table(&self) -> Seq<(Seq<char>, MountType)> {
        mounts_view(self.mounts@)
    }

    /// A VFS over an unformatted volume with nothing open or mounted; descriptor 3 comes next.
    pub fn new() -> (v: Vfs)
        ensures
            v.wf(),
            v.fs.meta.view().superblock.magic == 0,
            v.files().len() == 0,
            v.mount_table().len() == 0,
            v.next_fd == 3,
    {
        let v = Vfs { fs: NovaFs::blank(), fds: Vec::new(), next_fd: 3, mounts: Vec::new() };
        assert(v.files() =~= Seq::<(usize, FdView)>::empty());
        assert(v.mount_table() =~= Seq::<(Seq<char>, MountType)>::empty());
        v
    }
}

/// The standard descriptors: 0 reads the keyboard, 1 and 2 write to the console.
pub open spec fn standard_fds() -> Seq<(usize, FdView)> {
    seq![
        (0usize, ("/dev/stdin"@, None::<u32>, 0usize, false, true, false, MountType::NovaFS)),
        (1usize, ("/dev/stdout"@, None::<u32>, 0usize, false, false, true, MountType::NovaFS)),
        (2usize, ("/dev/stderr"@, None::<u32>, 0usize, false, false, true, MountType::NovaFS)),
    ]
}

/// The mounts every boot starts with.
pub open spec fn standard_mounts() -> Seq<(Seq<char>, MountType)> {
    seq![("/"@, MountType::NovaFS), ("/mnt/fat32"@, MountType::FAT32), ("/mnt/ext2"@, MountType::EXT2)]
}

/// A standard descriptor.
fn std_fd(path: &str, readable: bool, writable: bool) -> (d: FileDescriptor)
    ensures
        fd_view(d) == (path@, None::<u32>, 0usize, false, readable, writable, MountType::NovaFS),
{
    FileDescriptor { path: String::from_str(path), inode_id: None, offset: 0, is_dir: false, readable, writable, mount_type: MountType::NovaFS }
}

/// Mounts NovaFS (formatting it when needed), resets the descriptor table to the standard
/// descriptors and the mount table to `/`, `/mnt/fat32` and `/mnt/ext2`. The descriptor
/// counter keeps counting.
pub fn init_vfs(v: &mut Vfs)
    requires
        old(v).wf(),
        old(v).next_fd >= 3,
    ensures
        final(v).wf(),
        final(v).files() == standard_fds(),
        final(v).mount_table() == standard_mounts(),
        final(v).next_fd == old(v).next_fd,
        final(v).fs.quotas@ == crate::filesystem::novafs::initial_quotas(),
        final(v).fs.usages@ == crate::filesystem::novafs::initial_usages(),
        final(v).fs.snapshots@.len() == 0,
        old(v).fs.meta.view().superblock.magic == crate::filesystem::novafs::MAGIC ==> final(v).fs.meta.view() == old(v).fs.meta.view(),
        old(v).fs.meta.view().superblock.magic != crate::filesystem::novafs::MAGIC ==>
            final(v).fs.meta.view().superblock == crate::filesystem::novafs::formatted_superblock(1)
            && (final(v).fs.meta.view().inodes[0] matches Some(n) && crate::filesystem::novafs::is_root_inode(n)),
{
    init_novafs(&mut v.fs);
    let mut fds: Vec<(usize, FileDescriptor)> = Vec::new();
    fds.push((0, std_fd("/dev/stdin", true, false)));
    fds.push((1, std_fd("/dev/stdout", false, true)));
    fds.push((2, std_fd("/dev/stderr", false, true)));
    v.fds = fds;
    let mut mounts: Vec<MountPoint> = Vec::new();
    mounts.push(MountPoint { path: String::from_str("/"), mtype: MountType::NovaFS });
    mounts.push(MountPoint { path: String::from_str("/mnt/fat32"), mtype: MountType::FAT32 });
    mounts.push(MountPoint { path: String::from_str("/mnt/ext2"), mtype: MountType::EXT2 });
    v.mounts = mounts;
    assert(v.files() =~= standard_fds());
    assert(v.mount_table() =~= standard_mounts());
}

// ---------------------------------------------------------------- paths

/// A path as the VFS reads it: trimmed, with backslashes turned into slashes.
pub open spec fn vfs_clean(path: Seq<char>) -> Seq<char> {
    replace_char_spec(trim_spec(path), '\\', '/')
}

/// The mount a cleaned path falls under and the path within it: the first mount other than
/// `/` that prefixes it, else NovaFS with the whole path.
pub open spec fn mount_resolve(mounts: Seq<(Seq<char>, MountType)>, p: Seq<char>) -> (MountType, Seq<char>)
    decreases mounts.len(),
{
    if mounts.len() == 0 {
        (MountType::NovaFS, p)
    } else if mounts[0].0 != "/"@ && is_prefix(mounts[0].0, p) {
        (mounts[0].1, strip_leading(p.subrange(mounts[0].0.len() as int, p.len() as int), '/'))
    } else {
        mount_resolve(mounts.drop_first(), p)
    }
}

/// The cleaned form of `path`.
fn clean_path(path: &str) -> (r: Vec<char>)
    ensures
        r@ == vfs_clean(path@),
{
    let raw = str_to_chars(path);
    let t = trim_chars(raw.as_slice());
    replace_char(t.as_slice(), '\\', '/')
}

/// The mount a cleaned path falls under and the path within it.
fn resolve_mount(v: &Vfs, clean: &Vec<char>) -> (r: (MountType, Vec<char>))
    ensures
        (r.0, r.1@) == mount_resolve(v.mount_table(), clean@),
{
    let ghost mt = v.mount_table();
    let root = str_to_chars("/");
    let mut i: usize = 0;
    assert(mt.subrange(0, mt.len() as int) =~= mt);
    while i < v.mounts.len()
        invariant
            i <= v.mounts@.len(),
            mt == v.mount_table(),
            mt.len() == v.mounts@.len(),
            root@ == "/"@,
            mount_resolve(mt, clean@) == mount_resolve(mt.subrange(i as int, mt.len() as int), clean@),
        decreases v.mounts@.len() - i,
    {
        let ghost rest = mt.subrange(i as int, mt.len() as int);
        assert(rest.drop_first() =~= mt.subrange(i + 1, mt.len() as int));
        assert(rest[0] == (v.mounts@[i as int].path@, v.mounts@[i as int].mtype));
        let mp = str_to_chars(v.mounts[i].path.as_str());
        if !chars_eq(mp.as_slice(), root.as_slice()) && starts_with(clean.as_slice(), mp.as_slice()) {
            let rel = strip_leading_from(clean.as_slice(), mp.len(), '/');
            return (v.mounts[i].mtype, rel);
        }
        i = i + 1;
    }
    let mut whole: Vec<char> = Vec::new();
    push_chars(&mut whole, clean.as_slice());
    assert(mt.subrange(i as int, mt.len() as int) =~= Seq::<(Seq<char>, MountType)>::empty());
    (MountType::NovaFS, whole)
}

/// The inode a listing gives for `name` (its first entry with that name).
pub open spec fn find_entry(l: Seq<EntryView>, name: Seq<char>) -> Option<u32>
    decreases l.len(),
{
    if l.len() == 0 {
        None
    } else if l[0].0 == name {
        Some(l[0].1)
    } else {
        find_entry(l.drop_first(), name)
    }
}

/// The inode a listing gives for `name`.
fn find_entry_exec(entries: &Vec<DirectoryEntry>, name: &Vec<char>) -> (r: Option<u32>)
    ensures
        r == find_entry(entries_view(entries@), name@),
{
    let ghost ev = entries_view(entries@);
    let mut i: usize = 0;
    assert(ev.subrange(0, ev.len() as int) =~= ev);
    while i < entries.len()
        invariant
            i <= entries@.len(),
            ev == entries_view(entries@),
            ev.len() == entries@.len(),
            find_entry(ev, name@) == find_entry(ev.subrange(i as int, ev.len() as int), name@),
        decreases entries@.len() - i,
    {
        let ghost rest = ev.subrange(i as int, ev.len() as int);
        assert(rest.drop_first() =~= ev.subrange(i + 1, ev.len() as int));
        assert(rest[0] == entry_view_of(entries@[i as int]));
        let nm = str_to_chars(entries[i].name.as_str());
        if chars_eq(nm.as_slice(), name.as_slice()) {
            return Some(entries[i].inode_id);
        }
        i = i + 1;
    }
    assert(ev.subrange(i as int, ev.len() as int) =~= Seq::<EntryView>::empty());
    None
}

/// The view of one directory entry.
pub open spec fn entry_view_of(e: DirectoryEntry) -> EntryView {
    (e.name@, e.inode_id)
}

/// Where following the names `parts[i..]` from directory `cur` leads.
pub enum Walk {
    /// Every name resolved, ending at this inode.
    Found(u32),
    /// `parts[index]` is not in directory `dir`.
    Missing(int, u32),
    /// A directory could not be read.
    Failed(Seq<char>),
}

/// Follows the names `parts[i..]` from directory `cur`.
pub open spec fn walk(m: MetaView, cur: u32, parts: Seq<Seq<char>>, i: int) -> Walk
    decreases parts.len() - i,
{
    if i >= parts.len() || i < 0 {
        Walk::Found(cur)
    } else {
        match dir_lookup(m, cur) {
            Err(e) => Walk::Failed(e),
            Ok(l) => match find_entry(l, parts[i]) {
                Some(id) => walk(m, id, parts, i + 1),
                None => Walk::Missing(i, cur),
            },
        }
    }
}


/// A name missing on the way sits in a readable directory that lacks it.
pub proof fn lemma_walk_missing(m: MetaView, cur: u32, parts: Seq<Seq<char>>, j: int, i: int, d: u32)
    requires
        walk(m, cur, parts, j) == Walk::Missing(i, d),
    ensures
        dir_lookup(m, d) is Ok,
        find_entry(dir_lookup(m, d)->Ok_0, parts[i]) is None,
        j <= i < parts.len(),
        0 <= j,
    decreases parts.len() - j,
{
    if j >= parts.len() || j < 0 {
    } else {
        match dir_lookup(m, cur) {
            Err(e) => {},
            Ok(l) => match find_entry(l, parts[j]) {
                Some(id) => { lemma_walk_missing(m, id, parts, j + 1, i, d); },
                None => {},
            },
        }
    }
}

/// The outcome of following a path's names.
pub enum WalkOutcome {
    Found(u32),
    Missing(usize, u32),
    Failed(String),
}

/// Follows the names `parts` from the root directory.
fn walk_exec(m: &NovaMeta, parts: &Vec<Vec<char>>) -> (r: WalkOutcome)
    requires
        m.wf(),
    ensures
        match r {
            WalkOutcome::Found(id) => walk(m.view(), 0, pieces_view(parts@), 0) == Walk::Found(id),
            WalkOutcome::Missing(i, d) => walk(m.view(), 0, pieces_view(parts@), 0) == Walk::Missing(i as int, d)
                && i < parts@.len(),
            WalkOutcome::Failed(e) => walk(m.view(), 0, pieces_view(parts@), 0) == Walk::Failed(e@),
        },
{
    let ghost pv = pieces_view(parts@);
    let mut cur: u32 = 0;
    let mut i: usize = 0;
    while i < parts.len()
        invariant
            m.wf(),
            pv == pieces_view(parts@),
            pv.len() == parts@.len(),
            i <= parts@.len(),
            walk(m.view(), 0, pv, 0) == walk(m.view(), cur, pv, i as int),
        decreases parts@.len() - i,
    {
        let entries = match read_directory_entries(m, cur) {
            Ok(e) => e,
            Err(e) => {
                return WalkOutcome::Failed(e);
            },
        };
        assert(pv[i as int] == parts@[i as int]@);
        match find_entry_exec(&entries, &parts[i]) {
            Some(id) => {
                cur = id;
                i = i + 1;
            },
            None => {
                return WalkOutcome::Missing(i, cur);
            },
        }
    }
    WalkOutcome::Found(cur)
}

// ---------------------------------------------------------------- open

/// Whether the FAT32 partition opens `rel`: the partition root, or one of its files.
pub open spec fn fat32_opens(rel: Seq<char>) -> bool {
    rel.len() == 0 || exists|i: int| 0 <= i < 3 && #[trigger] crate::filesystem::fat32::fat32_files()[i].0 == rel
}

/// The EXT2 inode `rel` opens: the first inode named `rel`, or the first inode for the
/// partition root.
pub open spec fn ext2_find(l: Seq<(u32, Seq<char>, u16)>, rel: Seq<char>) -> Option<u32>
    decreases l.len(),
{
    if l.len() == 0 {
        None
    } else if l[0].1 == rel || rel.len() == 0 {
        Some(l[0].0)
    } else {
        ext2_find(l.drop_first(), rel)
    }
}

/// The VFS after a successful open appended descriptor `next_fd` for `file`.
pub open spec fn opened(v0: Vfs, v1: Vfs, file: FdView) -> bool {
    &&& v1.files() == v0.files().push((v0.next_fd, file))
    &&& v1.next_fd == v0.next_fd + 1
}

/// Appends a descriptor with the next number.
fn add_fd(v: &mut Vfs, path: Vec<char>, inode_id: Option<u32>, is_dir: bool, writable: bool, mt: MountType) -> (fd: usize)
    requires
        old(v).wf(),
        old(v).next_fd < usize::MAX,
    ensures
        final(v).wf(),
        fd == old(v).next_fd,
        opened(*old(v), *final(v), (path@, inode_id, 0usize, is_dir, true, writable, mt)),
        final(v).fs == old(v).fs,
        final(v).mounts == old(v).mounts,
{
    let fd = v.next_fd;
    let ghost f0 = v.fds@;
    let d = FileDescriptor { path: chars_to_string(path.as_slice()), inode_id, offset: 0, is_dir, readable: true, writable, mount_type: mt };
    v.fds.push((fd, d));
    v.next_fd = fd + 1;
    assert(v.files() =~= fds_view(f0).push((fd, (path@, inode_id, 0usize, is_dir, true, writable, mt))));
    proof {
        let f1 = v.fds@;
        assert forall|i: int, j: int| 0 <= i < j < f1.len() implies f1[i].0 < f1[j].0 by {
            assert(f1[i] == f0[i] || i == f0.len());
            if j < f0.len() { assert(f1[j] == f0[j]); }
        }
        assert forall|i: int| 0 <= i < f1.len() implies (#[trigger] f1[i]).0 < v.next_fd by {
            if i < f0.len() { assert(f1[i] == f0[i]); }
        }
    }
    fd
}

/// The descriptor table and mounts are as before.
pub open spec fn table_unchanged(v0: Vfs, v1: Vfs) -> bool {
    &&& v1.files() == v0.files()
    &&& v1.next_fd == v0.next_fd
}

/// What opening an existing `path` gives (nothing is created): the opened file, or the error.
pub open spec fn open_result(v: Vfs, path: Seq<char>, write_mode: bool, uid: u32) -> Result<FdView, Seq<char>> {
    let clean = vfs_clean(path);
    let (mt, rel) = mount_resolve(v.mount_table(), clean);
    let m0 = v.fs.meta.view();
    match mt {
        MountType::FAT32 => if write_mode {
            Err("FAT32 partition is mounted read-only"@)
        } else if fat32_opens(rel) {
            Ok((clean, None::<u32>, 0usize, rel.len() == 0, true, false, MountType::FAT32))
        } else {
            Err("File not found on FAT32 partition: "@ + rel)
        },
        MountType::EXT2 => if write_mode {
            Err("EXT2 simulator partition is mounted read-only"@)
        } else {
            match ext2_find(crate::filesystem::ext2::ext2_inodes(), rel) {
                Some(id) => Ok((clean, Some(id), 0usize, rel.len() == 0, true, false, MountType::EXT2)),
                None => Err("File not found on EXT2 partition: "@ + rel),
            }
        },
        MountType::NovaFS => match walk(m0, 0, split_nonempty(rel, '/'), 0) {
            Walk::Failed(e) => Err(e),
            Walk::Found(id) => match inode_lookup(m0, id) {
                Err(e) => Err(e),
                Ok(n) => if uid != 0 && !perm_allows(n, uid, write_mode) {
                    Err("Permission denied"@)
                } else {
                    Ok((clean, Some(id), 0usize, n.is_directory, true, write_mode, MountType::NovaFS))
                },
            },
            Walk::Missing(_, _) => Err("VFS path not found: "@ + clean),
        },
    }
}

/// There is room to create the regular file `path` as root and write `len` bytes (at most one
/// block) into it: the file is missing, its directory is a NovaFS directory that already holds
/// entries, the file can be created there, a data block is free, and root's quota admits it.
pub open spec fn file_room(v: Vfs, path: Seq<char>, len: int) -> bool {
    let clean = vfs_clean(path);
    let (mt, rel) = mount_resolve(v.mount_table(), clean);
    let m = v.fs.meta.view();
    let parts = split_nonempty(rel, '/');
    &&& mt == MountType::NovaFS
    &&& walk(m, 0, parts, 0) matches Walk::Missing(i, dir)
        && i == parts.len() - 1
        && crate::filesystem::novafs::create_error(m, dir, parts[i], 0) is None
        && (inode_lookup(m, dir) matches Ok(d) && d.direct_blocks@[0] != 0)
    &&& !crate::filesystem::novafs::disk_full(m)
    &&& crate::filesystem::novafs::within_quota(v.fs.quotas@, v.fs.usages@, 0, len)
    &&& 0 < len <= 512
}

/// An open returned as `r` on `v0`, leaving `v1`, is the one described by `expected`.
pub open spec fn open_matches(v0: Vfs, v1: Vfs, r: Result<usize, String>, expected: Result<FdView, Seq<char>>) -> bool {
    match expected {
        Ok(f) => r is Ok && opened(v0, v1, f) && v1.fs.meta.view() == v0.fs.meta.view(),
        Err(e) => (r matches Err(x) && x@ == e) && table_unchanged(v0, v1) && v1.fs.meta.view() == v0.fs.meta.view(),
    }
}

/// What opening `path` (creating it with `create`, for writing with `write_mode`) as `uid`
/// did to the VFS (`v0` before, `v1` after) and returned.
pub open spec fn open_post(v0: Vfs, v1: Vfs, path: Seq<char>, create: bool, write_mode: bool, uid: u32,
    r: Result<usize, String>) -> bool
{
    &&& v1.mounts == v0.mounts
    &&& v1.fs.quotas@ == v0.fs.quotas@
    &&& v1.fs.usages@ == v0.fs.usages@
    &&& v1.fs.snapshots@ == v0.fs.snapshots@
    &&& r is Err ==> table_unchanged(v0, v1)
    &&& r matches Ok(fd) ==> fd == v0.next_fd
    &&& !create ==> open_matches(v0, v1, r, open_result(v0, path, write_mode, uid))
    &&& ({
        let clean = vfs_clean(path);
        let (mt, rel) = mount_resolve(v0.mount_table(), clean);
        let m0 = v0.fs.meta.view();
        match mt {
            MountType::FAT32 => v1.fs.meta.view() == m0 && if write_mode {
                r matches Err(e) && e@ == "FAT32 partition is mounted read-only"@
            } else if fat32_opens(rel) {
                r is Ok && opened(v0, v1, (clean, None::<u32>, 0usize, rel.len() == 0, true, false, MountType::FAT32))
            } else {
                r matches Err(e) && e@ == "File not found on FAT32 partition: "@ + rel
            },
            MountType::EXT2 => v1.fs.meta.view() == m0 && if write_mode {
                r matches Err(e) && e@ == "EXT2 simulator partition is mounted read-only"@
            } else {
                match ext2_find(crate::filesystem::ext2::ext2_inodes(), rel) {
                    Some(id) => r is Ok && opened(v0, v1, (clean, Some(id), 0usize, rel.len() == 0, true, false, MountType::EXT2)),
                    None => r matches Err(e) && e@ == "File not found on EXT2 partition: "@ + rel,
                }
            },
            MountType::NovaFS => {
                let parts = split_nonempty(rel, '/');
                match walk(m0, 0, parts, 0) {
                    Walk::Failed(e) => (r matches Err(x) && x@ == e) && v1.fs.meta.view() == m0,
                    Walk::Found(id) => v1.fs.meta.view() == m0 && match inode_lookup(m0, id) {
                        Err(e) => r matches Err(x) && x@ == e,
                        Ok(n) => if uid != 0 && !perm_allows(n, uid, write_mode) {
                            r matches Err(x) && x@ == "Permission denied"@
                        } else {
                            r is Ok && opened(v0, v1, (clean, Some(id), 0usize, n.is_directory, true, write_mode, MountType::NovaFS))
                        },
                    },
                    Walk::Missing(i, dir) => if !create || parts[i] != parts.last() {
                        (r matches Err(x) && x@ == "VFS path not found: "@ + clean) && v1.fs.meta.view() == m0
                    } else {
                        let nid = m0.superblock.inode_count;
                        &&& crate::filesystem::novafs::create_error(m0, dir, parts[i], uid) matches Some(e)
                            ==> (r matches Err(x) && x@ == e)
                        &&& crate::filesystem::novafs::create_error(m0, dir, parts[i], uid) is None ==> if i < parts.len() - 1 {
                            r matches Err(x) && x@ == "Node is not a directory"@
                        } else {
                            r is Ok
                        }
                        &&& r is Ok ==> i == parts.len() - 1
                            && dir_lookup(v1.fs.meta.view(), dir) == Ok::<Seq<EntryView>, Seq<char>>(dir_lookup(m0, dir)->Ok_0.push((parts[i], nid)))
                            && (inode_lookup(v1.fs.meta.view(), nid) matches Ok(n) && !n.is_directory && n.owner_uid == uid
                                && n.permissions == 0o644 && n.size == 0)
                            && opened(v0, v1, (clean, Some(nid), 0usize, false, true, write_mode, MountType::NovaFS))
                        &&& r is Ok ==> (v1.fs.meta.view().inodes[nid as int] matches Some(n)
                            && crate::filesystem::novafs::is_fresh_inode(n, nid, false, uid, 100, 0o644))
                        &&& r is Ok && (inode_lookup(m0, dir) matches Ok(d) && d.direct_blocks@[0] != 0)
                            ==> crate::filesystem::novafs::disk_full(v1.fs.meta.view())
                                == crate::filesystem::novafs::disk_full(m0)
                    },
                }
            },
        }
    })
}

/// Opens `path` for reading, or for writing with `write_mode`, as user `uid`.
///
/// On NovaFS the path is followed from the root; with `create` a missing last name is created
/// as a file (mode 644, owned by `uid`) in the directory where it is missing. The inode must
/// grant the access. FAT32 and EXT2 partitions open read-only.
#[verifier::spinoff_prover]
#[verifier::rlimit(40)]
pub fn vfs_open(v: &mut Vfs, path: &str, create: bool, write_mode: bool, uid: u32) -> (r: Result<usize, String>)
    requires
        old(v).wf(),
        old(v).next_fd < usize::MAX,
    ensures
        final(v).wf(),
        open_post(*old(v), *final(v), path@, create, write_mode, uid, r),
{
    let clean = clean_path(path);
    let (mt, rel) = resolve_mount(v, &clean);
    match mt {
        MountType::FAT32 => {
            if write_mode {
                return Err(String::from_str("FAT32 partition is mounted read-only"));
            }
            let fat = crate::filesystem::fat32::Fat32Simulator::new();
            let files = fat.list_files();
            let ghost fv = crate::filesystem::fat32::file_list_view(files@);
            let mut found = rel.len() == 0;
            let mut i: usize = 0;
            while i < files.len()
                invariant
                    i <= files@.len(),
                    fv == crate::filesystem::fat32::file_list_view(files@),
                    fv == crate::filesystem::fat32::fat32_files(),
                    found == (rel@.len() == 0 || exists|k: int| 0 <= k < i && #[trigger] fv[k].0 == rel@),
                decreases files@.len() - i,
            {
                let nm = str_to_chars(files[i].0.as_str());
                if chars_eq(nm.as_slice(), rel.as_slice()) {
                    assert(fv[i as int].0 == rel@);
                    found = true;
                }
                i = i + 1;
            }
            if found {
                let fd = add_fd(v, clean, None, rel.len() == 0, false, MountType::FAT32);
                Ok(fd)
            } else {
                let mut msg: Vec<char> = Vec::new();
                push_str(&mut msg, "File not found on FAT32 partition: ");
                push_chars(&mut msg, rel.as_slice());
                Err(chars_to_string(msg.as_slice()))
            }
        },
        MountType::EXT2 => {
            if write_mode {
                return Err(String::from_str("EXT2 simulator partition is mounted read-only"));
            }
            let ext = crate::filesystem::ext2::Ext2Simulator::new();
            let inodes = ext.list_inodes();
            let ghost iv = crate::filesystem::ext2::inode_list_view(inodes@);
            let mut i: usize = 0;
            let mut hit: Option<u32> = None;
            assert(iv.subrange(0, iv.len() as int) =~= iv);
            while i < inodes.len()
                invariant
                    i <= inodes@.len(),
                    iv == crate::filesystem::ext2::inode_list_view(inodes@),
                    iv.len() == inodes@.len(),
                    hit is None ==> ext2_find(iv, rel@) == ext2_find(iv.subrange(i as int, iv.len() as int), rel@),
                    hit matches Some(id) ==> ext2_find(iv, rel@) == Some(id),
                decreases inodes@.len() - i,
            {
                let ghost rest = iv.subrange(i as int, iv.len() as int);
                assert(rest.drop_first() =~= iv.subrange(i + 1, iv.len() as int));
                let nm = str_to_chars(inodes[i].1.as_str());
                if hit.is_none() && (chars_eq(nm.as_slice(), rel.as_slice()) || rel.len() == 0) {
                    hit = Some(inodes[i].0);
                }
                i = i + 1;
            }
            assert(iv.subrange(i as int, iv.len() as int) =~= Seq::<(u32, Seq<char>, u16)>::empty());
            match hit {
                Some(id) => {
                    let fd = add_fd(v, clean, Some(id), rel.len() == 0, false, MountType::EXT2);
                    Ok(fd)
                },
                None => {
                    let mut msg: Vec<char> = Vec::new();
                    push_str(&mut msg, "File not found on EXT2 partition: ");
                    push_chars(&mut msg, rel.as_slice());
                    Err(chars_to_string(msg.as_slice()))
                },
            }
        },
        MountType::NovaFS => {
            let parts = split_pieces(rel.as_slice(), '/');
            let ghost pv = pieces_view(parts@);
            let mut cur: u32 = 0;
            match walk_exec(&v.fs.meta, &parts) {
                WalkOutcome::Failed(e) => {
                    return Err(e);
                },
                WalkOutcome::Found(id) => {
                    cur = id;
                },
                WalkOutcome::Missing(i, dir) => {
                    let last_idx = parts.len() - 1;
                    assert(pv.last() == parts@[last_idx as int]@);
                    assert(pv[i as int] == parts@[i as int]@);
                    if !create || !chars_eq(parts[i].as_slice(), parts[last_idx].as_slice()) {
                        let mut msg: Vec<char> = Vec::new();
                        push_str(&mut msg, "VFS path not found: ");
                        push_chars(&mut msg, clean.as_slice());
                        return Err(chars_to_string(msg.as_slice()));
                    }
                    let name = chars_to_string(parts[i].as_slice());
                    let ghost m0 = v.fs.meta.view();
                    proof {
                        lemma_walk_missing(m0, 0, pv, 0, i as int, dir);
                    }
                    let nid = match allocate_inode(&mut v.fs.meta, false, uid, 100, 0o644) {
                        Ok(id) => id,
                        Err(e) => { return Err(e); },
                    };
                    let ghost m1 = v.fs.meta.view();
                    proof {
                        let d = inode_lookup(m0, dir)->Ok_0;
                        let n = m1.inodes[nid as int]->Some_0;
                        if dir == nid {
                            assert(inode_lookup(m1, dir) matches Ok(x) && !x.is_directory);
                        } else {
                            assert(inode_lookup(m1, dir) == inode_lookup(m0, dir));
                            assert(listing(m1, d, dir) == listing(m0, d, dir));
                            crate::filesystem::novafs::lemma_fresh_inode_uses_no_block(m0, n);
                            assert(crate::filesystem::novafs::entry_add_error(m1, dir, pv[i as int], nid)
                                == crate::filesystem::novafs::entry_add_error(m0, dir, pv[i as int], nid));
                        }
                    }
                    match add_dir_entry(&mut v.fs.meta, dir, name.as_str(), nid) {
                        Ok(()) => {},
                        Err(e) => { return Err(e); },
                    }
                    proof {
                        let d = inode_lookup(m0, dir)->Ok_0;
                        assert(inode_lookup(m1, dir) == inode_lookup(m0, dir));
                        assert(listing(m1, d, dir) == listing(m0, d, dir));
                        let mf = v.fs.meta.view();
                        assert(inode_lookup(mf, dir) matches Ok(nd) && nd.is_directory && nd.direct_blocks@[0] != 0);
                        assert(mf.inodes[nid as int] == m1.inodes[nid as int]);
                        if d.direct_blocks@[0] != 0 {
                            let n = m1.inodes[nid as int]->Some_0;
                            crate::filesystem::novafs::lemma_fresh_inode_uses_no_block(m0, n);
                            let nd = mf.inodes[dir as int]->Some_0;
                            assert(nd.direct_blocks@ =~= d.direct_blocks@);
                            crate::filesystem::novafs::lemma_same_blocks_same_use(m1, mf, dir);
                        }
                    }
                    if i + 1 < parts.len() {
                        return Err(String::from_str("Node is not a directory"));
                    }
                    cur = nid;
                },
            }
            let allowed = check_permission(&v.fs.meta, cur, uid, write_mode)?;
            if !allowed {
                return Err(String::from_str("Permission denied"));
            }
            let inode = read_inode_disk(&v.fs.meta, cur)?;
            let fd = add_fd(v, clean, Some(cur), inode.is_directory, write_mode, MountType::NovaFS);
            Ok(fd)
        },
    }
}


// ---------------------------------------------------------------- descriptors

/// The table position of descriptor `fd`, if it is open.
pub open spec fn fd_slot(files: Seq<(usize, FdView)>, fd: usize) -> Option<int> {
    if exists|i: int| 0 <= i < files.len() && files[i].0 == fd {
        Some(choose|i: int| 0 <= i < files.len() && files[i].0 == fd)
    } else {
        None
    }
}

/// The table position of descriptor `fd`.
fn find_fd(v: &Vfs, fd: usize) -> (r: Option<usize>)
    requires
        v.wf(),
    ensures
        match r {
            Some(i) => fd_slot(v.files(), fd) == Some(i as int) && i < v.fds@.len() && v.fds@[i as int].0 == fd,
            None => fd_slot(v.files(), fd) is None,
        },
{
    let ghost fv = v.files();
    let mut i: usize = 0;
    while i < v.fds.len()
        invariant
            v.wf(),
            fv == v.files(),
            i <= v.fds@.len(),
            forall|k: int| 0 <= k < i ==> v.fds@[k].0 != fd,
        decreases v.fds@.len() - i,
    {
        if v.fds[i].0 == fd {
            proof {
                assert(fv[i as int].0 == fd);
                let c = choose|c: int| 0 <= c < fv.len() && fv[c].0 == fd;
                if c != i as int {
                    if c < i as int { assert(v.fds@[c].0 == fv[c].0); }
                    else { assert(v.fds@[i as int].0 < v.fds@[c].0); }
                }
            }
            return Some(i);
        }
        i = i + 1;
    }
    proof {
        assert forall|k: int| 0 <= k < fv.len() implies fv[k].0 != fd by {
            assert(fv[k].0 == v.fds@[k].0);
        }
    }
    None
}

/// The path of the file descriptor `fd` names, when it is open and names a file by inode
/// (the console streams name none).
pub open spec fn write_target(v: Vfs, fd: usize) -> Option<Seq<char>> {
    match fd_slot(v.files(), fd) {
        Some(i) => if v.files()[i].1.1 is Some { Some(v.files()[i].1.0) } else { None },
        None => None,
    }
}

/// The path of the file descriptor `fd` names, when it is open and names a file by inode.
pub fn descriptor_file_path(v: &Vfs, fd: usize) -> (r: Option<String>)
    requires
        v.wf(),
    ensures
        match write_target(*v, fd) {
            Some(p) => r matches Some(s) && s@ == p,
            None => r is None,
        },
{
    match find_fd(v, fd) {
        None => None,
        Some(i) => {
            assert(v.files()[i as int].1 == fd_view(v.fds@[i as int].1));
            if v.fds[i].1.inode_id.is_some() {
                Some(v.fds[i].1.path.clone())
            } else {
                None
            }
        },
    }
}

/// `f` with its offset moved to `off`.
pub open spec fn with_offset(f: FdView, off: usize) -> FdView {
    (f.0, f.1, off, f.3, f.4, f.5, f.6)
}

/// Moves the offset of the descriptor at table position `i`.
fn set_offset(v: &mut Vfs, i: usize, off: usize)
    requires
        old(v).wf(),
        i < old(v).fds@.len(),
    ensures
        final(v).wf(),
        final(v).files() == old(v).files().update(i as int, (old(v).files()[i as int].0, with_offset(old(v).files()[i as int].1, off))),
        final(v).fs == old(v).fs,
        final(v).mounts == old(v).mounts,
        final(v).next_fd == old(v).next_fd,
{
    let ghost f0 = v.fds@;
    let (fd, mut d) = v.fds.remove(i);
    d.offset = off;
    v.fds.insert(i, (fd, d));
    proof {
        let f1 = v.fds@;
        assert(f1 =~= f0.update(i as int, f1[i as int]));
        assert(v.files() =~= fds_view(f0).update(i as int, (fds_view(f0)[i as int].0, with_offset(fds_view(f0)[i as int].1, off))));
        assert forall|a: int, b: int| 0 <= a < b < f1.len() implies f1[a].0 < f1[b].0 by {
            assert(f1[a].0 == f0[a].0);
            assert(f1[b].0 == f0[b].0);
        }
        assert forall|a: int| 0 <= a < f1.len() implies (#[trigger] f1[a]).0 < v.next_fd by {
            assert(f1[a].0 == f0[a].0);
        }
    }
}

/// `s` without any number of leading copies of `p`.
pub open spec fn strip_prefix_repeat(s: Seq<char>, p: Seq<char>) -> Seq<char>
    decreases s.len(),
{
    if p.len() > 0 && is_prefix(p, s) { strip_prefix_repeat(s.subrange(p.len() as int, s.len() as int), p) } else { s }
}

/// `s` without any number of leading copies of `p`.
fn strip_prefix_repeat_exec(s: &Vec<char>, p: &Vec<char>) -> (r: Vec<char>)
    ensures
        r@ == strip_prefix_repeat(s@, p@),
{
    let mut cur: Vec<char> = Vec::new();
    push_chars(&mut cur, s.as_slice());
    if p.len() == 0 {
        return cur;
    }
    while starts_with(cur.as_slice(), p.as_slice())
        invariant
            p@.len() > 0,
            strip_prefix_repeat(s@, p@) == strip_prefix_repeat(cur@, p@),
        decreases cur@.len(),
    {
        let rest = strip_leading_from_index(&cur, p.len());
        cur = rest;
    }
    cur
}

/// `s` from index `start` on.
fn strip_leading_from_index(s: &Vec<char>, start: usize) -> (r: Vec<char>)
    requires
        start <= s@.len(),
    ensures
        r@ == s@.subrange(start as int, s@.len() as int),
{
    let mut r: Vec<char> = Vec::new();
    let mut j: usize = start;
    while j < s.len()
        invariant
            start <= j <= s@.len(),
            r@ == s@.subrange(start as int, j as int),
        decreases s@.len() - j,
    {
        r.push(s[j]);
        j = j + 1;
    }
    r
}

/// The file of the FAT32 partition a descriptor path names.
pub open spec fn fat32_rel(path: Seq<char>) -> Seq<char> {
    strip_leading(strip_prefix_repeat(path, "/mnt/fat32"@), '/')
}

/// What reading `bytes` from `offset` into a buffer gives: how many bytes, and the buffer.
pub open spec fn copy_effect(bytes: Seq<u8>, offset: usize, b0: Seq<u8>, b1: Seq<u8>, n: usize) -> bool {
    if offset >= bytes.len() {
        n == 0 && b1 == b0
    } else {
        &&& n == if b0.len() < bytes.len() - offset { b0.len() as int } else { bytes.len() - offset }
        &&& b1.len() == b0.len()
        &&& forall|i: int| 0 <= i < n ==> #[trigger] b1[i] == bytes[offset + i]
        &&& forall|i: int| n <= i < b0.len() ==> #[trigger] b1[i] == b0[i]
    }
}

/// Copies `bytes` from `offset` into the front of `buf`.
fn copy_out(bytes: &[u8], offset: usize, buf: &mut Vec<u8>) -> (n: usize)
    ensures
        copy_effect(bytes@, offset, old(buf)@, final(buf)@, n),
        offset + n <= usize::MAX,
{
    if offset >= bytes.len() {
        return 0;
    }
    let avail = bytes.len() - offset;
    let size = if buf.len() < avail { buf.len() } else { avail };
    let ghost b0 = buf@;
    let mut i: usize = 0;
    while i < size
        invariant
            i <= size,
            size <= buf@.len(),
            offset + size <= bytes.len(),
            buf@.len() == b0.len(),
            forall|k: int| 0 <= k < i ==> #[trigger] buf@[k] == bytes@[offset + k],
            forall|k: int| i <= k < b0.len() ==> #[trigger] buf@[k] == b0[k],
        decreases size - i,
    {
        buf.set(i, bytes[offset + i]);
        i = i + 1;
    }
    size
}

/// Reading the standard input now would store a byte: a character or Enter is the next key.
pub open spec fn stdin_would_store(dev: Devices) -> bool {
    let q = dev.input.keyboard.view();
    q.len() > 0 && (q[0].code is Char || q[0].code is Enter)
}

/// The descriptor reads the keyboard.
pub open spec fn is_stdin(f: FdView) -> bool {
    f.6 == MountType::NovaFS && f.1 is None && f.0 == "/dev/stdin"@
}

/// In a consistent table, a descriptor number names exactly its own row.
pub proof fn lemma_fd_slot_at(v: Vfs, i: int)
    requires
        v.wf(),
        0 <= i < v.files().len(),
    ensures
        fd_slot(v.files(), v.files()[i].0) == Some(i),
{
    let files = v.files();
    let fd = files[i].0;
    assert(files[i].0 == v.fds@[i].0);
    assert(exists|k: int| 0 <= k < files.len() && files[k].0 == fd);
    let c = choose|k: int| 0 <= k < files.len() && files[k].0 == fd;
    assert(files[c].0 == v.fds@[c].0);
    if c < i {
        assert(v.fds@[c].0 < v.fds@[i].0);
    } else if c > i {
        assert(v.fds@[i].0 < v.fds@[c].0);
    }
}

/// A read of `n` bytes from a descriptor other than the standard input leaves its offset
/// without overflow.
pub open spec fn read_offset_fits(v0: Vfs, fd: usize, r: Result<usize, String>) -> bool {
    match (r, fd_slot(v0.files(), fd)) {
        (Ok(n), Some(i)) => !is_stdin(v0.files()[i].1) ==> v0.files()[i].1.2 + n <= usize::MAX,
        _ => true,
    }
}

/// What reading descriptor `fd` does, by the kind of file it names (`v0`, `dev0` and `b0`
/// before, `v1`, `dev1` and `b1` after, `r` the result).
pub open spec fn read_post(v0: Vfs, v1: Vfs, dev0: Devices, dev1: Devices, fd: usize, b0: Seq<u8>, b1: Seq<u8>,
    r: Result<usize, String>) -> bool
{
    match fd_slot(v0.files(), fd) {
        None => (r matches Err(e) && e@ == "Invalid file descriptor"@) && dev1.input == dev0.input,
        Some(i) => {
            let f = v0.files()[i].1;
            let advanced = v1.files() == v0.files().update(i, (fd, with_offset(f, (f.2 + r->Ok_0) as usize)));
            if !f.4 {
                (r matches Err(e) && e@ == "File descriptor not readable"@) && dev1.input == dev0.input
            } else {
                match f.6 {
                    MountType::NovaFS => match f.1 {
                        Some(id) => dev1.input == dev0.input
                            && file_read_effect(v0.fs.meta.view(), dev0.disk.view(), id, f.2, b0, b1, r)
                            && (r is Ok ==> advanced),
                        None => if f.0 == "/dev/stdin"@ {
                            let q = dev0.input.keyboard.view();
                            &&& v1.files() == v0.files()
                            &&& q.len() == 0 ==> r == Ok::<usize, String>(0) && b1 == b0
                                && dev1.input.keyboard.view() == q
                            &&& q.len() > 0 ==> dev1.input.keyboard.view() == q.drop_first() && match q[0].code {
                                KeyCode::Char(c) => if b0.len() > 0 {
                                    r == Ok::<usize, String>(1) && b1 == b0.update(0, c as u8)
                                } else {
                                    r == Ok::<usize, String>(0) && b1 == b0
                                },
                                KeyCode::Enter => if b0.len() > 0 {
                                    r == Ok::<usize, String>(1) && b1 == b0.update(0, 10u8)
                                } else {
                                    r == Ok::<usize, String>(0) && b1 == b0
                                },
                                _ => r == Ok::<usize, String>(0) && b1 == b0,
                            }
                        } else {
                            (r matches Err(e) && e@ == "Invalid inode read"@) && dev1.input == dev0.input
                        },
                    },
                    MountType::FAT32 => dev1.input == dev0.input && match crate::filesystem::fat32::fat32_contents(fat32_rel(f.0)) {
                        None => r matches Err(e) && e@ == "File not found on FAT32 partition"@,
                        Some(c) => r matches Ok(n) && copy_effect(vstd::utf8::encode_utf8(c), f.2, b0, b1, n) && advanced,
                    },
                    MountType::EXT2 => dev1.input == dev0.input && match f.1 {
                        None => r matches Err(e) && e@ == "No inode for EXT2 VFS descriptor"@,
                        Some(id) => match crate::filesystem::ext2::ext2_contents(id) {
                            None => r matches Err(e) && e@ == "Invalid inode or inode is a directory"@,
                            Some(c) => r matches Ok(n) && copy_effect(vstd::utf8::encode_utf8(c), f.2, b0, b1, n) && advanced,
                        },
                    },
                }
            }
        },
    }
}

/// How many bytes of a file with blocks `bl` and size `size` can be read from offset `o` on:
/// up to the end of the file or the first byte whose block is not allocated.
pub open spec fn run_len(bl: Seq<u32>, size: int, o: int) -> nat
    decreases size - o,
{
    if o < 0 || o >= size || bl[o / 512] == 0 { 0 } else { 1 + run_len(bl, size, o + 1) }
}

/// `b` from index `o` on.
pub open spec fn tail(b: Seq<u8>, o: int) -> Seq<u8> {
    if o >= b.len() { Seq::empty() } else { b.subrange(o, b.len() as int) }
}

/// The bytes successive reads of an open file yield from its offset on, or the error the
/// first read reports.
pub open spec fn fd_stream(m: MetaView, d: Seq<u8>, f: FdView) -> Result<Seq<u8>, Seq<char>> {
    if !f.4 {
        Err("File descriptor not readable"@)
    } else {
        match f.6 {
            MountType::NovaFS => match f.1 {
                Some(id) => match inode_lookup(m, id) {
                    Err(e) => Err(e),
                    Ok(n) => if n.is_directory {
                        Err("Cannot read data from a directory"@)
                    } else {
                        Ok(Seq::new(run_len(n.direct_blocks@, n.size as int, f.2 as int),
                            |k: int| d[crate::filesystem::novafs::byte_pos(n.direct_blocks@, f.2 + k)]))
                    },
                },
                None => Err("Invalid inode read"@),
            },
            MountType::FAT32 => match crate::filesystem::fat32::fat32_contents(fat32_rel(f.0)) {
                None => Err("File not found on FAT32 partition"@),
                Some(c) => Ok(tail(vstd::utf8::encode_utf8(c), f.2 as int)),
            },
            MountType::EXT2 => match f.1 {
                None => Err("No inode for EXT2 VFS descriptor"@),
                Some(id) => match crate::filesystem::ext2::ext2_contents(id) {
                    None => Err("Invalid inode or inode is a directory"@),
                    Some(c) => Ok(tail(vstd::utf8::encode_utf8(c), f.2 as int)),
                },
            },
        }
    }
}

/// A readable run of `k` bytes that stops at the end of the file or at an unallocated block
/// is the whole run.
proof fn lemma_run_len(bl: Seq<u32>, size: int, o: int, k: int)
    requires
        0 <= o,
        0 <= k,
        o + k <= size,
        forall|p: int| o <= p < o + k ==> #[trigger] bl[p / 512] != 0,
        o + k == size || bl[(o + k) / 512] == 0,
    ensures
        run_len(bl, size, o) == k,
    decreases k,
{
    if k > 0 {
        assert(bl[o / 512] != 0);
        lemma_run_len(bl, size, o + 1, k - 1);
    }
}

/// One read of at least `MAX_FILE_BYTES` bytes from a descriptor that is not the keyboard
/// follows its stream: an error is the stream's error; otherwise the next bytes of the stream
/// (as many as fit) land at the front of the buffer, and the stream goes on after them.
pub proof fn lemma_read_follows_stream(v0: Vfs, v1: Vfs, dev0: Devices, dev1: Devices, fd: usize, i: int,
    b0: Seq<u8>, b1: Seq<u8>, r: Result<usize, String>)
    requires
        v0.wf(),
        0 <= i < v0.files().len(),
        v0.files()[i].0 == fd,
        fd_slot(v0.files(), fd) == Some(i),
        !is_stdin(v0.files()[i].1),
        b0.len() >= crate::filesystem::novafs::MAX_FILE_BYTES,
        v1.fs == v0.fs,
        read_post(v0, v1, dev0, dev1, fd, b0, b1, r),
        read_offset_fits(v0, fd, r),
        r is Err ==> v1.files() == v0.files(),
    ensures
        match fd_stream(v0.fs.meta.view(), dev0.disk.view(), v0.files()[i].1) {
            Err(e) => r matches Err(x) && x@ == e,
            Ok(b) => r matches Ok(n) && n == (if b.len() < b0.len() { b.len() } else { b0.len() })
                && b1.subrange(0, n as int) == b.subrange(0, n as int)
                && v1.files() == v0.files().update(i, (fd, with_offset(v0.files()[i].1, (v0.files()[i].1.2 + n) as usize)))
                && fd_stream(v0.fs.meta.view(), dev0.disk.view(), v1.files()[i].1) == Ok::<Seq<u8>, Seq<char>>(b.subrange(n as int, b.len() as int)),
        },
{
    let f = v0.files()[i].1;
    let m = v0.fs.meta.view();
    let d = dev0.disk.view();
    if f.4 {
        match f.6 {
            MountType::NovaFS => {
                if let Some(id) = f.1 {
                    if let Ok(n) = inode_lookup(m, id) {
                        if !n.is_directory {
                            let bl = n.direct_blocks@;
                            let size = n.size as int;
                            let o = f.2 as int;
                            assert(v0.fs.meta.inodes@[id as int] == Some(n));
                            assert(crate::filesystem::novafs::inode_ok(n));
                            if o >= size {
                                assert(run_len(bl, size, o) == 0);
                            } else {
                                let k = r->Ok_0 as int;
                                lemma_run_len(bl, size, o, k);
                                lemma_run_len(bl, size, o + k, 0);
                            }
                            let b = Seq::new(run_len(bl, size, o), |k: int| d[crate::filesystem::novafs::byte_pos(bl, f.2 + k)]);
                            let nn = r->Ok_0;
                            let f2 = with_offset(f, (f.2 + nn) as usize);
                            assert(v1.files()[i].1 == f2);
                            assert(b1.subrange(0, nn as int) =~= b.subrange(0, nn as int));
                            assert(Seq::new(run_len(bl, size, f2.2 as int), |k: int| d[crate::filesystem::novafs::byte_pos(bl, f2.2 + k)])
                                =~= b.subrange(nn as int, b.len() as int));
                        }
                    }
                }
            },
            MountType::FAT32 => {
                if let Some(c) = crate::filesystem::fat32::fat32_contents(fat32_rel(f.0)) {
                    let bytes = vstd::utf8::encode_utf8(c);
                    let nn = r->Ok_0;
                    let b = tail(bytes, f.2 as int);
                    assert(v1.files()[i].1 == with_offset(f, (f.2 + nn) as usize));
                    assert(b1.subrange(0, nn as int) =~= b.subrange(0, nn as int));
                    assert(tail(bytes, f.2 + nn) =~= b.subrange(nn as int, b.len() as int));
                }
            },
            MountType::EXT2 => {
                if let Some(id) = f.1 {
                    if let Some(c) = crate::filesystem::ext2::ext2_contents(id) {
                        let bytes = vstd::utf8::encode_utf8(c);
                        let nn = r->Ok_0;
                        let b = tail(bytes, f.2 as int);
                        assert(v1.files()[i].1 == with_offset(f, (f.2 + nn) as usize));
                        assert(b1.subrange(0, nn as int) =~= b.subrange(0, nn as int));
                        assert(tail(bytes, f.2 + nn) =~= b.subrange(nn as int, b.len() as int));
                    }
                }
            },
        }
    }
}

/// Reads from descriptor `fd` into the front of `buf`, advancing the descriptor's offset by
/// what was read. NovaFS files read from their inode; the standard input takes one key
/// (a character or Enter gives one byte, or none into an empty buffer); FAT32 and EXT2 files read their fixed contents.
pub fn vfs_read(v: &mut Vfs, dev: &mut Devices, fd: usize, buf: &mut Vec<u8>) -> (r: Result<usize, String>)
    requires
        old(v).wf(),
        old(dev).wf(),
    ensures
        final(v).wf(),
        final(dev).wf(),
        final(v).fs == old(v).fs,
        final(v).mounts == old(v).mounts,
        final(v).next_fd == old(v).next_fd,
        final(dev).disk == old(dev).disk,
        final(dev).vga == old(dev).vga,
        final(dev).network == old(dev).network,
        r is Err ==> final(v).files() == old(v).files() && final(buf)@ == old(buf)@,
        read_offset_fits(*old(v), fd, r),
        read_post(*old(v), *final(v), *old(dev), *final(dev), fd, old(buf)@, final(buf)@, r),

{
    let i = match find_fd(v, fd) {
        None => { return Err(String::from_str("Invalid file descriptor")); },
        Some(i) => i,
    };
    let ghost f = v.files()[i as int].1;
    assert(f == fd_view(v.fds@[i as int].1));
    if !v.fds[i].1.readable {
        return Err(String::from_str("File descriptor not readable"));
    }
    let offset = v.fds[i].1.offset;
    match v.fds[i].1.mount_type {
        MountType::NovaFS => {
            match v.fds[i].1.inode_id {
                Some(id) => {
                    let n = read_file_data(&v.fs.meta, &dev.disk, id, offset, buf)?;
                    set_offset(v, i, offset + n);
                    Ok(n)
                },
                None => {
                    if str_eq(v.fds[i].1.path.as_str(), "/dev/stdin") {
                        match read_key_event(&mut dev.input) {
                            Some(event) => {
                                match event.code {
                                    KeyCode::Char(c) => {
                                        if buf.len() == 0 {
                                            Ok(0)
                                        } else {
                                            buf.set(0, c as u8);
                                            Ok(1)
                                        }
                                    },
                                    KeyCode::Enter => {
                                        if buf.len() == 0 {
                                            Ok(0)
                                        } else {
                                            buf.set(0, 10u8);
                                            Ok(1)
                                        }
                                    },
                                    _ => Ok(0),
                                }
                            },
                            None => Ok(0),
                        }
                    } else {
                        Err(String::from_str("Invalid inode read"))
                    }
                },
            }
        },
        MountType::FAT32 => {
            let path = str_to_chars(v.fds[i].1.path.as_str());
            let prefix = str_to_chars("/mnt/fat32");
            let stripped = strip_prefix_repeat_exec(&path, &prefix);
            let rel = strip_leading_from(stripped.as_slice(), 0, '/');
            assert(stripped@.subrange(0, stripped@.len() as int) =~= stripped@);
            let rel_s = chars_to_string(rel.as_slice());
            let fat = crate::filesystem::fat32::Fat32Simulator::new();
            let content = fat.read_file(rel_s.as_str())?;
            let bytes = content.as_str().as_bytes();
            let n = copy_out(bytes, offset, buf);
            set_offset(v, i, offset + n);
            Ok(n)
        },
        MountType::EXT2 => {
            match v.fds[i].1.inode_id {
                Some(id) => {
                    let ext = crate::filesystem::ext2::Ext2Simulator::new();
                    let content = ext.read_file_by_inode(id)?;
                    let bytes = content.as_str().as_bytes();
                    let n = copy_out(bytes, offset, buf);
                    set_offset(v, i, offset + n);
                    Ok(n)
                },
                None => Err(String::from_str("No inode for EXT2 VFS descriptor")),
            }
        },
    }
}


/// The console after printing `text` (no console, nothing printed).
pub open spec fn printed(c0: Option<crate::drivers::vga::VgaWriter>, c1: Option<crate::drivers::vga::VgaWriter>, text: Seq<u8>) -> bool {
    match c0 {
        None => c1 is None,
        Some(w0) => c1 matches Some(w1) && w1.color_code == w0.color_code
            && w1.screen() == crate::drivers::vga::write_bytes_spec(w0.screen(), w0.color_code.0, text),
    }
}

/// The result without its value.
pub open spec fn unit_of(r: Result<usize, String>) -> Result<(), String> {
    match r {
        Ok(_) => Ok(()),
        Err(e) => Err(e),
    }
}

/// What writing `buf` to descriptor `fd` as user `uid` does, by the kind of file it names
/// (`v0` and `dev0` before, `v1` and `dev1` after, `r` the result).
pub open spec fn write_post(v0: Vfs, v1: Vfs, dev0: Devices, dev1: Devices, fd: usize, buf: Seq<u8>, uid: u32,
    r: Result<usize, String>) -> bool
{
    match fd_slot(v0.files(), fd) {
        None => (r matches Err(e) && e@ == "Invalid file descriptor"@) && v1.fs == v0.fs
            && dev1 == dev0,
        Some(i) => {
            let f = v0.files()[i].1;
            if !f.5 {
                (r matches Err(e) && e@ == "File descriptor not writable"@) && v1.fs == v0.fs && dev1 == dev0
            } else {
                match f.6 {
                    MountType::NovaFS => match f.1 {
                        Some(id) => dev1.vga == dev0.vga
                            && file_write_effect(v0.fs, dev0.disk.view(), v1.fs, dev1.disk.view(), id, f.2, buf, uid, unit_of(r))
                            && (r is Ok ==> v1.files() == v0.files().update(i, (fd, with_offset(f, (f.2 + buf.len()) as usize)))),
                        None => v1.fs == v0.fs && dev1.disk == dev0.disk && if f.0 == "/dev/stdout"@ || f.0 == "/dev/stderr"@ {
                            if vstd::utf8::valid_utf8(buf) {
                                r is Ok && v1.files() == v0.files() && printed(dev0.vga, dev1.vga, vstd::utf8::encode_utf8(vstd::utf8::decode_utf8(buf)))
                            } else {
                                (r matches Err(e) && e@ == "Invalid UTF8 output string"@) && dev1.vga == dev0.vga
                            }
                        } else {
                            (r matches Err(e) && e@ == "Invalid inode write"@) && dev1.vga == dev0.vga
                        },
                    },
                    _ => (r matches Err(e) && e@ == "Cannot write: external filesystem mounted read-only"@)
                        && v1.fs == v0.fs && dev1 == dev0,
                }
            }
        },
    }
}

/// Writes `buf` to descriptor `fd` as user `uid`, advancing the offset on success. NovaFS files
/// are written through their inode; standard output and error print valid UTF-8 on the
/// console; FAT32 and EXT2 files are read-only.
pub fn vfs_write(v: &mut Vfs, dev: &mut Devices, fd: usize, buf: &[u8], uid: u32) -> (r: Result<usize, String>)
    requires
        old(v).wf(),
        old(dev).wf(),
    ensures
        final(v).wf(),
        final(dev).wf(),
        final(v).mounts == old(v).mounts,
        final(v).next_fd == old(v).next_fd,
        final(dev).input == old(dev).input,
        r is Err ==> final(v).files() == old(v).files(),
        r matches Ok(n) ==> n == buf@.len(),
        write_post(*old(v), *final(v), *old(dev), *final(dev), fd, buf@, uid, r),
{
    let i = match find_fd(v, fd) {
        None => { return Err(String::from_str("Invalid file descriptor")); },
        Some(i) => i,
    };
    let ghost f = v.files()[i as int].1;
    assert(f == fd_view(v.fds@[i as int].1));
    if !v.fds[i].1.writable {
        return Err(String::from_str("File descriptor not writable"));
    }
    let offset = v.fds[i].1.offset;
    match v.fds[i].1.mount_type {
        MountType::NovaFS => {
            match v.fds[i].1.inode_id {
                Some(id) => {
                    match write_file_data(&mut v.fs, &mut dev.disk, id, offset, buf, uid) {
                        Ok(()) => {},
                        Err(e) => { return Err(e); },
                    }
                    proof {
                        assert(offset + buf@.len() <= MAX_FILE_BYTES) by (nonlinear_arith)
                            requires (offset + buf@.len() + 511) / 512 <= 6;
                    }
                    set_offset(v, i, offset + buf.len());
                    Ok(buf.len())
                },
                None => {
                    let p = v.fds[i].1.path.as_str();
                    if str_eq(p, "/dev/stdout") || str_eq(p, "/dev/stderr") {
                        match crate::text::utf8_text(buf) {
                            Some(text) => {
                                match &mut dev.vga {
                                    Some(w) => { w.write_string(text); },
                                    None => {},
                                }
                                Ok(buf.len())
                            },
                            None => Err(String::from_str("Invalid UTF8 output string")),
                        }
                    } else {
                        Err(String::from_str("Invalid inode write"))
                    }
                },
            }
        },
        _ => Err(String::from_str("Cannot write: external filesystem mounted read-only")),
    }
}

/// Closes descriptor `fd`.
pub fn vfs_close(v: &mut Vfs, fd: usize) -> (r: Result<(), String>)
    requires
        old(v).wf(),
    ensures
        final(v).wf(),
        final(v).fs == old(v).fs,
        final(v).mounts == old(v).mounts,
        final(v).next_fd == old(v).next_fd,
        match fd_slot(old(v).files(), fd) {
            None => (r matches Err(e) && e@ == "File descriptor not found"@) && final(v).files() == old(v).files(),
            Some(i) => r is Ok && final(v).files() == old(v).files().remove(i),
        },
{
    match find_fd(v, fd) {
        None => Err(String::from_str("File descriptor not found")),
        Some(i) => {
            let ghost f0 = v.fds@;
            v.fds.remove(i);
            proof {
                let f1 = v.fds@;
                assert(v.files() =~= fds_view(f0).remove(i as int));
                assert forall|a: int, b: int| 0 <= a < b < f1.len() implies f1[a].0 < f1[b].0 by {
                    if a < i { assert(f1[a] == f0[a]); } else { assert(f1[a] == f0[a + 1]); }
                    if b < i { assert(f1[b] == f0[b]); } else { assert(f1[b] == f0[b + 1]); }
                }
                assert forall|a: int| 0 <= a < f1.len() implies (#[trigger] f1[a]).0 < v.next_fd by {
                    if a < i { assert(f1[a] == f0[a]); } else { assert(f1[a] == f0[a + 1]); }
                }
            }
            Ok(())
        },
    }
}


// ---------------------------------------------------------------- directories

/// The `dir_lookup` of a slot other than `id` is unaffected by rewriting slot `id`, its listing
/// and the superblock counters.
proof fn lemma_dir_lookup_other(m: MetaView, m2: MetaView, id: u32, other: u32)
    requires
        other != id,
        other < INODE_SLOTS,
        m2.inodes.len() == m.inodes.len(),
        m2.dirs.len() == m.dirs.len(),
        m.inodes.len() == INODE_SLOTS,
        m.dirs.len() == INODE_SLOTS,
        forall|k: int| 0 <= k < INODE_SLOTS && k != id ==> m2.inodes[k] == m.inodes[k] && m2.dirs[k] == m.dirs[k],
    ensures
        dir_lookup(m2, other) == dir_lookup(m, other),
{
    assert(m2.inodes[other as int] == m.inodes[other as int]);
    assert(m2.dirs[other as int] == m.dirs[other as int]);
}

/// What `mkdir` of `path` gives where the outcome does not depend on allocation: success
/// for an existing path, or the error; `None` when the directory is to be created.
pub open spec fn mkdir_known(v: Vfs, path: Seq<char>) -> Option<Result<(), Seq<char>>> {
    let clean = vfs_clean(path);
    let parts = split_nonempty(clean, '/');
    if is_prefix("/mnt"@, clean) {
        Some(Err("Cannot create directory inside mounted partitions"@))
    } else {
        match walk(v.fs.meta.view(), 0, parts, 0) {
            Walk::Found(_) => Some(Ok(())),
            Walk::Failed(e) => Some(Err(e)),
            Walk::Missing(i, _) => if i < parts.len() - 1 {
                Some(Err("Parent directory not found for: "@ + parts[i]))
            } else {
                None
            },
        }
    }
}

/// A `mkdir` returned as `r` is the one described by `expected`, where that is known.
pub open spec fn mkdir_matches(r: Result<(), String>, expected: Option<Result<(), Seq<char>>>) -> bool {
    match expected {
        Some(Ok(())) => r is Ok,
        Some(Err(e)) => r matches Err(x) && x@ == e,
        None => true,
    }
}

/// What `mkdir` of `path` (mode `permissions`, owner `uid`) did to the metadata and returned
/// (`v0` before, `v1` after).
pub open spec fn mkdir_post(v0: Vfs, v1: Vfs, path: Seq<char>, permissions: u16, uid: u32, r: Result<(), String>) -> bool
{
    let clean = vfs_clean(path);
    let parts = split_nonempty(clean, '/');
    let m0 = v0.fs.meta.view();
    if is_prefix("/mnt"@, clean) {
        (r matches Err(e) && e@ == "Cannot create directory inside mounted partitions"@) && v1.fs.meta.view() == m0
    } else {
        match walk(m0, 0, parts, 0) {
            Walk::Found(_) => r is Ok && v1.fs.meta.view() == m0,
            Walk::Failed(e) => (r matches Err(x) && x@ == e) && v1.fs.meta.view() == m0,
            Walk::Missing(i, dir) => if i < parts.len() - 1 {
                (r matches Err(x) && x@ == "Parent directory not found for: "@ + parts[i]) && v1.fs.meta.view() == m0
            } else {
                let nid = m0.superblock.inode_count;
                let mf = v1.fs.meta.view();
                r is Ok && dir != nid ==> dir_lookup(mf, dir) == Ok::<Seq<EntryView>, Seq<char>>(dir_lookup(m0, dir)->Ok_0.push((parts[i], nid)))
                    && dir_lookup(mf, nid) == Ok::<Seq<EntryView>, Seq<char>>(seq![("."@, nid), (".."@, dir)])
                    && (inode_lookup(mf, nid) matches Ok(n) && n.is_directory && n.owner_uid == uid && n.permissions == permissions)
            },
        }
    }
}

/// Creates directory `path` (mode `permissions`, owned by `uid`) with its `.` and `..`
/// entries. Existing paths are left as they are; every directory above the last name must
/// exist; mounted partitions refuse.
#[verifier::spinoff_prover]
#[verifier::rlimit(40)]
pub fn vfs_mkdir(v: &mut Vfs, path: &str, permissions: u16, uid: u32) -> (r: Result<(), String>)
    requires
        old(v).wf(),
    ensures
        final(v).wf(),
        mkdir_matches(r, mkdir_known(*old(v), path@)),
        final(v).files() == old(v).files(),
        final(v).next_fd == old(v).next_fd,
        final(v).mounts == old(v).mounts,
        final(v).fs.quotas@ == old(v).fs.quotas@,
        final(v).fs.usages@ == old(v).fs.usages@,
        final(v).fs.snapshots@ == old(v).fs.snapshots@,
        mkdir_post(*old(v), *final(v), path@, permissions, uid, r),
{
    let clean = clean_path(path);
    let mnt = str_to_chars("/mnt");
    if starts_with(clean.as_slice(), mnt.as_slice()) {
        return Err(String::from_str("Cannot create directory inside mounted partitions"));
    }
    let parts = split_pieces(clean.as_slice(), '/');
    let ghost pv = pieces_view(parts@);
    match walk_exec(&v.fs.meta, &parts) {
        WalkOutcome::Found(_) => Ok(()),
        WalkOutcome::Failed(e) => Err(e),
        WalkOutcome::Missing(i, dir) => {
            assert(pv[i as int] == parts@[i as int]@);
            if i < parts.len() - 1 {
                let mut msg: Vec<char> = Vec::new();
                push_str(&mut msg, "Parent directory not found for: ");
                push_chars(&mut msg, parts[i].as_slice());
                return Err(chars_to_string(msg.as_slice()));
            }
            let name = chars_to_string(parts[i].as_slice());
            let ghost m0 = v.fs.meta.view();
            proof {
                lemma_walk_missing(m0, 0, pv, 0, i as int, dir);
            }
            let nid = allocate_inode(&mut v.fs.meta, true, uid, 100, permissions)?;
            let ghost m1 = v.fs.meta.view();
            add_dir_entry(&mut v.fs.meta, dir, name.as_str(), nid)?;
            let ghost m2 = v.fs.meta.view();
            proof {
              if dir != nid {
                let d = inode_lookup(m0, dir)->Ok_0;
                assert(inode_lookup(m1, dir) == inode_lookup(m0, dir));
                assert(listing(m1, d, dir) == listing(m0, d, dir));
                assert(inode_lookup(m2, dir) matches Ok(nd) && nd.is_directory && nd.direct_blocks@[0] != 0);
                assert(dir_lookup(m2, dir) == Ok::<Seq<EntryView>, Seq<char>>(dir_lookup(m0, dir)->Ok_0.push((pv[i as int], nid))));
                assert(inode_lookup(m2, nid) == inode_lookup(m1, nid));
                assert(inode_lookup(m2, nid) matches Ok(x) && x.direct_blocks@[0] == 0);
              }
            }
            add_dir_entry(&mut v.fs.meta, nid, ".", nid)?;
            let ghost m3 = v.fs.meta.view();
            proof {
              if dir != nid {
                lemma_dir_lookup_other(m2, m3, nid, dir);
                assert(inode_lookup(m3, nid) matches Ok(x) && x.direct_blocks@[0] != 0 && x.is_directory);
                assert(dir_lookup(m3, nid) == Ok::<Seq<EntryView>, Seq<char>>(seq![("."@, nid)]));
              }
            }
            add_dir_entry(&mut v.fs.meta, nid, "..", dir)?;
            proof {
              if dir != nid {
                let m4 = v.fs.meta.view();
                lemma_dir_lookup_other(m3, m4, nid, dir);
                assert(seq![("."@, nid)].push((".."@, dir)) =~= seq![("."@, nid), (".."@, dir)]);
                assert(dir_lookup(m4, nid) == Ok::<Seq<EntryView>, Seq<char>>(seq![("."@, nid), (".."@, dir)]));
              }
            }
            Ok(())
        },
    }
}

/// The `.` and `..` entries of a listing, in order.
pub open spec fn dot_entries(l: Seq<EntryView>) -> Seq<EntryView>
    decreases l.len(),
{
    if l.len() == 0 {
        Seq::empty()
    } else {
        let r = dot_entries(l.drop_last());
        if l.last().0 == "."@ || l.last().0 == ".."@ { r.push(l.last()) } else { r }
    }
}

/// Every entry kept by `dot_entries` is a `.` or `..` entry.
pub proof fn lemma_dot_entries_only_dots(l: Seq<EntryView>)
    ensures
        forall|k: int| 0 <= k < dot_entries(l).len() ==> (#[trigger] dot_entries(l)[k]).0 == "."@
            || dot_entries(l)[k].0 == ".."@,
    decreases l.len(),
{
    if l.len() > 0 {
        let r = dot_entries(l.drop_last());
        lemma_dot_entries_only_dots(l.drop_last());
        assert forall|k: int| 0 <= k < dot_entries(l).len() implies (#[trigger] dot_entries(l)[k]).0 == "."@
            || dot_entries(l)[k].0 == ".."@ by {
            if k < r.len() {
                assert(dot_entries(l)[k] == r[k]);
            }
        }
    }
}

/// The `.` and `..` entries of `v`.
fn keep_dot_entries(v: &Vec<DirectoryEntry>) -> (r: Vec<DirectoryEntry>)
    ensures
        entries_view(r@) == dot_entries(entries_view(v@)),
{
    let ghost ev = entries_view(v@);
    let mut r: Vec<DirectoryEntry> = Vec::new();
    let mut i: usize = 0;
    while i < v.len()
        invariant
            i <= v@.len(),
            ev == entries_view(v@),
            ev.len() == v@.len(),
            entries_view(r@) == dot_entries(ev.subrange(0, i as int)),
        decreases v@.len() - i,
    {
        let ghost prev = r@;
        assert(ev.subrange(0, i + 1).drop_last() =~= ev.subrange(0, i as int));
        assert(ev[i as int] == (v@[i as int].name@, v@[i as int].inode_id));
        if str_eq(v[i].name.as_str(), ".") || str_eq(v[i].name.as_str(), "..") {
            r.push(DirectoryEntry { name: v[i].name.clone(), inode_id: v[i].inode_id });
            assert(entries_view(r@) =~= entries_view(prev).push(ev[i as int]));
        }
        i = i + 1;
    }
    assert(ev.subrange(0, i as int) =~= ev);
    r
}

/// What clearing directory `path` gives: `Ok` with the directory it names, or the error.
pub open spec fn clear_dir_target(v: Vfs, path: Seq<char>) -> Result<u32, Seq<char>> {
    let clean = vfs_clean(path);
    if is_prefix("/mnt"@, clean) {
        Err("Cannot modify mounted partitions"@)
    } else {
        match walk(v.fs.meta.view(), 0, split_nonempty(clean, '/'), 0) {
            Walk::Found(id) => match dir_lookup(v.fs.meta.view(), id) {
                Ok(_) => Ok(id),
                Err(e) => Err(e),
            },
            Walk::Missing(_, _) => Err("Directory path not found: "@ + clean),
            Walk::Failed(e) => Err(e),
        }
    }
}

/// Empties the NovaFS directory at `path` down to its `.` and `..` entries.
pub fn vfs_clear_dir(v: &mut Vfs, path: &str) -> (r: Result<(), String>)
    requires
        old(v).wf(),
    ensures
        final(v).wf(),
        final(v).files() == old(v).files(),
        final(v).next_fd == old(v).next_fd,
        final(v).mounts == old(v).mounts,
        final(v).fs.quotas@ == old(v).fs.quotas@,
        final(v).fs.usages@ == old(v).fs.usages@,
        final(v).fs.snapshots@ == old(v).fs.snapshots@,
        match clear_dir_target(*old(v), path@) {
            Ok(id) => r is Ok && ({
                let m0 = old(v).fs.meta.view();
                &&& final(v).fs.meta.view() == crate::filesystem::novafs::with_listing(m0, id, dot_entries(m0.dirs[id as int]))
                &&& dir_lookup(final(v).fs.meta.view(), id) == Ok::<Seq<EntryView>, Seq<char>>(dot_entries(dir_lookup(m0, id)->Ok_0))
            }),
            Err(e) => (r matches Err(x) && x@ == e) && final(v).fs.meta.view() == old(v).fs.meta.view(),
        },
{
    let clean = clean_path(path);
    let mnt = str_to_chars("/mnt");
    if starts_with(clean.as_slice(), mnt.as_slice()) {
        return Err(String::from_str("Cannot modify mounted partitions"));
    }
    let parts = split_pieces(clean.as_slice(), '/');
    match walk_exec(&v.fs.meta, &parts) {
        WalkOutcome::Failed(e) => Err(e),
        WalkOutcome::Missing(_, _) => {
            let mut msg: Vec<char> = Vec::new();
            push_str(&mut msg, "Directory path not found: ");
            push_chars(&mut msg, clean.as_slice());
            Err(chars_to_string(msg.as_slice()))
        },
        WalkOutcome::Found(id) => {
            let _ = read_directory_entries(&v.fs.meta, id)?;
            let ghost m0 = v.fs.meta.view();
            let kept = keep_dot_entries(&v.fs.meta.dirs[id as usize]);
            assert(m0.dirs[id as int] == entries_view(v.fs.meta.dirs@[id as int]@));
            let ghost d0 = v.fs.meta.dirs@;
            v.fs.meta.dirs.set(id as usize, kept);
            assert(dirs_view(v.fs.meta.dirs@) =~= dirs_view(d0).update(id as int, entries_view(kept@)));
            assert(v.fs.meta.view().inodes == m0.inodes);
            Ok(())
        },
    }
}

/// A row of a directory listing: name, size, directory flag and permission bits.
pub type RowView = (Seq<char>, u32, bool, u16);

/// The rows for a NovaFS listing: one per entry whose inode can be read.
pub open spec fn listing_rows(m: MetaView, l: Seq<EntryView>) -> Seq<RowView>
    decreases l.len(),
{
    if l.len() == 0 {
        Seq::empty()
    } else {
        let prev = listing_rows(m, l.drop_last());
        match inode_lookup(m, l.last().1) {
            Ok(n) => prev.push((l.last().0, n.size, n.is_directory, n.permissions)),
            Err(_) => prev,
        }
    }
}

/// The views of listing rows.
pub open spec fn rows_view(s: Seq<(String, u32, bool, u16)>) -> Seq<RowView> {
    s.map_values(|e: (String, u32, bool, u16)| (e.0@, e.1, e.2, e.3))
}

/// The rows for the FAT32 partition: each file, with mode 444.
pub open spec fn fat32_rows() -> Seq<RowView> {
    crate::filesystem::fat32::fat32_files().map_values(|e: (Seq<char>, usize)| (e.0, e.1 as u32, false, 0o444u16))
}

/// The rows for the EXT2 partition: each inode with size 0.
pub open spec fn ext2_rows() -> Seq<RowView> {
    crate::filesystem::ext2::ext2_inodes().map_values(|e: (u32, Seq<char>, u16)| (e.1, 0u32, false, e.2))
}

/// What listing `path` gives: the rows of the directory, or the error.
pub open spec fn list_dir_result(v: Vfs, path: Seq<char>) -> Result<Seq<RowView>, Seq<char>> {
    let clean = vfs_clean(path);
    let (mt, rel) = mount_resolve(v.mount_table(), clean);
    match mt {
        MountType::FAT32 => Ok(fat32_rows()),
        MountType::EXT2 => Ok(ext2_rows()),
        MountType::NovaFS => match walk(v.fs.meta.view(), 0, split_nonempty(rel, '/'), 0) {
            Walk::Found(id) => match dir_lookup(v.fs.meta.view(), id) {
                Ok(l) => Ok(listing_rows(v.fs.meta.view(), l)),
                Err(e) => Err(e),
            },
            Walk::Missing(_, _) => Err("Directory path not found: "@ + clean),
            Walk::Failed(e) => Err(e),
        },
    }
}

/// A listing returned as `r` is the one described by `expected`.
pub open spec fn rows_match(r: Result<Vec<(String, u32, bool, u16)>, String>, expected: Result<Seq<RowView>, Seq<char>>) -> bool {
    match expected {
        Ok(rows) => r matches Ok(x) && rows_view(x@) =~= rows,
        Err(e) => r matches Err(x) && x@ == e,
    }
}

/// Lists the directory at `path`.
pub fn vfs_list_dir(v: &Vfs, path: &str) -> (r: Result<Vec<(String, u32, bool, u16)>, String>)
    requires
        v.wf(),
    ensures
        rows_match(r, list_dir_result(*v, path@)),
{
    let clean = clean_path(path);
    let (mt, rel) = resolve_mount(v, &clean);
    match mt {
        MountType::FAT32 => {
            let fat = crate::filesystem::fat32::Fat32Simulator::new();
            let files = fat.list_files();
            let mut rows: Vec<(String, u32, bool, u16)> = Vec::new();
            let mut i: usize = 0;
            assert(files@.len() == crate::filesystem::fat32::file_list_view(files@).len());
            while i < files.len()
                invariant
                    i <= files@.len(),
                    crate::filesystem::fat32::file_list_view(files@) == crate::filesystem::fat32::fat32_files(),
                    rows_view(rows@) == fat32_rows().subrange(0, i as int),
                    files@.len() == 3,
                decreases files@.len() - i,
            {
                assert(files@[i as int].1 == crate::filesystem::fat32::fat32_files()[i as int].1);
                assert(files@[i as int].1 <= 262144) by {
                    assert(crate::filesystem::fat32::fat32_files()[i as int].1 <= 262144);
                }
                let ghost prev = rows@;
                rows.push((files[i].0.clone(), files[i].1 as u32, false, 0o444));
                assert(fat32_rows()[i as int] == (files@[i as int].0@, files@[i as int].1 as u32, false, 0o444u16)) by {
                    assert(crate::filesystem::fat32::file_list_view(files@)[i as int] == (files@[i as int].0@, files@[i as int].1));
                }
                assert(rows_view(rows@) =~= rows_view(prev).push(fat32_rows()[i as int]));
                assert(fat32_rows().subrange(0, i + 1) =~= fat32_rows().subrange(0, i as int).push(fat32_rows()[i as int]));
                i = i + 1;
            }
            Ok(rows)
        },
        MountType::EXT2 => {
            let ext = crate::filesystem::ext2::Ext2Simulator::new();
            let inodes = ext.list_inodes();
            let mut rows: Vec<(String, u32, bool, u16)> = Vec::new();
            let mut i: usize = 0;
            assert(inodes@.len() == crate::filesystem::ext2::inode_list_view(inodes@).len());
            while i < inodes.len()
                invariant
                    i <= inodes@.len(),
                    crate::filesystem::ext2::inode_list_view(inodes@) == crate::filesystem::ext2::ext2_inodes(),
                    rows_view(rows@) == ext2_rows().subrange(0, i as int),
                    inodes@.len() == 4,
                decreases inodes@.len() - i,
            {
                let ghost prev = rows@;
                rows.push((inodes[i].1.clone(), 0, false, inodes[i].2));
                assert(ext2_rows()[i as int] == (inodes@[i as int].1@, 0u32, false, inodes@[i as int].2)) by {
                    assert(crate::filesystem::ext2::inode_list_view(inodes@)[i as int] == (inodes@[i as int].0, inodes@[i as int].1@, inodes@[i as int].2));
                }
                assert(rows_view(rows@) =~= rows_view(prev).push(ext2_rows()[i as int]));
                assert(ext2_rows().subrange(0, i + 1) =~= ext2_rows().subrange(0, i as int).push(ext2_rows()[i as int]));
                i = i + 1;
            }
            Ok(rows)
        },
        MountType::NovaFS => {
            let parts = split_pieces(rel.as_slice(), '/');
            match walk_exec(&v.fs.meta, &parts) {
                WalkOutcome::Failed(e) => Err(e),
                WalkOutcome::Missing(_, _) => {
                    let mut msg: Vec<char> = Vec::new();
                    push_str(&mut msg, "Directory path not found: ");
                    push_chars(&mut msg, clean.as_slice());
                    Err(chars_to_string(msg.as_slice()))
                },
                WalkOutcome::Found(id) => {
                    let entries = read_directory_entries(&v.fs.meta, id)?;
                    let ghost ev = entries_view(entries@);
                    let ghost mv = v.fs.meta.view();
                    let mut rows: Vec<(String, u32, bool, u16)> = Vec::new();
                    let mut i: usize = 0;
                    while i < entries.len()
                        invariant
                            v.wf(),
                            mv == v.fs.meta.view(),
                            ev == entries_view(entries@),
                            ev.len() == entries@.len(),
                            i <= entries@.len(),
                            rows_view(rows@) == listing_rows(mv, ev.subrange(0, i as int)),
                        decreases entries@.len() - i,
                    {
                        let ghost prev = rows@;
                        assert(ev.subrange(0, i + 1).drop_last() =~= ev.subrange(0, i as int));
                        assert(ev[i as int] == (entries@[i as int].name@, entries@[i as int].inode_id));
                        match read_inode_disk(&v.fs.meta, entries[i].inode_id) {
                            Ok(n) => {
                                rows.push((entries[i].name.clone(), n.size, n.is_directory, n.permissions));
                                assert(rows_view(rows@) =~= rows_view(prev).push((entries@[i as int].name@, n.size, n.is_directory, n.permissions)));
                            },
                            Err(_) => {},
                        }
                        i = i + 1;
                    }
                    assert(ev.subrange(0, i as int) =~= ev);
                    Ok(rows)
                },
            }
        },
    }
}

/// A copy of the mount table.
pub fn get_vfs_mount_points(v: &Vfs) -> (r: Vec<MountPoint>)
    ensures
        mounts_view(r@) == v.mount_table(),
{
    let mut r: Vec<MountPoint> = Vec::new();
    let mut i: usize = 0;
    while i < v.mounts.len()
        invariant
            i <= v.mounts@.len(),
            mounts_view(r@) == mounts_view(v.mounts@.subrange(0, i as int)),
        decreases v.mounts@.len() - i,
    {
        let ghost prev = r@;
        r.push(MountPoint { path: v.mounts[i].path.clone(), mtype: v.mounts[i].mtype });
        i = i + 1;
        assert(mounts_view(r@) =~= mounts_view(prev).push((v.mounts@[i - 1].path@, v.mounts@[i - 1].mtype)));
        assert(mounts_view(v.mounts@.subrange(0, i as int)) =~= mounts_view(v.mounts@.subrange(0, i - 1)).push((v.mounts@[i - 1].path@, v.mounts@[i - 1].mtype)));
    }
    assert(v.mounts@.subrange(0, i as int) =~= v.mounts@);
    r
}

/// A copy of the open-file table, in descriptor order.
pub fn get_vfs_open_files(v: &Vfs) -> (r: Vec<(usize, FileDescriptor)>)
    requires
        v.wf(),
    ensures
        fds_view(r@) == v.files(),
        forall|i: int, j: int| 0 <= i < j < r@.len() ==> r@[i].0 < r@[j].0,
{
    let mut r: Vec<(usize, FileDescriptor)> = Vec::new();
    let mut i: usize = 0;
    while i < v.fds.len()
        invariant
            v.wf(),
            i <= v.fds@.len(),
            fds_view(r@) == fds_view(v.fds@.subrange(0, i as int)),
            r@.len() == i,
            forall|k: int| 0 <= k < i ==> r@[k].0 == v.fds@[k].0,
        decreases v.fds@.len() - i,
    {
        let ghost prev = r@;
        let d = &v.fds[i].1;
        let copy = FileDescriptor {
            path: d.path.clone(),
            inode_id: d.inode_id,
            offset: d.offset,
            is_dir: d.is_dir,
            readable: d.readable,
            writable: d.writable,
            mount_type: d.mount_type,
        };
        r.push((v.fds[i].0, copy));
        i = i + 1;
        assert(fds_view(r@) =~= fds_view(prev).push((v.fds@[i - 1].0, fd_view(v.fds@[i - 1].1))));
        assert(fds_view(v.fds@.subrange(0, i as int)) =~= fds_view(v.fds@.subrange(0, i - 1)).push((v.fds@[i - 1].0, fd_view(v.fds@[i - 1].1))));
    }
    assert(v.fds@.subrange(0, i as int) =~= v.fds@);
    r
}

} // verus!
