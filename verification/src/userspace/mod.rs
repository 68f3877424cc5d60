//! Userspace: user accounts and sessions, and the package manager.
use vstd::prelude::*;
use crate::text::{decimal, str_to_chars, chars_to_string, push_str, push_chars, push_decimal, str_eq};
use crate::filesystem::{Vfs, vfs_mkdir, vfs_open, vfs_write, vfs_close, vfs_clear_dir, clear_dir_target, dot_entries,
    mkdir_post};
use crate::filesystem::novafs::{EntryView, with_listing, dir_lookup};
use crate::kernel::security::student_workspace;
use crate::drivers::Devices;
use crate::drivers::vga::VgaWriter;
use crate::kernel::interrupts::console_println;
use crate::userspace::novapkg::{PackageDatabase, init_novapkg, names_view, initial_repository};

pub mod novapkg;

verus! {

/// A user account.
#[derive(Debug)]
pub struct User {
    pub uid: u32,
    pub username: String,
    pub password_hash: String,
    pub groups: Vec<String>,
}

/// An account as plain values: uid, name, password, groups.
pub type UserView = (u32, Seq<char>, Seq<char>, Seq<Seq<char>>);

/// The view of an account.
pub open spec fn user_view(u: User) -> UserView {
    (u.uid, u.username@, u.password_hash@, names_view(u.groups@))
}

/// The views of the accounts.
pub open spec fn users_view(s: Seq<User>) -> Seq<UserView> {
    s.map_values(|u: User| user_view(u))
}

/// The accounts, in creation order, and the name of the logged-in user.
pub struct UserDb {
    pub users: Vec<User>,
    pub current: Option<String>,
}

impl UserDb {
    /// User names are distinct.
    pub open spec fn wf(&self) -> bool {
        forall|i: int, j: int| 0 <= i < j < self.users@.len() ==> self.users@[i].username@ != self.users@[j].username@
    }

    /// The accounts as plain values.
    pub open spec fn accounts(&self) -> Seq<UserView> {
        users_view(self.users@)
    }

    /// The logged-in user's name.
    pub open spec fn session(&self) -> Option<Seq<char>> {
        match self.current {
            Some(s) => Some(s@),
            None => None,
        }
    }
}

/// The account called `name`, if any.
pub open spec fn account(s: Seq<UserView>, name: Seq<char>) -> Option<UserView> {
    if exists|i: int| 0 <= i < s.len() && s[i].1 == name {
        Some(s[choose|i: int| 0 <= i < s.len() && s[i].1 == name])
    } else {
        None
    }
}

/// The accounts every installation starts with.
pub open spec fn default_accounts() -> Seq<UserView> {
    seq![
        (0u32, "root"@, "admin123"@, seq!["root"@, "wheel"@]),
        (1001u32, "student1"@, "student123"@, seq!["students"@]),
        (1002u32, "student2"@, "student123"@, seq!["students"@]),
        (500u32, "teacher"@, "teacher123"@, seq!["faculty"@, "wheel"@]),
    ]
}

/// A list of group names.
fn groups(a: &str, b: Option<&str>) -> (r: Vec<String>)
    ensures
        names_view(r@) == match b { Some(y) => seq![a@, y@], None => seq![a@] },
{
    let mut v: Vec<String> = Vec::new();
    v.push(String::from_str(a));
    match b {
        Some(y) => { v.push(String::from_str(y)); },
        None => {},
    }
    assert(names_view(v@) =~= match b { Some(y) => seq![a@, y@], None => seq![a@] });
    v
}

/// An account.
fn account_of(uid: u32, name: &str, password: &str, gs: Vec<String>) -> (u: User)
    ensures
        user_view(u) == (uid, name@, password@, names_view(gs@)),
{
    User { uid, username: String::from_str(name), password_hash: String::from_str(password), groups: gs }
}

/// The classroom directories.
pub open spec fn layout_dirs() -> Seq<Seq<char>> {
    seq!["/students"@, "/shared"@, "/courses"@, "/assignments"@, "/faculty"@,
        "/students/student1001"@, "/students/student1002"@]
}

/// Where the first assignment's instructions go.
pub open spec fn instructions_path() -> Seq<char> {
    "/assignments/lab1_instructions.txt"@
}

/// The first assignment's instructions.
pub open spec fn instructions_text() -> Seq<char> {
    "Welcome to Lab 1: Systems Programming.\nTask: Use the redirection commands to write 'Hello NovaSchool' to your students directory.\nUsage: echo 'Hello Nova' > /students/student1001/hello.txt\n"@
}

/// Directory `p` exists on the NovaFS volume (outside the mounted partitions).
pub open spec fn dir_present(v: Vfs, p: Seq<char>) -> bool {
    let clean = crate::filesystem::vfs_clean(p);
    &&& !crate::text::is_prefix("/mnt"@, clean)
    &&& crate::filesystem::walk(v.fs.meta.view(), 0, crate::text::split_nonempty(clean, '/'), 0) is Found
}

/// The classroom directories and the first assignment, created as root. Directories already
/// there are left as they are.
#[verifier::spinoff_prover]
#[verifier::rlimit(60)]
fn create_classroom_filesystem_layout(vfs: &mut Vfs, dev: &mut Devices)
    requires
        old(vfs).wf(),
        old(dev).wf(),
        old(vfs).next_fd < usize::MAX,
    ensures
        final(vfs).wf(),
        final(dev).wf(),
        final(vfs).next_fd <= old(vfs).next_fd + 1,
        (forall|k: int| 0 <= k < layout_dirs().len() ==> dir_present(*old(vfs), #[trigger] layout_dirs()[k]))
            && crate::filesystem::file_room(*old(vfs), instructions_path(), instructions_text().len() as int)
            ==> final(vfs).next_fd == old(vfs).next_fd + 1
                && final(vfs).fs.usages@ == crate::filesystem::novafs::add_to_key(old(vfs).fs.usages@, 0,
                    instructions_text().len() as u32),
{
    let ghost v0 = *vfs;
    let ghost present = forall|k: int| 0 <= k < layout_dirs().len() ==> dir_present(v0, #[trigger] layout_dirs()[k]);
    proof {
        if present {
            assert(dir_present(v0, layout_dirs()[0]));
            assert(dir_present(v0, layout_dirs()[1]));
            assert(dir_present(v0, layout_dirs()[2]));
            assert(dir_present(v0, layout_dirs()[3]));
            assert(dir_present(v0, layout_dirs()[4]));
            assert(dir_present(v0, layout_dirs()[5]));
            assert(dir_present(v0, layout_dirs()[6]));
        }
    }
    let _ = vfs_mkdir(vfs, "/students", 0o755, 0);
    let _ = vfs_mkdir(vfs, "/shared", 0o777, 0);
    let _ = vfs_mkdir(vfs, "/courses", 0o755, 0);
    let _ = vfs_mkdir(vfs, "/assignments", 0o755, 0);
    let _ = vfs_mkdir(vfs, "/faculty", 0o750, 0);
    let _ = vfs_mkdir(vfs, "/students/student1001", 0o700, 1001);
    let _ = vfs_mkdir(vfs, "/students/student1002", 0o700, 1002);
    let ghost v1 = *vfs;
    proof {
        if present {
            assert(v1.fs.meta.view() == v0.fs.meta.view());
            assert(v1.mount_table() == v0.mount_table());
        }
    }
    match vfs_open(vfs, "/assignments/lab1_instructions.txt", true, true, 0) {
        Ok(fd) => {
            let ghost v2 = *vfs;
            let instructions = "Welcome to Lab 1: Systems Programming.\nTask: Use the redirection commands to write 'Hello NovaSchool' to your students directory.\nUsage: echo 'Hello Nova' > /students/student1001/hello.txt\n";
            let bytes = instructions.as_bytes();
            proof {
                reveal_strlit("Welcome to Lab 1: Systems Programming.\nTask: Use the redirection commands to write 'Hello NovaSchool' to your students directory.\nUsage: echo 'Hello Nova' > /students/student1001/hello.txt\n");
                assert(vstd::string::is_ascii(instructions));
                vstd::string::is_ascii_spec_bytes(instructions);
                assert(bytes@.len() == instructions_text().len());
                crate::filesystem::lemma_fd_slot_at(v2, v2.files().len() - 1);
            }
            let ghost d2 = *dev;
            let rw = vfs_write(vfs, dev, fd, bytes, 0);
            proof {
                if present && crate::filesystem::file_room(v0, instructions_path(), instructions_text().len() as int) {
                    let m0 = v0.fs.meta.view();
                    let nid = m0.superblock.inode_count;
                    let n = v2.fs.meta.view().inodes[nid as int]->Some_0;
                    assert(crate::filesystem::novafs::inode_lookup(v2.fs.meta.view(), nid) == Ok::<crate::filesystem::novafs::Inode, Seq<char>>(n));
                    crate::filesystem::novafs::lemma_first_block_write_succeeds(v2.fs, d2.disk.view(), vfs.fs, dev.disk.view(),
                        nid, bytes@, 0, crate::filesystem::unit_of(rw));
                }
            }
            let _ = vfs_close(vfs, fd);
        },
        Err(_) => {},
    }
}

/// The package database, the default accounts with student1 logged in, and the classroom
/// directory layout with the first assignment.
pub fn init_userspace(vfs: &mut Vfs, dev: &mut Devices) -> (r: (UserDb, PackageDatabase))
    requires
        old(vfs).wf(),
        old(dev).wf(),
        old(vfs).next_fd < usize::MAX,
    ensures
        final(vfs).wf(),
        final(dev).wf(),
        final(vfs).next_fd <= old(vfs).next_fd + 1,
        r.0.wf(),
        r.1.wf(),
        r.0.accounts() == default_accounts(),
        r.0.session() == Some("student1"@),
        r.1.available() == initial_repository(),
        r.1.installed() == seq!["libc"@],
{
    let pkg = init_novapkg();
    let mut users: Vec<User> = Vec::new();
    users.push(account_of(0, "root", "admin123", groups("root", Some("wheel"))));
    users.push(account_of(1001, "student1", "student123", groups("students", None)));
    users.push(account_of(1002, "student2", "student123", groups("students", None)));
    users.push(account_of(500, "teacher", "teacher123", groups("faculty", Some("wheel"))));
    let db = UserDb { users, current: Some(String::from_str("student1")) };
    assert(db.accounts() =~= default_accounts());
    proof {
        reveal_strlit("root");
        reveal_strlit("student1");
        reveal_strlit("student2");
        reveal_strlit("teacher");
        assert forall|i: int, j: int| 0 <= i < j < db.users@.len() implies db.users@[i].username@ != db.users@[j].username@ by {
            assert(db.users@[i].username@ == default_accounts()[i].1);
            assert(db.users@[j].username@ == default_accounts()[j].1);
            let a = db.users@[i].username@;
            let b = db.users@[j].username@;
            if a == b {
                assert(a[0] == b[0]);
                assert(a.len() == b.len());
                assert(a[a.len() - 1] == b[b.len() - 1]);
            }
        }
    }
    create_classroom_filesystem_layout(vfs, dev);
    (db, pkg)
}

/// Position of the account called `name`.
fn find_user(db: &UserDb, name: &str) -> (r: Option<usize>)
    requires
        db.wf(),
    ensures
        r matches Some(i) ==> i < db.users@.len() && account(db.accounts(), name@) == Some(db.accounts()[i as int]),
        r is None ==> account(db.accounts(), name@) is None,
{
    let ghost av = db.accounts();
    let mut i: usize = 0;
    while i < db.users.len()
        invariant
            db.wf(),
            av == db.accounts(),
            i <= db.users@.len(),
            forall|k: int| 0 <= k < i ==> av[k].1 != name@,
        decreases db.users@.len() - i,
    {
        if str_eq(db.users[i].username.as_str(), name) {
            proof {
                assert(av[i as int].1 == name@);
                let c = choose|c: int| 0 <= c < av.len() && av[c].1 == name@;
                if c != i as int {
                    assert(db.users@[c].username@ == db.users@[i as int].username@);
                }
            }
            return Some(i);
        }
        i = i + 1;
    }
    None
}

/// A copy of an account.
fn copy_user(u: &User) -> (r: User)
    ensures
        user_view(r) == user_view(*u),
{
    let mut gs: Vec<String> = Vec::new();
    let mut i: usize = 0;
    while i < u.groups.len()
        invariant
            i <= u.groups@.len(),
            names_view(gs@) == names_view(u.groups@.subrange(0, i as int)),
        decreases u.groups@.len() - i,
    {
        let ghost prev = gs@;
        gs.push(u.groups[i].clone());
        i = i + 1;
        assert(names_view(gs@) =~= names_view(prev).push(u.groups@[i - 1]@));
        assert(names_view(u.groups@.subrange(0, i as int)) =~= names_view(u.groups@.subrange(0, i - 1)).push(u.groups@[i - 1]@));
    }
    assert(u.groups@.subrange(0, i as int) =~= u.groups@);
    User { uid: u.uid, username: u.username.clone(), password_hash: u.password_hash.clone(), groups: gs }
}

/// The uid a new account gets: 500 plus the number of accounts for a teacher, 1000 plus it
/// for a student.
pub open spec fn new_uid(count: nat, is_teacher: bool) -> u32 {
    (if is_teacher { 500 + count } else { 1000 + count }) as u32
}

/// Creates an account (faculty for a teacher, students otherwise) and its workspace
/// `/students/student<uid>`.
pub fn useradd(db: &mut UserDb, vfs: &mut Vfs, username: &str, password: &str, is_teacher: bool) -> (r: Result<(), String>)
    requires
        old(db).wf(),
        old(vfs).wf(),
        old(db).users@.len() + 1000 <= u32::MAX,
    ensures
        final(db).wf(),
        final(vfs).wf(),
        final(vfs).files() == old(vfs).files(),
        final(vfs).next_fd == old(vfs).next_fd,
        final(db).current == old(db).current,
        account(old(db).accounts(), username@) is Some ==> (r matches Err(e) && e@ == "User '"@ + username@ + "' already exists"@)
            && final(db).accounts() == old(db).accounts() && final(vfs).fs.meta.view() == old(vfs).fs.meta.view(),
        account(old(db).accounts(), username@) is None ==> r is Ok
            && final(db).accounts() == old(db).accounts().push((new_uid(old(db).users@.len(), is_teacher), username@, password@,
                if is_teacher { seq!["faculty"@] } else { seq!["students"@] })),
{
    if find_user(db, username).is_some() {
        let mut msg: Vec<char> = Vec::new();
        push_str(&mut msg, "User '");
        let nc = str_to_chars(username);
        push_chars(&mut msg, nc.as_slice());
        push_str(&mut msg, "' already exists");
        return Err(chars_to_string(msg.as_slice()));
    }
    let count = db.users.len() as u32;
    let uid = if is_teacher { 500 + count } else { 1000 + count };
    let gs = if is_teacher { groups("faculty", None) } else { groups("students", None) };
    let ghost u0 = db.users@;
    db.users.push(User { uid, username: String::from_str(username), password_hash: String::from_str(password), groups: gs });
    proof {
        let u1 = db.users@;
        assert(db.accounts() =~= users_view(u0).push((uid, username@, password@, if is_teacher { seq!["faculty"@] } else { seq!["students"@] })));
        assert forall|i: int, j: int| 0 <= i < j < u1.len() implies u1[i].username@ != u1[j].username@ by {
            if j < u0.len() {
                assert(u1[i] == u0[i] && u1[j] == u0[j]);
            } else {
                assert(u1[i] == u0[i]);
                assert(users_view(u0)[i].1 == u0[i].username@);
            }
        }
    }
    let mut path: Vec<char> = Vec::new();
    push_str(&mut path, "/students/student");
    push_decimal(&mut path, uid as u64);
    let p = chars_to_string(path.as_slice());
    let _ = vfs_mkdir(vfs, p.as_str(), 0o700, uid);
    Ok(())
}

/// The logged-in user's account, if the session names one.
pub fn get_current_user(db: &UserDb) -> (r: Option<User>)
    requires
        db.wf(),
    ensures
        match db.session() {
            None => r is None,
            Some(name) => match account(db.accounts(), name) {
                None => r is None,
                Some(u) => r matches Some(x) && user_view(x) == u,
            },
        },
{
    match &db.current {
        None => None,
        Some(name) => match find_user(db, name.as_str()) {
            None => None,
            Some(i) => Some(copy_user(&db.users[i])),
        },
    }
}

/// Logs `username` in when the password matches, making it the session user.
pub fn login_user(db: &mut UserDb, username: &str, password: &str) -> (r: Result<User, String>)
    requires
        old(db).wf(),
    ensures
        final(db).wf(),
        final(db).accounts() == old(db).accounts(),
        match account(old(db).accounts(), username@) {
            Some(u) => if u.2 == password@ {
                (r matches Ok(x) && user_view(x) == u) && final(db).session() == Some(username@)
            } else {
                (r matches Err(e) && e@ == "Invalid username or password"@) && final(db).session() == old(db).session()
            },
            None => (r matches Err(e) && e@ == "Invalid username or password"@) && final(db).session() == old(db).session(),
        },
{
    match find_user(db, username) {
        Some(i) => {
            if str_eq(db.users[i].password_hash.as_str(), password) {
                let u = copy_user(&db.users[i]);
                db.current = Some(String::from_str(username));
                Ok(u)
            } else {
                Err(String::from_str("Invalid username or password"))
            }
        },
        None => Err(String::from_str("Invalid username or password")),
    }
}

/// The console line the auto-reset prints.
pub open spec fn auto_reset_line(uid: u32) -> Seq<char> {
    "[Classroom Security] Auto-Reset executed for student UID "@ + decimal(uid as nat) + ". Workspace clean."@
}

/// What resetting the workspace of `uid` did to the VFS and the console.
pub open spec fn reset_post(v0: Vfs, v1: Vfs, vga0: Option<VgaWriter>, vga1: Option<VgaWriter>, uid: u32) -> bool {
    &&& crate::kernel::interrupts::printed_lines(vga0, vga1, seq![auto_reset_line(uid)])
    &&& v1.files() == v0.files()
    &&& v1.next_fd == v0.next_fd
    &&& v1.fs.quotas@ == v0.fs.quotas@
    &&& v1.fs.usages@ == v0.fs.usages@
    &&& ({
        let ws = student_workspace(uid);
        let m0 = v0.fs.meta.view();
        match clear_dir_target(v0, ws) {
            Ok(id) => v1.fs.meta.view() == with_listing(m0, id, dot_entries(m0.dirs[id as int]))
                && dir_lookup(v1.fs.meta.view(), id) == Ok::<Seq<EntryView>, Seq<char>>(dot_entries(dir_lookup(m0, id)->Ok_0)),
            Err(_) => exists|r: Result<(), String>| mkdir_post(v0, v1, ws, 0o700, uid, r),
        }
    })
}

/// Wipes the student's workspace `/students/student<uid>` clean, down to its `.` and `..`
/// entries (a missing workspace is created empty), and reports it on the console.
pub fn auto_reset_student_environment(vfs: &mut Vfs, vga: &mut Option<VgaWriter>, uid: u32)
    requires
        old(vfs).wf(),
        *old(vga) matches Some(w) ==> w.wf(),
    ensures
        final(vfs).wf(),
        *final(vga) matches Some(w) ==> w.wf(),
        reset_post(*old(vfs), *final(vfs), *old(vga), *final(vga), uid),
{
    let mut path: Vec<char> = Vec::new();
    push_str(&mut path, "/students/student");
    push_decimal(&mut path, uid as u64);
    let p = chars_to_string(path.as_slice());
    assert(p@ == student_workspace(uid));
    let ghost v0 = *vfs;
    match vfs_clear_dir(vfs, p.as_str()) {
        Ok(()) => {},
        Err(_) => {
            let ghost v1 = *vfs;
            let r = vfs_mkdir(vfs, p.as_str(), 0o700, uid);
            assert(mkdir_post(v1, *vfs, p@, 0o700, uid, r));
            assert(mkdir_post(v0, *vfs, p@, 0o700, uid, r));
        },
    }
    let mut line: Vec<char> = Vec::new();
    push_str(&mut line, "[Classroom Security] Auto-Reset executed for student UID ");
    push_decimal(&mut line, uid as u64);
    push_str(&mut line, ". Workspace clean.");
    let l = chars_to_string(line.as_slice());
    console_println(vga, l.as_str());
}

/// Ends the session; a student's workspace is reset first.
pub fn logout_user(db: &mut UserDb, vfs: &mut Vfs, vga: &mut Option<VgaWriter>)
    requires
        old(db).wf(),
        old(vfs).wf(),
        *old(vga) matches Some(w) ==> w.wf(),
    ensures
        final(db).wf(),
        final(vfs).wf(),
        *final(vga) matches Some(w) ==> w.wf(),
        final(db).accounts() == old(db).accounts(),
        final(db).session() is None,
        final(vfs).files() == old(vfs).files(),
        final(vfs).next_fd == old(vfs).next_fd,
        (match old(db).session() {
            Some(n) => match account(old(db).accounts(), n) { Some(u) => u.0 < 1000, None => true },
            None => true,
        }) ==> final(vfs).fs.meta.view() == old(vfs).fs.meta.view(),
{
    match get_current_user(db) {
        Some(u) => {
            if u.uid >= 1000 {
                auto_reset_student_environment(vfs, vga, u.uid);
            }
        },
        None => {},
    }
    db.current = None;
}

} // verus!
