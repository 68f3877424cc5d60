//! Classroom control: the terminal lock, announcements and lab hand-outs.
use vstd::prelude::*;
use std::collections::VecDeque;
use crate::text::{str_to_chars, chars_to_string, push_str, push_chars};
use crate::filesystem::{Vfs, vfs_open, vfs_write, vfs_close};
use crate::drivers::Devices;
use crate::drivers::vga::VgaWriter;
use crate::kernel::interrupts::console_println;

verus! {

/// Announcements kept before the oldest is dropped.
pub const ANNOUNCEMENT_LIMIT: usize = 10;

/// The terminal lock and the announcement list (absent until the classroom is initialised).
pub struct Classroom {
    pub terminal_locked: bool,
    pub announcements: Option<VecDeque<String>>,
}

/// The announcements as plain strings.
pub open spec fn announcements_view(q: Seq<String>) -> Seq<Seq<char>> {
    q.map_values(|s: String| s@)
}

/// The classroom before initialisation: unlocked, no announcement list.
pub fn classroom_state() -> (c: Classroom)
    ensures
        !c.terminal_locked,
        c.announcements is None,
{
    Classroom { terminal_locked: false, announcements: None }
}

/// Unlocks the terminal and starts an empty announcement list.
pub fn init_classroom(c: &mut Classroom)
    ensures
        !final(c).terminal_locked,
        final(c).announcements matches Some(q) && q@.len() == 0,
{
    c.terminal_locked = false;
    c.announcements = Some(VecDeque::new());
}

/// Whether the terminal is locked.
pub fn is_terminal_locked(c: &Classroom) -> (r: bool)
    ensures
        r == c.terminal_locked,
{
    c.terminal_locked
}

/// Locks or unlocks the terminal.
pub fn set_terminal_lock(c: &mut Classroom, locked: bool)
    ensures
        final(c).terminal_locked == locked,
        final(c).announcements == old(c).announcements,
{
    c.terminal_locked = locked;
}

/// The announcement list after adding `msg`: past the limit the oldest is dropped first.
pub open spec fn announce(q: Seq<Seq<char>>, msg: Seq<char>) -> Seq<Seq<char>> {
    if q.len() > ANNOUNCEMENT_LIMIT { q.drop_first().push(msg) } else { q.push(msg) }
}

/// The announcement list never holds more than one entry past its limit.
pub proof fn lemma_announce_bounded(q: Seq<Seq<char>>, msg: Seq<char>)
    requires
        q.len() <= ANNOUNCEMENT_LIMIT + 1,
    ensures
        announce(q, msg).len() <= ANNOUNCEMENT_LIMIT + 1,
        announce(q, msg).last() == msg,
{
}

/// The console line an announcement prints.
pub open spec fn announcement_line(msg: Seq<char>) -> Seq<char> {
    "\n*** CLASSROOM ANNOUNCEMENT: "@ + msg + " ***"@
}

/// Adds `msg` to the announcements (when the list exists) and shows it on the console.
pub fn broadcast_announcement(c: &mut Classroom, vga: &mut Option<VgaWriter>, msg: &str)
    requires
        *old(vga) matches Some(w) ==> w.wf(),
    ensures
        *final(vga) matches Some(w) ==> w.wf(),
        crate::kernel::interrupts::printed_lines(*old(vga), *final(vga), seq![announcement_line(msg@)]),
        final(c).terminal_locked == old(c).terminal_locked,
        match old(c).announcements {
            None => final(c).announcements is None,
            Some(q0) => final(c).announcements matches Some(q1)
                && announcements_view(q1@) == announce(announcements_view(q0@), msg@),
        },
{
    match &mut c.announcements {
        Some(q) => {
            let ghost q0 = q@;
            if q.len() > ANNOUNCEMENT_LIMIT {
                q.pop_front();
            }
            let ghost q1 = q@;
            q.push_back(String::from_str(msg));
            proof {
                if q0.len() > ANNOUNCEMENT_LIMIT {
                    assert(announcements_view(q1) =~= announcements_view(q0).drop_first());
                }
                assert(announcements_view(q@) =~= announcements_view(q1).push(msg@));
            }
        },
        None => {},
    }
    let mut line: Vec<char> = Vec::new();
    push_str(&mut line, "\n*** CLASSROOM ANNOUNCEMENT: ");
    let mc = str_to_chars(msg);
    push_chars(&mut line, mc.as_slice());
    push_str(&mut line, " ***");
    let l = chars_to_string(line.as_slice());
    console_println(vga, l.as_str());
}

/// The announcements, oldest first (none before initialisation).
pub fn get_announcements(c: &Classroom) -> (r: Vec<String>)
    ensures
        match c.announcements {
            None => r@.len() == 0,
            Some(q) => announcements_view(r@) == announcements_view(q@),
        },
{
    let mut r: Vec<String> = Vec::new();
    match &c.announcements {
        None => {},
        Some(q) => {
            let mut i: usize = 0;
            while i < q.len()
                invariant
                    i <= q@.len(),
                    announcements_view(r@) == announcements_view(q@.subrange(0, i as int)),
                decreases q@.len() - i,
            {
                let ghost prev = r@;
                r.push(q[i].clone());
                i = i + 1;
                assert(announcements_view(r@) =~= announcements_view(prev).push(q@[i - 1]@));
                assert(announcements_view(q@.subrange(0, i as int)) =~= announcements_view(q@.subrange(0, i - 1)).push(q@[i - 1]@));
            }
            assert(q@.subrange(0, i as int) =~= q@);
        },
    }
    r
}

/// Where the first lab hand-out goes.
pub open spec fn handout_path() -> Seq<char> {
    "/students/student1001/lab1_handout.txt"@
}

/// The first lab hand-out.
pub open spec fn handout_text() -> Seq<char> {
    "NOVA_LAB_ASSIGNMENT_1\nInstructions: Write a simple script to verify paging COW behavior.\nStatus: IN_PROGRESS\n"@
}

/// There is room for the hand-out in student 1001's workspace (see `file_room`).
pub open spec fn handout_room(v: Vfs) -> bool {
    crate::filesystem::file_room(v, handout_path(), handout_text().len() as int)
}

/// What handing out the lab did to the classroom, the VFS and the devices, and returned.
pub open spec fn distribute_post(c0: Classroom, c1: Classroom, v0: Vfs, v1: Vfs, d0: Devices, d1: Devices, r: Result<(), String>) -> bool {
    &&& c1.terminal_locked == c0.terminal_locked
    &&& r is Ok ==> match c0.announcements {
        None => c1.announcements is None,
        Some(q0) => c1.announcements matches Some(q1)
            && announcements_view(q1@) == announce(announcements_view(q0@), "Lab assignment 1 handout distributed to workspaces."@),
    }
    &&& r is Err ==> c1.announcements == c0.announcements
    &&& handout_room(v0) ==> r is Ok && v1.fs.usages@ == crate::filesystem::novafs::add_to_key(
        v0.fs.usages@, 0, handout_text().len() as u32)
}

/// Writes the first lab hand-out into student 1001's workspace (as root) and announces it.
pub fn distribute_lab_assignment(c: &mut Classroom, vfs: &mut Vfs, dev: &mut Devices) -> (r: Result<(), String>)
    requires
        old(vfs).wf(),
        old(dev).wf(),
        old(vfs).next_fd < usize::MAX,
    ensures
        final(vfs).wf(),
        final(dev).wf(),
        distribute_post(*old(c), *final(c), *old(vfs), *final(vfs), *old(dev), *final(dev), r),
{
    let ghost v0 = *vfs;
    let fd = vfs_open(vfs, "/students/student1001/lab1_handout.txt", true, true, 0)?;
    let ghost v1 = *vfs;
    let content = "NOVA_LAB_ASSIGNMENT_1\nInstructions: Write a simple script to verify paging COW behavior.\nStatus: IN_PROGRESS\n";
    let bytes = content.as_bytes();
    proof {
        reveal_strlit("NOVA_LAB_ASSIGNMENT_1\nInstructions: Write a simple script to verify paging COW behavior.\nStatus: IN_PROGRESS\n");
        assert(vstd::string::is_ascii(content));
        vstd::string::is_ascii_spec_bytes(content);
        assert(bytes@.len() == handout_text().len());
        crate::filesystem::lemma_fd_slot_at(v1, v1.files().len() - 1);
    }
    let ghost d1 = *dev;
    let rw = vfs_write(vfs, dev, fd, bytes, 0);
    proof {
        if handout_room(v0) {
            let m0 = v0.fs.meta.view();
            let nid = m0.superblock.inode_count;
            let n = v1.fs.meta.view().inodes[nid as int]->Some_0;
            assert(crate::filesystem::novafs::inode_lookup(v1.fs.meta.view(), nid) == Ok::<crate::filesystem::novafs::Inode, Seq<char>>(n));
            crate::filesystem::novafs::lemma_first_block_write_succeeds(v1.fs, d1.disk.view(), vfs.fs, dev.disk.view(),
                nid, bytes@, 0, crate::filesystem::unit_of(rw));
        }
    }
    match rw {
        Ok(_) => {},
        Err(e) => { return Err(e); },
    }
    let ghost v2 = *vfs;
    proof {
        if handout_room(v0) {
            crate::filesystem::lemma_fd_slot_at(v2, v1.files().len() - 1);
        }
    }
    vfs_close(vfs, fd)?;
    broadcast_announcement(c, &mut dev.vga, "Lab assignment 1 handout distributed to workspaces.");
    Ok(())
}

} // verus!
