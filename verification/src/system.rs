//! The whole simulated machine: devices, kernel, filesystem, network, userspace, classroom,
//! shell, the line typed on the student terminal and the assistant conversation, and the boot sequence that brings them up in order.
use vstd::prelude::*;
use crate::drivers::{Devices, init_drivers};
use crate::kernel::{Kernel, init_kernel};
use crate::filesystem::{Vfs, init_vfs};
use crate::networking::{NetStack, init_networking};
use crate::userspace::{UserDb, init_userspace, default_accounts};
use crate::userspace::novapkg::{PackageDatabase, initial_repository};
use crate::gui::classroom::{Classroom, classroom_state};
use crate::shell::session::{ShellSession, init_shell};

verus! {

/// Everything the simulator runs on.
pub struct System {
    pub dev: Devices,
    pub kernel: Kernel,
    pub vfs: Vfs,
    pub net: NetStack,
    pub users: UserDb,
    pub pkgs: PackageDatabase,
    pub classroom: Classroom,
    pub shell: ShellSession,
    pub chat: Option<Vec<(String, String)>>,
    pub terminal_input: String,
}

impl System {
    /// Each part is consistent.
    pub open spec fn wf(&self) -> bool {
        &&& self.dev.wf()
        &&& self.kernel.wf()
        &&& self.vfs.wf()
        &&& self.users.wf()
        &&& self.pkgs.wf()
        &&& self.shell.wf()
    }
}

/// The parts the shell leaves alone are as they were: the classroom, the line typed on the
/// student terminal and the assistant conversation.
pub open spec fn aside_unchanged(s0: System, s1: System) -> bool {
    &&& s1.classroom == s0.classroom
    &&& s1.terminal_input == s0.terminal_input
    &&& s1.chat == s0.chat
}

/// Boots the machine: drivers, kernel, network stack, filesystem mounts, user accounts and
/// classroom layout, then the shell session.
pub fn boot() -> (s: System)
    ensures
        s.wf(),
        s.vfs.next_fd <= 4,
        s.kernel.tasks.procs@.len() == 1,
        s.kernel.tasks.next_pid == 1,
        s.kernel.mutexes is None,
        s.kernel.ipc is None,
        s.users.accounts() == default_accounts(),
        s.users.session() == Some("student1"@),
        s.pkgs.available() == initial_repository(),
        s.pkgs.installed() == seq!["libc"@],
        s.shell.current_dir@ == "/students/student1"@,
        !s.classroom.terminal_locked,
        s.classroom.announcements is None,
        s.chat is None,
        s.terminal_input@.len() == 0,
{
    let mut dev = init_drivers();
    let kernel = init_kernel(&mut dev.vga);
    let net = init_networking();
    let mut vfs = Vfs::new();
    init_vfs(&mut vfs);
    let (users, pkgs) = init_userspace(&mut vfs, &mut dev);
    let shell = init_shell();
    System { dev, kernel, vfs, net, users, pkgs, classroom: classroom_state(), shell, chat: None, terminal_input: String::new() }
}

} // verus!
