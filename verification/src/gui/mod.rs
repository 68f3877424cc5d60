//! The desktop's logic: classroom control, the assistant, the dashboard's tabs, the login
//! portal and the teacher's terminal. Drawing and input events stay with the front end, which
//! calls these functions with what the user did.
use vstd::prelude::*;
use crate::text::{str_to_chars, chars_to_string, push_str, str_eq, starts_with, chars_range};
use crate::system::System;
use crate::userspace::{User, UserDb, login_user, logout_user, get_current_user, auto_reset_student_environment,
    account, user_view};
use crate::userspace::novapkg::names_view;
use crate::kernel::task::{ProcessPriority, Capability, create_process};
use crate::kernel::boot::{print_boot_banner, print_uefi_memory_map};
use crate::kernel::interrupts::console_println;
use crate::drivers::vga::init_vga;
use crate::gui::assistant::NovaAssistant;
use crate::gui::classroom::{init_classroom, set_terminal_lock, broadcast_announcement, distribute_lab_assignment,
    announcements_view, announce, announcement_line, distribute_post, Classroom};
use crate::userspace::reset_post;
use crate::kernel::interrupts::printed_lines;
use crate::drivers::vga::VgaWriter;

pub mod assistant;
pub mod classroom;
pub mod terminal;

verus! {

/// The dashboard's views.
#[derive(Debug, Clone, Copy, PartialEq, Eq, Structural)]
pub enum Tab {
    KernelVisualizer,
    SyscallExplorer,
    TeacherDashboard,
    AiAssistant,
    SecurityAuditor,
}

/// The views of the teacher's window.
#[derive(Debug, Clone, Copy, PartialEq, Eq, Structural)]
pub enum TeacherTab {
    ClassroomControl,
    SecurityAuditor,
}

/// The desktop's state between frames.
pub struct NovaGuiApp {
    pub active_tab: Tab,
    pub assistant_agent: NovaAssistant,
    pub announcement_input: String,
    pub chat_input: String,
    pub selected_pid: Option<u32>,
    pub teacher_window_open: bool,
    pub teacher_active_tab: TeacherTab,
    pub is_authenticated: bool,
    pub login_username: String,
    pub login_password: String,
    pub login_error: Option<String>,
}

/// The assistant's greeting that opens every conversation.
pub open spec fn greeting() -> Seq<char> {
    "Hello, I am Nova Assistant, your systems programming guide! Type 'help' to see topics."@
}

/// A conversation as `(speaker, text)` pairs.
pub open spec fn chat_view(h: Seq<(String, String)>) -> Seq<(Seq<char>, Seq<char>)> {
    h.map_values(|e: (String, String)| (e.0@, e.1@))
}

/// The conversation after the student asks `query` and the assistant answers `reply`: beyond
/// ten entries the oldest is dropped first.
pub open spec fn exchange_spec(h: Seq<(Seq<char>, Seq<char>)>, query: Seq<char>, reply: Seq<char>)
    -> Seq<(Seq<char>, Seq<char>)>
{
    let kept = if h.len() > 10 { h.drop_first() } else { h };
    kept.push(("user"@, query)).push(("assistant"@, reply))
}

/// Adds a question and its answer to the conversation.
pub fn record_exchange(hist: &mut Vec<(String, String)>, query: String, reply: String)
    ensures
        chat_view(final(hist)@) == exchange_spec(chat_view(old(hist)@), query@, reply@),
{
    let ghost h0 = chat_view(hist@);
    if hist.len() > 10 {
        hist.remove(0);
        assert(chat_view(hist@) =~= h0.drop_first());
    }
    let ghost h1 = chat_view(hist@);
    hist.push((String::from_str("user"), query));
    hist.push((String::from_str("assistant"), reply));
    assert(chat_view(hist@) =~= h1.push(("user"@, query@)).push(("assistant"@, reply@)));
}

/// The user may open the teacher's window: a member of `wheel` or `faculty`, or root.
pub open spec fn is_admin_spec(u: crate::userspace::UserView) -> bool {
    u.3.contains("wheel"@) || u.3.contains("faculty"@) || u.0 == 0
}

/// Whether the user may open the teacher's window.
pub fn is_admin(u: &User) -> (r: bool)
    ensures
        r == is_admin_spec(user_view(*u)),
{
    let ghost gs = names_view(u.groups@);
    let mut wheel = false;
    let mut faculty = false;
    let mut i: usize = 0;
    while i < u.groups.len()
        invariant
            gs == names_view(u.groups@),
            i <= u.groups@.len(),
            wheel == exists|k: int| 0 <= k < i && gs[k] == "wheel"@,
            faculty == exists|k: int| 0 <= k < i && gs[k] == "faculty"@,
        decreases u.groups@.len() - i,
    {
        assert(gs[i as int] == u.groups@[i as int]@);
        if str_eq(u.groups[i].as_str(), "wheel") {
            wheel = true;
        }
        if str_eq(u.groups[i].as_str(), "faculty") {
            faculty = true;
        }
        i = i + 1;
    }
    wheel || faculty || u.uid == 0
}

impl NovaGuiApp {
    /// Opens the desktop: starts the classroom, opens the conversation with the greeting
    /// unless one is under way, starts the `kswapd` and `sshd` demonstration processes, and
    /// logs out so that the desktop starts at the login portal.
    pub fn new(sys: &mut System) -> (app: NovaGuiApp)
        requires
            old(sys).wf(),
            old(sys).kernel.tasks.next_pid + 2 < u32::MAX,
        ensures
            final(sys).wf(),
            !app.is_authenticated,
            app.active_tab == Tab::KernelVisualizer,
            app.teacher_active_tab == TeacherTab::ClassroomControl,
            !app.teacher_window_open,
            app.selected_pid is None,
            app.login_error is None,
            !final(sys).classroom.terminal_locked,
            final(sys).classroom.announcements matches Some(q) && q@.len() == 0,
            final(sys).chat matches Some(h) && (old(sys).chat is None ==> chat_view(h@) == seq![("assistant"@, greeting())]),
            old(sys).chat matches Some(h0) ==> final(sys).chat == old(sys).chat,
            final(sys).users.session() is None,
            final(sys).users.accounts() == old(sys).users.accounts(),
            final(sys).kernel.tasks.next_pid == old(sys).kernel.tasks.next_pid + 2,
            final(sys).kernel.tasks.procs@.len() == old(sys).kernel.tasks.procs@.len() + 2,
            final(sys).kernel.tasks.procs@[old(sys).kernel.tasks.procs@.len() as int].name@ == "kswapd"@,
            final(sys).kernel.tasks.procs@[old(sys).kernel.tasks.procs@.len() + 1int].name@ == "sshd"@,
    {
        init_classroom(&mut sys.classroom);
        if sys.chat.is_none() {
            let mut h: Vec<(String, String)> = Vec::new();
            h.push((String::from_str("assistant"),
                String::from_str("Hello, I am Nova Assistant, your systems programming guide! Type 'help' to see topics.")));
            assert(chat_view(h@) =~= seq![("assistant"@, greeting())]);
            sys.chat = Some(h);
        }
        let ghost n0 = sys.kernel.tasks.procs@.len();
        let mut caps1: Vec<Capability> = Vec::new();
        caps1.push(Capability::SysAdmin);
        let _ = create_process(&mut sys.kernel.tasks, "kswapd", ProcessPriority::High, caps1, 0);
        let mut caps2: Vec<Capability> = Vec::new();
        caps2.push(Capability::NetworkRaw);
        let _ = create_process(&mut sys.kernel.tasks, "sshd", ProcessPriority::Normal, caps2, 0);
        assert(sys.kernel.tasks.procs@.drop_last()[n0 as int] == sys.kernel.tasks.procs@[n0 as int]);
        logout_user(&mut sys.users, &mut sys.vfs, &mut sys.dev.vga);
        NovaGuiApp {
            active_tab: Tab::KernelVisualizer,
            assistant_agent: NovaAssistant::new(),
            announcement_input: String::new(),
            chat_input: String::new(),
            selected_pid: None,
            teacher_window_open: false,
            teacher_active_tab: TeacherTab::ClassroomControl,
            is_authenticated: false,
            login_username: String::new(),
            login_password: String::new(),
            login_error: None,
        }
    }

    /// Whether the portal has been passed.
    pub fn is_authenticated(&self) -> (r: bool)
        ensures
            r == self.is_authenticated,
    {
        self.is_authenticated
    }

    /// The view shown in the main window.
    pub fn active_tab(&self) -> (r: Tab)
        ensures
            r == self.active_tab,
    {
        self.active_tab
    }

    /// The error the login portal shows, if any.
    pub fn login_error(&self) -> (r: Option<String>)
        ensures
            r == self.login_error,
    {
        self.login_error.clone()
    }

    /// Selects a view of the main window.
    pub fn select_tab(&mut self, tab: Tab)
        ensures
            final(self).active_tab == tab,
            final(self).is_authenticated == old(self).is_authenticated,
    {
        self.active_tab = tab;
    }

    /// Sets the text typed into the login fields.
    pub fn set_login_fields(&mut self, username: &str, password: &str)
        ensures
            final(self).login_username@ == username@,
            final(self).login_password@ == password@,
            final(self).is_authenticated == old(self).is_authenticated,
    {
        self.login_username = String::from_str(username);
        self.login_password = String::from_str(password);
    }

    /// Sets the text typed into the assistant's input line.
    pub fn set_chat_input(&mut self, text: &str)
        ensures
            final(self).chat_input@ == text@,
    {
        self.chat_input = String::from_str(text);
    }

    /// Sets the text typed into the announcement line.
    pub fn set_announcement_input(&mut self, text: &str)
        ensures
            final(self).announcement_input@ == text@,
    {
        self.announcement_input = String::from_str(text);
    }

    /// At the start of a frame: a session ended from the terminal sends the desktop back to
    /// the portal, and the teacher's views, which live in their own window, give way to the
    /// kernel view.
    pub fn begin_frame(&mut self, users: &UserDb)
        requires
            users.wf(),
        ensures
            final(self).is_authenticated == (old(self).is_authenticated
                && (users.session() matches Some(n) && account(users.accounts(), n) is Some)),
            final(self).active_tab == if old(self).active_tab == Tab::TeacherDashboard
                || old(self).active_tab == Tab::SecurityAuditor { Tab::KernelVisualizer } else { old(self).active_tab },
    {
        if get_current_user(users).is_none() {
            self.is_authenticated = false;
        }
        if self.active_tab == Tab::TeacherDashboard || self.active_tab == Tab::SecurityAuditor {
            self.active_tab = Tab::KernelVisualizer;
        }
    }

    /// The portal's sign-in: both fields are needed; a matching name and password opens the
    /// desktop on a fresh console with the boot banner, the memory map, a hint and the prompt.
    pub fn submit_login(&mut self, sys: &mut System)
        requires
            old(sys).wf(),
        ensures
            final(sys).wf(),
            final(sys).users.accounts() == old(sys).users.accounts(),
            ({
                let u = old(self).login_username@;
                let p = old(self).login_password@;
                if u.len() == 0 || p.len() == 0 {
                    &&& final(self).login_error matches Some(e) && e@ == "Please fill in all fields"@
                    &&& final(self).is_authenticated == old(self).is_authenticated
                    &&& final(sys).users == old(sys).users
                } else {
                    match account(old(sys).users.accounts(), u) {
                        Some(acc) if acc.2 == p => final(self).is_authenticated && final(self).login_error is None
                            && final(sys).users.session() == Some(u),
                        _ => (final(self).login_error matches Some(e) && e@ == "Invalid username or password"@)
                            && final(self).is_authenticated == old(self).is_authenticated
                            && final(sys).users.session() == old(sys).users.session(),
                    }
                }
            }),
    {
        if self.login_username.as_str().unicode_len() == 0 || self.login_password.as_str().unicode_len() == 0 {
            self.login_error = Some(String::from_str("Please fill in all fields"));
            return;
        }
        match login_user(&mut sys.users, self.login_username.as_str(), self.login_password.as_str()) {
            Ok(u) => {
                self.is_authenticated = true;
                self.login_error = None;
                sys.dev.vga = Some(init_vga());
                print_boot_banner(&mut sys.dev.vga);
                print_uefi_memory_map(&mut sys.dev.vga);
                console_println(&mut sys.dev.vga, "Type 'help' to see shell commands. Nav tab views using tabs on the right.");
                let mut prompt: Vec<char> = Vec::new();
                push_str(&mut prompt, "[");
                push_str(&mut prompt, u.username.as_str());
                push_str(&mut prompt, "@novaschool-os]$ ");
                let ps = chars_to_string(prompt.as_slice());
                match &mut sys.dev.vga {
                    Some(w) => w.write_string(ps.as_str()),
                    None => {},
                }
            },
            Err(e) => {
                self.login_error = Some(e);
            },
        }
    }

    /// Sends the assistant's input line: a non-empty question is answered and both are added
    /// to the conversation (once one has been opened); the line is cleared.
    pub fn send_chat(&mut self, sys: &mut System)
        ensures
            final(sys).chat is Some == old(sys).chat is Some,
            old(self).chat_input@.len() == 0 ==> final(sys).chat == old(sys).chat
                && final(self).chat_input == old(self).chat_input,
            old(self).chat_input@.len() > 0 ==> final(self).chat_input@.len() == 0 && match old(sys).chat {
                Some(h0) => final(sys).chat matches Some(h1) && chat_view(h1@) == exchange_spec(chat_view(h0@),
                    old(self).chat_input@, old(self).assistant_agent.answer_spec(
                        crate::gui::assistant::lowercase_of(crate::text::trim_spec(old(self).chat_input@)))),
                None => final(sys).chat is None,
            },
            final(sys).dev == old(sys).dev,
            final(sys).vfs == old(sys).vfs,
            final(sys).kernel == old(sys).kernel,
            final(sys).users == old(sys).users,
            final(self).is_authenticated == old(self).is_authenticated,
    {
        if self.chat_input.as_str().unicode_len() == 0 {
            return;
        }
        let query = self.chat_input.clone();
        self.chat_input = String::new();
        let reply = self.assistant_agent.ask(query.as_str());
        match &mut sys.chat {
            Some(h) => record_exchange(h, query, reply),
            None => {},
        }
    }

    /// Broadcasts the announcement line when it is not empty, then clears it.
    pub fn broadcast_input(&mut self, sys: &mut System)
        requires
            old(sys).wf(),
        ensures
            final(sys).wf(),
            final(sys).users == old(sys).users,
            final(sys).vfs == old(sys).vfs,
            old(self).announcement_input@.len() == 0 ==> final(sys).classroom == old(sys).classroom,
            old(self).announcement_input@.len() > 0 ==> final(self).announcement_input@.len() == 0
                && match old(sys).classroom.announcements {
                    None => final(sys).classroom.announcements is None,
                    Some(q0) => final(sys).classroom.announcements matches Some(q1)
                        && announcements_view(q1@) == announce(announcements_view(q0@), old(self).announcement_input@),
                },
    {
        if self.announcement_input.as_str().unicode_len() == 0 {
            return;
        }
        broadcast_announcement(&mut sys.classroom, &mut sys.dev.vga, self.announcement_input.as_str());
        self.announcement_input = String::new();
    }
}

/// The announcement made when the students' terminals are locked.
pub open spec fn lock_message() -> Seq<char> {
    "TERMINAL LOCKED BY INSTRUCTOR. Pay attention to board."@
}

/// The announcement made when the students' terminals are unlocked.
pub open spec fn unlock_message() -> Seq<char> {
    "Student terminals unlocked."@
}

/// The announcement made when a workspace is reset.
pub open spec fn reset_message() -> Seq<char> {
    "Pristine workspace environment restored."@
}

/// The classroom `c1` is `c0` with `msg` added to the announcements, when there are any.
pub open spec fn announced(c0: Classroom, c1: Classroom, msg: Seq<char>) -> bool {
    match c0.announcements {
        None => c1.announcements is None,
        Some(q0) => c1.announcements matches Some(q1) && announcements_view(q1@) == announce(announcements_view(q0@), msg),
    }
}

/// What the teacher's terminal does with a command: lock or unlock the students' terminal,
/// distribute the lab, reset student1001's workspace, or broadcast `msg <text>`; anything
/// else is ignored.
pub fn teacher_command(sys: &mut System, cmd: &str)
    requires
        old(sys).wf(),
        old(sys).vfs.next_fd < usize::MAX,
    ensures
        final(sys).wf(),
        final(sys).users == old(sys).users,
        final(sys).kernel == old(sys).kernel,
        cmd@ == "lock"@ ==> final(sys).classroom.terminal_locked,
        cmd@ == "unlock"@ ==> !final(sys).classroom.terminal_locked,
        cmd@ != "lock"@ && cmd@ != "unlock"@ ==> final(sys).classroom.terminal_locked == old(sys).classroom.terminal_locked,
        crate::text::is_prefix("msg "@, cmd@) && cmd@ != "lock"@ && cmd@ != "unlock"@ && cmd@ != "distribute"@
            && cmd@ != "reset"@ ==> match old(sys).classroom.announcements {
                None => final(sys).classroom.announcements is None,
                Some(q0) => final(sys).classroom.announcements matches Some(q1)
                    && announcements_view(q1@) == announce(announcements_view(q0@), cmd@.subrange(4, cmd@.len() as int)),
            },
        cmd@ == "lock"@ ==> announced(old(sys).classroom, final(sys).classroom, lock_message())
            && printed_lines(old(sys).dev.vga, final(sys).dev.vga, seq![announcement_line(lock_message())])
            && final(sys).vfs == old(sys).vfs,
        cmd@ == "unlock"@ ==> announced(old(sys).classroom, final(sys).classroom, unlock_message())
            && printed_lines(old(sys).dev.vga, final(sys).dev.vga, seq![announcement_line(unlock_message())])
            && final(sys).vfs == old(sys).vfs,
        cmd@ == "distribute"@ ==> exists|r: Result<(), String>| #[trigger] distribute_post(old(sys).classroom,
            final(sys).classroom, old(sys).vfs, final(sys).vfs, old(sys).dev, final(sys).dev, r),
        cmd@ == "reset"@ ==> announced(old(sys).classroom, final(sys).classroom, reset_message())
            && final(sys).classroom.terminal_locked == old(sys).classroom.terminal_locked
            && exists|mid: Option<VgaWriter>| #[trigger] reset_post(old(sys).vfs, final(sys).vfs, old(sys).dev.vga, mid, 1001)
                && printed_lines(mid, final(sys).dev.vga, seq![announcement_line(reset_message())]),
{
    proof {
        reveal_strlit("lock");
        reveal_strlit("unlock");
        reveal_strlit("distribute");
        reveal_strlit("reset");
        reveal_strlit("msg ");
    }
    if str_eq(cmd, "lock") {
        assert(cmd@.len() == 4 && cmd@[0] == 'l');
        set_terminal_lock(&mut sys.classroom, true);
        broadcast_announcement(&mut sys.classroom, &mut sys.dev.vga, "TERMINAL LOCKED BY INSTRUCTOR. Pay attention to board.");
    } else if str_eq(cmd, "unlock") {
        assert(cmd@.len() == 6 && cmd@[0] == 'u');
        set_terminal_lock(&mut sys.classroom, false);
        broadcast_announcement(&mut sys.classroom, &mut sys.dev.vga, "Student terminals unlocked.");
    } else if str_eq(cmd, "distribute") {
        let r = distribute_lab_assignment(&mut sys.classroom, &mut sys.vfs, &mut sys.dev);
        assert(distribute_post(old(sys).classroom, sys.classroom, old(sys).vfs, sys.vfs, old(sys).dev, sys.dev, r));
    } else if str_eq(cmd, "reset") {
        auto_reset_student_environment(&mut sys.vfs, &mut sys.dev.vga, 1001);
        let ghost mid = sys.dev.vga;
        assert(reset_post(old(sys).vfs, sys.vfs, old(sys).dev.vga, mid, 1001));
        broadcast_announcement(&mut sys.classroom, &mut sys.dev.vga, "Pristine workspace environment restored.");
        assert(reset_post(old(sys).vfs, sys.vfs, old(sys).dev.vga, mid, 1001));
        assert(printed_lines(mid, sys.dev.vga, seq![announcement_line(reset_message())]));
        assert(announced(old(sys).classroom, sys.classroom, reset_message()));
    } else {
        let cs = str_to_chars(cmd);
        let prefix = str_to_chars("msg ");
        if starts_with(cs.as_slice(), prefix.as_slice()) {
            proof { reveal_strlit("msg "); }
            let rest = chars_range(cs.as_slice(), 4, cs.len());
            let text = chars_to_string(rest.as_slice());
            broadcast_announcement(&mut sys.classroom, &mut sys.dev.vga, text.as_str());
        }
    }
}

/// Every process has at least `k` ticks to go before its counter is full.
pub open spec fn ticks_room(s: Seq<crate::kernel::task::Process>, k: int) -> bool {
    forall|i: int| 0 <= i < s.len() ==> (#[trigger] s[i]).cpu_ticks + k < u64::MAX
}

/// Whether every process has at least `k` ticks to go before its counter is full.
pub fn has_ticks_room(tt: &crate::kernel::task::TaskTable, k: u64) -> (r: bool)
    ensures
        r == ticks_room(tt.procs@, k as int),
{
    let mut i: usize = 0;
    while i < tt.procs.len()
        invariant
            i <= tt.procs@.len(),
            ticks_room(tt.procs@.subrange(0, i as int), k as int),
        decreases tt.procs@.len() - i,
    {
        if tt.procs[i].cpu_ticks as u128 + k as u128 >= u64::MAX as u128 {
            assert(tt.procs@.subrange(0, tt.procs@.len() as int)[i as int] == tt.procs@[i as int]);
            assert(!ticks_room(tt.procs@, k as int));
            return false;
        }
        i = i + 1;
        assert forall|j: int| 0 <= j < i implies (#[trigger] tt.procs@.subrange(0, i as int)[j]).cpu_ticks + k < u64::MAX by {
            if j < i - 1 { assert(tt.procs@.subrange(0, i as int)[j] == tt.procs@.subrange(0, i - 1)[j]); }
        }
    }
    assert(tt.procs@.subrange(0, tt.procs@.len() as int) =~= tt.procs@);
    true
}

/// The kernel `k1` is `k0` with the running process given one more CPU tick.
pub open spec fn ticked(k0: crate::kernel::Kernel, k1: crate::kernel::Kernel) -> bool {
    &&& k1 == (crate::kernel::Kernel { tasks: k1.tasks, ..k0 })
    &&& k1.tasks.procs@ == crate::kernel::task::tick_spec(k0.tasks.procs@, k0.tasks.current_pid)
    &&& k1.tasks.current_pid == k0.tasks.current_pid
    &&& k1.tasks.next_pid == k0.tasks.next_pid
}

/// One step of the simulation's background activity: the network card is polled, the
/// running process is given a tick, and when the timer is due a timer interrupt is raised.
pub fn simulation_tick(sys: &mut System, timer_due: bool)
    requires
        old(sys).wf(),
        ticks_room(old(sys).kernel.tasks.procs@, 1),
    ensures
        final(sys).wf(),
        final(sys).users == old(sys).users,
        final(sys).vfs.files() == old(sys).vfs.files(),
        final(sys).vfs.next_fd == old(sys).vfs.next_fd,
        final(sys).kernel.tasks.next_pid == old(sys).kernel.tasks.next_pid,
        final(sys).kernel.mutexes == old(sys).kernel.mutexes,
        !timer_due ==> final(sys).kernel.tasks.procs@
            == crate::kernel::task::tick_spec(old(sys).kernel.tasks.procs@, old(sys).kernel.tasks.current_pid),
        timer_due ==> exists|k1: crate::kernel::Kernel| #[trigger] ticked(old(sys).kernel, k1) && ({
            &&& old(sys).kernel.interrupts.idt is Some ==> crate::kernel::interrupts::timer_tick_spec(k1, final(sys).kernel)
            &&& old(sys).kernel.interrupts.idt is None ==> final(sys).kernel == k1
        }),
        timer_due ==> final(sys).dev.vga == old(sys).dev.vga && final(sys).dev.input == old(sys).dev.input
            && final(sys).dev.disk == old(sys).dev.disk,
{
    crate::networking::poll_network_card(&mut sys.net, &mut sys.dev.network);
    let pid = crate::kernel::task::get_current_pid(&sys.kernel.tasks);
    proof {
        assert forall|i: int| 0 <= i < sys.kernel.tasks.procs@.len()
            implies (#[trigger] sys.kernel.tasks.procs@[i]).cpu_ticks < u64::MAX by {}
    }
    crate::kernel::scheduler::increment_task_ticks(&mut sys.kernel.tasks, pid);
    proof {
        let s0 = old(sys).kernel.tasks.procs@;
        let s1 = sys.kernel.tasks.procs@;
        assert forall|i: int| 0 <= i < s1.len() implies (#[trigger] s1[i]).cpu_ticks < u64::MAX by {
            assert(s0[i].cpu_ticks + 1 < u64::MAX);
        }
    }
    let ghost k1 = sys.kernel;
    assert(ticked(old(sys).kernel, k1));
    if timer_due {
        crate::kernel::interrupts::trigger_interrupt_vector(&mut sys.kernel, &mut sys.dev, 0x20, 0);
    }
}

/// The hint the dashboard prints when it opens.
pub open spec fn dashboard_hint() -> Seq<char> {
    "Type 'help' to see shell commands. Nav tab views using F1-F5.\n"@
}

/// Opens the text dashboard: starts the classroom and a fresh conversation with the
/// greeting, starts the `kswapd` and `sshd` demonstration processes, and prints the boot
/// banner, the memory map and a hint on the console.
pub fn start_dashboard(sys: &mut System)
    requires
        old(sys).wf(),
        old(sys).kernel.tasks.next_pid + 2 < u32::MAX,
    ensures
        final(sys).wf(),
        !final(sys).classroom.terminal_locked,
        final(sys).classroom.announcements matches Some(q) && q@.len() == 0,
        final(sys).chat matches Some(h) && chat_view(h@) == seq![("assistant"@, greeting())],
        final(sys).users == old(sys).users,
        final(sys).kernel.tasks.next_pid == old(sys).kernel.tasks.next_pid + 2,
        final(sys).kernel.tasks.procs@.len() == old(sys).kernel.tasks.procs@.len() + 2,
        ({
            let s0 = old(sys).kernel.tasks.procs@;
            let s1 = final(sys).kernel.tasks.procs@;
            let n = old(sys).kernel.tasks.next_pid;
            &&& s1.subrange(0, s0.len() as int) == s0
            &&& s1[s0.len() as int].pid == n && s1[s0.len() as int].name@ == "kswapd"@
                && s1[s0.len() as int].priority == ProcessPriority::High
                && s1[s0.len() as int].capabilities@ == seq![Capability::SysAdmin]
                && s1[s0.len() as int].owner_uid == 0
                && s1[s0.len() as int].state == crate::kernel::task::ProcessState::Ready
            &&& s1[s0.len() as int + 1].pid == n + 1 && s1[s0.len() as int + 1].name@ == "sshd"@
                && s1[s0.len() as int + 1].priority == ProcessPriority::Normal
                && s1[s0.len() as int + 1].capabilities@ == seq![Capability::NetworkRaw]
                && s1[s0.len() as int + 1].owner_uid == 0
                && s1[s0.len() as int + 1].state == crate::kernel::task::ProcessState::Ready
        }),
        exists|v1: Option<VgaWriter>, v2: Option<VgaWriter>|
            #![trigger printed_lines(old(sys).dev.vga, v1, crate::kernel::boot::banner_spec()),
                printed_lines(v1, v2, crate::kernel::boot::memory_map_report())]
            printed_lines(old(sys).dev.vga, v1, crate::kernel::boot::banner_spec())
            && printed_lines(v1, v2, crate::kernel::boot::memory_map_report())
            && printed_lines(v2, final(sys).dev.vga, seq![dashboard_hint()]),
{
    init_classroom(&mut sys.classroom);
    let mut h: Vec<(String, String)> = Vec::new();
    h.push((String::from_str("assistant"),
        String::from_str("Hello, I am Nova Assistant, your systems programming guide! Type 'help' to see topics.")));
    assert(chat_view(h@) =~= seq![("assistant"@, greeting())]);
    sys.chat = Some(h);
    let mut caps1: Vec<Capability> = Vec::new();
    caps1.push(Capability::SysAdmin);
    let _ = create_process(&mut sys.kernel.tasks, "kswapd", ProcessPriority::High, caps1, 0);
    let mut caps2: Vec<Capability> = Vec::new();
    caps2.push(Capability::NetworkRaw);
    let ghost t1 = sys.kernel.tasks.procs@;
    let _ = create_process(&mut sys.kernel.tasks, "sshd", ProcessPriority::Normal, caps2, 0);
    proof {
        let s0 = old(sys).kernel.tasks.procs@;
        let s1 = sys.kernel.tasks.procs@;
        assert(s1.drop_last() == t1);
        assert(s1[s0.len() as int] == t1[s0.len() as int]);
        assert(s1.subrange(0, s0.len() as int) =~= s0) by {
            assert forall|i: int| 0 <= i < s0.len() implies s1.subrange(0, s0.len() as int)[i] == s0[i] by {
                assert(s1[i] == t1[i]);
                assert(t1.drop_last()[i] == t1[i]);
            }
        }
    }
    let ghost v0 = sys.dev.vga;
    print_boot_banner(&mut sys.dev.vga);
    let ghost v1 = sys.dev.vga;
    print_uefi_memory_map(&mut sys.dev.vga);
    let ghost v2 = sys.dev.vga;
    console_println(&mut sys.dev.vga, "Type 'help' to see shell commands. Nav tab views using F1-F5.\n");
    assert(printed_lines(v0, v1, crate::kernel::boot::banner_spec()));
    assert(printed_lines(v1, v2, crate::kernel::boot::memory_map_report()));
}

/// A question put to the assistant from the text dashboard: answered and added with its
/// answer to the conversation, when one is open.
pub fn converse(sys: &mut System, agent: &NovaAssistant, query: &str)
    ensures
        final(sys).chat is Some == old(sys).chat is Some,
        match old(sys).chat {
            Some(h0) => final(sys).chat matches Some(h1) && chat_view(h1@) == exchange_spec(chat_view(h0@), query@,
                agent.answer_spec(crate::gui::assistant::lowercase_of(crate::text::trim_spec(query@)))),
            None => final(sys).chat is None,
        },
        final(sys).dev == old(sys).dev,
        final(sys).vfs == old(sys).vfs,
        final(sys).kernel == old(sys).kernel,
        final(sys).users == old(sys).users,
{
    let reply = agent.ask(query);
    match &mut sys.chat {
        Some(h) => record_exchange(h, String::from_str(query), reply),
        None => {},
    }
}

} // verus!
