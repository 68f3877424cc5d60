//! The student terminal on the desktop: keys typed while the teacher has not locked it edit
//! the line and echo on the console; Enter runs the line through the shell.
use vstd::prelude::*;
use crate::text::{str_to_chars, chars_to_string, push_str, push_char};
use crate::system::System;
use crate::userspace::get_current_user;
use crate::kernel::syscall::{sys_call, trace_push};
use crate::kernel::task::{kill_error, set_state_spec, ProcessState};
use crate::kernel::mem::{mem_view, free_space_spec};
use crate::drivers::Devices;
use crate::kernel::interrupts::{console_println, printed_lines};
use crate::shell::{execute_command, line_ready, line_logs_out, exec_post};
use crate::shell::commands::{session_user};
use crate::drivers::vga::{write_bytes_spec, erase_back_spec};

verus! {

/// The console after printing `text` (no line break added).
pub open spec fn printed(v0: Option<crate::drivers::vga::VgaWriter>, v1: Option<crate::drivers::vga::VgaWriter>,
    text: Seq<char>) -> bool
{
    match v0 {
        None => v1 is None,
        Some(w0) => v1 matches Some(w1) && w1.wf() && w1.color_code == w0.color_code
            && w1.screen() == write_bytes_spec(w0.screen(), w0.color_code.0, vstd::utf8::encode_utf8(text)),
    }
}

/// Prints `text` on the console, if there is one.
fn console_print(vga: &mut Option<crate::drivers::vga::VgaWriter>, text: &str)
    requires
        *old(vga) matches Some(w) ==> w.wf(),
    ensures
        printed(*old(vga), *final(vga), text@),
{
    match vga {
        Some(w) => w.write_string(text),
        None => {},
    }
}

/// A character typed on the terminal: unless it is locked, it joins the line and is echoed.
pub fn terminal_type(sys: &mut System, c: char)
    requires
        old(sys).wf(),
    ensures
        final(sys).wf(),
        final(sys).classroom == old(sys).classroom,
        old(sys).classroom.terminal_locked ==> *final(sys) == *old(sys),
        !old(sys).classroom.terminal_locked ==> final(sys).terminal_input@ == old(sys).terminal_input@.push(c)
            && printed(old(sys).dev.vga, final(sys).dev.vga, seq![c]),
{
    if sys.classroom.terminal_locked {
        return;
    }
    push_char(&mut sys.terminal_input, c);
    let mut one = String::new();
    push_char(&mut one, c);
    console_print(&mut sys.dev.vga, one.as_str());
}

/// Backspace on the terminal: unless it is locked, the last character of a non-empty line is
/// removed and erased from the console.
pub fn terminal_backspace(sys: &mut System)
    requires
        old(sys).wf(),
    ensures
        final(sys).wf(),
        final(sys).classroom == old(sys).classroom,
        old(sys).classroom.terminal_locked || old(sys).terminal_input@.len() == 0 ==> *final(sys) == *old(sys),
        !old(sys).classroom.terminal_locked && old(sys).terminal_input@.len() > 0 ==>
            final(sys).terminal_input@ == old(sys).terminal_input@.drop_last() && match old(sys).dev.vga {
                None => final(sys).dev.vga is None,
                Some(w0) => final(sys).dev.vga matches Some(w1) && w1.screen() == erase_back_spec(w0.screen()),
            },
{
    if sys.classroom.terminal_locked {
        return;
    }
    let cs = str_to_chars(sys.terminal_input.as_str());
    if cs.len() == 0 {
        return;
    }
    let kept = crate::text::chars_range(cs.as_slice(), 0, cs.len() - 1);
    sys.terminal_input = chars_to_string(kept.as_slice());
    assert(kept@ =~= old(sys).terminal_input@.drop_last());
    match &mut sys.dev.vga {
        Some(w) => w.erase_back(),
        None => {},
    }
}

/// Ctrl+C on the locked terminal: the lock is lifted and the console says so. On an unlocked
/// terminal it types a `c`.
pub fn terminal_interrupt(sys: &mut System)
    requires
        old(sys).wf(),
    ensures
        final(sys).wf(),
        old(sys).classroom.terminal_locked ==> !final(sys).classroom.terminal_locked
            && final(sys).classroom.announcements == old(sys).classroom.announcements
            && final(sys).terminal_input == old(sys).terminal_input
            && printed_lines(old(sys).dev.vga, final(sys).dev.vga,
                seq!["\n[System Alert] Student terminal unlocked by override key combo."@]),
        !old(sys).classroom.terminal_locked ==> final(sys).terminal_input@ == old(sys).terminal_input@.push('c')
            && final(sys).classroom == old(sys).classroom,
{
    if sys.classroom.terminal_locked {
        crate::gui::classroom::set_terminal_lock(&mut sys.classroom, false);
        console_println(&mut sys.dev.vga, "\n[System Alert] Student terminal unlocked by override key combo.");
    } else {
        terminal_type(sys, 'c');
    }
}

/// What Enter on the terminal may assume: the line may run (see `line_ready`, with room for
/// the traced exit call) and does not end the session, since the prompt that follows names
/// the logged-in user.
pub open spec fn submit_ready(s: System) -> bool {
    &&& line_ready(s, s.terminal_input@)
    &&& s.kernel.tasks.next_pid + 7 < u32::MAX
    &&& !line_logs_out(s, s.terminal_input@)
}

/// The traced exit call a submitted line makes, from `sa` to `sb`: only the kernel changes; the
/// call is traced as `sys_exit` with zero arguments and result 0, and the running process is
/// killed and its memory freed as `kill_process` does.
pub open spec fn exit_step(sa: System, sb: System) -> bool {
    let pid = sa.kernel.tasks.current_pid;
    &&& sb == System { kernel: sb.kernel, ..sa }
    &&& sb.kernel.syscalls.view() == trace_push(sa.kernel.syscalls.view(),
        ("sys_exit"@, pid, seq![0u64, 0u64, 0u64], Ok::<u64, Seq<char>>(0)))
    &&& kill_error(sa.kernel.tasks, pid) is None ==> sb.kernel.tasks.procs@
        == set_state_spec(sa.kernel.tasks.procs@, pid, ProcessState::Killed)
    &&& kill_error(sa.kernel.tasks, pid) is Some ==> sb.kernel.tasks.procs@ == sa.kernel.tasks.procs@
    &&& pid != 0 ==> mem_view(sb.kernel.mem) == free_space_spec(sa.kernel.mem, pid)
    &&& pid == 0 ==> mem_view(sb.kernel.mem) == mem_view(sa.kernel.mem)
    &&& sb.kernel.mutexes == sa.kernel.mutexes
    &&& sb.kernel.ipc == sa.kernel.ipc
    &&& sb.kernel.audit == sa.kernel.audit
}

/// The prompt of the user with name `name`.
pub open spec fn prompt_text(name: Seq<char>) -> Seq<char> {
    "["@ + name + "@novaschool-os]$ "@
}

/// Enter on the terminal (unless it is locked): the console breaks the line, an exit system
/// call is traced, the line runs through the shell with its output printed, then the prompt
/// of the logged-in user; the line is cleared. Returns what the shell printed.
pub fn terminal_submit(sys: &mut System) -> (r: String)
    requires
        old(sys).classroom.terminal_locked ==> old(sys).wf(),
        !old(sys).classroom.terminal_locked ==> submit_ready(*old(sys)),
    ensures
        final(sys).wf(),
        old(sys).classroom.terminal_locked ==> *final(sys) == *old(sys) && r@.len() == 0,
        !old(sys).classroom.terminal_locked ==> final(sys).terminal_input@.len() == 0
            && session_user(final(sys).users) is Some,
        !old(sys).classroom.terminal_locked ==> exists|sa: System, sb: System, sc: System|
            #![trigger exit_step(sa, sb), exec_post(sb, sc, old(sys).terminal_input@, r@)]
            sa == (System { dev: Devices { vga: sa.dev.vga, ..old(sys).dev }, terminal_input: sa.terminal_input, ..*old(sys) })
            && sa.terminal_input@.len() == 0
            && printed(old(sys).dev.vga, sa.dev.vga, "\n"@)
            && exit_step(sa, sb)
            && exec_post(sb, sc, old(sys).terminal_input@, r@)
            && *final(sys) == (System { dev: Devices { vga: final(sys).dev.vga, ..sc.dev }, ..sc })
            && exists|mid: Option<crate::drivers::vga::VgaWriter>| #[trigger] printed(sc.dev.vga, mid, r@)
                && printed(mid, final(sys).dev.vga, prompt_text(session_user(sc.users)->Some_0.1)),
{
    if sys.classroom.terminal_locked {
        return String::new();
    }
    let cmd = sys.terminal_input.clone();
    console_print(&mut sys.dev.vga, "\n");
    sys.terminal_input = String::new();
    let ghost sa = *sys;
    let _ = sys_call(&mut sys.kernel, &mut sys.vfs, &mut sys.dev, &mut sys.net, 1, 0, 0, 0);
    let ghost sb = *sys;
    assert(exit_step(sa, sb));
    assert(crate::shell::pipes_from_logout(*sys, cmd@) == crate::shell::pipes_from_logout(*old(sys), cmd@));
    assert(line_logs_out(*sys, cmd@) == line_logs_out(*old(sys), cmd@));
    let output = execute_command(sys, cmd.as_str());
    let ghost sc = *sys;
    console_print(&mut sys.dev.vga, output.as_str());
    let ghost mid = sys.dev.vga;
    let user = match get_current_user(&sys.users) {
        Some(u) => u,
        None => {
            assert(false);
            return output;
        },
    };
    let mut prompt: Vec<char> = Vec::new();
    push_str(&mut prompt, "[");
    push_str(&mut prompt, user.username.as_str());
    push_str(&mut prompt, "@novaschool-os]$ ");
    let p = chars_to_string(prompt.as_slice());
    assert(p@ == prompt_text(session_user(sc.users)->Some_0.1));
    console_print(&mut sys.dev.vga, p.as_str());
    assert(printed(sc.dev.vga, mid, output@));
    output
}

} // verus!
