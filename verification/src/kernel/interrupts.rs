//! The interrupt descriptor table, interrupt dispatch and per-vector counters.
use vstd::prelude::*;
use vstd::string::StringSliceAdditionalSpecFns;
use crate::text::{push_str, push_chars, str_to_chars, chars_to_string};
use crate::kernel::Kernel;
use crate::kernel::mem::{handle_page_fault, page_fault_spec, mem_view};
use crate::kernel::scheduler::{schedule_next, ticks_bounded, ready_pids, switch_spec, schedule_choice};
use crate::kernel::task::{kill_process, get_current_pid};
use crate::drivers::Devices;
use crate::drivers::input::{KeyCode, KeyEvent, KEY_QUEUE_CAPACITY, push_key_event};

verus! {

/// Timer interrupt vector.
pub const VECTOR_TIMER: u8 = 0x20;
/// Keyboard interrupt vector.
pub const VECTOR_KEYBOARD: u8 = 0x21;
/// Page-fault exception vector.
pub const VECTOR_PAGE_FAULT: u8 = 0x0E;

/// The service routines an interrupt can be routed to.
#[derive(Debug, Clone, Copy, PartialEq, Eq, Structural)]
pub enum InterruptHandler {
    TimerTick,
    KeyboardInput,
    PageFault,
}

/// The routine installed for each interrupt source.
#[derive(Debug, Clone, Copy, PartialEq, Eq, Structural)]
pub struct InterruptDescriptorTable {
    pub timer_handler: InterruptHandler,
    pub keyboard_handler: InterruptHandler,
    pub page_fault_handler: InterruptHandler,
}

/// The installed table, if any, and how many interrupts of each kind were taken.
#[derive(Debug, Clone, Copy, PartialEq, Eq, Structural)]
pub struct Interrupts {
    pub idt: Option<InterruptDescriptorTable>,
    pub timer_count: u64,
    pub keyboard_count: u64,
    pub page_fault_count: u64,
}

/// The standard table: each source routed to its own routine.
pub open spec fn standard_idt() -> InterruptDescriptorTable {
    InterruptDescriptorTable {
        timer_handler: InterruptHandler::TimerTick,
        keyboard_handler: InterruptHandler::KeyboardInput,
        page_fault_handler: InterruptHandler::PageFault,
    }
}

/// The standard table installed with every counter at zero.
pub open spec fn init_interrupts_spec() -> Interrupts {
    Interrupts { idt: Some(standard_idt()), timer_count: 0, keyboard_count: 0, page_fault_count: 0 }
}

/// Installs the standard table and zeroes the counters.
pub fn init_interrupts() -> (i: Interrupts)
    ensures
        i == init_interrupts_spec(),
{
    Interrupts {
        idt: Some(InterruptDescriptorTable {
            timer_handler: InterruptHandler::TimerTick,
            keyboard_handler: InterruptHandler::KeyboardInput,
            page_fault_handler: InterruptHandler::PageFault,
        }),
        timer_count: 0,
        keyboard_count: 0,
        page_fault_count: 0,
    }
}

/// The counters `(timer, keyboard, page fault)`.
pub fn get_interrupt_stats(i: &Interrupts) -> (r: (u64, u64, u64))
    ensures
        r == (i.timer_count, i.keyboard_count, i.page_fault_count),
{
    (i.timer_count, i.keyboard_count, i.page_fault_count)
}

/// What a timer interrupt does to the kernel (`k0` before, `k1` after): the timer count goes
/// up by one (wrapping) and the scheduler switches as `schedule_next` does; nothing else moves.
pub open spec fn timer_tick_spec(k0: Kernel, k1: Kernel) -> bool {
    let s0 = k0.tasks.procs@;
    let cur = k0.tasks.current_pid;
    &&& k1 == (Kernel { tasks: k1.tasks, interrupts: k1.interrupts, ..k0 })
    &&& k1.interrupts == (Interrupts { timer_count: k0.interrupts.timer_count.wrapping_add(1), ..k0.interrupts })
    &&& k1.tasks.next_pid == k0.tasks.next_pid
    &&& ready_pids(s0).len() == 0 ==> k1.tasks.procs@ == s0 && k1.tasks.current_pid == cur
    &&& ready_pids(s0).len() > 0 ==> k1.tasks.procs@ == switch_spec(s0, cur, schedule_choice(s0, cur, k0.sched.policy))
        && k1.tasks.current_pid == schedule_choice(s0, cur, k0.sched.policy)
}

/// Timer tick: counted (wrapping), then the scheduler runs.
fn handle_timer_tick(k: &mut Kernel)
    requires
        old(k).wf(),
        ticks_bounded(old(k).tasks.procs@),
    ensures
        final(k).wf(),
        final(k).interrupts.timer_count == old(k).interrupts.timer_count.wrapping_add(1),
        final(k).interrupts.keyboard_count == old(k).interrupts.keyboard_count,
        final(k).mutexes == old(k).mutexes,
        final(k).tasks.next_pid == old(k).tasks.next_pid,
        final(k).interrupts.page_fault_count == old(k).interrupts.page_fault_count,
        final(k).interrupts.idt == old(k).interrupts.idt,
        final(k).tasks.current_pid == crate::kernel::scheduler::schedule_choice(old(k).tasks.procs@, old(k).tasks.current_pid, old(k).sched.policy)
            || crate::kernel::scheduler::ready_pids(old(k).tasks.procs@).len() == 0,
        timer_tick_spec(*old(k), *final(k)),
{
    k.interrupts.timer_count = k.interrupts.timer_count.wrapping_add(1);
    let _ = schedule_next(&mut k.tasks, &k.sched);
}

/// Keyboard interrupt: counted (wrapping); a nonzero scancode is queued as the character with
/// that code.
fn handle_keyboard_input(k: &mut Kernel, dev: &mut Devices, scancode: u8)
    requires
        old(k).wf(),
        old(dev).wf(),
    ensures
        final(k).wf(),
        final(dev).wf(),
        final(k).interrupts.keyboard_count == old(k).interrupts.keyboard_count.wrapping_add(1),
        final(k).interrupts.timer_count == old(k).interrupts.timer_count,
        final(k).mutexes == old(k).mutexes,
        final(k).tasks.next_pid == old(k).tasks.next_pid,
        final(k).interrupts.page_fault_count == old(k).interrupts.page_fault_count,
        final(k).interrupts.idt == old(k).interrupts.idt,
        final(k).tasks == old(k).tasks,
        final(dev).vga == old(dev).vga,
        final(dev).disk == old(dev).disk,
        scancode == 0 ==> final(dev).input == old(dev).input,
        scancode > 0 && old(dev).input.keyboard.view().len() < KEY_QUEUE_CAPACITY ==>
            final(dev).input.keyboard.view() == old(dev).input.keyboard.view().push(
                KeyEvent { code: KeyCode::Char(scancode as char), shift: false, ctrl: false, alt: false }),
        scancode > 0 && old(dev).input.keyboard.view().len() >= KEY_QUEUE_CAPACITY ==>
            final(dev).input.keyboard.view() == old(dev).input.keyboard.view(),
{
    k.interrupts.keyboard_count = k.interrupts.keyboard_count.wrapping_add(1);
    if scancode > 0 {
        let ch = scancode as char;
        push_key_event(&mut dev.input, KeyEvent { code: KeyCode::Char(ch), shift: false, ctrl: false, alt: false });
    }
}

/// The screen after printing `line` and a newline.
pub open spec fn println_screen(s: crate::drivers::vga::Screen, color: u8, line: Seq<char>) -> crate::drivers::vga::Screen {
    crate::drivers::vga::write_bytes_spec(
        crate::drivers::vga::write_bytes_spec(s, color, vstd::utf8::encode_utf8(line)),
        color, vstd::utf8::encode_utf8(seq!['\n']))
}

/// The screen after printing each of `lines` on a line of its own.
pub open spec fn print_lines_screen(s: crate::drivers::vga::Screen, color: u8, lines: Seq<Seq<char>>) -> crate::drivers::vga::Screen
    decreases lines.len(),
{
    if lines.len() == 0 { s } else { println_screen(print_lines_screen(s, color, lines.drop_last()), color, lines.last()) }
}

/// What printing `lines` does to the console: nothing without one, else the lines in turn in
/// the console's colour.
pub open spec fn printed_lines(v0: Option<crate::drivers::vga::VgaWriter>, v1: Option<crate::drivers::vga::VgaWriter>,
    lines: Seq<Seq<char>>) -> bool
{
    match v0 {
        None => v1 is None,
        Some(w0) => v1 matches Some(w1) && w1.wf() && w1.color_code == w0.color_code
            && w1.screen() == print_lines_screen(w0.screen(), w0.color_code.0, lines),
    }
}

/// Prints a line on the console, if there is one.
pub fn console_println(vga: &mut Option<crate::drivers::vga::VgaWriter>, line: &str)
    requires
        *old(vga) matches Some(w) ==> w.wf(),
    ensures
        match *old(vga) {
            None => *final(vga) is None,
            Some(w0) => *final(vga) matches Some(w1) && w1.wf() && w1.color_code == w0.color_code
                && w1.screen() == crate::drivers::vga::write_bytes_spec(
                    crate::drivers::vga::write_bytes_spec(w0.screen(), w0.color_code.0, line.spec_bytes()),
                    w0.color_code.0, "\n".spec_bytes()),
        },
        printed_lines(*old(vga), *final(vga), seq![line@]),
{
    proof { reveal_strlit("\n"); }
    match vga {
        Some(w) => {
            let ghost s0 = w.screen();
            let ghost c = w.color_code.0;
            w.write_string(line);
            w.write_string("\n");
            assert(seq![line@].drop_last() =~= Seq::<Seq<char>>::empty());
            assert(print_lines_screen(s0, c, Seq::<Seq<char>>::empty()) == s0);
            assert("\n"@ =~= seq!['\n']);
        },
        None => {},
    }
}

/// Page fault: counted (wrapping) and handed to the memory manager; when it cannot be
/// resolved the fault is reported on the console and the running process is killed.
fn handle_page_fault_ex(k: &mut Kernel, dev: &mut Devices, vaddr: u64, write_fault: bool)
    requires
        old(k).wf(),
        old(dev).wf(),
    ensures
        final(k).wf(),
        final(dev).wf(),
        final(k).interrupts.page_fault_count == old(k).interrupts.page_fault_count.wrapping_add(1),
        final(k).interrupts.timer_count == old(k).interrupts.timer_count,
        final(k).mutexes == old(k).mutexes,
        final(k).tasks.next_pid == old(k).tasks.next_pid,
        final(k).interrupts.keyboard_count == old(k).interrupts.keyboard_count,
        final(k).interrupts.idt == old(k).interrupts.idt,
        final(dev).input == old(dev).input,
        final(dev).disk == old(dev).disk,
        page_fault_spec(old(k).mem, old(k).tasks.current_pid, vaddr, write_fault) matches Ok(st) ==>
            mem_view(final(k).mem) == st && final(k).tasks == old(k).tasks,
{
    k.interrupts.page_fault_count = k.interrupts.page_fault_count.wrapping_add(1);
    let pid = get_current_pid(&k.tasks);
    match handle_page_fault(&mut k.mem, pid, vaddr, write_fault) {
        Ok(()) => {},
        Err(e) => {
            let mut line: Vec<char> = Vec::new();
            push_str(&mut line, "[Exception 14] Page Fault exception unhandled: ");
            let ec = str_to_chars(e.as_str());
            push_chars(&mut line, ec.as_slice());
            let text = chars_to_string(line.as_slice());
            console_println(&mut dev.vga, text.as_str());
            let _ = kill_process(&mut k.tasks, &mut k.mem, pid);
        },
    }
}

/// Raises interrupt `vector` with argument `arg` through the installed table: the timer
/// (0x20), the keyboard (0x21, scancode in the low byte of `arg`) or a write page fault at
/// `arg` (0x0E). Without a table, or for any other vector, nothing happens.
pub fn trigger_interrupt_vector(k: &mut Kernel, dev: &mut Devices, vector: u8, arg: u64)
    requires
        old(k).wf(),
        old(dev).wf(),
        vector == VECTOR_TIMER ==> ticks_bounded(old(k).tasks.procs@),
    ensures
        final(k).wf(),
        final(dev).wf(),
        final(k).interrupts.idt == old(k).interrupts.idt,
        final(k).mutexes == old(k).mutexes,
        final(k).tasks.next_pid == old(k).tasks.next_pid,
        old(k).interrupts.idt is None || (vector != VECTOR_TIMER && vector != VECTOR_KEYBOARD && vector != VECTOR_PAGE_FAULT)
            ==> *final(k) == *old(k) && *final(dev) == *old(dev),
        old(k).interrupts.idt is Some && vector == VECTOR_TIMER ==>
            timer_tick_spec(*old(k), *final(k)) && *final(dev) == *old(dev),
        old(k).interrupts.idt is Some && vector == VECTOR_KEYBOARD ==>
            final(k).interrupts.keyboard_count == old(k).interrupts.keyboard_count.wrapping_add(1),
        old(k).interrupts.idt is Some && vector == VECTOR_PAGE_FAULT ==>
            final(k).interrupts.page_fault_count == old(k).interrupts.page_fault_count.wrapping_add(1),
{
    match k.interrupts.idt {
        Some(_) => {
            if vector == VECTOR_TIMER {
                handle_timer_tick(k);
            } else if vector == VECTOR_KEYBOARD {
                handle_keyboard_input(k, dev, arg as u8);
            } else if vector == VECTOR_PAGE_FAULT {
                handle_page_fault_ex(k, dev, arg, true);
            }
        },
        None => {},
    }
}

} // verus!
