//! The bare-metal console: keyboard scancodes, the line being typed, and its commands. The
//! port reads, the screen and the reset are the target's; this module decides what each key
//! does.
use vstd::prelude::*;
use crate::text::{str_to_chars, chars_to_string, trim_chars, trim_spec, chars_eq};

verus! {

/// The character a key-down scancode (set 1) types, for the digits, `-`, `=`, the letters and
/// the space bar.
pub open spec fn scancode_char(scancode: u8) -> Option<char> {
    if scancode == 0x02 { Some('1') } else if scancode == 0x03 { Some('2') } else if scancode == 0x04 { Some('3') }
    else if scancode == 0x05 { Some('4') } else if scancode == 0x06 { Some('5') } else if scancode == 0x07 { Some('6') }
    else if scancode == 0x08 { Some('7') } else if scancode == 0x09 { Some('8') } else if scancode == 0x0A { Some('9') }
    else if scancode == 0x0B { Some('0') } else if scancode == 0x0C { Some('-') } else if scancode == 0x0D { Some('=') }
    else if scancode == 0x10 { Some('q') } else if scancode == 0x11 { Some('w') } else if scancode == 0x12 { Some('e') }
    else if scancode == 0x13 { Some('r') } else if scancode == 0x14 { Some('t') } else if scancode == 0x15 { Some('y') }
    else if scancode == 0x16 { Some('u') } else if scancode == 0x17 { Some('i') } else if scancode == 0x18 { Some('o') }
    else if scancode == 0x19 { Some('p') } else if scancode == 0x1E { Some('a') } else if scancode == 0x1F { Some('s') }
    else if scancode == 0x20 { Some('d') } else if scancode == 0x21 { Some('f') } else if scancode == 0x22 { Some('g') }
    else if scancode == 0x23 { Some('h') } else if scancode == 0x24 { Some('j') } else if scancode == 0x25 { Some('k') }
    else if scancode == 0x26 { Some('l') } else if scancode == 0x2C { Some('z') } else if scancode == 0x2D { Some('x') }
    else if scancode == 0x2E { Some('c') } else if scancode == 0x2F { Some('v') } else if scancode == 0x30 { Some('b') }
    else if scancode == 0x31 { Some('n') } else if scancode == 0x32 { Some('m') } else if scancode == 0x39 { Some(' ') }
    else { None }
}

/// The character a key-down scancode types, if any.
pub fn scancode_to_ascii(scancode: u8) -> (r: Option<char>)
    ensures
        r == scancode_char(scancode),
{
    match scancode {
        0x02 => Some('1'), 0x03 => Some('2'), 0x04 => Some('3'), 0x05 => Some('4'),
        0x06 => Some('5'), 0x07 => Some('6'), 0x08 => Some('7'), 0x09 => Some('8'),
        0x0A => Some('9'), 0x0B => Some('0'), 0x0C => Some('-'), 0x0D => Some('='),
        0x10 => Some('q'), 0x11 => Some('w'), 0x12 => Some('e'), 0x13 => Some('r'),
        0x14 => Some('t'), 0x15 => Some('y'), 0x16 => Some('u'), 0x17 => Some('i'),
        0x18 => Some('o'), 0x19 => Some('p'), 0x1E => Some('a'), 0x1F => Some('s'),
        0x20 => Some('d'), 0x21 => Some('f'), 0x22 => Some('g'), 0x23 => Some('h'),
        0x24 => Some('j'), 0x25 => Some('k'), 0x26 => Some('l'), 0x2C => Some('z'),
        0x2D => Some('x'), 0x2E => Some('c'), 0x2F => Some('v'), 0x30 => Some('b'),
        0x31 => Some('n'), 0x32 => Some('m'), 0x39 => Some(' '),
        _ => None,
    }
}

/// What a bare-metal command line asks for.
#[derive(Debug, PartialEq, Eq)]
pub enum BareMetalAction {
    /// Print the command list.
    Help,
    /// Blank the screen.
    Clear,
    /// Raise a kernel panic.
    Panic,
    /// Print a notice and reset the CPU through the keyboard controller.
    Reboot,
    /// Report an unknown command (the trimmed line).
    Unknown(String),
    /// An empty line: nothing.
    Nothing,
}

/// The action for a typed line: trimmed, then matched against the command names.
pub open spec fn bare_action_matches(line: Seq<char>, a: BareMetalAction) -> bool {
    let t = trim_spec(line);
    if t == "help"@ { a == BareMetalAction::Help }
    else if t == "clear"@ { a == BareMetalAction::Clear }
    else if t == "panic"@ { a == BareMetalAction::Panic }
    else if t == "reboot"@ { a == BareMetalAction::Reboot }
    else if t.len() > 0 { a matches BareMetalAction::Unknown(s) && s@ == t }
    else { a == BareMetalAction::Nothing }
}

/// The action for a typed line.
pub fn bare_metal_command(line: &str) -> (a: BareMetalAction)
    ensures
        bare_action_matches(line@, a),
{
    let cs = str_to_chars(line);
    let t = trim_chars(cs.as_slice());
    let help = str_to_chars("help");
    let clear = str_to_chars("clear");
    let panic_word = str_to_chars("panic");
    let reboot = str_to_chars("reboot");
    if chars_eq(t.as_slice(), help.as_slice()) {
        BareMetalAction::Help
    } else if chars_eq(t.as_slice(), clear.as_slice()) {
        BareMetalAction::Clear
    } else if chars_eq(t.as_slice(), panic_word.as_slice()) {
        BareMetalAction::Panic
    } else if chars_eq(t.as_slice(), reboot.as_slice()) {
        BareMetalAction::Reboot
    } else if t.len() > 0 {
        BareMetalAction::Unknown(chars_to_string(t.as_slice()))
    } else {
        BareMetalAction::Nothing
    }
}

/// Characters the bare-metal line holds at most.
pub const BARE_LINE_LIMIT: usize = 120;

/// The line being typed on the bare-metal console.
pub struct BareShell {
    pub buffer: Vec<char>,
}

impl BareShell {
    /// The line fits its buffer.
    pub open spec fn wf(&self) -> bool {
        self.buffer@.len() <= BARE_LINE_LIMIT
    }

    /// An empty line.
    pub fn new() -> (s: BareShell)
        ensures
            s.wf(),
            s.buffer@.len() == 0,
    {
        BareShell { buffer: Vec::new() }
    }
}

/// What a key did to the line.
#[derive(Debug, PartialEq, Eq)]
pub enum KeyOutcome {
    /// Enter: the line was taken and cleared; run this.
    Execute(BareMetalAction),
    /// Backspace removed the last character.
    Erased,
    /// The character was added (and is echoed).
    Typed(char),
    /// A key release, a full line, or a key that types nothing.
    Ignored,
}

/// Feeds one scancode to the line: releases are ignored, Enter takes the line, Backspace
/// removes a character, and a character key appends while the line has room.
pub fn bare_shell_key(sh: &mut BareShell, scancode: u8) -> (r: KeyOutcome)
    requires
        old(sh).wf(),
    ensures
        final(sh).wf(),
        scancode >= 0x80 ==> r == KeyOutcome::Ignored && final(sh).buffer@ == old(sh).buffer@,
        scancode == 0x1C ==> (r matches KeyOutcome::Execute(a) && bare_action_matches(old(sh).buffer@, a))
            && final(sh).buffer@.len() == 0,
        scancode == 0x0E ==> if old(sh).buffer@.len() > 0 {
            r == KeyOutcome::Erased && final(sh).buffer@ == old(sh).buffer@.drop_last()
        } else {
            r == KeyOutcome::Ignored && final(sh).buffer@ == old(sh).buffer@
        },
        scancode < 0x80 && scancode != 0x1C && scancode != 0x0E ==> match scancode_char(scancode) {
            Some(c) => if old(sh).buffer@.len() < BARE_LINE_LIMIT {
                r == KeyOutcome::Typed(c) && final(sh).buffer@ == old(sh).buffer@.push(c)
            } else {
                r == KeyOutcome::Ignored && final(sh).buffer@ == old(sh).buffer@
            },
            None => r == KeyOutcome::Ignored && final(sh).buffer@ == old(sh).buffer@,
        },
{
    if scancode >= 0x80 {
        return KeyOutcome::Ignored;
    }
    if scancode == 0x1C {
        let line = chars_to_string(sh.buffer.as_slice());
        let a = bare_metal_command(line.as_str());
        sh.buffer = Vec::new();
        return KeyOutcome::Execute(a);
    }
    if scancode == 0x0E {
        if sh.buffer.len() > 0 {
            sh.buffer.pop();
            return KeyOutcome::Erased;
        }
        return KeyOutcome::Ignored;
    }
    match scancode_to_ascii(scancode) {
        Some(c) => {
            if sh.buffer.len() < BARE_LINE_LIMIT {
                sh.buffer.push(c);
                KeyOutcome::Typed(c)
            } else {
                KeyOutcome::Ignored
            }
        },
        None => KeyOutcome::Ignored,
    }
}

} // verus!
