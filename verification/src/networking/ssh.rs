//! The SSH remote console: password authentication and teacher commands over TCP port 22.
use vstd::prelude::*;
use std::collections::VecDeque;
use crate::text::{is_prefix, trim_spec, str_to_chars, chars_to_string, push_str, push_chars, trim_chars,
    chars_eq, starts_with, utf8_text};
use crate::networking::tcp::{SocketTable, SocketView, bind_socket, receive_data_from_port, pending_on, drained,
    port_listening, listening_socket};

verus! {

/// The SSH port.
pub const SSH_PORT: u16 = 22;
/// Lines kept in the output queue; later lines are dropped.
pub const SSH_OUTPUT_LIMIT: usize = 100;

/// The daemon: queued output lines and whether the session is authenticated.
pub struct SshState {
    pub output: VecDeque<String>,
    pub authenticated: bool,
}

/// The output queue as plain strings.
pub open spec fn output_view(q: Seq<String>) -> Seq<Seq<char>> {
    q.map_values(|s: String| s@)
}

/// The session state and the reply after command `cmd`.
pub open spec fn ssh_reply(auth: bool, cmd: Seq<char>) -> (bool, Seq<char>) {
    if !auth {
        if cmd == "auth password_teacher123"@ {
            (true, "Authentication Successful. Welcome to NovaOS Remote SSH Console.\n"@)
        } else {
            (false, "SSH Connection: Please authenticate using: 'auth <password>'\n"@)
        }
    } else if cmd == "exit"@ {
        (false, "Connection closed.\n"@)
    } else if cmd == "teacher_lock"@ {
        (true, "LOCK_COMMAND_BROADCASTED\n"@)
    } else if is_prefix("announcement "@, cmd) {
        (true, "ANNOUNCEMENT_BROADCAST: "@ + cmd.subrange(13, cmd.len() as int) + "\n"@)
    } else {
        (true, "SSH: Command execution mock for '"@ + cmd + "' -> Success.\n"@)
    }
}

/// The output queue after queueing `line` (dropped when the queue is full).
pub open spec fn queued(q: Seq<Seq<char>>, line: Seq<char>) -> Seq<Seq<char>> {
    if q.len() < SSH_OUTPUT_LIMIT { q.push(line) } else { q }
}

/// Resets the daemon and binds port 22 (a port already listening is left as it is).
pub fn init_ssh(ssh: &mut SshState, tcp: &mut SocketTable)
    ensures
        output_view(final(ssh).output@) == Seq::<Seq<char>>::empty(),
        !final(ssh).authenticated,
        port_listening(old(tcp).view(), SSH_PORT) ==> final(tcp).view() == old(tcp).view(),
        !port_listening(old(tcp).view(), SSH_PORT) ==> final(tcp).view() == old(tcp).view().push(listening_socket(SSH_PORT)),
{
    ssh.output.clear();
    ssh.authenticated = false;
    let _ = bind_socket(tcp, SSH_PORT);
    assert(output_view(ssh.output@) =~= Seq::<Seq<char>>::empty());
}

/// Queues a line of output.
fn queue_output(ssh: &mut SshState, line: String)
    ensures
        output_view(final(ssh).output@) == queued(output_view(old(ssh).output@), line@),
        final(ssh).authenticated == old(ssh).authenticated,
{
    if ssh.output.len() < SSH_OUTPUT_LIMIT {
        let ghost q0 = ssh.output@;
        ssh.output.push_back(line);
        assert(output_view(ssh.output@) =~= output_view(q0).push(line@));
    }
}

/// The reply line and the new session state for `cmd`.
fn reply_for(auth: bool, cmd: &Vec<char>) -> (r: (bool, String))
    ensures
        (r.0, r.1@) == ssh_reply(auth, cmd@),
{
    if !auth {
        let pw = str_to_chars("auth password_teacher123");
        if chars_eq(cmd.as_slice(), pw.as_slice()) {
            return (true, String::from_str("Authentication Successful. Welcome to NovaOS Remote SSH Console.\n"));
        }
        return (false, String::from_str("SSH Connection: Please authenticate using: 'auth <password>'\n"));
    }
    let exit = str_to_chars("exit");
    let lock = str_to_chars("teacher_lock");
    let ann = str_to_chars("announcement ");
    if chars_eq(cmd.as_slice(), exit.as_slice()) {
        (false, String::from_str("Connection closed.\n"))
    } else if chars_eq(cmd.as_slice(), lock.as_slice()) {
        (true, String::from_str("LOCK_COMMAND_BROADCASTED\n"))
    } else if starts_with(cmd.as_slice(), ann.as_slice()) {
        let mut out: Vec<char> = Vec::new();
        push_str(&mut out, "ANNOUNCEMENT_BROADCAST: ");
        let mut i: usize = 13;
        proof { reveal_strlit("announcement "); }
        while i < cmd.len()
            invariant
                13 <= i <= cmd@.len(),
                out@ == "ANNOUNCEMENT_BROADCAST: "@ + cmd@.subrange(13, i as int),
            decreases cmd@.len() - i,
        {
            out.push(cmd[i]);
            i = i + 1;
            assert(out@ =~= "ANNOUNCEMENT_BROADCAST: "@ + cmd@.subrange(13, i as int));
        }
        push_str(&mut out, "\n");
        (true, chars_to_string(out.as_slice()))
    } else {
        let mut out: Vec<char> = Vec::new();
        push_str(&mut out, "SSH: Command execution mock for '");
        push_chars(&mut out, cmd.as_slice());
        push_str(&mut out, "' -> Success.\n");
        (true, chars_to_string(out.as_slice()))
    }
}

/// Whether an SSH poll changes anything: text arrived on port 22 and is valid UTF-8.
pub open spec fn ssh_command(t: Seq<SocketView>) -> Option<Seq<char>> {
    match pending_on(t, SSH_PORT) {
        Some(d) => if vstd::utf8::valid_utf8(d) { Some(trim_spec(vstd::utf8::decode_utf8(d))) } else { None },
        None => None,
    }
}

/// What an SSH poll does to the daemon (`auth0`, `out0` before; `auth1`, `out1` after).
pub open spec fn ssh_poll_effect(t: Seq<SocketView>, auth0: bool, out0: Seq<Seq<char>>, auth1: bool, out1: Seq<Seq<char>>) -> bool {
    match ssh_command(t) {
        None => auth1 == auth0 && out1 == out0,
        Some(cmd) => {
            let (a, line) = ssh_reply(auth0, cmd);
            auth1 == a && out1 == queued(out0, line)
        },
    }
}

/// Takes what arrived on port 22 and, when it is text, answers the trimmed command.
pub fn poll_ssh_events(ssh: &mut SshState, tcp: &mut SocketTable)
    ensures
        final(tcp).view() == drained(old(tcp).view(), SSH_PORT),
        ssh_poll_effect(old(tcp).view(), old(ssh).authenticated, output_view(old(ssh).output@),
            final(ssh).authenticated, output_view(final(ssh).output@)),
{
    match receive_data_from_port(tcp, SSH_PORT) {
        None => {},
        Some(data) => {
            match utf8_text(data.as_slice()) {
                None => {},
                Some(text) => {
                    let raw = str_to_chars(text);
                    let cmd = trim_chars(raw.as_slice());
                    let (auth, line) = reply_for(ssh.authenticated, &cmd);
                    ssh.authenticated = auth;
                    queue_output(ssh, line);
                },
            }
        },
    }
}

/// Takes the oldest queued output line.
pub fn read_ssh_output(ssh: &mut SshState) -> (r: Option<String>)
    ensures
        output_view(old(ssh).output@).len() == 0 ==> r is None && output_view(final(ssh).output@) == output_view(old(ssh).output@),
        output_view(old(ssh).output@).len() > 0 ==> (r matches Some(s) && s@ == output_view(old(ssh).output@)[0])
            && output_view(final(ssh).output@) == output_view(old(ssh).output@).drop_first(),
        final(ssh).authenticated == old(ssh).authenticated,
{
    let ghost q0 = ssh.output@;
    let r = ssh.output.pop_front();
    assert(output_view(ssh.output@) =~= if q0.len() > 0 { output_view(q0).drop_first() } else { output_view(q0) });
    r
}

} // verus!
