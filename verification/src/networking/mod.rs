//! The network stack: IPv4, a TCP socket table and the SSH remote console.
use vstd::prelude::*;
use std::collections::VecDeque;
use crate::drivers::network::{NetworkCard, FrameView, frames_view, frame_view, receive_frame, ETHERTYPE_IPV4};
use crate::networking::ipv4::{Ipv4Addr, header_of, parse_ip_packet, PROTO_TCP, IPV4_HEADER_LEN};
use crate::networking::tcp::{SocketTable, SocketView, init_tcp, route_incoming_tcp, routed, drained, listening_socket};
use crate::networking::ssh::{SshState, init_ssh, poll_ssh_events, ssh_poll_effect, output_view, SSH_PORT};

pub mod ipv4;
pub mod tcp;
pub mod ssh;

verus! {

/// The TCP socket table and the SSH daemon.
pub struct NetStack {
    pub tcp: SocketTable,
    pub ssh: SshState,
}

/// A fresh stack: the only socket is the SSH daemon listening on port 22.
pub fn init_networking() -> (n: NetStack)
    ensures
        n.tcp.view() == seq![listening_socket(SSH_PORT)],
        !n.ssh.authenticated,
        output_view(n.ssh.output@) == Seq::<Seq<char>>::empty(),
{
    let mut n = NetStack { tcp: init_tcp(), ssh: SshState { output: VecDeque::new(), authenticated: false } };
    init_ssh(&mut n.ssh, &mut n.tcp);
    assert(n.tcp.view() =~= seq![listening_socket(SSH_PORT)]);
    n
}

/// The TCP segment a received frame carries: source address, source port, destination port
/// and data, for an IPv4 frame holding a TCP packet with at least the four port bytes.
pub open spec fn tcp_segment(f: FrameView) -> Option<(Ipv4Addr, u16, u16, Seq<u8>)> {
    let p = f.3;
    if f.2 == ETHERTYPE_IPV4 && p.len() >= IPV4_HEADER_LEN && header_of(p).protocol == PROTO_TCP && p.len() >= 24 {
        let seg = p.subrange(20, p.len() as int);
        Some((header_of(p).src_ip, (seg[0] as int * 256 + seg[1] as int) as u16, (seg[2] as int * 256 + seg[3] as int) as u16,
            seg.subrange(4, seg.len() as int)))
    } else {
        None
    }
}

/// Takes one frame from the card and hands a TCP segment in it to its socket, then lets the
/// SSH daemon answer what arrived on port 22.
pub fn poll_network_card(n: &mut NetStack, nic: &mut NetworkCard)
    ensures
        final(nic).tx@ == old(nic).tx@,
        old(nic).rx@.len() == 0 ==> final(nic).rx@ == old(nic).rx@,
        old(nic).rx@.len() > 0 ==> final(nic).rx@ == old(nic).rx@.drop_first(),
        ({
            let t1 = if old(nic).rx@.len() > 0 {
                match tcp_segment(frame_view(old(nic).rx@[0])) {
                    Some((ip, sp, dp, data)) => routed(old(n).tcp.view(), ip, sp, dp, data),
                    None => old(n).tcp.view(),
                }
            } else {
                old(n).tcp.view()
            };
            &&& final(n).tcp.view() == drained(t1, SSH_PORT)
            &&& ssh_poll_effect(t1, old(n).ssh.authenticated, output_view(old(n).ssh.output@),
                final(n).ssh.authenticated, output_view(final(n).ssh.output@))
        }),
{
    match receive_frame(nic) {
        Some(frame) => {
            if frame.ethertype == ETHERTYPE_IPV4 {
                match parse_ip_packet(frame.payload.as_slice()) {
                    Ok(pkt) => {
                        if pkt.header.protocol == PROTO_TCP {
                            let p = &pkt.payload;
                            if p.len() >= 4 {
                                let src_port = (p[0] as u16) * 256 + (p[1] as u16);
                                let dest_port = (p[2] as u16) * 256 + (p[3] as u16);
                                let mut data: Vec<u8> = Vec::new();
                                let mut i: usize = 4;
                                while i < p.len()
                                    invariant
                                        4 <= i <= p@.len(),
                                        data@ == p@.subrange(4, i as int),
                                    decreases p@.len() - i,
                                {
                                    data.push(p[i]);
                                    i = i + 1;
                                }
                                proof {
                                    let f = frame_view(frame);
                                    assert(f.3 == frame.payload@);
                                    let seg = f.3.subrange(20, f.3.len() as int);
                                    assert(seg == p@);
                                    assert(seg.subrange(4, seg.len() as int) =~= data@);
                                }
                                route_incoming_tcp(&mut n.tcp, pkt.header.src_ip, src_port, dest_port, data.as_slice());
                            }
                        }
                    },
                    Err(_) => {},
                }
            }
        },
        None => {},
    }
    poll_ssh_events(&mut n.ssh, &mut n.tcp);
}

} // verus!
