//! The TCP socket table: binding, receiving into per-socket buffers and sending over the card.
use vstd::prelude::*;
use std::collections::VecDeque;
use crate::networking::ipv4::{Ipv4Addr, loopback, build_ip_packet, built_header, PROTO_TCP};
use crate::drivers::network::{NetworkCard, EthFrame, transmit_frame, my_mac, broadcast_mac, my_mac_spec,
    broadcast_mac_spec, frames_view, frame_view, loops_back, ETHERTYPE_IPV4};

verus! {

/// Connection state of a socket.
#[derive(Debug, Clone, Copy, PartialEq, Eq, Structural)]
pub enum TcpState {
    Closed,
    Listen,
    SynSent,
    SynReceived,
    Established,
    FinWait,
}

/// A socket with its receive and transmit buffers.
#[derive(Debug)]
pub struct TcpSocket {
    pub local_ip: Ipv4Addr,
    pub local_port: u16,
    pub remote_ip: Option<Ipv4Addr>,
    pub remote_port: Option<u16>,
    pub state: TcpState,
    pub rx_buffer: VecDeque<u8>,
    pub tx_buffer: VecDeque<u8>,
}

/// A socket as plain values: local address and port, peer address and port, state,
/// received and transmitted bytes.
pub type SocketView = (Ipv4Addr, u16, Option<Ipv4Addr>, Option<u16>, TcpState, Seq<u8>, Seq<u8>);

/// The view of a socket.
pub open spec fn socket_view(s: TcpSocket) -> SocketView {
    (s.local_ip, s.local_port, s.remote_ip, s.remote_port, s.state, s.rx_buffer@, s.tx_buffer@)
}

/// The views of a socket list.
pub open spec fn sockets_view(s: Seq<TcpSocket>) -> Seq<SocketView> {
    s.map_values(|x: TcpSocket| socket_view(x))
}

/// All sockets, in binding order.
pub struct SocketTable {
    pub sockets: Vec<TcpSocket>,
}

impl SocketTable {
    /// The sockets as plain values.
    pub open spec fn view(&self) -> Seq<SocketView> {
        sockets_view(self.sockets@)
    }
}

/// An empty socket table.
pub fn init_tcp() -> (t: SocketTable)
    ensures
        t.view() == Seq::<SocketView>::empty(),
{
    let t = SocketTable { sockets: Vec::new() };
    assert(t.view() =~= Seq::<SocketView>::empty());
    t
}

/// Some socket listens on `port`.
pub open spec fn port_listening(s: Seq<SocketView>, port: u16) -> bool {
    exists|i: int| 0 <= i < s.len() && s[i].1 == port && s[i].4 == TcpState::Listen
}

/// A new listening socket on the loopback address.
pub open spec fn listening_socket(port: u16) -> SocketView {
    (loopback(), port, None, None, TcpState::Listen, Seq::empty(), Seq::empty())
}

/// Binds a listening socket to `port`, unless one already listens there.
pub fn bind_socket(t: &mut SocketTable, port: u16) -> (r: Result<(), String>)
    ensures
        port_listening(old(t).view(), port) ==> (r matches Err(e) && e@ == "Port already in use"@) && final(t).view() == old(t).view(),
        !port_listening(old(t).view(), port) ==> r is Ok && final(t).view() == old(t).view().push(listening_socket(port)),
{
    let ghost sv = t.view();
    let mut i: usize = 0;
    while i < t.sockets.len()
        invariant
            i <= t.sockets@.len(),
            sv == t.view(),
            forall|k: int| 0 <= k < i ==> !(sv[k].1 == port && sv[k].4 == TcpState::Listen),
        decreases t.sockets@.len() - i,
    {
        if t.sockets[i].local_port == port && t.sockets[i].state == TcpState::Listen {
            assert(sv[i as int].1 == port && sv[i as int].4 == TcpState::Listen);
            return Err(String::from_str("Port already in use"));
        }
        i = i + 1;
    }
    let ghost s0 = t.sockets@;
    t.sockets.push(TcpSocket {
        local_ip: Ipv4Addr::new(127, 0, 0, 1),
        local_port: port,
        remote_ip: None,
        remote_port: None,
        state: TcpState::Listen,
        rx_buffer: VecDeque::new(),
        tx_buffer: VecDeque::new(),
    });
    assert(t.view() =~= sockets_view(s0).push(listening_socket(port)));
    Ok(())
}

/// Position of the first socket bound to `port`.
pub open spec fn first_on_port(s: Seq<SocketView>, port: u16) -> Option<int> {
    if exists|i: int| 0 <= i < s.len() && s[i].1 == port && forall|k: int| 0 <= k < i ==> s[k].1 != port {
        Some(choose|i: int| 0 <= i < s.len() && s[i].1 == port && forall|k: int| 0 <= k < i ==> s[k].1 != port)
    } else {
        None
    }
}

/// Position of the first socket bound to `port`.
fn find_port(t: &SocketTable, port: u16) -> (r: Option<usize>)
    ensures
        r matches Some(i) ==> first_on_port(t.view(), port) == Some(i as int) && i < t.sockets@.len(),
        r is None ==> first_on_port(t.view(), port) is None,
{
    let ghost sv = t.view();
    let mut i: usize = 0;
    while i < t.sockets.len()
        invariant
            i <= t.sockets@.len(),
            sv == t.view(),
            sv.len() == t.sockets@.len(),
            forall|k: int| 0 <= k < i ==> sv[k].1 != port,
        decreases t.sockets@.len() - i,
    {
        if t.sockets[i].local_port == port {
            proof {
                assert(sv[i as int].1 == port);
                let c = choose|c: int| 0 <= c < sv.len() && sv[c].1 == port && forall|k: int| 0 <= k < c ==> sv[k].1 != port;
                if c < i { } else if c > i { assert(sv[i as int].1 != port); }
            }
            return Some(i);
        }
        i = i + 1;
    }
    None
}

/// What is waiting on the first socket bound to `port`, if anything.
pub open spec fn pending_on(t: Seq<SocketView>, port: u16) -> Option<Seq<u8>> {
    match first_on_port(t, port) {
        Some(i) => if t[i].5.len() > 0 { Some(t[i].5) } else { None },
        None => None,
    }
}

/// The socket table after the data waiting on `port` was taken.
pub open spec fn drained(t: Seq<SocketView>, port: u16) -> Seq<SocketView> {
    match first_on_port(t, port) {
        Some(i) => if t[i].5.len() > 0 {
            let s = t[i];
            t.update(i, (s.0, s.1, s.2, s.3, s.4, Seq::empty(), s.6))
        } else {
            t
        },
        None => t,
    }
}

/// Takes everything received on the first socket bound to `port`, if there is anything.
pub fn receive_data_from_port(t: &mut SocketTable, port: u16) -> (r: Option<Vec<u8>>)
    ensures
        match pending_on(old(t).view(), port) {
            Some(d) => r matches Some(x) && x@ == d,
            None => r is None,
        },
        final(t).view() == drained(old(t).view(), port),
{
    match find_port(t, port) {
        None => None,
        Some(i) => {
            if t.sockets[i].rx_buffer.len() == 0 {
                return None;
            }
            let ghost s0 = t.sockets@;
            let mut sock = t.sockets.remove(i);
            assert(sock == s0[i as int]);
            let ghost rx0 = sock.rx_buffer@;
            let ghost head = (sock.local_ip, sock.local_port, sock.remote_ip, sock.remote_port, sock.state);
            let ghost tx0 = sock.tx_buffer@;
            let mut data: Vec<u8> = Vec::new();
            while sock.rx_buffer.len() > 0
                invariant
                    data@ + sock.rx_buffer@ == rx0,
                    head == (sock.local_ip, sock.local_port, sock.remote_ip, sock.remote_port, sock.state),
                    tx0 == sock.tx_buffer@,
                decreases sock.rx_buffer@.len(),
            {
                let ghost before = sock.rx_buffer@;
                match sock.rx_buffer.pop_front() {
                    Some(b) => {
                        data.push(b);
                        assert(data@ + sock.rx_buffer@ =~= rx0);
                    },
                    None => {},
                }
            }
            assert(sock.rx_buffer@ =~= Seq::<u8>::empty());
            assert(data@ =~= rx0);
            assert(socket_view(sock) == (head.0, head.1, head.2, head.3, head.4, Seq::<u8>::empty(), tx0));
            t.sockets.insert(i, sock);
            proof {
                let s1 = t.sockets@;
                assert(s1 =~= s0.update(i as int, s1[i as int]));
                assert(t.view() =~= sockets_view(s0).update(i as int, {
                    let s = sockets_view(s0)[i as int];
                    (s.0, s.1, s.2, s.3, s.4, Seq::<u8>::empty(), s.6)
                }));
            }
            Some(data)
        },
    }
}

/// Appends `data` to a byte queue.
fn extend_bytes(q: &mut VecDeque<u8>, data: &[u8])
    ensures
        final(q)@ == old(q)@ + data@,
{
    let mut i: usize = 0;
    while i < data.len()
        invariant
            i <= data@.len(),
            q@ == old(q)@ + data@.subrange(0, i as int),
        decreases data@.len() - i,
    {
        q.push_back(data[i]);
        i = i + 1;
        assert(q@ =~= old(q)@ + data@.subrange(0, i as int));
    }
    assert(data@.subrange(0, i as int) =~= data@);
}

/// The frame `send_data_to_port` transmits for a socket with peer `remote`: an IPv4 TCP packet
/// from the loopback address to the peer (or the loopback address), broadcast from this card.
pub open spec fn sent_frame(remote: Option<Ipv4Addr>, data: Seq<u8>) -> crate::drivers::network::FrameView {
    let dest = match remote { Some(a) => a, None => loopback() };
    (my_mac_spec(), broadcast_mac_spec(), ETHERTYPE_IPV4, built_header(loopback(), dest, PROTO_TCP) + data)
}

/// Queues `data` on the first socket bound to `port` and transmits it at once.
pub fn send_data_to_port(t: &mut SocketTable, nic: &mut NetworkCard, port: u16, data: &[u8]) -> (r: Result<(), String>)
    ensures
        match first_on_port(old(t).view(), port) {
            None => (r matches Err(e) && e@ == "Socket not found"@) && final(t).view() == old(t).view()
                && final(nic).rx@ == old(nic).rx@ && final(nic).tx@ == old(nic).tx@,
            Some(i) => {
                let s = old(t).view()[i];
                let f = sent_frame(s.2, data@);
                &&& r is Ok
                &&& final(t).view() == old(t).view().update(i, (s.0, s.1, s.2, s.3, s.4, s.5, s.6 + data@))
                &&& frames_view(final(nic).tx@) == frames_view(old(nic).tx@).push(f)
                &&& frames_view(final(nic).rx@) == frames_view(old(nic).rx@).push(f)
            },
        },
{
    match find_port(t, port) {
        None => Err(String::from_str("Socket not found")),
        Some(i) => {
            let ghost s0 = t.sockets@;
            let mut sock = t.sockets.remove(i);
            extend_bytes(&mut sock.tx_buffer, data);
            let dest = match sock.remote_ip {
                Some(a) => a,
                None => Ipv4Addr::new(127, 0, 0, 1),
            };
            let payload = build_ip_packet(Ipv4Addr::new(127, 0, 0, 1), dest, PROTO_TCP, data);
            t.sockets.insert(i, sock);
            proof {
                let s1 = t.sockets@;
                assert(s1 =~= s0.update(i as int, s1[i as int]));
                let s = sockets_view(s0)[i as int];
                assert(t.view() =~= sockets_view(s0).update(i as int, (s.0, s.1, s.2, s.3, s.4, s.5, s.6 + data@)));
            }
            let frame = EthFrame { src_mac: my_mac(), dest_mac: broadcast_mac(), ethertype: ETHERTYPE_IPV4, payload };
            assert(loops_back(frame_view(frame)));
            transmit_frame(nic, frame);
            Ok(())
        },
    }
}

/// The socket table after a segment from `src_ip:src_port` carrying `data` arrives for
/// `dest_port`.
pub open spec fn routed(t: Seq<SocketView>, src_ip: Ipv4Addr, src_port: u16, dest_port: u16, data: Seq<u8>) -> Seq<SocketView> {
    match first_on_port(t, dest_port) {
        None => t,
        Some(i) => {
            let s = t[i];
            t.update(i, if s.4 == TcpState::Listen {
                (s.0, s.1, Some(src_ip), Some(src_port), TcpState::Established, s.5 + data, s.6)
            } else {
                (s.0, s.1, s.2, s.3, s.4, s.5 + data, s.6)
            })
        },
    }
}

/// Two socket tables that bind the same ports in the same order have the same first socket
/// on every port.
proof fn lemma_first_on_port_same_ports(t: Seq<SocketView>, u: Seq<SocketView>, port: u16)
    requires
        t.len() == u.len(),
        forall|k: int| 0 <= k < t.len() ==> (#[trigger] t[k]).1 == u[k].1,
    ensures
        first_on_port(u, port) == first_on_port(t, port),
{
    if exists|i: int| 0 <= i < t.len() && t[i].1 == port && forall|k: int| 0 <= k < i ==> t[k].1 != port {
        let a = choose|i: int| 0 <= i < t.len() && t[i].1 == port && forall|k: int| 0 <= k < i ==> t[k].1 != port;
        assert(u[a].1 == port && forall|k: int| 0 <= k < a ==> u[k].1 != port) by {
            assert(t[a].1 == u[a].1);
            assert forall|k: int| 0 <= k < a implies u[k].1 != port by {
                assert(t[k].1 == u[k].1);
            }
        }
        let b = choose|i: int| 0 <= i < u.len() && u[i].1 == port && forall|k: int| 0 <= k < i ==> u[k].1 != port;
        assert(t[b].1 == u[b].1);
        if a < b {
            assert(u[a].1 != port);
        } else if b < a {
            assert(t[b].1 != port);
        }
    } else {
        if exists|i: int| 0 <= i < u.len() && u[i].1 == port && forall|k: int| 0 <= k < i ==> u[k].1 != port {
            let b = choose|i: int| 0 <= i < u.len() && u[i].1 == port && forall|k: int| 0 <= k < i ==> u[k].1 != port;
            assert(t[b].1 == u[b].1);
            assert forall|k: int| 0 <= k < b implies t[k].1 != port by {
                assert(t[k].1 == u[k].1);
            }
        }
    }
}

/// Delivering a segment to a port whose first socket exists appends the data to that
/// socket's receive buffer, behind whatever was already waiting, and changes no other socket;
/// the same socket stays the first one on the port.
pub proof fn lemma_delivery_appends(t: Seq<SocketView>, src_ip: Ipv4Addr, src_port: u16, port: u16, data: Seq<u8>)
    requires
        first_on_port(t, port) is Some,
    ensures
        ({
            let i = first_on_port(t, port)->0;
            let u = routed(t, src_ip, src_port, port, data);
            &&& 0 <= i < t.len()
            &&& u.len() == t.len()
            &&& u[i].5 == t[i].5 + data
            &&& u[i].0 == t[i].0
            &&& u[i].1 == t[i].1
            &&& u[i].6 == t[i].6
            &&& forall|k: int| 0 <= k < t.len() && k != i ==> #[trigger] u[k] == t[k]
            &&& first_on_port(u, port) == Some(i)
        }),
{
    let i = first_on_port(t, port)->0;
    let u = routed(t, src_ip, src_port, port, data);
    assert(0 <= i < t.len() && t[i].1 == port);
    assert forall|k: int| 0 <= k < t.len() implies (#[trigger] t[k]).1 == u[k].1 by {}
    lemma_first_on_port_same_ports(t, u, port);
}

/// Data delivered in two segments is read back whole and in order: after two deliveries to
/// a port, receiving on it gives what was waiting, then the first segment, then the second.
pub proof fn lemma_two_deliveries_read_in_order(
    t: Seq<SocketView>,
    ip1: Ipv4Addr,
    sp1: u16,
    d1: Seq<u8>,
    ip2: Ipv4Addr,
    sp2: u16,
    d2: Seq<u8>,
    port: u16,
)
    requires
        first_on_port(t, port) is Some,
        (t[first_on_port(t, port)->0].5 + d1 + d2).len() > 0,
    ensures
        pending_on(routed(routed(t, ip1, sp1, port, d1), ip2, sp2, port, d2), port)
            == Some(t[first_on_port(t, port)->0].5 + d1 + d2),
{
    let i = first_on_port(t, port)->0;
    let u1 = routed(t, ip1, sp1, port, d1);
    lemma_delivery_appends(t, ip1, sp1, port, d1);
    lemma_delivery_appends(u1, ip2, sp2, port, d2);
    let u2 = routed(u1, ip2, sp2, port, d2);
    assert(u2[i].5 == u1[i].5 + d2);
    assert(u1[i].5 == t[i].5 + d1);
}

/// Receiving takes everything that waits on a port: right after a receive nothing more is
/// pending there, and only the receive buffer of the port's first socket changed.
pub proof fn lemma_receive_takes_everything(t: Seq<SocketView>, port: u16)
    ensures
        pending_on(drained(t, port), port) is None,
        drained(t, port).len() == t.len(),
        first_on_port(drained(t, port), port) == first_on_port(t, port),
        forall|k: int| 0 <= k < t.len() && Some(k) != first_on_port(t, port) ==> #[trigger] drained(t, port)[k] == t[k],
{
    let u = drained(t, port);
    assert forall|k: int| 0 <= k < t.len() implies (#[trigger] t[k]).1 == u[k].1 by {}
    lemma_first_on_port_same_ports(t, u, port);
}

/// Delivers `data` to the first socket bound to `dest_port`; a listening socket becomes
/// established with the sender as its peer.
pub fn route_incoming_tcp(t: &mut SocketTable, src_ip: Ipv4Addr, src_port: u16, dest_port: u16, data: &[u8])
    ensures
        final(t).view() == routed(old(t).view(), src_ip, src_port, dest_port, data@),
{
    match find_port(t, dest_port) {
        None => {},
        Some(i) => {
            let ghost s0 = t.sockets@;
            let mut sock = t.sockets.remove(i);
            if sock.state == TcpState::Listen {
                sock.state = TcpState::Established;
                sock.remote_ip = Some(src_ip);
                sock.remote_port = Some(src_port);
            }
            extend_bytes(&mut sock.rx_buffer, data);
            t.sockets.insert(i, sock);
            proof {
                let s1 = t.sockets@;
                assert(s1 =~= s0.update(i as int, s1[i as int]));
                let s = sockets_view(s0)[i as int];
                assert(t.view() =~= sockets_view(s0).update(i as int, if s.4 == TcpState::Listen {
                    (s.0, s.1, Some(src_ip), Some(src_port), TcpState::Established, s.5 + data@, s.6)
                } else {
                    (s.0, s.1, s.2, s.3, s.4, s.5 + data@, s.6)
                }));
            }
        },
    }
}

} // verus!
