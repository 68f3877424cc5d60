//! Virtual network card with receive and transmit queues and a loopback path.
use vstd::prelude::*;
use std::collections::VecDeque;

verus! {

/// The IPv4 ethertype.
pub const ETHERTYPE_IPV4: u16 = 0x0800;

/// An Ethernet frame.
#[derive(Debug)]
pub struct EthFrame {
    pub src_mac: [u8; 6],
    pub dest_mac: [u8; 6],
    pub ethertype: u16,
    pub payload: Vec<u8>,
}

/// What a frame carries: source, destination, ethertype, payload.
pub type FrameView = (Seq<u8>, Seq<u8>, u16, Seq<u8>);

/// The view of a frame.
pub open spec fn frame_view(f: EthFrame) -> FrameView {
    (f.src_mac@, f.dest_mac@, f.ethertype, f.payload@)
}

/// The views of a sequence of frames.
pub open spec fn frames_view(s: Seq<EthFrame>) -> Seq<FrameView> {
    s.map_values(|f: EthFrame| frame_view(f))
}

/// The MAC address of this card.
pub open spec fn my_mac_spec() -> Seq<u8> {
    seq![0x00u8, 0x16, 0x3e, 0x11, 0x22, 0x33]
}

/// The broadcast MAC address.
pub open spec fn broadcast_mac_spec() -> Seq<u8> {
    seq![0xFFu8, 0xFF, 0xFF, 0xFF, 0xFF, 0xFF]
}

/// The MAC address of this card.
pub fn my_mac() -> (m: [u8; 6])
    ensures
        m@ == my_mac_spec(),
{
    let m: [u8; 6] = [0x00, 0x16, 0x3e, 0x11, 0x22, 0x33];
    assert(m@ =~= my_mac_spec());
    m
}

/// The broadcast MAC address.
pub fn broadcast_mac() -> (m: [u8; 6])
    ensures
        m@ == broadcast_mac_spec(),
{
    let m: [u8; 6] = [0xFF, 0xFF, 0xFF, 0xFF, 0xFF, 0xFF];
    assert(m@ =~= broadcast_mac_spec());
    m
}

/// Whether two MAC addresses are equal.
pub fn mac_eq(a: &[u8; 6], b: &[u8; 6]) -> (r: bool)
    ensures
        r == (a@ == b@),
{
    let mut i: usize = 0;
    while i < 6
        invariant
            i <= 6,
            a@.len() == 6,
            b@.len() == 6,
            forall|k: int| 0 <= k < i ==> a@[k] == b@[k],
        decreases 6 - i,
    {
        if a[i] != b[i] {
            return false;
        }
        i = i + 1;
    }
    assert(a@ =~= b@);
    true
}

/// A copy of a byte vector.
pub fn copy_bytes(v: &Vec<u8>) -> (r: Vec<u8>)
    ensures
        r@ == v@,
{
    let mut r: Vec<u8> = Vec::new();
    let mut i: usize = 0;
    while i < v.len()
        invariant
            i <= v.len(),
            r@ == v@.subrange(0, i as int),
        decreases v.len() - i,
    {
        r.push(v[i]);
        i = i + 1;
    }
    assert(r@ =~= v@);
    r
}

impl EthFrame {
    /// A field-for-field copy of this frame.
    pub fn duplicate(&self) -> (r: EthFrame)
        ensures
            frame_view(r) == frame_view(*self),
    {
        EthFrame { src_mac: self.src_mac, dest_mac: self.dest_mac, ethertype: self.ethertype, payload: copy_bytes(&self.payload) }
    }
}

/// The card's queues: frames received and not yet read, and frames transmitted.
pub struct NetworkCard {
    pub rx: VecDeque<EthFrame>,
    pub tx: VecDeque<EthFrame>,
}

/// A card with both queues empty.
pub fn init_network() -> (n: NetworkCard)
    ensures
        n.rx@.len() == 0,
        n.tx@.len() == 0,
{
    NetworkCard { rx: VecDeque::new(), tx: VecDeque::new() }
}

/// Takes the oldest received frame, if any (never blocks).
pub fn receive_frame(n: &mut NetworkCard) -> (r: Option<EthFrame>)
    ensures
        old(n).rx@.len() == 0 ==> r is None && final(n).rx@ == old(n).rx@,
        old(n).rx@.len() > 0 ==> r == Some(old(n).rx@[0]) && final(n).rx@ == old(n).rx@.drop_first(),
        final(n).tx@ == old(n).tx@,
{
    n.rx.pop_front()
}

/// Whether a transmitted frame comes straight back: it is addressed to this card or broadcast.
pub open spec fn loops_back(f: FrameView) -> bool {
    f.1 == my_mac_spec() || f.1 == broadcast_mac_spec()
}

/// Transmits `frame`: it is logged, and looped back into the receive queue when it is
/// addressed to this card or broadcast.
pub fn transmit_frame(n: &mut NetworkCard, frame: EthFrame)
    ensures
        frames_view(final(n).tx@) == frames_view(old(n).tx@).push(frame_view(frame)),
        loops_back(frame_view(frame)) ==> frames_view(final(n).rx@) == frames_view(old(n).rx@).push(frame_view(frame)),
        !loops_back(frame_view(frame)) ==> final(n).rx@ == old(n).rx@,
{
    let ghost t0 = n.tx@;
    let ghost r0 = n.rx@;
    n.tx.push_back(frame.duplicate());
    assert(frames_view(n.tx@) =~= frames_view(t0).push(frame_view(frame)));
    let mine = my_mac();
    let bcast = broadcast_mac();
    if mac_eq(&frame.dest_mac, &mine) || mac_eq(&frame.dest_mac, &bcast) {
        let rx_frame = EthFrame {
            src_mac: frame.src_mac,
            dest_mac: frame.dest_mac,
            ethertype: frame.ethertype,
            payload: frame.payload,
        };
        n.rx.push_back(rx_frame);
        assert(frames_view(n.rx@) =~= frames_view(r0).push(frame_view(frame)));
    }
}

/// Queues a frame from an outside host, addressed to this card.
pub fn simulate_incoming_packet(n: &mut NetworkCard, src_mac: [u8; 6], ethertype: u16, payload: Vec<u8>)
    ensures
        frames_view(final(n).rx@) == frames_view(old(n).rx@).push((src_mac@, my_mac_spec(), ethertype, payload@)),
        final(n).tx@ == old(n).tx@,
{
    let ghost r0 = n.rx@;
    let frame = EthFrame { src_mac, dest_mac: my_mac(), ethertype, payload };
    n.rx.push_back(frame);
    assert(frames_view(n.rx@) =~= frames_view(r0).push((src_mac@, my_mac_spec(), ethertype, payload@)));
}

/// Takes the oldest entry of the transmit log, if any.
pub fn pop_tx_log(n: &mut NetworkCard) -> (r: Option<EthFrame>)
    ensures
        old(n).tx@.len() == 0 ==> r is None && final(n).tx@ == old(n).tx@,
        old(n).tx@.len() > 0 ==> r == Some(old(n).tx@[0]) && final(n).tx@ == old(n).tx@.drop_first(),
        final(n).rx@ == old(n).rx@,
{
    n.tx.pop_front()
}

} // verus!
