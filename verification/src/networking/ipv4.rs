//! IPv4 packets: a fixed 20-byte header followed by the payload.
use vstd::prelude::*;

verus! {

/// ICMP protocol number.
pub const PROTO_ICMP: u8 = 1;
/// TCP protocol number.
pub const PROTO_TCP: u8 = 6;
/// UDP protocol number.
pub const PROTO_UDP: u8 = 17;
/// Bytes of the IPv4 header.
pub const IPV4_HEADER_LEN: usize = 20;

/// An IPv4 address.
#[derive(Debug, Clone, Copy, PartialEq, Eq, Structural)]
pub struct Ipv4Addr {
    pub a: u8,
    pub b: u8,
    pub c: u8,
    pub d: u8,
}

impl Ipv4Addr {
    /// The address `a.b.c.d`.
    pub fn new(a: u8, b: u8, c: u8, d: u8) -> (r: Ipv4Addr)
        ensures
            r == (Ipv4Addr { a, b, c, d }),
    {
        Ipv4Addr { a, b, c, d }
    }

    /// The four octets, most significant first.
    pub fn octets(&self) -> (r: [u8; 4])
        ensures
            r@ == seq![self.a, self.b, self.c, self.d],
    {
        let r = [self.a, self.b, self.c, self.d];
        assert(r@ =~= seq![self.a, self.b, self.c, self.d]);
        r
    }
}

/// The loopback address 127.0.0.1.
pub open spec fn loopback() -> Ipv4Addr {
    Ipv4Addr { a: 127, b: 0, c: 0, d: 1 }
}

/// The header fields this stack reads.
#[derive(Debug, Clone, Copy, PartialEq, Eq, Structural)]
pub struct Ipv4Header {
    pub version: u8,
    pub ttl: u8,
    pub protocol: u8,
    pub src_ip: Ipv4Addr,
    pub dest_ip: Ipv4Addr,
}

/// A parsed packet.
#[derive(Debug)]
pub struct IpPacket {
    pub header: Ipv4Header,
    pub payload: Vec<u8>,
}

/// The header `parse_ip_packet` reads from `data`: version from the high nibble of byte 0,
/// TTL from byte 8, protocol from byte 9, addresses from bytes 12..16 and 16..20.
pub open spec fn header_of(data: Seq<u8>) -> Ipv4Header {
    Ipv4Header {
        version: data[0] / 16,
        ttl: data[8],
        protocol: data[9],
        src_ip: Ipv4Addr { a: data[12], b: data[13], c: data[14], d: data[15] },
        dest_ip: Ipv4Addr { a: data[16], b: data[17], c: data[18], d: data[19] },
    }
}

/// Parses a packet; at least a full header is needed.
pub fn parse_ip_packet(data: &[u8]) -> (r: Result<IpPacket, String>)
    ensures
        data@.len() < IPV4_HEADER_LEN ==> (r matches Err(e) && e@ == "IP Packet too short"@),
        data@.len() >= IPV4_HEADER_LEN ==> (r matches Ok(p) && p.header == header_of(data@)
            && p.payload@ == data@.subrange(20, data@.len() as int)),
{
    if data.len() < IPV4_HEADER_LEN {
        return Err(String::from_str("IP Packet too short"));
    }
    let header = Ipv4Header {
        version: data[0] / 16,
        ttl: data[8],
        protocol: data[9],
        src_ip: Ipv4Addr::new(data[12], data[13], data[14], data[15]),
        dest_ip: Ipv4Addr::new(data[16], data[17], data[18], data[19]),
    };
    let mut payload: Vec<u8> = Vec::new();
    let mut i: usize = IPV4_HEADER_LEN;
    while i < data.len()
        invariant
            IPV4_HEADER_LEN <= i <= data@.len(),
            payload@ == data@.subrange(20, i as int),
        decreases data@.len() - i,
    {
        payload.push(data[i]);
        i = i + 1;
    }
    Ok(IpPacket { header, payload })
}

/// The header `build_ip_packet` writes: version 4 and a five-word header length, TTL 64,
/// the protocol and both addresses, zeros elsewhere.
pub open spec fn built_header(src: Ipv4Addr, dest: Ipv4Addr, protocol: u8) -> Seq<u8> {
    seq![0x45u8, 0, 0, 0, 0, 0, 0, 0, 64, protocol, 0, 0, src.a, src.b, src.c, src.d, dest.a, dest.b, dest.c, dest.d]
}

/// Builds a packet from the addresses, protocol and payload.
pub fn build_ip_packet(src: Ipv4Addr, dest: Ipv4Addr, protocol: u8, payload: &[u8]) -> (r: Vec<u8>)
    ensures
        r@ == built_header(src, dest, protocol) + payload@,
{
    let mut packet: Vec<u8> = vec![0u8; IPV4_HEADER_LEN];
    packet.set(0, 0x45);
    packet.set(8, 64);
    packet.set(9, protocol);
    let s = src.octets();
    let d = dest.octets();
    let mut k: usize = 0;
    while k < 4
        invariant
            k <= 4,
            packet@.len() == 20,
            s@ == seq![src.a, src.b, src.c, src.d],
            d@ == seq![dest.a, dest.b, dest.c, dest.d],
            packet@[0] == 0x45u8,
            packet@[8] == 64u8,
            packet@[9] == protocol,
            forall|i: int| 1 <= i < 8 ==> packet@[i] == 0u8,
            forall|i: int| 10 <= i < 12 ==> packet@[i] == 0u8,
            forall|i: int| 0 <= i < k ==> packet@[12 + i] == s@[i] && packet@[16 + i] == d@[i],
        decreases 4 - k,
    {
        packet.set(12 + k, s[k]);
        packet.set(16 + k, d[k]);
        k = k + 1;
    }
    assert(packet@ =~= built_header(src, dest, protocol));
    let mut i: usize = 0;
    while i < payload.len()
        invariant
            i <= payload@.len(),
            packet@ == built_header(src, dest, protocol) + payload@.subrange(0, i as int),
        decreases payload@.len() - i,
    {
        packet.push(payload[i]);
        i = i + 1;
        assert(packet@ =~= built_header(src, dest, protocol) + payload@.subrange(0, i as int));
    }
    assert(payload@.subrange(0, i as int) =~= payload@);
    packet
}

/// Parsing a built packet gives back its addresses, protocol and payload, with version 4
/// and TTL 64.
pub proof fn lemma_parse_build(src: Ipv4Addr, dest: Ipv4Addr, protocol: u8, payload: Seq<u8>)
    ensures
        (built_header(src, dest, protocol) + payload).len() >= IPV4_HEADER_LEN,
        header_of(built_header(src, dest, protocol) + payload)
            == (Ipv4Header { version: 4, ttl: 64, protocol, src_ip: src, dest_ip: dest }),
        (built_header(src, dest, protocol) + payload).subrange(20, 20 + payload.len() as int) == payload,
{
    let p = built_header(src, dest, protocol) + payload;
    assert(p.subrange(20, 20 + payload.len() as int) =~= payload);
    assert(p[0] == 0x45u8);
}

} // verus!
