//! What a packet that arrives on the tun device asks for: its destination
//! endpoint and, for TCP and UDP, whether a socket should be set up for it.
//! The headers are read with smoltcp's packet views.

use vstd::prelude::*;
use smoltcp::wire::{IpVersion, Ipv4Packet, Ipv6Packet, TcpPacket, UdpPacket};

verus! {

/// An IP address: IPv4 as its 32 bits, IPv6 as its 128 bits, both read in
/// network (big-endian) order.
#[derive(Clone, Copy, Debug, PartialEq, Eq, Structural, Hash)]
pub enum IpAddress {
    V4(u32),
    V6(u128),
}

/// An address and a port.
#[derive(Clone, Copy, Debug, PartialEq, Eq, Structural, Hash)]
pub struct Endpoint {
    pub addr: IpAddress,
    pub port: u16,
}

/// The IP version that the first byte of a packet announces.
#[derive(Clone, Copy, Debug, PartialEq, Eq, Structural)]
pub enum IpFamily {
    V4,
    V6,
}

/// The transport protocol of a packet, and for TCP whether the segment opens
/// a connection (SYN set, ACK clear).
#[derive(Clone, Copy, Debug, PartialEq, Eq, Structural)]
pub enum Transport {
    Tcp { connect: bool },
    Udp,
}

/// The destination of a TCP or UDP packet.
#[derive(Clone, Copy, Debug, PartialEq, Eq, Structural)]
pub struct PacketTarget {
    pub endpoint: Endpoint,
    pub transport: Transport,
}

/// Why a packet could not be read. The device treats each of these as fatal.
#[derive(Clone, Copy, Debug, PartialEq, Eq, Structural)]
pub enum MalformedPacket {
    /// Empty, or the version nibble is neither 4 nor 6.
    UnknownIpVersion,
    /// The IP header does not fit the buffer or its own length fields.
    TruncatedIpHeader,
    /// The TCP or UDP header does not fit the IP payload or its own length fields.
    TruncatedTransportHeader,
}

/// What the device does for a packet: make sure a listening TCP socket or a
/// bound UDP socket exists for the endpoint, or nothing.
#[derive(Clone, Copy, Debug, PartialEq, Eq, Structural)]
pub enum SocketRequest {
    EnsureTcp(Endpoint),
    EnsureUdp(Endpoint),
    Nothing,
}

/// The IP protocol number of TCP.
pub const PROTOCOL_TCP: u8 = 6;

/// The IP protocol number of UDP.
pub const PROTOCOL_UDP: u8 = 17;

/// The unsigned number that the bytes `s` spell in big-endian order.
pub open spec fn be_value(s: Seq<u8>) -> nat
    decreases s.len(),
{
    if s.len() == 0 {
        0
    } else {
        be_value(s.drop_last()) * 256 + s.last() as nat
    }
}

/// The big-endian 16-bit field at `at`.
pub open spec fn be16_at(d: Seq<u8>, at: int) -> int {
    d[at] * 256 + d[at + 1]
}

/// The version that the high nibble of the first byte announces.
pub open spec fn ip_family_of(d: Seq<u8>) -> Option<IpFamily> {
    if d[0] / 16 == 4 {
        Some(IpFamily::V4)
    } else if d[0] / 16 == 6 {
        Some(IpFamily::V6)
    } else {
        None
    }
}

/// The IPv4 header length in bytes (IHL field times four).
pub open spec fn ipv4_header_len(d: Seq<u8>) -> int {
    (d[0] % 16) * 4
}

/// The IPv4 total length field.
pub open spec fn ipv4_total_len(d: Seq<u8>) -> int {
    be16_at(d, 2)
}

/// The length checks of an IPv4 packet: the fixed header fits, the header
/// fits, the header is no longer than the total length, the total fits.
pub open spec fn ipv4_fits(d: Seq<u8>) -> bool {
    &&& d.len() >= 20
    &&& d.len() >= ipv4_header_len(d)
    &&& ipv4_header_len(d) <= ipv4_total_len(d)
    &&& d.len() >= ipv4_total_len(d)
}

/// The length checks of an IPv6 packet: the fixed 40-byte header and the
/// payload that its length field announces fit.
pub open spec fn ipv6_fits(d: Seq<u8>) -> bool {
    &&& d.len() >= 40
    &&& d.len() >= 40 + be16_at(d, 4)
}

/// The TCP data offset in bytes.
pub open spec fn tcp_header_len(d: Seq<u8>) -> int {
    (d[12] / 16) * 4
}

/// The length checks of a TCP segment: the fixed 20-byte header fits, and
/// the data offset is at least 20 and fits.
pub open spec fn tcp_fits(d: Seq<u8>) -> bool {
    &&& d.len() >= 20
    &&& d.len() >= tcp_header_len(d)
    &&& tcp_header_len(d) >= 20
}

/// The length checks of a UDP datagram: the 8-byte header fits, and its
/// length field is at least 8 and fits.
pub open spec fn udp_fits(d: Seq<u8>) -> bool {
    &&& d.len() >= 8
    &&& d.len() >= be16_at(d, 4)
    &&& be16_at(d, 4) >= 8
}

/// Whether the TCP segment has SYN set and ACK clear.
pub open spec fn tcp_opens_connection(d: Seq<u8>) -> bool {
    (d[13] & 0x02u8) != 0 && (d[13] & 0x10u8) == 0
}

/// What the transport header of `payload`, carried with protocol number
/// `protocol` to address `addr`, asks for.
pub open spec fn spec_transport_target(addr: IpAddress, protocol: u8, payload: Seq<u8>) -> Result<
    Option<PacketTarget>,
    MalformedPacket,
> {
    if protocol == PROTOCOL_TCP {
        if tcp_fits(payload) {
            Ok(
                Some(
                    PacketTarget {
                        endpoint: Endpoint { addr, port: be16_at(payload, 2) as u16 },
                        transport: Transport::Tcp { connect: tcp_opens_connection(payload) },
                    },
                ),
            )
        } else {
            Err(MalformedPacket::TruncatedTransportHeader)
        }
    } else if protocol == PROTOCOL_UDP {
        if udp_fits(payload) {
            Ok(
                Some(
                    PacketTarget {
                        endpoint: Endpoint { addr, port: be16_at(payload, 2) as u16 },
                        transport: Transport::Udp,
                    },
                ),
            )
        } else {
            Err(MalformedPacket::TruncatedTransportHeader)
        }
    } else {
        Ok(None)
    }
}

/// What the packet `d` asks for: `Ok(None)` for a protocol other than TCP
/// and UDP, the destination of a TCP or UDP packet, or why it is malformed.
pub open spec fn spec_inspect_packet(d: Seq<u8>) -> Result<Option<PacketTarget>, MalformedPacket> {
    if d.len() == 0 {
        Err(MalformedPacket::UnknownIpVersion)
    } else {
        match ip_family_of(d) {
            None => Err(MalformedPacket::UnknownIpVersion),
            Some(IpFamily::V4) => {
                if ipv4_fits(d) {
                    spec_transport_target(
                        IpAddress::V4(be_value(d.subrange(16, 20)) as u32),
                        d[9],
                        d.subrange(ipv4_header_len(d), ipv4_total_len(d)),
                    )
                } else {
                    Err(MalformedPacket::TruncatedIpHeader)
                }
            },
            Some(IpFamily::V6) => {
                if ipv6_fits(d) {
                    spec_transport_target(
                        IpAddress::V6(be_value(d.subrange(24, 40)) as u128),
                        d[6],
                        d.subrange(40, 40 + be16_at(d, 4)),
                    )
                } else {
                    Err(MalformedPacket::TruncatedIpHeader)
                }
            },
        }
    }
}

/// `smoltcp::wire::IpVersion::of_packet`: reads the high nibble of the first
/// byte; 4 and 6 name a version, anything else is an error. It indexes the
/// first byte, so the buffer must not be empty.
#[verifier::external_body]
fn ip_version_of(data: &[u8]) -> (family: Option<IpFamily>)
    requires
        data@.len() > 0,
    ensures
        family == ip_family_of(data@),
{
    match IpVersion::of_packet(data) {
        Ok(IpVersion::Ipv4) => Some(IpFamily::V4),
        Ok(IpVersion::Ipv6) => Some(IpFamily::V6),
        Err(_) => None,
    }
}

/// `smoltcp::wire::Ipv4Packet::new_checked` followed by `dst_addr`,
/// `next_header` and `payload`: the view exists exactly when the length
/// checks pass; the destination is bytes 16..20, the protocol byte 9, and
/// the payload runs from the header length to the total length.
#[verifier::external_body]
fn ipv4_header<'a>(data: &'a [u8]) -> (parts: Option<(u32, u8, &'a [u8])>)
    ensures
        parts is Some <==> ipv4_fits(data@),
        parts matches Some((dst, protocol, payload)) ==> {
            &&& dst == be_value(data@.subrange(16, 20))
            &&& protocol == data@[9]
            &&& payload@ == data@.subrange(ipv4_header_len(data@), ipv4_total_len(data@))
        },
{
    match Ipv4Packet::new_checked(data) {
        Ok(packet) => Some(
            (u32::from_be_bytes(packet.dst_addr().0), u8::from(packet.next_header()), packet.payload()),
        ),
        Err(_) => None,
    }
}

/// `smoltcp::wire::Ipv6Packet::new_checked` followed by `dst_addr`,
/// `next_header` and `payload`: the view exists exactly when the length
/// checks pass; the destination is bytes 24..40, the next header byte 6, and
/// the payload the payload-length bytes after the 40-byte header.
#[verifier::external_body]
fn ipv6_header<'a>(data: &'a [u8]) -> (parts: Option<(u128, u8, &'a [u8])>)
    ensures
        parts is Some <==> ipv6_fits(data@),
        parts matches Some((dst, next_header, payload)) ==> {
            &&& dst == be_value(data@.subrange(24, 40))
            &&& next_header == data@[6]
            &&& payload@ == data@.subrange(40, 40 + be16_at(data@, 4))
        },
{
    match Ipv6Packet::new_checked(data) {
        Ok(packet) => Some(
            (u128::from_be_bytes(packet.dst_addr().0), u8::from(packet.next_header()), packet.payload()),
        ),
        Err(_) => None,
    }
}

/// `smoltcp::wire::TcpPacket::new_checked` followed by `dst_port`, `syn` and
/// `ack`: the view exists exactly when the length checks pass; the port is
/// bytes 2..4, SYN and ACK are bits 0x02 and 0x10 of byte 13.
#[verifier::external_body]
fn tcp_header(data: &[u8]) -> (parts: Option<(u16, bool, bool)>)
    ensures
        parts is Some <==> tcp_fits(data@),
        parts matches Some((port, syn, ack)) ==> {
            &&& port == be16_at(data@, 2)
            &&& syn == ((data@[13] & 0x02u8) != 0)
            &&& ack == ((data@[13] & 0x10u8) != 0)
        },
{
    match TcpPacket::new_checked(data) {
        Ok(packet) => Some((packet.dst_port(), packet.syn(), packet.ack())),
        Err(_) => None,
    }
}

/// `smoltcp::wire::UdpPacket::new_checked` followed by `dst_port`: the view
/// exists exactly when the length checks pass; the port is bytes 2..4.
#[verifier::external_body]
fn udp_header(data: &[u8]) -> (port: Option<u16>)
    ensures
        port is Some <==> udp_fits(data@),
        port matches Some(p) ==> p == be16_at(data@, 2),
{
    match UdpPacket::new_checked(data) {
        Ok(packet) => Some(packet.dst_port()),
        Err(_) => None,
    }
}

/// Reads the TCP or UDP header of `payload`, which the IP header said is
/// carried with protocol number `protocol` to `addr`.
pub fn transport_target(addr: IpAddress, protocol: u8, payload: &[u8]) -> (target: Result<
    Option<PacketTarget>,
    MalformedPacket,
>)
    ensures
        target == spec_transport_target(addr, protocol, payload@),
{
    if protocol == PROTOCOL_TCP {
        match tcp_header(payload) {
            Some((port, syn, ack)) => Ok(
                Some(
                    PacketTarget {
                        endpoint: Endpoint { addr, port },
                        transport: Transport::Tcp { connect: syn && !ack },
                    },
                ),
            ),
            None => Err(MalformedPacket::TruncatedTransportHeader),
        }
    } else if protocol == PROTOCOL_UDP {
        match udp_header(payload) {
            Some(port) => Ok(
                Some(PacketTarget { endpoint: Endpoint { addr, port }, transport: Transport::Udp }),
            ),
            None => Err(MalformedPacket::TruncatedTransportHeader),
        }
    } else {
        Ok(None)
    }
}

/// Reads the destination of a packet from the tun device: the IP version,
/// the IP header, and for TCP and UDP the transport header.
pub fn inspect_packet(data: &[u8]) -> (target: Result<Option<PacketTarget>, MalformedPacket>)
    ensures
        target == spec_inspect_packet(data@),
{
    if data.len() == 0 {
        return Err(MalformedPacket::UnknownIpVersion);
    }
    match ip_version_of(data) {
        None => Err(MalformedPacket::UnknownIpVersion),
        Some(IpFamily::V4) => match ipv4_header(data) {
            Some((dst, protocol, payload)) => transport_target(IpAddress::V4(dst), protocol, payload),
            None => Err(MalformedPacket::TruncatedIpHeader),
        },
        Some(IpFamily::V6) => match ipv6_header(data) {
            Some((dst, next_header, payload)) => transport_target(
                IpAddress::V6(dst),
                next_header,
                payload,
            ),
            None => Err(MalformedPacket::TruncatedIpHeader),
        },
    }
}

/// What the device does for a packet with destination `target`: nothing for
/// a private destination; for TCP, a listening socket only when the segment
/// opens a connection; for UDP, a bound socket.
pub open spec fn spec_socket_request(target: PacketTarget, private_destination: bool) -> SocketRequest {
    if private_destination {
        SocketRequest::Nothing
    } else {
        match target.transport {
            Transport::Tcp { connect } => if connect {
                SocketRequest::EnsureTcp(target.endpoint)
            } else {
                SocketRequest::Nothing
            },
            Transport::Udp => SocketRequest::EnsureUdp(target.endpoint),
        }
    }
}

/// Decides what the device does for a packet with destination `target`;
/// `private_destination` says whether the endpoint lies in a private range.
pub fn socket_request(target: &PacketTarget, private_destination: bool) -> (request: SocketRequest)
    ensures
        request == spec_socket_request(*target, private_destination),
{
    if private_destination {
        return SocketRequest::Nothing;
    }
    match target.transport {
        Transport::Tcp { connect } => if connect {
            SocketRequest::EnsureTcp(target.endpoint)
        } else {
            SocketRequest::Nothing
        },
        Transport::Udp => SocketRequest::EnsureUdp(target.endpoint),
    }
}

/// A packet to a private destination never gets a socket, and neither does
/// a TCP segment that does not open a connection.
pub proof fn law_no_socket_for_private_or_established(target: PacketTarget, private_destination: bool)
    ensures
        private_destination ==> spec_socket_request(target, private_destination)
            == SocketRequest::Nothing,
        target.transport == (Transport::Tcp { connect: false }) ==> spec_socket_request(
            target,
            private_destination,
        ) == SocketRequest::Nothing,
{
}

/// Bytes after the end that the IP header announces are not read: a packet
/// whose header fits reads the same with anything appended.
pub proof fn law_trailing_bytes_ignored(d: Seq<u8>, extra: Seq<u8>)
    requires
        d.len() > 0,
        ip_family_of(d) == Some(IpFamily::V4) ==> ipv4_fits(d),
        ip_family_of(d) == Some(IpFamily::V6) ==> ipv6_fits(d),
    ensures
        spec_inspect_packet(d + extra) == spec_inspect_packet(d),
{
    let e = d + extra;
    assert(e[0] == d[0]);
    assert(ip_family_of(e) == ip_family_of(d));
    match ip_family_of(d) {
        None => {},
        Some(IpFamily::V4) => {
            assert(e.subrange(16, 20) =~= d.subrange(16, 20));
            assert(e[9] == d[9] && e[2] == d[2] && e[3] == d[3]);
            assert(ipv4_fits(e));
            assert(e.subrange(ipv4_header_len(e), ipv4_total_len(e)) =~= d.subrange(
                ipv4_header_len(d),
                ipv4_total_len(d),
            ));
        },
        Some(IpFamily::V6) => {
            assert(e.subrange(24, 40) =~= d.subrange(24, 40));
            assert(e[6] == d[6] && e[4] == d[4] && e[5] == d[5]);
            assert(ipv6_fits(e));
            assert(e.subrange(40, 40 + be16_at(e, 4)) =~= d.subrange(40, 40 + be16_at(d, 4)));
        },
    }
}

/// The destination port of a TCP or UDP header: its bytes 2 and 3, high
/// byte first.
pub open spec fn header_dst_port(p: Seq<u8>) -> u16 {
    (p[2] as int * 256 + p[3] as int) as u16
}

/// Whether a TCP header opens a connection, read from its flags byte: SYN
/// (0x02) set and ACK (0x10) clear, whatever the other flags.
pub open spec fn syn_without_ack(p: Seq<u8>) -> bool {
    (p[13] & 0x02u8) != 0 && (p[13] & 0x10u8) == 0
}

/// What a transport header gives, for every protocol number: a fitting TCP
/// header gives the port and whether SYN is set without ACK; a fitting UDP
/// header gives the port; one that does not fit is malformed; any other
/// protocol asks for nothing. The address is passed through unchanged.
pub proof fn law_transport_target_cases(addr: IpAddress, protocol: u8, p: Seq<u8>)
    ensures
        protocol == 6 && tcp_fits(p) ==> spec_transport_target(addr, protocol, p) == Ok::<
            Option<PacketTarget>,
            MalformedPacket,
        >(
            Some(
                PacketTarget {
                    endpoint: Endpoint { addr, port: header_dst_port(p) },
                    transport: Transport::Tcp { connect: syn_without_ack(p) },
                },
            ),
        ),
        protocol == 17 && udp_fits(p) ==> spec_transport_target(addr, protocol, p) == Ok::<
            Option<PacketTarget>,
            MalformedPacket,
        >(
            Some(
                PacketTarget {
                    endpoint: Endpoint { addr, port: header_dst_port(p) },
                    transport: Transport::Udp,
                },
            ),
        ),
        (protocol == 6 && !tcp_fits(p)) || (protocol == 17 && !udp_fits(p)) ==> spec_transport_target(
            addr,
            protocol,
            p,
        ) == Err::<Option<PacketTarget>, MalformedPacket>(MalformedPacket::TruncatedTransportHeader),
        protocol != 6 && protocol != 17 ==> spec_transport_target(addr, protocol, p) == Ok::<
            Option<PacketTarget>,
            MalformedPacket,
        >(None),
{
}

/// Only the SYN and ACK bits decide whether a TCP segment opens a
/// connection: two headers that agree on those bits and on the port give
/// the same target, whatever their other flags (ECE, CWR, PSH, URG, ...).
pub proof fn law_connect_reads_syn_and_ack_only(addr: IpAddress, p: Seq<u8>, q: Seq<u8>)
    requires
        tcp_fits(p),
        tcp_fits(q),
        p[2] == q[2],
        p[3] == q[3],
        p[13] & 0x12u8 == q[13] & 0x12u8,
    ensures
        spec_transport_target(addr, 6, p) == spec_transport_target(addr, 6, q),
{
    let a = p[13];
    let b = q[13];
    assert(((a & 0x02u8) != 0) == ((b & 0x02u8) != 0) && ((a & 0x10u8) == 0) == ((b & 0x10u8) == 0))
        by (bit_vector)
        requires
            a & 0x12u8 == b & 0x12u8,
    ;
}

/// The IP version affects the result only through where the header puts
/// the destination address and the payload: an IPv4 packet and an IPv6
/// packet that carry the same protocol number and the same transport bytes
/// ask for the same thing, apart from the address.
pub proof fn law_same_reading_for_both_versions(v4: Seq<u8>, v6: Seq<u8>)
    requires
        v4.len() > 0,
        v6.len() > 0,
        v4[0] / 16 == 4,
        v6[0] / 16 == 6,
        ipv4_fits(v4),
        ipv6_fits(v6),
        v4[9] == v6[6],
        v4.subrange(ipv4_header_len(v4), ipv4_total_len(v4)) == v6.subrange(40, 40 + be16_at(v6, 4)),
    ensures
        spec_inspect_packet(v4) == spec_transport_target(
            IpAddress::V4(be_value(v4.subrange(16, 20)) as u32),
            v4[9],
            v4.subrange(ipv4_header_len(v4), ipv4_total_len(v4)),
        ),
        spec_inspect_packet(v6) == spec_transport_target(
            IpAddress::V6(be_value(v6.subrange(24, 40)) as u128),
            v4[9],
            v4.subrange(ipv4_header_len(v4), ipv4_total_len(v4)),
        ),
{
}

/// A well-formed IPv6 packet carrying a fitting TCP header gives its IPv6
/// destination, the TCP destination port, and whether SYN is set without
/// ACK, exactly as an IPv4 packet does; a fitting UDP header gives the
/// IPv6 destination and the UDP destination port.
pub proof fn law_ipv6_transport(d: Seq<u8>)
    requires
        d.len() > 0,
        d[0] / 16 == 6,
        ipv6_fits(d),
    ensures
        d[6] == 6 && tcp_fits(d.subrange(40, 40 + be16_at(d, 4))) ==> spec_inspect_packet(d) == Ok::<
            Option<PacketTarget>,
            MalformedPacket,
        >(
            Some(
                PacketTarget {
                    endpoint: Endpoint {
                        addr: IpAddress::V6(be_value(d.subrange(24, 40)) as u128),
                        port: header_dst_port(d.subrange(40, 40 + be16_at(d, 4))),
                    },
                    transport: Transport::Tcp {
                        connect: syn_without_ack(d.subrange(40, 40 + be16_at(d, 4))),
                    },
                },
            ),
        ),
        d[6] == 17 && udp_fits(d.subrange(40, 40 + be16_at(d, 4))) ==> spec_inspect_packet(d) == Ok::<
            Option<PacketTarget>,
            MalformedPacket,
        >(
            Some(
                PacketTarget {
                    endpoint: Endpoint {
                        addr: IpAddress::V6(be_value(d.subrange(24, 40)) as u128),
                        port: header_dst_port(d.subrange(40, 40 + be16_at(d, 4))),
                    },
                    transport: Transport::Udp,
                },
            ),
        ),
{
    law_transport_target_cases(
        IpAddress::V6(be_value(d.subrange(24, 40)) as u128),
        d[6],
        d.subrange(40, 40 + be16_at(d, 4)),
    );
}

/// A well-formed IPv4 packet carrying a fitting TCP or UDP header gives its
/// IPv4 destination and the transport destination port, and for TCP whether
/// SYN is set without ACK.
pub proof fn law_ipv4_transport(d: Seq<u8>)
    requires
        d.len() > 0,
        d[0] / 16 == 4,
        ipv4_fits(d),
    ensures
        d[9] == 6 && tcp_fits(d.subrange(ipv4_header_len(d), ipv4_total_len(d))) ==> spec_inspect_packet(d)
            == Ok::<Option<PacketTarget>, MalformedPacket>(
            Some(
                PacketTarget {
                    endpoint: Endpoint {
                        addr: IpAddress::V4(be_value(d.subrange(16, 20)) as u32),
                        port: header_dst_port(d.subrange(ipv4_header_len(d), ipv4_total_len(d))),
                    },
                    transport: Transport::Tcp {
                        connect: syn_without_ack(d.subrange(ipv4_header_len(d), ipv4_total_len(d))),
                    },
                },
            ),
        ),
        d[9] == 17 && udp_fits(d.subrange(ipv4_header_len(d), ipv4_total_len(d))) ==> spec_inspect_packet(d)
            == Ok::<Option<PacketTarget>, MalformedPacket>(
            Some(
                PacketTarget {
                    endpoint: Endpoint {
                        addr: IpAddress::V4(be_value(d.subrange(16, 20)) as u32),
                        port: header_dst_port(d.subrange(ipv4_header_len(d), ipv4_total_len(d))),
                    },
                    transport: Transport::Udp,
                },
            ),
        ),
{
    law_transport_target_cases(
        IpAddress::V4(be_value(d.subrange(16, 20)) as u32),
        d[9],
        d.subrange(ipv4_header_len(d), ipv4_total_len(d)),
    );
}

/// What the device asks for, for every destination and address family: a
/// private destination gets nothing; otherwise a UDP target gets a bound
/// socket and a connecting TCP target a listening one, both on exactly the
/// target's endpoint, and any other TCP segment gets nothing.
pub proof fn law_socket_request_cases(endpoint: Endpoint, private_destination: bool)
    ensures
        spec_socket_request(PacketTarget { endpoint, transport: Transport::Udp }, private_destination)
            == (if private_destination {
            SocketRequest::Nothing
        } else {
            SocketRequest::EnsureUdp(endpoint)
        }),
        spec_socket_request(
            PacketTarget { endpoint, transport: Transport::Tcp { connect: true } },
            private_destination,
        ) == (if private_destination {
            SocketRequest::Nothing
        } else {
            SocketRequest::EnsureTcp(endpoint)
        }),
        spec_socket_request(
            PacketTarget { endpoint, transport: Transport::Tcp { connect: false } },
            private_destination,
        ) == SocketRequest::Nothing,
{
}

} // verus!
