use tunproxy::packet::{
    inspect_packet, socket_request, Endpoint, IpAddress, MalformedPacket, PacketTarget,
    SocketRequest, Transport,
};

fn ipv4(protocol: u8, dst: [u8; 4], payload: &[u8]) -> Vec<u8> {
    let total = 20 + payload.len();
    let mut p = vec![0x45, 0, (total >> 8) as u8, total as u8, 0, 0, 0, 0, 64, protocol, 0, 0];
    p.extend_from_slice(&[10, 0, 0, 1]);
    p.extend_from_slice(&dst);
    p.extend_from_slice(payload);
    p
}

fn ipv6(next: u8, dst: [u8; 16], payload: &[u8]) -> Vec<u8> {
    let len = payload.len();
    let mut p = vec![0x60, 0, 0, 0, (len >> 8) as u8, len as u8, next, 64];
    p.extend_from_slice(&[0u8; 16]);
    p.extend_from_slice(&dst);
    p.extend_from_slice(payload);
    p
}

fn tcp(dst_port: u16, flags: u8) -> Vec<u8> {
    let mut t = vec![0x12, 0x34, (dst_port >> 8) as u8, dst_port as u8];
    t.extend_from_slice(&[0; 8]);
    t.push(0x50);
    t.push(flags);
    t.extend_from_slice(&[0xff, 0xff, 0, 0, 0, 0]);
    t
}

fn udp(dst_port: u16, body: &[u8]) -> Vec<u8> {
    let len = 8 + body.len();
    let mut u = vec![0x12, 0x34, (dst_port >> 8) as u8, dst_port as u8, (len >> 8) as u8, len as u8, 0, 0];
    u.extend_from_slice(body);
    u
}

#[test]
fn tcp_syn_over_ipv4() {
    let p = ipv4(6, [93, 184, 216, 34], &tcp(443, 0x02));
    let target = inspect_packet(&p).unwrap().unwrap();
    assert_eq!(
        target,
        PacketTarget {
            endpoint: Endpoint { addr: IpAddress::V4(0x5db8_d822), port: 443 },
            transport: Transport::Tcp { connect: true },
        }
    );
}

#[test]
fn tcp_syn_ack_does_not_connect() {
    let p = ipv4(6, [1, 2, 3, 4], &tcp(80, 0x12));
    let target = inspect_packet(&p).unwrap().unwrap();
    assert_eq!(target.transport, Transport::Tcp { connect: false });
    assert_eq!(target.endpoint.port, 80);
    let p = ipv4(6, [1, 2, 3, 4], &tcp(80, 0x10));
    assert_eq!(inspect_packet(&p).unwrap().unwrap().transport, Transport::Tcp { connect: false });
}

#[test]
fn udp_over_ipv6() {
    let mut dst = [0u8; 16];
    dst[0] = 0x20;
    dst[1] = 0x01;
    dst[15] = 0x53;
    let p = ipv6(17, dst, &udp(53, b"query"));
    let target = inspect_packet(&p).unwrap().unwrap();
    assert_eq!(
        target,
        PacketTarget {
            endpoint: Endpoint { addr: IpAddress::V6(0x2001_0000_0000_0000_0000_0000_0000_0053), port: 53 },
            transport: Transport::Udp,
        }
    );
}

#[test]
fn other_protocols_are_ignored() {
    let p = ipv4(1, [8, 8, 8, 8], &[8, 0, 0, 0, 0, 0, 0, 0]);
    assert_eq!(inspect_packet(&p), Ok(None));
    let p = ipv6(58, [0u8; 16], &[128, 0, 0, 0]);
    assert_eq!(inspect_packet(&p), Ok(None));
}

#[test]
fn malformed_packets() {
    assert_eq!(inspect_packet(&[]), Err(MalformedPacket::UnknownIpVersion));
    assert_eq!(inspect_packet(&[0x55, 0, 0]), Err(MalformedPacket::UnknownIpVersion));
    assert_eq!(inspect_packet(&[0x45, 0, 0]), Err(MalformedPacket::TruncatedIpHeader));
    let mut p = ipv4(6, [1, 1, 1, 1], &tcp(80, 2));
    p[3] = p[3].wrapping_add(1);
    assert_eq!(inspect_packet(&p), Err(MalformedPacket::TruncatedIpHeader));
    let p = ipv6(17, [0u8; 16], &[0, 1]);
    assert_eq!(inspect_packet(&p[..41]), Err(MalformedPacket::TruncatedIpHeader));
    let p = ipv4(6, [1, 1, 1, 1], &[0, 1, 0, 80]);
    assert_eq!(inspect_packet(&p), Err(MalformedPacket::TruncatedTransportHeader));
    let p = ipv4(17, [1, 1, 1, 1], &[0, 1, 0, 53, 0, 4, 0, 0]);
    assert_eq!(inspect_packet(&p), Err(MalformedPacket::TruncatedTransportHeader));
}

#[test]
fn payload_stops_at_total_length() {
    let mut p = ipv4(17, [9, 9, 9, 9], &udp(5353, b"abc"));
    p.extend_from_slice(&[0xde, 0xad]);
    let target = inspect_packet(&p).unwrap().unwrap();
    assert_eq!(target.endpoint.port, 5353);
}

#[test]
fn socket_requests() {
    let ep = Endpoint { addr: IpAddress::V4(0x0808_0808), port: 53 };
    let syn = PacketTarget { endpoint: ep, transport: Transport::Tcp { connect: true } };
    let ack = PacketTarget { endpoint: ep, transport: Transport::Tcp { connect: false } };
    let dgram = PacketTarget { endpoint: ep, transport: Transport::Udp };
    assert_eq!(socket_request(&syn, false), SocketRequest::EnsureTcp(ep));
    assert_eq!(socket_request(&ack, false), SocketRequest::Nothing);
    assert_eq!(socket_request(&dgram, false), SocketRequest::EnsureUdp(ep));
    assert_eq!(socket_request(&syn, true), SocketRequest::Nothing);
    assert_eq!(socket_request(&dgram, true), SocketRequest::Nothing);
}
