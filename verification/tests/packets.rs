use freeblock::blocklist::Blocklist;
use freeblock::flight::InFlight;
use freeblock::packet::{slice_packet, IpPacket, Net, TcpSegment, Transport, UdpDatagram};
use freeblock::pipeline::{
    decide, deliver, forward_outcome, handle_packet, let_through, refuse, servfail_packet,
    PacketAction, QueryOutcome,
};
use freeblock::proxy::{
    build_null_response, build_servfail_response, create_forwarded_response, create_tcp_rst,
};

const CLIENT: [u8; 4] = [10, 0, 0, 2];
const SERVER: [u8; 4] = [10, 0, 0, 1];
const CLIENT6: [u8; 16] = [0xfd, 0, 0, 0, 0, 0, 0, 0, 0, 0, 0, 0, 0, 0, 0, 2];
const SERVER6: [u8; 16] = [0xfd, 0, 0, 0, 0, 0, 0, 0, 0, 0, 0, 0, 0, 0, 0, 1];

fn v4() -> Option<Net> {
    Some(Net::Ipv4 { source: CLIENT, destination: SERVER })
}

fn v6() -> Option<Net> {
    Some(Net::Ipv6 { source: CLIENT6, destination: SERVER6 })
}

fn udp(net: Option<Net>, destination_port: u16, payload: &[u8]) -> IpPacket {
    let datagram = UdpDatagram { source_port: 40000, destination_port, payload: payload.to_vec() };
    IpPacket { net, transport: Some(Transport::Udp(datagram)) }
}

fn tcp(net: Option<Net>, sequence_number: u32, acknowledgment_number: u32, ack: bool) -> IpPacket {
    let segment = TcpSegment {
        source_port: 50000,
        destination_port: 443,
        sequence_number,
        acknowledgment_number,
        ack,
    };
    IpPacket { net, transport: Some(Transport::Tcp(segment)) }
}

fn query(name: &[u8]) -> Vec<u8> {
    let mut p = vec![0x12, 0x34, 0x01, 0, 0, 1, 0, 0, 0, 0, 0, 0];
    p.extend_from_slice(name);
    p.extend_from_slice(&[0, 0, 1, 0, 1]);
    p
}

/// An IPv4 packet around a UDP datagram from the client to the server.
fn raw_udp4(destination_port: u16, payload: &[u8]) -> Vec<u8> {
    let total = (28 + payload.len()) as u16;
    let mut p = vec![0x45, 0];
    p.extend_from_slice(&total.to_be_bytes());
    p.extend_from_slice(&[0, 0, 0, 0, 64, 17, 0, 0]);
    p.extend_from_slice(&CLIENT);
    p.extend_from_slice(&SERVER);
    p.extend_from_slice(&40000u16.to_be_bytes());
    p.extend_from_slice(&destination_port.to_be_bytes());
    p.extend_from_slice(&((8 + payload.len()) as u16).to_be_bytes());
    p.extend_from_slice(&[0, 0]);
    p.extend_from_slice(payload);
    p
}

/// An IPv6 packet around a TCP segment from the client to the server.
fn raw_tcp6(sequence: u32, acknowledgment: u32, flags: u8) -> Vec<u8> {
    let mut p = vec![0x60, 0, 0, 0, 0, 20, 6, 64];
    p.extend_from_slice(&CLIENT6);
    p.extend_from_slice(&SERVER6);
    p.extend_from_slice(&50000u16.to_be_bytes());
    p.extend_from_slice(&443u16.to_be_bytes());
    p.extend_from_slice(&sequence.to_be_bytes());
    p.extend_from_slice(&acknowledgment.to_be_bytes());
    p.extend_from_slice(&[0x50, flags, 0, 0, 0, 0, 0, 0]);
    p
}

fn blocked() -> Blocklist {
    Blocklist::from_domains(&vec!["example.com".to_string()])
}

fn reply_of(action: PacketAction) -> Vec<u8> {
    match action {
        PacketAction::Reply(p) => p,
        _ => panic!("no reply"),
    }
}

fn payload_of(packet: &[u8]) -> Vec<u8> {
    match slice_packet(packet).unwrap().transport {
        Some(Transport::Udp(u)) => u.payload,
        _ => panic!("no datagram"),
    }
}

const REPLY4: [u8; 33] = [
    0x45, 0x00, 0x00, 0x21, 0x00, 0x00, 0x40, 0x00, 0x40, 0x11, 0x26, 0xca, 0x0a, 0x00, 0x00, 0x01,
    0x0a, 0x00, 0x00, 0x02, 0x00, 0x35, 0x9c, 0x40, 0x00, 0x0d, 0x78, 0xc5, 0x12, 0x34, 0x61, 0x62,
    0x63,
];

const REPLY6: [u8; 53] = [
    0x60, 0x00, 0x00, 0x00, 0x00, 0x0d, 0x11, 0x40, 0xfd, 0x00, 0x00, 0x00, 0x00, 0x00, 0x00, 0x00,
    0x00, 0x00, 0x00, 0x00, 0x00, 0x00, 0x00, 0x01, 0xfd, 0x00, 0x00, 0x00, 0x00, 0x00, 0x00, 0x00,
    0x00, 0x00, 0x00, 0x00, 0x00, 0x00, 0x00, 0x02, 0x00, 0x35, 0x9c, 0x40, 0x00, 0x0d, 0x92, 0xc3,
    0x12, 0x34, 0x61, 0x62, 0x63,
];

const RESET4_ACK: [u8; 40] = [
    0x45, 0x00, 0x00, 0x28, 0x00, 0x00, 0x40, 0x00, 0x40, 0x06, 0x26, 0xce, 0x0a, 0x00, 0x00, 0x01,
    0x0a, 0x00, 0x00, 0x02, 0x01, 0xbb, 0xc3, 0x50, 0x01, 0x02, 0x03, 0x04, 0x00, 0x00, 0x00, 0x00,
    0x50, 0x04, 0x00, 0x00, 0xd2, 0xcc, 0x00, 0x00,
];

const RESET4_WRAPPED: [u8; 40] = [
    0x45, 0x00, 0x00, 0x28, 0x00, 0x00, 0x40, 0x00, 0x40, 0x06, 0x26, 0xce, 0x0a, 0x00, 0x00, 0x01,
    0x0a, 0x00, 0x00, 0x02, 0x01, 0xbb, 0xc3, 0x50, 0x00, 0x00, 0x00, 0x00, 0x00, 0x00, 0x00, 0x00,
    0x50, 0x14, 0x00, 0x00, 0xd6, 0xc2, 0x00, 0x00,
];

const RESET6: [u8; 60] = [
    0x60, 0x00, 0x00, 0x00, 0x00, 0x14, 0x06, 0x40, 0xfd, 0x00, 0x00, 0x00, 0x00, 0x00, 0x00, 0x00,
    0x00, 0x00, 0x00, 0x00, 0x00, 0x00, 0x00, 0x01, 0xfd, 0x00, 0x00, 0x00, 0x00, 0x00, 0x00, 0x00,
    0x00, 0x00, 0x00, 0x00, 0x00, 0x00, 0x00, 0x02, 0x01, 0xbb, 0xc3, 0x50, 0x00, 0x00, 0x00, 0x00,
    0x11, 0x22, 0x33, 0x45, 0x50, 0x14, 0x00, 0x00, 0xac, 0x59, 0x00, 0x00,
];

#[test]
fn response_is_wrapped_over_ipv4() {
    let request = udp(v4(), 53, b"");
    let r = create_forwarded_response(&request, &[0x12, 0x34], b"\x99\x99abc").unwrap();
    assert_eq!(r, REPLY4.to_vec());
}

#[test]
fn response_is_wrapped_over_ipv6() {
    let request = udp(v6(), 53, b"");
    let r = create_forwarded_response(&request, &[0x12, 0x34, 0x56], b"\x99\x99abc").unwrap();
    assert_eq!(r, REPLY6.to_vec());
}

#[test]
fn zero_udp_checksum_is_written_as_ones() {
    let r = create_forwarded_response(&udp(v4(), 53, b""), &[], &[0x4f, 0x62]).unwrap();
    assert_eq!(&r[26..28], &[0xff, 0xff]);
}

#[test]
fn identifier_is_patched_only_where_both_have_one() {
    let request = udp(v4(), 53, b"");
    let short_request = create_forwarded_response(&request, &[7], b"\x99\x98abc").unwrap();
    assert_eq!(payload_of(&short_request), b"\x99\x98abc".to_vec());
    let short_response = create_forwarded_response(&request, &[7, 8], &[9]).unwrap();
    assert_eq!(payload_of(&short_response), vec![9]);
    let patched = create_forwarded_response(&request, &[7, 8], &[9, 9]).unwrap();
    assert_eq!(payload_of(&patched), vec![7, 8]);
}

#[test]
fn response_must_fit_into_a_packet() {
    let (q, r4, r6) = (udp(v4(), 53, b""), vec![0u8; 65507], vec![0u8; 65527]);
    assert_eq!(create_forwarded_response(&q, &[], &r4).unwrap().len(), 65535);
    assert!(create_forwarded_response(&q, &[], &vec![0u8; 65508]).is_none());
    let q = udp(v6(), 53, b"");
    assert_eq!(create_forwarded_response(&q, &[], &r6).unwrap().len(), 65575);
    assert!(create_forwarded_response(&q, &[], &vec![0u8; 65528]).is_none());
}

#[test]
fn only_a_datagram_over_ip_gets_a_response() {
    assert!(create_forwarded_response(&udp(None, 53, b""), &[], b"abc").is_none());
    assert!(create_forwarded_response(&udp(Some(Net::Arp), 53, b""), &[], b"abc").is_none());
    assert!(create_forwarded_response(&tcp(v4(), 0, 0, false), &[], b"abc").is_none());
    let icmp = IpPacket { net: v4(), transport: Some(Transport::Icmpv4) };
    assert!(create_forwarded_response(&icmp, &[], b"abc").is_none());
    assert!(create_forwarded_response(&IpPacket { net: v4(), transport: None }, &[], b"abc").is_none());
}

#[test]
fn reset_stands_at_the_acknowledged_number() {
    let r = create_tcp_rst(&tcp(v4(), 77, 0x01020304, true)).unwrap();
    assert_eq!(r, RESET4_ACK.to_vec());
}

#[test]
fn reset_acknowledges_with_wrap_around() {
    let r = create_tcp_rst(&tcp(v4(), u32::MAX, 99, false)).unwrap();
    assert_eq!(r, RESET4_WRAPPED.to_vec());
}

#[test]
fn reset_over_ipv6() {
    let r = create_tcp_rst(&tcp(v6(), 0x11223344, 99, false)).unwrap();
    assert_eq!(r, RESET6.to_vec());
}

#[test]
fn only_a_segment_over_ip_is_reset() {
    assert!(create_tcp_rst(&udp(v4(), 53, b"")).is_none());
    assert!(create_tcp_rst(&tcp(None, 0, 0, false)).is_none());
    assert!(create_tcp_rst(&tcp(Some(Net::Arp), 0, 0, false)).is_none());
    assert!(create_tcp_rst(&IpPacket { net: v4(), transport: None }).is_none());
}

#[test]
fn datagram_is_taken_apart() {
    let p = slice_packet(&raw_udp4(53, b"hello")).unwrap();
    assert!(matches!(p.net, Some(Net::Ipv4 { source: CLIENT, destination: SERVER })));
    match p.transport {
        Some(Transport::Udp(u)) => {
            assert_eq!((u.source_port, u.destination_port), (40000, 53));
            assert_eq!(u.payload, b"hello".to_vec());
        }
        _ => panic!("no datagram"),
    }
}

#[test]
fn segment_is_taken_apart() {
    let p = slice_packet(&raw_tcp6(5, 6, 0x10)).unwrap();
    assert!(matches!(p.net, Some(Net::Ipv6 { source: CLIENT6, destination: SERVER6 })));
    match p.transport {
        Some(Transport::Tcp(t)) => {
            assert_eq!((t.source_port, t.destination_port), (50000, 443));
            assert_eq!((t.sequence_number, t.acknowledgment_number, t.ack), (5, 6, true));
        }
        _ => panic!("no segment"),
    }
    match slice_packet(&raw_tcp6(5, 6, 0x02)).unwrap().transport {
        Some(Transport::Tcp(t)) => assert!(!t.ack),
        _ => panic!("no segment"),
    }
}

#[test]
fn other_transports_are_told_apart() {
    let icmp4 = [0x45, 0, 0, 28, 0, 0, 0, 0, 64, 1, 0, 0, 1, 2, 3, 4, 5, 6, 7, 8, 8, 0, 0, 0, 0, 1, 0, 1];
    assert!(matches!(slice_packet(&icmp4).unwrap().transport, Some(Transport::Icmpv4)));
    let mut igmp = icmp4;
    igmp[9] = 2;
    igmp[20] = 0x16;
    assert!(matches!(slice_packet(&igmp).unwrap().transport, Some(Transport::Igmp)));
    let mut unknown = icmp4;
    unknown[9] = 200;
    assert!(slice_packet(&unknown).unwrap().transport.is_none());
    let mut icmp6 = vec![0x60, 0, 0, 0, 0, 8, 58, 64];
    icmp6.extend_from_slice(&CLIENT6);
    icmp6.extend_from_slice(&SERVER6);
    icmp6.extend_from_slice(&[128, 0, 0, 0, 0, 1, 0, 1]);
    assert!(matches!(slice_packet(&icmp6).unwrap().transport, Some(Transport::Icmpv6)));
}

#[test]
fn garbage_is_no_packet() {
    assert!(slice_packet(&[]).is_none());
    assert!(slice_packet(&[0u8; 40]).is_none());
    assert!(slice_packet(&[0x45, 0, 0, 20]).is_none());
    assert!(slice_packet(&[0x60; 39]).is_none());
}

#[test]
fn fragment_has_no_transport() {
    let mut p = raw_udp4(53, b"hello");
    p[6] = 0x20;
    assert!(slice_packet(&p).unwrap().transport.is_none());
    assert!(matches!(handle_packet(&p, &blocked()), PacketAction::Drop));
}

#[test]
fn reply_reads_back_turned_round() {
    let request = slice_packet(&raw_udp4(53, b"xy")).unwrap();
    let r = create_forwarded_response(&request, b"xy", b"..response").unwrap();
    let answer = slice_packet(&r).unwrap();
    assert!(matches!(answer.net, Some(Net::Ipv4 { source: SERVER, destination: CLIENT })));
    match answer.transport {
        Some(Transport::Udp(u)) => {
            assert_eq!((u.source_port, u.destination_port), (53, 40000));
            assert_eq!(u.payload, b"xyresponse".to_vec());
        }
        _ => panic!("no datagram"),
    }
}

#[test]
fn reset_reads_back_turned_round() {
    let r = reply_of(handle_packet(&raw_tcp6(7, 9, 0x02), &Blocklist::new()));
    let answer = slice_packet(&r).unwrap();
    assert!(matches!(answer.net, Some(Net::Ipv6 { source: SERVER6, destination: CLIENT6 })));
    match answer.transport {
        Some(Transport::Tcp(t)) => {
            assert_eq!((t.source_port, t.destination_port), (443, 50000));
            assert_eq!((t.sequence_number, t.acknowledgment_number, t.ack), (0, 8, true));
        }
        _ => panic!("no segment"),
    }
    assert_eq!(r[53] & 0x04, 0x04);
}

fn ones_sum(octets: &[u8]) -> u32 {
    let mut sum: u32 = 0;
    for pair in octets.chunks(2) {
        sum += u32::from(pair[0]) * 256 + if pair.len() == 2 { u32::from(pair[1]) } else { 0 };
    }
    while sum > 0xffff {
        sum = (sum & 0xffff) + (sum >> 16);
    }
    sum
}

#[test]
fn checksums_of_made_packets_verify() {
    let q = query(b"\x03ads\x07example\x03com");
    let r = reply_of(handle_packet(&raw_udp4(53, &q), &blocked()));
    assert_eq!(ones_sum(&r[..20]), 0xffff);
    let mut pseudo = [SERVER, CLIENT].concat();
    pseudo.extend_from_slice(&[0, 17]);
    pseudo.extend_from_slice(&((r.len() - 20) as u16).to_be_bytes());
    pseudo.extend_from_slice(&r[20..]);
    assert_eq!(ones_sum(&pseudo), 0xffff);
    let r = create_tcp_rst(&tcp(v4(), 1, 2, false)).unwrap();
    let mut pseudo = [SERVER, CLIENT].concat();
    pseudo.extend_from_slice(&[0, 6, 0, 20]);
    pseudo.extend_from_slice(&r[20..]);
    assert_eq!(ones_sum(&pseudo), 0xffff);
}

#[test]
fn blocked_query_is_answered() {
    let q = query(b"\x03ads\x07Example\x03com");
    let r = reply_of(handle_packet(&raw_udp4(53, &q), &blocked()));
    assert_eq!(payload_of(&r), build_null_response(&q).unwrap());
    assert_eq!(&payload_of(&r)[..4], &[0x12, 0x34, 0x85, 0x03]);
}

#[test]
fn unblocked_query_is_forwarded_as_it_came() {
    let q = query(b"\x0anotexample\x03com");
    match handle_packet(&raw_udp4(53, &q), &blocked()) {
        PacketAction::Forward(p) => assert_eq!(p, q),
        _ => panic!("not forwarded"),
    }
}

#[test]
fn compressed_name_of_blocked_domain_is_answered() {
    let mut q = query(b"");
    q.truncate(12);
    q.extend_from_slice(b"\x03ads\xC0\x0B\x00\x01\x00\x01");
    let list = Blocklist::from_domains(&vec!["ads".to_string()]);
    reply_of(handle_packet(&raw_udp4(53, &q), &list));
}

#[test]
fn other_traffic_is_dropped() {
    let q = query(b"\x07example\x03com");
    assert!(matches!(handle_packet(&raw_udp4(5353, &q), &blocked()), PacketAction::Drop));
    assert!(matches!(handle_packet(&raw_udp4(53, b"garbage"), &blocked()), PacketAction::Drop));
    assert!(matches!(handle_packet(b"garbage", &blocked()), PacketAction::Drop));
    let igmp = IpPacket { net: v4(), transport: Some(Transport::Igmp) };
    assert!(matches!(decide(&igmp, &blocked()), PacketAction::Drop));
    let none = IpPacket { net: v4(), transport: None };
    assert!(matches!(decide(&none, &blocked()), PacketAction::Drop));
}

#[test]
fn query_without_permit_is_refused() {
    let q = query(b"\x04test\x03org");
    let pkt = raw_udp4(53, &q);
    match let_through(&pkt, &q, true) {
        PacketAction::Forward(p) => assert_eq!(p, q),
        _ => panic!("not forwarded"),
    }
    let r = reply_of(let_through(&pkt, &q, false));
    assert_eq!(payload_of(&r), build_servfail_response(&q).unwrap());
    assert!(matches!(let_through(b"garbage", &q, false), PacketAction::Drop));
}

#[test]
fn at_most_a_hundred_queries_are_under_way() {
    let q = query(b"\x04test\x03org");
    let pkt = raw_udp4(53, &q);
    let mut flights = InFlight::new();
    for n in 1..=100 {
        assert!(matches!(flights.dispatch(&pkt, &q), PacketAction::Forward(_)));
        assert_eq!(flights.running(), n);
    }
    let refused = reply_of(flights.dispatch(&pkt, &q));
    assert_eq!(payload_of(&refused), build_servfail_response(&q).unwrap());
    assert_eq!(flights.running(), 100);
    flights.finish();
    assert_eq!(flights.running(), 99);
    match flights.dispatch(&pkt, &q) {
        PacketAction::Forward(p) => assert_eq!(p, q),
        _ => panic!("not forwarded"),
    }
    assert!(matches!(flights.dispatch(b"garbage", &q), PacketAction::Drop));
}

#[test]
fn failure_is_answered_with_servfail() {
    let q = query(b"\x04test\x03org");
    let pkt = raw_udp4(53, &q);
    let expected = servfail_packet(&pkt, &q).unwrap();
    assert_eq!(payload_of(&expected), build_servfail_response(&q).unwrap());
    assert_eq!(refuse(&slice_packet(&pkt).unwrap(), &q), Some(expected.clone()));
    let failed = forward_outcome(&pkt, &q, &QueryOutcome::Failed);
    assert!(failed.invalidate);
    assert_eq!(failed.reply, Some(expected.clone()));
    let no_client = forward_outcome(&pkt, &q, &QueryOutcome::NoClient);
    assert!(!no_client.invalidate);
    assert_eq!(no_client.reply, Some(expected));
}

#[test]
fn answer_is_delivered_under_the_query_id() {
    let q = query(b"\x04test\x03org");
    let pkt = raw_udp4(53, &q);
    let outcome = QueryOutcome::Answered(vec![0, 0, 0x81, 0x80, 5]);
    let d = forward_outcome(&pkt, &q, &outcome);
    assert!(!d.invalidate);
    assert_eq!(payload_of(&d.reply.unwrap()), vec![0x12, 0x34, 0x81, 0x80, 5]);
    let direct = deliver(&slice_packet(&pkt).unwrap(), &q, &outcome);
    assert_eq!(payload_of(&direct.reply.unwrap()), vec![0x12, 0x34, 0x81, 0x80, 5]);
}

#[test]
fn nothing_is_delivered_for_garbage() {
    let d = forward_outcome(b"garbage", &[0; 12], &QueryOutcome::Failed);
    assert!(d.invalidate);
    assert!(d.reply.is_none());
    assert!(servfail_packet(&raw_udp4(53, b"short"), b"short").is_none());
}
