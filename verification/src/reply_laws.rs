//! What the receivers of the proxy's packets make of them.

use crate::bytes::{
    be16, be32, internet_checksum, law_checksum_fills_the_sum, law_checksum_verifies,
    law_numbers_in_network_order, long_at, udp_checksum, word_at,
};
use crate::packet::{
    ipv4_header, ipv6_header, plain_packet, plain_transport, proper_addresses, tcp_pseudo_header_v4,
    tcp_pseudo_header_v6, udp_datagram, udp_pseudo_header, NetView, PacketView, TcpSegment,
    TransportView, TCP, UDP,
};
use crate::proxy::{rst_fields, tcp_reset, udp_reply, HOP_LIMIT};
use vstd::prelude::*;

verus! {

/// The same addresses, the other way round.
pub open spec fn turned(net: NetView) -> NetView {
    match net {
        NetView::Ipv4 { source, destination } => NetView::Ipv4 {
            source: destination,
            destination: source,
        },
        NetView::Ipv6 { source, destination } => NetView::Ipv6 {
            source: destination,
            destination: source,
        },
        NetView::Arp => NetView::Arp,
    }
}

proof fn lemma_udp_datagram_reads_back(
    source: Seq<u8>,
    destination: Seq<u8>,
    source_port: u16,
    destination_port: u16,
    payload: Seq<u8>,
)
    requires
        8 + payload.len() <= 0xffff,
    ensures
        plain_transport(
            UDP,
            udp_datagram(source, destination, source_port, destination_port, payload),
        ) == Some(TransportView::Udp { source_port, destination_port, payload }),
{
    let body = udp_datagram(source, destination, source_port, destination_port, payload);
    assert(body.len() == 8 + payload.len());
    assert(word_at(body, 0) == source_port);
    assert(word_at(body, 2) == destination_port);
    assert(word_at(body, 4) == body.len());
    assert(body.skip(8) =~= payload);
}

/// The packet that answers a UDP datagram is read back as a datagram with the
/// payload of the answer, from where the request went to where it came from.
#[verifier::spinoff_prover]
#[verifier::rlimit(40)]
pub proof fn law_udp_reply_reads_back(request: PacketView, payload: Seq<u8>)
    requires
        proper_addresses(request),
        udp_reply(request, payload) is Some,
    ensures
        request.net matches Some(net) && request.transport matches Some(
            TransportView::Udp { source_port, destination_port, .. },
        ) && plain_packet(udp_reply(request, payload)->0) == Some(
            PacketView {
                net: Some(turned(net)),
                transport: Some(
                    TransportView::Udp {
                        source_port: destination_port,
                        destination_port: source_port,
                        payload,
                    },
                ),
            },
        ),
{
    let pkt = udp_reply(request, payload)->0;
    if let (Some(net), Some(TransportView::Udp { source_port, destination_port, .. })) = (
        request.net,
        request.transport,
    ) {
        match net {
            NetView::Ipv4 { source, destination } => {
                let body = udp_datagram(
                    destination,
                    source,
                    destination_port,
                    source_port,
                    payload,
                );
                lemma_udp_datagram_reads_back(
                    destination,
                    source,
                    destination_port,
                    source_port,
                    payload,
                );
                assert(pkt.skip(20) =~= body);
                assert(pkt.subrange(12, 16) =~= destination);
                assert(pkt.subrange(16, 20) =~= source);
                assert(word_at(pkt, 2) == pkt.len());
            },
            NetView::Ipv6 { source, destination } => {
                let body = udp_datagram(
                    destination,
                    source,
                    destination_port,
                    source_port,
                    payload,
                );
                lemma_udp_datagram_reads_back(
                    destination,
                    source,
                    destination_port,
                    source_port,
                    payload,
                );
                assert(pkt.skip(40) =~= body);
                assert(pkt.subrange(8, 24) =~= destination);
                assert(pkt.subrange(24, 40) =~= source);
                assert(word_at(pkt, 4) == pkt.len() - 40);
            },
            NetView::Arp => {},
        }
    }
}

proof fn lemma_rst_reads_back(tcp: TcpSegment, checksum: int)
    ensures
        ({
            let fields = rst_fields(tcp, 0);
            let body = fields.wire_with(checksum);
            &&& body.len() == 20
            &&& body[13] / 4 % 2 == 1
            &&& plain_transport(TCP, body) == Some(
                TransportView::Tcp(
                    TcpSegment {
                        source_port: tcp.destination_port,
                        destination_port: tcp.source_port,
                        sequence_number: fields.sequence_number,
                        acknowledgment_number: fields.acknowledgment_number,
                        ack: !tcp.ack,
                    },
                ),
            )
        }),
{
    let fields = rst_fields(tcp, 0);
    let body = fields.wire_with(checksum);
    assert(body.len() == 20);
    assert(body[12] == 0x50);
    assert(body[13] == fields.flags());
    assert(word_at(body, 0) == tcp.destination_port);
    assert(word_at(body, 2) == tcp.source_port);
    assert(word_at(body, 4) == fields.sequence_number / 65536);
    assert(word_at(body, 6) == fields.sequence_number % 65536);
    assert(word_at(body, 8) == fields.acknowledgment_number / 65536);
    assert(word_at(body, 10) == fields.acknowledgment_number % 65536);
    assert(long_at(body, 4) == fields.sequence_number);
    assert(long_at(body, 8) == fields.acknowledgment_number);
}

/// The packet that refuses a TCP segment is read back as a segment from where
/// the refused one went to where it came from. It carries the reset flag, and it
/// acknowledges something exactly when the refused one did not: then the octet
/// after the refused one's first. Otherwise it stands at the number that the
/// refused one expects.
#[verifier::spinoff_prover]
#[verifier::rlimit(40)]
pub proof fn law_tcp_reset_reads_back(request: PacketView)
    requires
        proper_addresses(request),
        tcp_reset(request) is Some,
    ensures
        request.net matches Some(net) && request.transport matches Some(TransportView::Tcp(tcp))
            && plain_packet(tcp_reset(request)->0) == Some(
            PacketView {
                net: Some(turned(net)),
                transport: Some(
                    TransportView::Tcp(
                        TcpSegment {
                            source_port: tcp.destination_port,
                            destination_port: tcp.source_port,
                            sequence_number: if tcp.ack {
                                tcp.acknowledgment_number
                            } else {
                                0
                            },
                            acknowledgment_number: if tcp.ack {
                                0
                            } else {
                                ((tcp.sequence_number + 1) % 0x1_0000_0000) as u32
                            },
                            ack: !tcp.ack,
                        },
                    ),
                ),
            },
        ) && tcp_reset(request)->0[tcp_reset(request)->0.len() - 7] / 4 % 2 == 1,
{
    let pkt = tcp_reset(request)->0;
    if let (Some(net), Some(TransportView::Tcp(tcp))) = (request.net, request.transport) {
        let fields = rst_fields(tcp, 0);
        match net {
            NetView::Ipv4 { source, destination } => {
                let checksum = internet_checksum(
                    tcp_pseudo_header_v4(destination, source, 20) + fields.wire_with(0),
                );
                lemma_rst_reads_back(tcp, checksum);
                assert(pkt.skip(20) =~= fields.wire_with(checksum));
                assert(pkt.subrange(12, 16) =~= destination);
                assert(pkt.subrange(16, 20) =~= source);
                assert(word_at(pkt, 2) == pkt.len());
                assert(pkt[33] == fields.wire_with(checksum)[13]);
            },
            NetView::Ipv6 { source, destination } => {
                let checksum = internet_checksum(
                    tcp_pseudo_header_v6(destination, source, 20) + fields.wire_with(0),
                );
                lemma_rst_reads_back(tcp, checksum);
                assert(pkt.skip(40) =~= fields.wire_with(checksum));
                assert(pkt.subrange(8, 24) =~= destination);
                assert(pkt.subrange(24, 40) =~= source);
                assert(word_at(pkt, 4) == pkt.len() - 40);
                assert(pkt[53] == fields.wire_with(checksum)[13]);
            },
            NetView::Arp => {},
        }
    }
}

/// Whether the checksums of an IP packet with a UDP datagram or a TCP segment in
/// it are those that its receiver expects.
pub open spec fn checksums_verify(pkt: Seq<u8>) -> bool {
    match plain_packet(pkt) {
        Some(
            PacketView {
                net: Some(NetView::Ipv4 { source, destination }),
                transport: Some(transport),
            },
        ) => {
            let body = pkt.skip(20);
            let len = body.len() as int;
            let pseudo_header = if transport is Tcp {
                tcp_pseudo_header_v4(source, destination, len)
            } else {
                udp_pseudo_header(source, destination, len)
            };
            &&& internet_checksum(pkt.take(20)) == 0
            &&& internet_checksum(pseudo_header + body) == 0
        },
        Some(
            PacketView {
                net: Some(NetView::Ipv6 { source, destination }),
                transport: Some(transport),
            },
        ) => {
            let body = pkt.skip(40);
            let len = body.len() as int;
            let pseudo_header = if transport is Tcp {
                tcp_pseudo_header_v6(source, destination, len)
            } else {
                udp_pseudo_header(source, destination, len)
            };
            internet_checksum(pseudo_header + body) == 0
        },
        _ => false,
    }
}

proof fn lemma_ipv4_header_verifies(
    len: int,
    number: u8,
    source: Seq<u8>,
    destination: Seq<u8>,
)
    requires
        source.len() == 4,
        destination.len() == 4,
    ensures
        ipv4_header(len, HOP_LIMIT, number, source, destination).len() == 20,
        internet_checksum(ipv4_header(len, HOP_LIMIT, number, source, destination)) == 0,
{
    let head = seq![0x45u8, 0u8] + be16(20 + len) + seq![
        0u8,
        0u8,
        0x40u8,
        0u8,
        HOP_LIMIT,
        number,
    ];
    let checksum = internet_checksum(head + be16(0) + source + destination);
    assert(head + be16(0) + source + destination =~= head + be16(0) + (source + destination));
    law_checksum_verifies(head, checksum, source + destination);
    assert(ipv4_header(len, HOP_LIMIT, number, source, destination) =~= head + be16(checksum) + (
    source + destination));
}

proof fn lemma_udp_datagram_verifies(
    source: Seq<u8>,
    destination: Seq<u8>,
    source_port: u16,
    destination_port: u16,
    payload: Seq<u8>,
)
    requires
        source.len() % 2 == 0,
        destination.len() % 2 == 0,
    ensures
        internet_checksum(
            udp_pseudo_header(source, destination, 8int + payload.len()) + udp_datagram(
                source,
                destination,
                source_port,
                destination_port,
                payload,
            ),
        ) == 0,
{
    let len = 8int + payload.len();
    let pseudo_header = udp_pseudo_header(source, destination, len);
    let head = be16(source_port as int) + be16(destination_port as int) + be16(len);
    let checksum = udp_checksum(pseudo_header + head + be16(0) + payload);
    law_checksum_verifies(pseudo_header + head, checksum, payload);
    assert(pseudo_header + udp_datagram(
        source,
        destination,
        source_port,
        destination_port,
        payload,
    ) =~= pseudo_header + head + be16(checksum) + payload);
}

proof fn lemma_rst_verifies(pseudo_header: Seq<u8>, tcp: TcpSegment)
    requires
        pseudo_header.len() % 2 == 0,
    ensures
        ({
            let fields = rst_fields(tcp, 0);
            let checksum = internet_checksum(pseudo_header + fields.wire_with(0));
            internet_checksum(pseudo_header + fields.wire_with(checksum)) == 0
        }),
{
    let fields = rst_fields(tcp, 0);
    let checksum = internet_checksum(pseudo_header + fields.wire_with(0));
    let head = fields.wire_with(0).take(16);
    let front = pseudo_header + head;
    assert(fields.wire_with(0) =~= head + be16(0) + be16(0));
    assert(fields.wire_with(checksum) =~= head + be16(checksum) + be16(0));
    assert(pseudo_header + fields.wire_with(0) =~= front + be16(0) + be16(0));
    assert(pseudo_header + fields.wire_with(checksum) =~= front + be16(checksum) + be16(0));
    law_checksum_verifies(front, checksum, be16(0));
}

#[verifier::spinoff_prover]
#[verifier::rlimit(40)]
proof fn lemma_udp_reply_body(request: PacketView, payload: Seq<u8>)
    requires
        proper_addresses(request),
        udp_reply(request, payload) is Some,
    ensures
        match request.net {
            Some(NetView::Ipv4 { source, destination }) => {
                let body = (udp_reply(request, payload)->0).skip(20);
                &&& internet_checksum((udp_reply(request, payload)->0).take(20)) == 0
                &&& internet_checksum(
                    udp_pseudo_header(destination, source, body.len() as int) + body,
                ) == 0
            },
            Some(NetView::Ipv6 { source, destination }) => {
                let body = (udp_reply(request, payload)->0).skip(40);
                internet_checksum(
                    udp_pseudo_header(destination, source, body.len() as int) + body,
                ) == 0
            },
            _ => false,
        },
{
    let pkt = udp_reply(request, payload)->0;
    let len = 8int + payload.len();
    if let Some(TransportView::Udp { source_port: from, destination_port: to, .. }) =
        request.transport {
        match request.net {
            Some(NetView::Ipv4 { source, destination }) => {
                let body = udp_datagram(destination, source, to, from, payload);
                lemma_ipv4_header_verifies(len, UDP, destination, source);
                lemma_udp_datagram_verifies(destination, source, to, from, payload);
                assert(body.len() == len);
                assert(pkt.take(20) =~= ipv4_header(len, HOP_LIMIT, UDP, destination, source));
                assert(pkt.skip(20) =~= body);
            },
            Some(NetView::Ipv6 { source, destination }) => {
                let body = udp_datagram(destination, source, to, from, payload);
                lemma_udp_datagram_verifies(destination, source, to, from, payload);
                assert(body.len() == len);
                assert(pkt.skip(40) =~= body);
            },
            _ => {},
        }
    }
}

/// The checksums of the packet that answers a UDP datagram are right.
#[verifier::spinoff_prover]
#[verifier::rlimit(40)]
pub proof fn law_udp_reply_checksums_verify(request: PacketView, payload: Seq<u8>)
    requires
        proper_addresses(request),
        udp_reply(request, payload) is Some,
    ensures
        checksums_verify(udp_reply(request, payload)->0),
{
    law_udp_reply_reads_back(request, payload);
    lemma_udp_reply_body(request, payload);
}

#[verifier::spinoff_prover]
#[verifier::rlimit(40)]
proof fn lemma_tcp_reset_body(request: PacketView, tcp: TcpSegment)
    requires
        proper_addresses(request),
        tcp_reset(request) is Some,
        request.transport == Some(TransportView::Tcp(tcp)),
    ensures
        match request.net {
            Some(NetView::Ipv4 { source, destination }) => {
                let body = (tcp_reset(request)->0).skip(20);
                &&& body.len() == 20
                &&& internet_checksum((tcp_reset(request)->0).take(20)) == 0
                &&& internet_checksum(tcp_pseudo_header_v4(destination, source, 20) + body) == 0
            },
            Some(NetView::Ipv6 { source, destination }) => {
                let body = (tcp_reset(request)->0).skip(40);
                &&& body.len() == 20
                &&& internet_checksum(tcp_pseudo_header_v6(destination, source, 20) + body) == 0
            },
            _ => false,
        },
{
    let pkt = tcp_reset(request)->0;
    let fields = rst_fields(tcp, 0);
    match request.net {
        Some(NetView::Ipv4 { source, destination }) => {
            let pseudo_header = tcp_pseudo_header_v4(destination, source, 20);
            let checksum = internet_checksum(pseudo_header + fields.wire_with(0));
            lemma_ipv4_header_verifies(20, TCP, destination, source);
            lemma_rst_verifies(pseudo_header, tcp);
            assert(fields.wire_with(checksum).len() == 20);
            assert(pkt.take(20) =~= ipv4_header(20, HOP_LIMIT, TCP, destination, source));
            assert(pkt.skip(20) =~= fields.wire_with(checksum));
        },
        Some(NetView::Ipv6 { source, destination }) => {
            let pseudo_header = tcp_pseudo_header_v6(destination, source, 20);
            let checksum = internet_checksum(pseudo_header + fields.wire_with(0));
            lemma_rst_verifies(pseudo_header, tcp);
            assert(fields.wire_with(checksum).len() == 20);
            assert(pkt.skip(40) =~= fields.wire_with(checksum));
        },
        _ => {},
    }
}

/// The checksums of the packet that refuses a TCP segment are right.
#[verifier::spinoff_prover]
#[verifier::rlimit(40)]
pub proof fn law_tcp_reset_checksums_verify(request: PacketView)
    requires
        proper_addresses(request),
        tcp_reset(request) is Some,
    ensures
        checksums_verify(tcp_reset(request)->0),
{
    law_tcp_reset_reads_back(request);
    if let Some(TransportView::Tcp(tcp)) = request.transport {
        lemma_tcp_reset_body(request, tcp);
    }
}

/// Turning addresses round puts each in the place of the other.
pub proof fn law_turning_swaps(source: Seq<u8>, destination: Seq<u8>)
    ensures
        turned(NetView::Ipv4 { source, destination }) == (NetView::Ipv4 {
            source: destination,
            destination: source,
        }),
        turned(NetView::Ipv6 { source, destination }) == (NetView::Ipv6 {
            source: destination,
            destination: source,
        }),
        turned(NetView::Arp) == NetView::Arp,
{
}

/// A datagram over IP is answered whatever its ports, unless the answer is too
/// long for a packet; nothing else is.
pub proof fn law_every_datagram_can_be_answered(request: PacketView, payload: Seq<u8>)
    ensures
        udp_reply(request, payload) is Some <==> {
            &&& request.transport matches Some(TransportView::Udp { .. })
            &&& match request.net {
                Some(NetView::Ipv4 { .. }) => payload.len() <= 65507,
                Some(NetView::Ipv6 { .. }) => payload.len() <= 65527,
                _ => false,
            }
        },
{
}

/// The octets of the packet that answers a datagram over IPv4: from where the
/// datagram went to where it came from, with 64 hops, and the payload at its end.
#[verifier::spinoff_prover]
#[verifier::rlimit(40)]
pub proof fn law_ipv4_reply_octets(
    source: Seq<u8>,
    destination: Seq<u8>,
    source_port: u16,
    destination_port: u16,
    asked: Seq<u8>,
    payload: Seq<u8>,
)
    requires
        source.len() == 4,
        destination.len() == 4,
        payload.len() <= 65507,
    ensures
        ({
            let request = PacketView {
                net: Some(NetView::Ipv4 { source, destination }),
                transport: Some(
                    TransportView::Udp { source_port, destination_port, payload: asked },
                ),
            };
            udp_reply(request, payload) matches Some(r) && {
                &&& r.len() == 28 + payload.len()
                &&& r[0] == 0x45
                &&& r[1] == 0
                &&& r[2] * 256 + r[3] == r.len()
                &&& r[4] == 0 && r[5] == 0 && r[6] == 0x40 && r[7] == 0
                &&& r[8] == 64
                &&& r[9] == 17
                &&& r.subrange(12, 16) == destination
                &&& r.subrange(16, 20) == source
                &&& r[20] * 256 + r[21] == destination_port
                &&& r[22] * 256 + r[23] == source_port
                &&& r[24] * 256 + r[25] == 8 + payload.len()
                &&& r.skip(28) == payload
            }
        }),
{
    let request = PacketView {
        net: Some(NetView::Ipv4 { source, destination }),
        transport: Some(TransportView::Udp { source_port, destination_port, payload: asked }),
    };
    let r = udp_reply(request, payload)->0;
    let body = udp_datagram(destination, source, destination_port, source_port, payload);
    let header = ipv4_header(8int + payload.len(), HOP_LIMIT, UDP, destination, source);
    assert(header.len() == 20);
    assert(r =~= header + body);
    assert(r.subrange(12, 16) =~= destination);
    assert(r.subrange(16, 20) =~= source);
    assert(r[20] == body[0] && r[21] == body[1] && r[22] == body[2] && r[23] == body[3]);
    assert(r[24] == body[4] && r[25] == body[5]);
    assert(word_at(body, 0) == destination_port);
    assert(word_at(body, 2) == source_port);
    assert(r.skip(28) =~= payload);
}

/// The octets of the packet that answers a datagram over IPv6: from where the
/// datagram went to where it came from, with 64 hops, and the payload at its end.
#[verifier::spinoff_prover]
#[verifier::rlimit(40)]
pub proof fn law_ipv6_reply_octets(
    source: Seq<u8>,
    destination: Seq<u8>,
    source_port: u16,
    destination_port: u16,
    asked: Seq<u8>,
    payload: Seq<u8>,
)
    requires
        source.len() == 16,
        destination.len() == 16,
        payload.len() <= 65527,
    ensures
        ({
            let request = PacketView {
                net: Some(NetView::Ipv6 { source, destination }),
                transport: Some(
                    TransportView::Udp { source_port, destination_port, payload: asked },
                ),
            };
            udp_reply(request, payload) matches Some(r) && {
                &&& r.len() == 48 + payload.len()
                &&& r[0] == 0x60 && r[1] == 0 && r[2] == 0 && r[3] == 0
                &&& r[4] * 256 + r[5] == 8 + payload.len()
                &&& r[6] == 17
                &&& r[7] == 64
                &&& r.subrange(8, 24) == destination
                &&& r.subrange(24, 40) == source
                &&& r[40] * 256 + r[41] == destination_port
                &&& r[42] * 256 + r[43] == source_port
                &&& r[44] * 256 + r[45] == 8 + payload.len()
                &&& r.skip(48) == payload
            }
        }),
{
    let request = PacketView {
        net: Some(NetView::Ipv6 { source, destination }),
        transport: Some(TransportView::Udp { source_port, destination_port, payload: asked }),
    };
    let r = udp_reply(request, payload)->0;
    let body = udp_datagram(destination, source, destination_port, source_port, payload);
    let header = ipv6_header(0, 0, 8int + payload.len(), UDP, HOP_LIMIT, destination, source);
    assert(header.len() == 40);
    assert(r =~= header + body);
    assert(r.subrange(8, 24) =~= destination);
    assert(r.subrange(24, 40) =~= source);
    assert(r[40] == body[0] && r[41] == body[1] && r[42] == body[2] && r[43] == body[3]);
    assert(r[44] == body[4] && r[45] == body[5]);
    assert(word_at(body, 0) == destination_port);
    assert(word_at(body, 2) == source_port);
    assert(r.skip(48) =~= payload);
}

/// A TCP segment over IP is refused whatever it holds, and nothing else is.
pub proof fn law_every_segment_can_be_refused(request: PacketView)
    ensures
        tcp_reset(request) is Some <==> {
            &&& request.transport matches Some(TransportView::Tcp(_))
            &&& match request.net {
                Some(NetView::Ipv4 { .. }) => true,
                Some(NetView::Ipv6 { .. }) => true,
                _ => false,
            }
        },
{
}

/// The header that refuses a segment: ports turned round, the reset flag, no
/// window. A segment that acknowledges something is refused at the number it
/// acknowledges and not acknowledged; any other is acknowledged by the number
/// after its own, which follows the last one with zero.
pub proof fn law_refusal_of_a_segment(tcp: TcpSegment, checksum: u16, sum: int)
    ensures
        ({
            let f = rst_fields(tcp, checksum);
            let r = f.wire_with(sum);
            &&& r.len() == 20
            &&& r[0] * 256 + r[1] == tcp.destination_port
            &&& r[2] * 256 + r[3] == tcp.source_port
            &&& tcp.ack ==> ((r[4] * 256 + r[5]) * 256 + r[6]) * 256 + r[7]
                == tcp.acknowledgment_number
            &&& !tcp.ack ==> r[4] == 0 && r[5] == 0 && r[6] == 0 && r[7] == 0
            &&& tcp.ack ==> r[8] == 0 && r[9] == 0 && r[10] == 0 && r[11] == 0
            &&& !tcp.ack && tcp.sequence_number < 0xffff_ffff ==> ((r[8] * 256 + r[9]) * 256
                + r[10]) * 256 + r[11] == tcp.sequence_number + 1
            &&& !tcp.ack && tcp.sequence_number == 0xffff_ffff ==> r[8] == 0 && r[9] == 0 && r[10]
                == 0 && r[11] == 0
            &&& r[12] == 0x50
            &&& tcp.ack ==> r[13] == 0x04
            &&& !tcp.ack ==> r[13] == 0x14
            &&& r[14] == 0 && r[15] == 0
            &&& 0 <= sum <= 0xffff ==> r[16] * 256 + r[17] == sum
            &&& r[18] == 0 && r[19] == 0
            &&& f.checksum == checksum
        }),
{
    let f = rst_fields(tcp, checksum);
    let r = f.wire_with(sum);
    law_numbers_in_network_order(f.source_port as int, f.sequence_number as int, r, 0);
    law_numbers_in_network_order(
        f.destination_port as int,
        f.acknowledgment_number as int,
        r,
        0,
    );
    let seq4 = be32(f.sequence_number as int);
    let ack4 = be32(f.acknowledgment_number as int);
    assert(r[4] == seq4[0] && r[5] == seq4[1] && r[6] == seq4[2] && r[7] == seq4[3]);
    assert(r[8] == ack4[0] && r[9] == ack4[1] && r[10] == ack4[2] && r[11] == ack4[3]);
}

/// The octets around the header that refuses a segment: from where the segment
/// went to where it came from, with 64 hops.
#[verifier::spinoff_prover]
#[verifier::rlimit(40)]
pub proof fn law_reset_octets(source: Seq<u8>, destination: Seq<u8>, tcp: TcpSegment)
    requires
        source.len() == destination.len(),
        source.len() == 4 || source.len() == 16,
    ensures
        source.len() == 4 ==> {
            let request = PacketView {
                net: Some(NetView::Ipv4 { source, destination }),
                transport: Some(TransportView::Tcp(tcp)),
            };
            tcp_reset(request) matches Some(r) && {
                &&& r.len() == 40
                &&& r[0] == 0x45 && r[1] == 0 && r[2] == 0 && r[3] == 40
                &&& r[4] == 0 && r[5] == 0 && r[6] == 0x40 && r[7] == 0
                &&& r[8] == 64
                &&& r[9] == 6
                &&& r.subrange(12, 16) == destination
                &&& r.subrange(16, 20) == source
                &&& exists|sum: int| 0 <= sum <= 0xffff && r.skip(20) == #[trigger] rst_fields(
                    tcp,
                    0,
                ).wire_with(sum)
            }
        },
        source.len() == 16 ==> {
            let request = PacketView {
                net: Some(NetView::Ipv6 { source, destination }),
                transport: Some(TransportView::Tcp(tcp)),
            };
            tcp_reset(request) matches Some(r) && {
                &&& r.len() == 60
                &&& r[0] == 0x60 && r[1] == 0 && r[2] == 0 && r[3] == 0
                &&& r[4] == 0 && r[5] == 20
                &&& r[6] == 6
                &&& r[7] == 64
                &&& r.subrange(8, 24) == destination
                &&& r.subrange(24, 40) == source
                &&& exists|sum: int| 0 <= sum <= 0xffff && r.skip(40) == #[trigger] rst_fields(
                    tcp,
                    0,
                ).wire_with(sum)
            }
        },
{
    let fields = rst_fields(tcp, 0);
    if source.len() == 4 {
        let request = PacketView {
            net: Some(NetView::Ipv4 { source, destination }),
            transport: Some(TransportView::Tcp(tcp)),
        };
        let r = tcp_reset(request)->0;
        let covered = tcp_pseudo_header_v4(destination, source, 20) + fields.wire_with(0);
        law_checksum_fills_the_sum(covered);
        let body = fields.wire_with(internet_checksum(covered));
        assert(body.len() == 20);
        assert(ipv4_header(20, HOP_LIMIT, TCP, destination, source).len() == 20);
        assert(r.subrange(12, 16) =~= destination);
        assert(r.subrange(16, 20) =~= source);
        assert(r.skip(20) =~= body);
    } else {
        let request = PacketView {
            net: Some(NetView::Ipv6 { source, destination }),
            transport: Some(TransportView::Tcp(tcp)),
        };
        let r = tcp_reset(request)->0;
        let covered = tcp_pseudo_header_v6(destination, source, 20) + fields.wire_with(0);
        law_checksum_fills_the_sum(covered);
        let body = fields.wire_with(internet_checksum(covered));
        assert(body.len() == 20);
        assert(ipv6_header(0, 0, 20, TCP, HOP_LIMIT, destination, source).len() == 40);
        assert(r.subrange(8, 24) =~= destination);
        assert(r.subrange(24, 40) =~= source);
        assert(r.skip(40) =~= body);
    }
}

} // verus!
