//! IP packets: what is read from them, and the making of UDP datagrams and TCP
//! segments.
//!
//! Packets are taken apart and composed by the `etherparse` crate.

use crate::bytes::{be16, be32, internet_checksum, long_at, udp_checksum, word_at};
use etherparse::{
    IpNumber, Ipv4Header, Ipv6FlowLabel, Ipv6Header, NetSlice, PacketBuilder, SlicedPacket,
    TcpHeader, TransportSlice,
};
use vstd::prelude::*;

verus! {

/// The protocol number of TCP.
pub const TCP: u8 = 6;

/// The protocol number of UDP.
pub const UDP: u8 = 17;

/// The addresses of a packet, by the protocol of its network layer.
#[allow(inconsistent_fields)]
pub enum Net {
    Ipv4 { source: [u8; 4], destination: [u8; 4] },
    Ipv6 { source: [u8; 16], destination: [u8; 16] },
    Arp,
}

/// A UDP datagram.
pub struct UdpDatagram {
    pub source_port: u16,
    pub destination_port: u16,
    pub payload: Vec<u8>,
}

/// The part of a TCP segment that its refusal is made from.
#[derive(Clone, Copy)]
pub struct TcpSegment {
    pub source_port: u16,
    pub destination_port: u16,
    pub sequence_number: u32,
    pub acknowledgment_number: u32,
    pub ack: bool,
}

/// The transport layer of a packet.
pub enum Transport {
    Udp(UdpDatagram),
    Tcp(TcpSegment),
    Icmpv4,
    Icmpv6,
    Igmp,
}

/// A packet that has been taken apart.
pub struct IpPacket {
    pub net: Option<Net>,
    pub transport: Option<Transport>,
}

/// The addresses of a packet, as values.
#[verifier::ext_equal]
pub enum NetView {
    Ipv4 { source: Seq<u8>, destination: Seq<u8> },
    Ipv6 { source: Seq<u8>, destination: Seq<u8> },
    Arp,
}

/// The transport layer of a packet, as a value.
#[verifier::ext_equal]
pub enum TransportView {
    Udp { source_port: u16, destination_port: u16, payload: Seq<u8> },
    Tcp(TcpSegment),
    Icmpv4,
    Icmpv6,
    Igmp,
}

/// A packet that has been taken apart, as a value.
#[verifier::ext_equal]
pub struct PacketView {
    pub net: Option<NetView>,
    pub transport: Option<TransportView>,
}

impl View for Net {
    type V = NetView;

    open spec fn view(&self) -> NetView {
        match *self {
            Net::Ipv4 { source, destination } => NetView::Ipv4 {
                source: source@,
                destination: destination@,
            },
            Net::Ipv6 { source, destination } => NetView::Ipv6 {
                source: source@,
                destination: destination@,
            },
            Net::Arp => NetView::Arp,
        }
    }
}

impl View for Transport {
    type V = TransportView;

    open spec fn view(&self) -> TransportView {
        match *self {
            Transport::Udp(udp) => TransportView::Udp {
                source_port: udp.source_port,
                destination_port: udp.destination_port,
                payload: udp.payload@,
            },
            Transport::Tcp(tcp) => TransportView::Tcp(tcp),
            Transport::Icmpv4 => TransportView::Icmpv4,
            Transport::Icmpv6 => TransportView::Icmpv6,
            Transport::Igmp => TransportView::Igmp,
        }
    }
}

/// The view of addresses that may be missing.
pub open spec fn net_view(net: Option<Net>) -> Option<NetView> {
    match net {
        Some(n) => Some(n@),
        None => None,
    }
}

/// The view of a transport layer that may be missing.
pub open spec fn transport_view(transport: Option<Transport>) -> Option<TransportView> {
    match transport {
        Some(t) => Some(t@),
        None => None,
    }
}

impl View for IpPacket {
    type V = PacketView;

    open spec fn view(&self) -> PacketView {
        PacketView { net: net_view(self.net), transport: transport_view(self.transport) }
    }
}

/// The view of a packet that may be missing.
pub open spec fn packet_view(packet: Option<IpPacket>) -> Option<PacketView> {
    match packet {
        Some(p) => Some(p@),
        None => None,
    }
}

/// The addresses in the header of an IP packet, by its version.
pub open spec fn addresses_of(pkt: Seq<u8>) -> NetView {
    if pkt[0] / 16 == 4 {
        NetView::Ipv4 { source: pkt.subrange(12, 16), destination: pkt.subrange(16, 20) }
    } else {
        NetView::Ipv6 { source: pkt.subrange(8, 24), destination: pkt.subrange(24, 40) }
    }
}

/// Whether `pkt` is long enough for an IP header of its version.
pub open spec fn has_ip_header(pkt: Seq<u8>) -> bool {
    pkt.len() >= 20 && pkt[0] / 16 == 4 || pkt.len() >= 40 && pkt[0] / 16 == 6
}

/// Whether `pkt` is one whole IPv4 packet, not a fragment, without options.
pub open spec fn is_plain_ipv4(pkt: Seq<u8>) -> bool {
    &&& pkt.len() >= 20
    &&& pkt[0] == 0x45
    &&& word_at(pkt, 2) == pkt.len()
    &&& pkt[6] % 64 == 0
    &&& pkt[7] == 0
}

/// Whether `pkt` is one whole IPv6 packet that is not empty.
pub open spec fn is_plain_ipv6(pkt: Seq<u8>) -> bool {
    &&& pkt.len() > 40
    &&& pkt[0] / 16 == 6
    &&& word_at(pkt, 4) == pkt.len() - 40
}

/// The transport layer that `body` holds by itself under the given protocol
/// number; none where it is not a whole UDP datagram or a TCP segment without
/// options.
pub open spec fn plain_transport(number: u8, body: Seq<u8>) -> Option<TransportView> {
    if number == UDP && body.len() >= 8 && word_at(body, 4) == body.len() {
        Some(
            TransportView::Udp {
                source_port: word_at(body, 0) as u16,
                destination_port: word_at(body, 2) as u16,
                payload: body.skip(8),
            },
        )
    } else if number == TCP && body.len() >= 20 && body[12] / 16 == 5 {
        Some(
            TransportView::Tcp(
                TcpSegment {
                    source_port: word_at(body, 0) as u16,
                    destination_port: word_at(body, 2) as u16,
                    sequence_number: long_at(body, 4) as u32,
                    acknowledgment_number: long_at(body, 8) as u32,
                    ack: (body[13] / 16) % 2 == 1,
                },
            ),
        )
    } else {
        None
    }
}

/// What a packet holds that is put together in the usual way: one whole IP
/// packet without options, extension headers or fragmentation, around a whole
/// UDP datagram or a TCP segment without options.
pub open spec fn plain_packet(pkt: Seq<u8>) -> Option<PacketView> {
    if is_plain_ipv4(pkt) && plain_transport(pkt[9], pkt.skip(20)) is Some {
        Some(
            PacketView {
                net: Some(addresses_of(pkt)),
                transport: plain_transport(pkt[9], pkt.skip(20)),
            },
        )
    } else if is_plain_ipv6(pkt) && plain_transport(pkt[6], pkt.skip(40)) is Some {
        Some(
            PacketView {
                net: Some(addresses_of(pkt)),
                transport: plain_transport(pkt[6], pkt.skip(40)),
            },
        )
    } else {
        None
    }
}

/// Whether `found` is the transport layer of a packet that is put together in
/// the usual way.
pub open spec fn finds_plain_transport(pkt: Seq<u8>, found: Option<Option<Transport>>) -> bool {
    plain_packet(pkt) matches Some(p) ==> (found matches Some(t) && transport_view(t)
        == p.transport)
}

/// Whether the addresses of a packet have their lengths.
pub open spec fn proper_addresses(packet: PacketView) -> bool {
    match packet.net {
        Some(NetView::Ipv4 { source, destination }) => source.len() == 4 && destination.len() == 4,
        Some(NetView::Ipv6 { source, destination }) => source.len() == 16 && destination.len()
            == 16,
        _ => true,
    }
}

/// Whether a packet has IPv4 or IPv6 addresses.
pub open spec fn has_addresses(packet: PacketView) -> bool {
    &&& proper_addresses(packet)
    &&& packet.net matches Some(net) && net !is Arp
}

/// What `etherparse::SlicedPacket::from_ip` finds in a packet.
pub uninterp spec fn sliced_packet(pkt: Seq<u8>) -> Option<PacketView>;

/// `etherparse::SlicedPacket::from_ip`, the addresses read from its slices.
///
/// What is found is a function of the octets alone. Something is found only
/// where they begin with a header of IPv4 or IPv6, and it then has the addresses
/// in that header.
#[verifier::external_body]
fn read_net(pkt: &[u8]) -> (r: Option<Option<Net>>)
    ensures
        r is Some <==> sliced_packet(pkt@) is Some,
        r matches Some(net) ==> sliced_packet(pkt@) matches Some(p) && p.net == net_view(net),
        r is Some ==> has_ip_header(pkt@),
        r matches Some(net) ==> net_view(net) == Some(addresses_of(pkt@)),
{
    let sliced = SlicedPacket::from_ip(pkt).ok()?;
    Some(sliced.net.map(|net| match net {
        NetSlice::Ipv4(ip) => Net::Ipv4 {
            source: ip.header().source(),
            destination: ip.header().destination(),
        },
        NetSlice::Ipv6(ip) => Net::Ipv6 {
            source: ip.header().source(),
            destination: ip.header().destination(),
        },
        NetSlice::Arp(_) => Net::Arp,
    }))
}

/// `etherparse::SlicedPacket::from_ip`, the ports, numbers and payload read from
/// its slices.
///
/// What is found is a function of the octets alone. A packet that is put
/// together in the usual way is found as it stands. What is made of options,
/// extension headers, fragments and trailing octets is left to the name of the
/// result.
#[verifier::external_body]
fn read_transport(pkt: &[u8]) -> (r: Option<Option<Transport>>)
    ensures
        r is Some <==> sliced_packet(pkt@) is Some,
        r matches Some(t) ==> sliced_packet(pkt@) matches Some(p) && p.transport
            == transport_view(t),
        finds_plain_transport(pkt@, r),
{
    let sliced = SlicedPacket::from_ip(pkt).ok()?;
    Some(sliced.transport.map(|transport| match transport {
        TransportSlice::Udp(u) => Transport::Udp(
            UdpDatagram {
                source_port: u.source_port(), destination_port: u.destination_port(),
                payload: u.payload().to_vec() }),
        TransportSlice::Tcp(t) => Transport::Tcp(
            TcpSegment {
                source_port: t.source_port(), destination_port: t.destination_port(),
                sequence_number: t.sequence_number(),
                acknowledgment_number: t.acknowledgment_number(), ack: t.ack() }),
        TransportSlice::Icmpv4(_) => Transport::Icmpv4,
        TransportSlice::Icmpv6(_) => Transport::Icmpv6,
        TransportSlice::Igmp(_) => Transport::Igmp,
    }))
}

/// Takes an IP packet apart. There is nothing for what is not a well-formed
/// packet of IPv4 or IPv6.
pub fn slice_packet(pkt: &[u8]) -> (r: Option<IpPacket>)
    ensures
        packet_view(r) == sliced_packet(pkt@),
        r is Some ==> has_ip_header(pkt@),
        r matches Some(p) ==> p@.net == Some(addresses_of(pkt@)),
        sliced_packet(pkt@) matches Some(p) ==> has_addresses(p),
        plain_packet(pkt@) is Some ==> sliced_packet(pkt@) == plain_packet(pkt@),
{
    match (read_net(pkt), read_transport(pkt)) {
        (Some(net), Some(transport)) => Some(IpPacket { net, transport }),
        _ => None,
    }
}

/// An IPv4 header without options in front of `len` octets. The packet is not to
/// be fragmented.
pub open spec fn ipv4_header(
    len: int,
    ttl: u8,
    number: u8,
    source: Seq<u8>,
    destination: Seq<u8>,
) -> Seq<u8> {
    let head = seq![0x45u8, 0u8] + be16(20 + len) + seq![0u8, 0u8, 0x40u8, 0u8, ttl, number];
    let checksum = internet_checksum(head + be16(0) + source + destination);
    head + be16(checksum) + source + destination
}

/// An IPv6 header.
pub open spec fn ipv6_header(
    traffic_class: u8,
    flow_label: u32,
    len: int,
    number: u8,
    hop_limit: u8,
    source: Seq<u8>,
    destination: Seq<u8>,
) -> Seq<u8> {
    let first = (0x60 + traffic_class / 16) as u8;
    let second = ((traffic_class % 16) * 16 + flow_label / 65536) as u8;
    seq![first, second] + be16((flow_label % 65536) as int) + be16(len) + seq![number, hop_limit]
        + source + destination
}

/// What the checksum of a UDP datagram is taken over besides the datagram, with
/// either version of IP.
pub open spec fn udp_pseudo_header(source: Seq<u8>, destination: Seq<u8>, len: int) -> Seq<u8> {
    source + destination + seq![0u8, UDP] + be16(len)
}

/// A UDP datagram from and to the given addresses.
pub open spec fn udp_datagram(
    source: Seq<u8>,
    destination: Seq<u8>,
    source_port: u16,
    destination_port: u16,
    payload: Seq<u8>,
) -> Seq<u8> {
    let len = 8int + payload.len();
    let head = be16(source_port as int) + be16(destination_port as int) + be16(len);
    let checksum = udp_checksum(
        udp_pseudo_header(source, destination, len) + head + be16(0) + payload,
    );
    head + be16(checksum) + payload
}

/// A UDP datagram in an IPv4 packet.
pub open spec fn ipv4_udp_packet(
    source: Seq<u8>,
    destination: Seq<u8>,
    ttl: u8,
    source_port: u16,
    destination_port: u16,
    payload: Seq<u8>,
) -> Seq<u8> {
    ipv4_header(8int + payload.len(), ttl, UDP, source, destination) + udp_datagram(
        source,
        destination,
        source_port,
        destination_port,
        payload,
    )
}

/// A UDP datagram in an IPv6 packet.
pub open spec fn ipv6_udp_packet(
    source: Seq<u8>,
    destination: Seq<u8>,
    hop_limit: u8,
    source_port: u16,
    destination_port: u16,
    payload: Seq<u8>,
) -> Seq<u8> {
    ipv6_header(0, 0, 8int + payload.len(), UDP, hop_limit, source, destination) + udp_datagram(
        source,
        destination,
        source_port,
        destination_port,
        payload,
    )
}

/// `etherparse::PacketBuilder::ipv4`, then `udp` and `write`: writes a UDP
/// datagram in an IPv4 packet, with its lengths and checksums, where the length
/// of the packet fits into its header.
#[verifier::external_body]
pub(crate) fn write_ipv4_udp(
    source: [u8; 4],
    destination: [u8; 4],
    ttl: u8,
    source_port: u16,
    destination_port: u16,
    payload: &[u8],
) -> (r: Option<Vec<u8>>)
    ensures
        r is Some <==> 28 + payload@.len() <= 0xffff,
        r matches Some(pkt) ==> pkt@ == ipv4_udp_packet(
            source@,
            destination@,
            ttl,
            source_port,
            destination_port,
            payload@,
        ),
{
    let builder = PacketBuilder::ipv4(source, destination, ttl).udp(source_port, destination_port);
    let mut pkt = Vec::with_capacity(builder.size(payload.len()));
    builder.write(&mut pkt, payload).ok()?;
    Some(pkt)
}

/// `etherparse::PacketBuilder::ipv6`, then `udp` and `write`: writes a UDP
/// datagram in an IPv6 packet, with its lengths and checksum, where the length
/// of the datagram fits into the headers.
#[verifier::external_body]
pub(crate) fn write_ipv6_udp(
    source: [u8; 16],
    destination: [u8; 16],
    hop_limit: u8,
    source_port: u16,
    destination_port: u16,
    payload: &[u8],
) -> (r: Option<Vec<u8>>)
    ensures
        r is Some <==> 8 + payload@.len() <= 0xffff,
        r matches Some(pkt) ==> pkt@ == ipv6_udp_packet(
            source@,
            destination@,
            hop_limit,
            source_port,
            destination_port,
            payload@,
        ),
{
    let builder = PacketBuilder::ipv6(source, destination, hop_limit).udp(
        source_port,
        destination_port,
    );
    let mut pkt = Vec::with_capacity(builder.size(payload.len()));
    builder.write(&mut pkt, payload).ok()?;
    Some(pkt)
}

/// The length of a TCP header without options.
pub const TCP_HEADER_LEN: u16 = 20;

/// A TCP header without options; flags that are not listed are not set.
pub struct TcpFields {
    pub source_port: u16,
    pub destination_port: u16,
    pub sequence_number: u32,
    pub acknowledgment_number: u32,
    pub rst: bool,
    pub ack: bool,
    pub window_size: u16,
    pub checksum: u16,
}

impl TcpFields {
    /// The octet of a TCP header that holds the flags.
    pub open spec fn flags(&self) -> u8 {
        ((if self.rst {
            4int
        } else {
            0int
        }) + (if self.ack {
            16int
        } else {
            0int
        })) as u8
    }

    /// The header on the wire, with `checksum` for its checksum.
    pub open spec fn wire_with(&self, checksum: int) -> Seq<u8> {
        be16(self.source_port as int) + be16(self.destination_port as int) + be32(
            self.sequence_number as int,
        ) + be32(self.acknowledgment_number as int) + seq![0x50u8, self.flags()] + be16(
            self.window_size as int,
        ) + be16(checksum) + be16(0)
    }

    /// The header on the wire.
    pub open spec fn wire(&self) -> Seq<u8> {
        self.wire_with(self.checksum as int)
    }
}

/// What the checksum of a TCP segment in an IPv4 packet is taken over besides
/// the segment.
pub open spec fn tcp_pseudo_header_v4(source: Seq<u8>, destination: Seq<u8>, len: int) -> Seq<u8> {
    source + destination + seq![0u8, TCP] + be16(len)
}

/// What the checksum of a TCP segment in an IPv6 packet is taken over besides
/// the segment.
pub open spec fn tcp_pseudo_header_v6(source: Seq<u8>, destination: Seq<u8>, len: int) -> Seq<u8> {
    source + destination + be32(len) + seq![0u8, TCP]
}

/// `etherparse::Ipv4Header::new`, then `write`: writes an IPv4 header without
/// options, with its checksum, in front of `len` octets, where the length of the
/// packet fits into the header.
#[verifier::external_body]
pub(crate) fn write_ipv4_header(
    len: u16,
    ttl: u8,
    number: u8,
    source: [u8; 4],
    destination: [u8; 4],
) -> (r: Option<Vec<u8>>)
    ensures
        r is Some <==> 20 + len <= 0xffff,
        r matches Some(header) ==> header@ == ipv4_header(
            len as int,
            ttl,
            number,
            source@,
            destination@,
        ),
{
    let header = Ipv4Header::new(len, ttl, IpNumber(number), source, destination).ok()?;
    let mut octets = Vec::with_capacity(header.header_len());
    header.write(&mut octets).ok()?;
    Some(octets)
}

/// `etherparse::Ipv6Header::write`: writes an IPv6 header, where the flow label
/// has no more than 20 bits.
#[verifier::external_body]
pub(crate) fn write_ipv6_header(
    traffic_class: u8,
    flow_label: u32,
    payload_length: u16,
    number: u8,
    hop_limit: u8,
    source: [u8; 16],
    destination: [u8; 16],
) -> (r: Option<Vec<u8>>)
    ensures
        r is Some <==> flow_label <= 0xfffff,
        r matches Some(header) ==> header@ == ipv6_header(
            traffic_class,
            flow_label,
            payload_length as int,
            number,
            hop_limit,
            source@,
            destination@,
        ),
{
    let flow_label = Ipv6FlowLabel::try_new(flow_label).ok()?;
    let next_header = IpNumber(number);
    let header = Ipv6Header {
        traffic_class, flow_label, payload_length, next_header, hop_limit, source, destination,
    };
    let mut octets = Vec::with_capacity(header.header_len());
    header.write(&mut octets).ok()?;
    Some(octets)
}

/// `etherparse::TcpHeader::write`: writes a TCP header.
#[verifier::external_body]
pub(crate) fn write_tcp_header(fields: &TcpFields) -> (r: Option<Vec<u8>>)
    ensures
        r is Some,
        r matches Some(header) ==> header@ == fields.wire(),
{
    let mut header = TcpHeader::new(
        fields.source_port, fields.destination_port, fields.sequence_number, fields.window_size);
    header.acknowledgment_number = fields.acknowledgment_number;
    header.rst = fields.rst;
    header.ack = fields.ack;
    header.checksum = fields.checksum;
    let mut octets = Vec::with_capacity(header.header_len());
    header.write(&mut octets).ok()?;
    Some(octets)
}

/// `etherparse::TcpHeader::calc_checksum_ipv4_raw`: the checksum of a TCP
/// segment without payload in an IPv4 packet. The checksum that the header
/// already holds does not count.
#[verifier::external_body]
pub(crate) fn tcp_checksum_ipv4(
    fields: &TcpFields,
    source: [u8; 4],
    destination: [u8; 4],
) -> (r: Option<u16>)
    ensures
        r is Some,
        r matches Some(checksum) ==> checksum == internet_checksum(
            tcp_pseudo_header_v4(source@, destination@, 20) + fields.wire_with(0),
        ),
{
    let mut header = TcpHeader::new(
        fields.source_port, fields.destination_port, fields.sequence_number, fields.window_size);
    header.acknowledgment_number = fields.acknowledgment_number;
    header.rst = fields.rst;
    header.ack = fields.ack;
    header.calc_checksum_ipv4_raw(source, destination, &[]).ok()
}

/// `etherparse::TcpHeader::calc_checksum_ipv6_raw`: the checksum of a TCP
/// segment without payload in an IPv6 packet. The checksum that the header
/// already holds does not count.
#[verifier::external_body]
pub(crate) fn tcp_checksum_ipv6(
    fields: &TcpFields,
    source: [u8; 16],
    destination: [u8; 16],
) -> (r: Option<u16>)
    ensures
        r is Some,
        r matches Some(checksum) ==> checksum == internet_checksum(
            tcp_pseudo_header_v6(source@, destination@, 20) + fields.wire_with(0),
        ),
{
    let mut header = TcpHeader::new(
        fields.source_port, fields.destination_port, fields.sequence_number, fields.window_size);
    header.acknowledgment_number = fields.acknowledgment_number;
    header.rst = fields.rst;
    header.ack = fields.ack;
    header.calc_checksum_ipv6_raw(source, destination, &[]).ok()
}

/// A packet that has been taken apart is seen with the addresses, ports, numbers
/// and payload that it has.
pub proof fn law_packets_are_seen_as_they_are(packet: IpPacket)
    ensures
        match packet.net {
            None => packet@.net is None,
            Some(Net::Ipv4 { source, destination }) => packet@.net == Some(
                NetView::Ipv4 { source: source@, destination: destination@ },
            ),
            Some(Net::Ipv6 { source, destination }) => packet@.net == Some(
                NetView::Ipv6 { source: source@, destination: destination@ },
            ),
            Some(Net::Arp) => packet@.net == Some(NetView::Arp),
        },
        match packet.transport {
            None => packet@.transport is None,
            Some(Transport::Udp(udp)) => packet@.transport == Some(
                TransportView::Udp {
                    source_port: udp.source_port,
                    destination_port: udp.destination_port,
                    payload: udp.payload@,
                },
            ),
            Some(Transport::Tcp(tcp)) => packet@.transport == Some(TransportView::Tcp(tcp)),
            Some(Transport::Icmpv4) => packet@.transport == Some(TransportView::Icmpv4),
            Some(Transport::Icmpv6) => packet@.transport == Some(TransportView::Icmpv6),
            Some(Transport::Igmp) => packet@.transport == Some(TransportView::Igmp),
        },
        packet_view(Some(packet)) == Some(packet@),
        packet_view(None) is None,
{
}

/// A packet has addresses exactly where they are those of IPv4, of four octets, or
/// those of IPv6, of sixteen.
pub proof fn law_addresses_have_their_lengths(packet: PacketView)
    ensures
        has_addresses(packet) <==> match packet.net {
            Some(NetView::Ipv4 { source, destination }) => source.len() == 4 && destination.len()
                == 4,
            Some(NetView::Ipv6 { source, destination }) => source.len() == 16 && destination.len()
                == 16,
            _ => false,
        },
        has_addresses(packet) ==> proper_addresses(packet),
{
}

/// What is read from a plain IPv4 packet: its addresses and ports from their
/// places, and what stands behind the headers.
pub proof fn law_plain_ipv4_datagram(pkt: Seq<u8>)
    requires
        28 <= pkt.len() <= 65535,
        pkt[0] == 0x45,
        pkt[2] * 256 + pkt[3] == pkt.len(),
        pkt[6] == 0 || pkt[6] == 0x40,
        pkt[7] == 0,
        pkt[9] == 17,
        pkt[24] * 256 + pkt[25] == pkt.len() - 20,
    ensures
        plain_packet(pkt) matches Some(p) && p.net == Some(
            NetView::Ipv4 { source: pkt.subrange(12, 16), destination: pkt.subrange(16, 20) },
        ) && p.transport == Some(
            TransportView::Udp {
                source_port: (pkt[20] * 256 + pkt[21]) as u16,
                destination_port: (pkt[22] * 256 + pkt[23]) as u16,
                payload: pkt.skip(28),
            },
        ),
{
    let body = pkt.skip(20);
    assert(body[0] == pkt[20] && body[1] == pkt[21] && body[2] == pkt[22] && body[3] == pkt[23]);
    assert(body[4] == pkt[24] && body[5] == pkt[25]);
    assert(body.skip(8) =~= pkt.skip(28));
}

/// What is read from a plain IPv6 packet: its addresses and ports from their
/// places, and what stands behind the headers.
pub proof fn law_plain_ipv6_datagram(pkt: Seq<u8>)
    requires
        48 <= pkt.len() <= 65575,
        pkt[0] == 0x60,
        pkt[4] * 256 + pkt[5] == pkt.len() - 40,
        pkt[6] == 17,
        pkt[44] * 256 + pkt[45] == pkt.len() - 40,
    ensures
        plain_packet(pkt) matches Some(p) && p.net == Some(
            NetView::Ipv6 { source: pkt.subrange(8, 24), destination: pkt.subrange(24, 40) },
        ) && p.transport == Some(
            TransportView::Udp {
                source_port: (pkt[40] * 256 + pkt[41]) as u16,
                destination_port: (pkt[42] * 256 + pkt[43]) as u16,
                payload: pkt.skip(48),
            },
        ),
{
    let body = pkt.skip(40);
    assert(body[0] == pkt[40] && body[1] == pkt[41] && body[2] == pkt[42] && body[3] == pkt[43]);
    assert(body[4] == pkt[44] && body[5] == pkt[45]);
    assert(body.skip(8) =~= pkt.skip(48));
}

} // verus!
