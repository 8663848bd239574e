//! What the proxy derives from a DNS query, and the answers it makes itself.

use crate::bytes::{append_octets, be16, be32, internet_checksum, octet_strings, word_at};
use crate::message::{
    announces_one_question, answer_echo, answer_head, answer_with, are_questions_of,
    authority_octets, breaks_off, counts_wire, finish_answer, finish_authority,
    holds_compressed_question, holds_question, holds_questions, into_authority,
    lemma_one_question, push_soa, question_wire, questions_wire, read_question_name,
    readable_questions, reads_question, set_authoritative, shown_name, sole_question,
    sole_question_of, start_answer, QuestionView, SoaRecord,
};
use crate::names::{key_of, name_wire, to_name_wire, trie_key, valid_labels};
use crate::packet::{
    ipv4_header, ipv4_udp_packet, ipv6_header, ipv6_udp_packet, tcp_checksum_ipv4,
    tcp_checksum_ipv6, tcp_pseudo_header_v4, tcp_pseudo_header_v6, write_ipv4_header,
    write_ipv4_udp, write_ipv6_header, write_ipv6_udp, write_tcp_header, IpPacket, Net, NetView,
    PacketView, TcpFields, TcpSegment, Transport, TransportView, TCP, TCP_HEADER_LEN,
};
use vstd::prelude::*;

verus! {

/// The response code of a server failure.
pub const SERVFAIL: u8 = 2;

/// The response code for a name that does not exist.
pub const NXDOMAIN: u8 = 3;

/// The class of Internet records.
pub const CLASS_IN: u16 = 1;

/// How long, in seconds, the answer to a blocked query may be kept.
pub const BLOCKED_TTL: u32 = 1;

/// The record that says why a blocked query has no answer: an empty start of
/// authority, owned by the name that was asked for.
pub open spec fn null_soa(labels: Seq<Seq<u8>>) -> Seq<u8> {
    name_wire(labels) + be16(6) + be16(CLASS_IN as int) + be32(BLOCKED_TTL as int) + be16(22)
        + seq![0u8, 0u8] + be32(0) + be32(0) + be32(0) + be32(0) + be32(BLOCKED_TTL as int)
}

/// The answer to a blocked `query` for `q`: the name authoritatively does not
/// exist. It echoes the question and holds one record.
pub open spec fn null_response(query: Seq<u8>, q: QuestionView) -> Seq<u8> {
    seq![query[0], query[1], 0x84u8 | (query[2] & 0x79u8), NXDOMAIN] + counts_wire(1, 0, 1)
        + question_wire(q) + null_soa(q.labels)
}

/// Parses a DNS query and derives the key under which the name it asks for is
/// looked up in the blocklist.
///
/// There is none for a malformed message, or for one that does not hold exactly
/// one question. A compressed name is resolved.
pub fn parse_query(payload: &[u8]) -> (key: Option<Vec<u8>>)
    ensures
        match key {
            Some(k) => sole_question_of(payload@) matches Some(q) && k@ == key_of(q.labels),
            None => sole_question_of(payload@) is None,
        },
        reads_question(payload@, sole_question_of(payload@)),
        key is Some ==> announces_one_question(payload@),
        forall|q: QuestionView| #[trigger]
            holds_question(payload@, q) ==> (key matches Some(k) && k@ == key_of(q.labels)),
        forall|q: QuestionView, n: int, target: int| #[trigger]
            holds_compressed_question(payload@, q, n, target) ==> (key matches Some(k) && k@
                == key_of(q.labels)),
{
    match sole_question(payload) {
        Some(question) => Some(trie_key(&question.labels)),
        None => None,
    }
}

/// The record of `null_soa`.
fn make_null_soa(labels: &Vec<Vec<u8>>) -> (record: SoaRecord)
    requires
        valid_labels(octet_strings(labels@)),
    ensures
        record.well_formed(),
        record.wire() == null_soa(octet_strings(labels@)),
{
    let record = SoaRecord {
        owner: to_name_wire(labels),
        class: CLASS_IN,
        ttl: BLOCKED_TTL,
        mname: vec![0],
        rname: vec![0],
        serial: 0,
        refresh: 0,
        retry: 0,
        expire: 0,
        minimum: BLOCKED_TTL,
    };
    proof {
        let none = Seq::<Seq<u8>>::empty();
        assert(valid_labels(none) && name_wire(none) == seq![0u8]);
        assert(record.mname@ == seq![0u8]);
        assert(record.rname@ == seq![0u8]);
        assert(record.rdata().len() == 22);
        assert(record.wire() =~= null_soa(octet_strings(labels@)));
    }
    record
}

/// Builds the answer to a blocked query: an authoritative answer that the name
/// does not exist, which echoes the question. Its one record, in the authority
/// section, is a start of authority owned by the name that was asked for, with
/// nothing in it but a lifetime of a second.
#[verifier::spinoff_prover]
#[verifier::rlimit(60)]
pub fn build_null_response(query: &[u8]) -> (response: Option<Vec<u8>>)
    ensures
        match response {
            Some(r) => sole_question_of(query@) matches Some(q) && r@ == null_response(query@, q),
            None => sole_question_of(query@) is None,
        },
        response matches Some(r) ==> r@.len() >= 12 && r@[0] == query@[0] && r@[1] == query@[1]
            && r@[2] == 0x84u8 | (query@[2] & 0x79u8) && r@[3] == 3,
        response matches Some(r) ==> r@.subrange(4, 12) == seq![0u8, 1, 0, 0, 0, 1, 0, 0],
        response matches Some(r) ==> (sole_question_of(query@) matches Some(q)
            && question_wire(q).is_prefix_of(r@.skip(12))),
        reads_question(query@, sole_question_of(query@)),
        forall|q: QuestionView| #[trigger]
            holds_question(query@, q) ==> (response matches Some(r) && r@ == null_response(
                query@,
                q,
            )),
{
    let question = match sole_question(query) {
        Some(question) => question,
        None => {
            return None;
        },
    };
    let ghost q = question@;
    let mut answer = match start_answer(query, NXDOMAIN) {
        Some(answer) => answer,
        None => {
            return None;
        },
    };
    set_authoritative(&mut answer, true);
    let record = make_null_soa(&question.labels);
    let mut authority = into_authority(answer);
    let ghost before = crate::message::authority_octets(authority);
    proof {
        let b = query@[2];
        lemma_one_question(query@, NXDOMAIN, q);
        assert((0x80u8 | (b & 0x79u8)) | 0x04u8 == 0x84u8 | (b & 0x79u8)) by (bit_vector);
        assert(before == answer_echo(query@, NXDOMAIN, q).update(2, 0x84u8 | (b & 0x79u8)));
        assert(word_at(before, 8) == 0);
    }
    if !push_soa(&mut authority, &record) {
        return None;
    }
    proof {
        assert(crate::message::authority_octets(authority) =~= null_response(query@, q));
        let r = null_response(query@, q);
        assert(r.subrange(4, 12) =~= seq![0u8, 1, 0, 0, 0, 1, 0, 0]);
        assert(question_wire(q) =~= r.skip(12).take(question_wire(q).len() as int));
    }
    Some(finish_authority(authority))
}

/// The answer to a `query` that could not be forwarded: a server failure that
/// echoes its questions.
pub open spec fn servfail_response(query: Seq<u8>) -> Seq<u8> {
    answer_with(query, SERVFAIL, readable_questions(query))
}

/// Builds the answer to a query that could not be forwarded: a server failure
/// that echoes the identifier and the questions and holds no records. There is
/// none for what is too short to be a message.
pub fn build_servfail_response(query: &[u8]) -> (response: Option<Vec<u8>>)
    ensures
        response is Some <==> query@.len() >= 12,
        response is None ==> sole_question_of(query@) is None,
        response matches Some(r) ==> r@ == servfail_response(query@),
        response matches Some(r) ==> r@.len() >= 12 && r@[0] == query@[0] && r@[1] == query@[1]
            && r@[2] == 0x80u8 | (query@[2] & 0x79u8) && r@[3] == 2,
        response matches Some(r) ==> r@.subrange(6, 12) == seq![0u8, 0, 0, 0, 0, 0],
        response matches Some(r) ==> r@.skip(12) == questions_wire(readable_questions(query@)),
        response is Some ==> are_questions_of(query@, readable_questions(query@)),
        sole_question_of(query@) matches Some(q) ==> (response matches Some(r) && r@ == answer_echo(
            query@,
            SERVFAIL,
            q,
        )),
        forall|qs: Seq<QuestionView>| #[trigger]
            holds_questions(query@, qs) ==> (response matches Some(r) && r@ == answer_with(
                query@,
                SERVFAIL,
                qs,
            )),
        query@.len() >= 12 && word_at(query@, 4) == 0 ==> (response matches Some(r) && r@
            == answer_head(query@, SERVFAIL) + counts_wire(0, 0, 0)),
{
    match start_answer(query, SERVFAIL) {
        Some(answer) => {
            proof {
                let r = servfail_response(query@);
                assert(r.subrange(6, 12) =~= seq![0u8, 0, 0, 0, 0, 0]);
                assert(r.skip(12) =~= questions_wire(readable_questions(query@)));
                if let Some(q) = sole_question_of(query@) {
                    lemma_one_question(query@, SERVFAIL, q);
                }
                let none = Seq::<QuestionView>::empty();
                if word_at(query@, 4) == 0 {
                    assert(questions_wire(none) =~= query@.skip(12).take(0));
                    assert(holds_questions(query@, none));
                    assert(answer_with(query@, SERVFAIL, none) =~= answer_head(query@, SERVFAIL)
                        + counts_wire(0, 0, 0));
                }
            }
            Some(finish_answer(answer))
        },
        None => None,
    }
}

/// The name that a query asks for, as text for a log.
pub fn qname_str(payload: &[u8]) -> (text: String)
    ensures
        text@ == match sole_question_of(payload@) {
            Some(q) => shown_name(q.labels),
            None => "<malformed>"@,
        },
        forall|q: QuestionView| #[trigger]
            holds_question(payload@, q) ==> text@ == shown_name(q.labels),
        forall|q: QuestionView, n: int, target: int| #[trigger]
            holds_compressed_question(payload@, q, n, target) ==> text@ == shown_name(q.labels),
        forall|labels: Seq<Seq<u8>>| #[trigger]
            breaks_off(payload@, labels) ==> text@ == "<malformed>"@,
{
    match read_question_name(payload) {
        Some(text) => text,
        None => "<malformed>".to_string(),
    }
}

/// How many hops a packet of the proxy may take.
pub const HOP_LIMIT: u8 = 64;

/// `response` under the identifier of `request`, where both are long enough to
/// have one.
pub open spec fn with_id_of(request: Seq<u8>, response: Seq<u8>) -> Seq<u8> {
    if request.len() >= 2 && response.len() >= 2 {
        response.update(0, request[0]).update(1, request[1])
    } else {
        response
    }
}

/// The packet that carries `payload` back to the sender of the UDP datagram
/// `request`; none where `request` is no UDP datagram over IP, or the packet
/// would be too long.
pub open spec fn udp_reply(request: PacketView, payload: Seq<u8>) -> Option<Seq<u8>> {
    match (request.net, request.transport) {
        (
            Some(NetView::Ipv4 { source, destination }),
            Some(TransportView::Udp { source_port, destination_port, .. }),
        ) => if 28 + payload.len() <= 0xffff {
            Some(
                ipv4_udp_packet(
                    destination,
                    source,
                    HOP_LIMIT,
                    destination_port,
                    source_port,
                    payload,
                ),
            )
        } else {
            None
        },
        (
            Some(NetView::Ipv6 { source, destination }),
            Some(TransportView::Udp { source_port, destination_port, .. }),
        ) => if 8 + payload.len() <= 0xffff {
            Some(
                ipv6_udp_packet(
                    destination,
                    source,
                    HOP_LIMIT,
                    destination_port,
                    source_port,
                    payload,
                ),
            )
        } else {
            None
        },
        _ => None,
    }
}

/// The view of octets that may be missing.
pub open spec fn octets_view(octets: Option<Vec<u8>>) -> Option<Seq<u8>> {
    match octets {
        Some(o) => Some(o@),
        None => None,
    }
}

/// Puts the identifier of `request` into `response`.
fn patch_id(request: &[u8], response: &[u8]) -> (patched: Vec<u8>)
    ensures
        patched@ == with_id_of(request@, response@),
{
    let mut patched: Vec<u8> = Vec::new();
    append_octets(&mut patched, response);
    proof {
        assert(patched@ =~= response@);
    }
    if patched.len() >= 2 && request.len() >= 2 {
        patched.set(0, request[0]);
        patched.set(1, request[1]);
    }
    patched
}

/// Wraps a DNS response into the packet that answers the given request: from
/// where the request went to where it came from, under the identifier of the
/// query.
pub fn create_forwarded_response(
    sliced: &IpPacket,
    req_payload: &[u8],
    dns_resp: &[u8],
) -> (r: Option<Vec<u8>>)
    ensures
        octets_view(r) == udp_reply(sliced@, with_id_of(req_payload@, dns_resp@)),
{
    let udp = match &sliced.transport {
        Some(Transport::Udp(udp)) => udp,
        _ => {
            return None;
        },
    };
    let patched = patch_id(req_payload, dns_resp);
    match &sliced.net {
        Some(Net::Ipv4 { source, destination }) => write_ipv4_udp(
            *destination,
            *source,
            HOP_LIMIT,
            udp.destination_port,
            udp.source_port,
            patched.as_slice(),
        ),
        Some(Net::Ipv6 { source, destination }) => write_ipv6_udp(
            *destination,
            *source,
            HOP_LIMIT,
            udp.destination_port,
            udp.source_port,
            patched.as_slice(),
        ),
        _ => None,
    }
}

/// The header that refuses a TCP segment, its checksum aside: a segment that
/// acknowledges something is refused under the number it acknowledges, and any
/// other by acknowledging it.
pub open spec fn rst_fields(tcp: TcpSegment, checksum: u16) -> TcpFields {
    TcpFields {
        source_port: tcp.destination_port,
        destination_port: tcp.source_port,
        sequence_number: if tcp.ack {
            tcp.acknowledgment_number
        } else {
            0
        },
        acknowledgment_number: if tcp.ack {
            0
        } else {
            ((tcp.sequence_number + 1) % 0x1_0000_0000) as u32
        },
        rst: true,
        ack: !tcp.ack,
        window_size: 0,
        checksum,
    }
}

/// The packet that refuses the TCP segment `request`; none where `request` is no
/// TCP segment over IP.
pub open spec fn tcp_reset(request: PacketView) -> Option<Seq<u8>> {
    match (request.net, request.transport) {
        (Some(NetView::Ipv4 { source, destination }), Some(TransportView::Tcp(tcp))) => {
            let fields = rst_fields(tcp, 0);
            let checksum = internet_checksum(
                tcp_pseudo_header_v4(destination, source, 20) + fields.wire_with(0),
            );
            Some(ipv4_header(20, HOP_LIMIT, TCP, destination, source) + fields.wire_with(checksum))
        },
        (Some(NetView::Ipv6 { source, destination }), Some(TransportView::Tcp(tcp))) => {
            let fields = rst_fields(tcp, 0);
            let checksum = internet_checksum(
                tcp_pseudo_header_v6(destination, source, 20) + fields.wire_with(0),
            );
            Some(
                ipv6_header(0, 0, 20, TCP, HOP_LIMIT, destination, source) + fields.wire_with(
                    checksum,
                ),
            )
        },
        _ => None,
    }
}

/// The header of `rst_fields`.
fn make_rst_fields(tcp: &TcpSegment) -> (fields: TcpFields)
    ensures
        fields == rst_fields(*tcp, 0),
{
    let mut fields = TcpFields {
        source_port: tcp.destination_port,
        destination_port: tcp.source_port,
        sequence_number: 0,
        acknowledgment_number: 0,
        rst: true,
        ack: false,
        window_size: 0,
        checksum: 0,
    };
    if tcp.ack {
        fields.sequence_number = tcp.acknowledgment_number;
    } else {
        fields.acknowledgment_number = tcp.sequence_number.wrapping_add(1);
        fields.ack = true;
    }
    fields
}

/// Makes the packet that refuses a TCP segment.
pub fn create_tcp_rst(sliced: &IpPacket) -> (r: Option<Vec<u8>>)
    ensures
        octets_view(r) == tcp_reset(sliced@),
{
    let tcp = match &sliced.transport {
        Some(Transport::Tcp(tcp)) => tcp,
        _ => {
            return None;
        },
    };
    let mut fields = make_rst_fields(tcp);
    let ghost unchecked = fields;
    let mut packet = match &sliced.net {
        Some(Net::Ipv4 { source, destination }) => {
            fields.checksum =
            match tcp_checksum_ipv4(&fields, *destination, *source) {
                Some(checksum) => checksum,
                None => 0,
            };
            match write_ipv4_header(TCP_HEADER_LEN, HOP_LIMIT, TCP, *destination, *source) {
                Some(header) => header,
                None => {
                    return None;
                },
            }
        },
        Some(Net::Ipv6 { source, destination }) => {
            fields.checksum =
            match tcp_checksum_ipv6(&fields, *destination, *source) {
                Some(checksum) => checksum,
                None => 0,
            };
            match write_ipv6_header(0, 0, TCP_HEADER_LEN, TCP, HOP_LIMIT, *destination, *source) {
                Some(header) => header,
                None => {
                    return None;
                },
            }
        },
        _ => {
            return None;
        },
    };
    proof {
        assert(fields.wire_with(fields.checksum as int) == unchecked.wire_with(
            fields.checksum as int,
        ));
    }
    match write_tcp_header(&fields) {
        Some(header) => {
            append_octets(&mut packet, header.as_slice());
            Some(packet)
        },
        None => None,
    }
}

} // verus!
