//! What becomes of a packet that reaches the proxy, and of a query that was
//! forwarded.

use crate::answer_laws::law_only_the_identifier_changes;
use crate::blocklist::{
    covers, is_blocked_by, keys_of, law_blocks_listed_domains_and_below, Blocklist,
};
use crate::bytes::append_octets;
use crate::message::{
    answer_echo, question_wire, sole_question_of, QuestionView,
};
use crate::names::{key_of, short_labels, valid_labels};
use crate::packet::{
    has_addresses, plain_packet, slice_packet, sliced_packet, IpPacket, NetView, PacketView,
    Transport, TransportView,
};
use crate::proxy::{
    build_null_response, build_servfail_response, create_forwarded_response, create_tcp_rst,
    null_response, null_soa, octets_view, parse_query, servfail_response, tcp_reset, udp_reply,
    with_id_of, SERVFAIL,
};
use crate::reply_laws::{law_tcp_reset_reads_back, law_udp_reply_reads_back, turned};
use vstd::prelude::*;

verus! {

/// The UDP port of DNS.
pub const DNS_PORT: u16 = 53;

/// How many packets may wait to be written.
pub const REPLY_QUEUE: usize = 1000;

/// How long, in seconds, a forwarded query may take: the connection, the query
/// and the delivery of the response together.
pub const QUERY_DEADLINE_SECS: u64 = 3;

/// What is done with a packet.
pub enum PacketAction {
    /// Nothing.
    Drop,
    /// The packet is answered with this one.
    Reply(Vec<u8>),
    /// The packet holds this DNS query, which goes to the upstream server.
    Forward(Vec<u8>),
}

/// What is done with a packet, as a value.
pub enum ActionView {
    Drop,
    Reply(Seq<u8>),
    Forward(Seq<u8>),
}

impl View for PacketAction {
    type V = ActionView;

    open spec fn view(&self) -> ActionView {
        match *self {
            PacketAction::Drop => ActionView::Drop,
            PacketAction::Reply(packet) => ActionView::Reply(packet@),
            PacketAction::Forward(payload) => ActionView::Forward(payload@),
        }
    }
}

/// To answer with `packet`, if there is one.
pub open spec fn reply_or_drop(packet: Option<Seq<u8>>) -> ActionView {
    match packet {
        Some(p) => ActionView::Reply(p),
        None => ActionView::Drop,
    }
}

/// What is done with the DNS query `payload` that `packet` holds, where the
/// names under `blocked` are not to be found.
pub open spec fn query_action(
    packet: PacketView,
    payload: Seq<u8>,
    question: Option<QuestionView>,
    blocked: Set<Seq<u8>>,
) -> ActionView {
    match question {
        None => ActionView::Drop,
        Some(q) => if covers(blocked, key_of(q.labels)) {
            reply_or_drop(udp_reply(packet, with_id_of(payload, null_response(payload, q))))
        } else {
            ActionView::Forward(payload)
        },
    }
}

/// What is done with `packet`: a DNS query is answered or forwarded, any TCP
/// segment is refused, and everything else is dropped.
pub open spec fn packet_action(packet: PacketView, blocked: Set<Seq<u8>>) -> ActionView {
    match packet.transport {
        Some(TransportView::Udp { destination_port, payload, .. }) => if destination_port
            == DNS_PORT {
            query_action(packet, payload, sole_question_of(payload), blocked)
        } else {
            ActionView::Drop
        },
        Some(TransportView::Tcp(_)) => reply_or_drop(tcp_reset(packet)),
        _ => ActionView::Drop,
    }
}

/// A copy of `octets`.
fn copied(octets: &[u8]) -> (copy: Vec<u8>)
    ensures
        copy@ == octets@,
{
    let mut copy: Vec<u8> = Vec::new();
    append_octets(&mut copy, octets);
    proof {
        assert(copy@ =~= octets@);
    }
    copy
}

/// To answer with a packet, if there is one.
fn reply_with(packet: Option<Vec<u8>>) -> (action: PacketAction)
    ensures
        action@ == reply_or_drop(octets_view(packet)),
{
    match packet {
        Some(p) => PacketAction::Reply(p),
        None => PacketAction::Drop,
    }
}

/// Decides what is done with the DNS query `payload` that a packet holds, given
/// the key of the name it asks for; a message without a key is dropped.
pub fn decide_query(
    packet: &IpPacket,
    payload: &[u8],
    key: Option<Vec<u8>>,
    blocklist: &Blocklist,
) -> (action: PacketAction)
    ensures
        match key {
            None => action@ == ActionView::Drop,
            Some(k) => if covers(blocklist@, k@) {
                action@ == match sole_question_of(payload@) {
                    Some(q) => reply_or_drop(
                        udp_reply(packet@, with_id_of(payload@, null_response(payload@, q))),
                    ),
                    None => ActionView::Drop,
                }
            } else {
                action@ == ActionView::Forward(payload@)
            },
        },
{
    match key {
        None => PacketAction::Drop,
        Some(key) => if blocklist.blocks(&key) {
            match build_null_response(payload) {
                Some(response) => reply_with(
                    create_forwarded_response(packet, payload, response.as_slice()),
                ),
                None => PacketAction::Drop,
            }
        } else {
            PacketAction::Forward(copied(payload))
        },
    }
}

/// Decides what is done with a packet that has been taken apart.
pub fn decide(packet: &IpPacket, blocklist: &Blocklist) -> (action: PacketAction)
    ensures
        action@ == packet_action(packet@, blocklist@),
{
    match &packet.transport {
        Some(Transport::Udp(udp)) => if udp.destination_port == DNS_PORT {
            let payload = udp.payload.as_slice();
            decide_query(packet, payload, parse_query(payload), blocklist)
        } else {
            PacketAction::Drop
        },
        Some(Transport::Tcp(_)) => reply_with(create_tcp_rst(packet)),
        _ => PacketAction::Drop,
    }
}

/// Decides what is done with a packet as it was read. What is no IP packet is
/// dropped.
pub fn handle_packet(pkt: &[u8], blocklist: &Blocklist) -> (action: PacketAction)
    ensures
        action@ == match sliced_packet(pkt@) {
            Some(packet) => packet_action(packet, blocklist@),
            None => ActionView::Drop,
        },
        plain_packet(pkt@) matches Some(packet) ==> action@ == packet_action(packet, blocklist@),
        sliced_packet(pkt@) matches Some(packet) ==> has_addresses(packet),
{
    match slice_packet(pkt) {
        Some(packet) => decide(&packet, blocklist),
        None => PacketAction::Drop,
    }
}

/// Decides what is done with a query that is to be forwarded: without a permit,
/// when too many are under way, its client gets a server failure at once.
pub fn let_through(req_ip: &[u8], payload: &[u8], permit: bool) -> (action: PacketAction)
    ensures
        action@ == if permit {
            ActionView::Forward(payload@)
        } else {
            match sliced_packet(req_ip@) {
                Some(request) => reply_or_drop(servfail_reply(request, payload@)),
                None => ActionView::Drop,
            }
        },
        !permit ==> (sliced_packet(req_ip@) matches Some(request) ==> (sole_question_of(
            payload@,
        ) matches Some(q) ==> action@ == reply_or_drop(
            udp_reply(request, answer_echo(payload@, SERVFAIL, q)),
        ))),
        !permit ==> (plain_packet(req_ip@) matches Some(request) ==> action@ == reply_or_drop(
            servfail_reply(request, payload@),
        )),
{
    if permit {
        PacketAction::Forward(copied(payload))
    } else {
        reply_with(servfail_packet(req_ip, payload))
    }
}

/// The packet that answers the DNS query `payload` in `request` with a server
/// failure; none where `payload` is too short for a message, or `request` is no
/// UDP datagram over IP.
pub open spec fn servfail_reply(request: PacketView, payload: Seq<u8>) -> Option<Seq<u8>> {
    if payload.len() >= 12 {
        udp_reply(request, servfail_response(payload))
    } else {
        None
    }
}

/// Makes the packet that answers a query with a server failure. It echoes the
/// questions of the query.
pub fn refuse(request: &IpPacket, payload: &[u8]) -> (r: Option<Vec<u8>>)
    ensures
        octets_view(r) == servfail_reply(request@, payload@),
        sole_question_of(payload@) matches Some(q) ==> octets_view(r) == udp_reply(
            request@,
            answer_echo(payload@, SERVFAIL, q),
        ),
{
    match build_servfail_response(payload) {
        Some(response) => {
            proof {
                assert(response@[0] == payload@[0] && response@[1] == payload@[1]);
                assert(with_id_of(payload@, response@) =~= response@);
            }
            create_forwarded_response(request, payload, response.as_slice())
        },
        None => None,
    }
}

/// Makes the packet that answers a query with a server failure, from the packet
/// that held the query as it was read.
pub fn servfail_packet(req_ip: &[u8], payload: &[u8]) -> (r: Option<Vec<u8>>)
    ensures
        octets_view(r) == match sliced_packet(req_ip@) {
            Some(request) => servfail_reply(request, payload@),
            None => None,
        },
        sliced_packet(req_ip@) matches Some(request) ==> (sole_question_of(payload@) matches Some(
            q,
        ) ==> octets_view(r) == udp_reply(request, answer_echo(payload@, SERVFAIL, q))),
        plain_packet(req_ip@) matches Some(request) ==> octets_view(r) == servfail_reply(
            request,
            payload@,
        ),
{
    match slice_packet(req_ip) {
        Some(request) => refuse(&request, payload),
        None => None,
    }
}

/// How an attempt to get a query answered by the upstream server ended.
pub enum QueryOutcome {
    /// There was no connection in time.
    NoClient,
    /// The server sent this response.
    Answered(Vec<u8>),
    /// The query failed on its connection, or the response did not come in time.
    Failed,
}

/// What is done once a forwarded query has ended.
pub struct Delivery {
    /// Whether the connection is given up, so that the next query dials anew.
    pub invalidate: bool,
    /// The packet that goes to the client.
    pub reply: Option<Vec<u8>>,
}

/// The packet that a client gets for the query `payload` in `request` once the
/// query has ended.
pub open spec fn outcome_reply(
    request: PacketView,
    payload: Seq<u8>,
    outcome: QueryOutcome,
) -> Option<Seq<u8>> {
    match outcome {
        QueryOutcome::Answered(response) => udp_reply(request, with_id_of(payload, response@)),
        _ => servfail_reply(request, payload),
    }
}

/// Decides what follows when a forwarded query has ended: a response is handed to
/// the client under the identifier of its query, and anything else is a server
/// failure. Only a failure of the query itself ends the connection.
pub fn deliver(request: &IpPacket, payload: &[u8], outcome: &QueryOutcome) -> (d: Delivery)
    ensures
        d.invalidate <==> outcome is Failed,
        octets_view(d.reply) == outcome_reply(request@, payload@, *outcome),
        outcome matches QueryOutcome::Answered(response) ==> octets_view(d.reply) == udp_reply(
            request@,
            with_id_of(payload@, response@),
        ),
        outcome matches QueryOutcome::Answered(response) ==> (has_addresses(request@) && 28
            + response@.len() <= 65535 ==> match (request@.transport, d.reply) {
            (
                Some(TransportView::Udp { source_port, destination_port, .. }),
                Some(pkt),
            ) => match plain_packet(pkt@) {
                Some(
                    PacketView {
                        net: Some(back),
                        transport: Some(
                            TransportView::Udp {
                                source_port: from,
                                destination_port: to,
                                payload: got,
                            },
                        ),
                    },
                ) => {
                    &&& back == turned(request@.net->0)
                    &&& from == destination_port
                    &&& to == source_port
                    &&& got.len() == response@.len()
                    &&& forall|i: int| 2 <= i < got.len() ==> got[i] == response@[i]
                    &&& payload@.len() >= 2 && response@.len() >= 2 ==> got[0] == payload@[0]
                    &&& payload@.len() >= 2 && response@.len() >= 2 ==> got[1] == payload@[1]
                    &&& payload@.len() < 2 || response@.len() < 2 ==> got == response@
                },
                _ => false,
            },
            (Some(TransportView::Udp { .. }), None) => false,
            _ => true,
        }),
        outcome !is Answered ==> octets_view(d.reply) == servfail_reply(request@, payload@),
        outcome !is Answered ==> (sole_question_of(payload@) matches Some(q) ==> octets_view(
            d.reply,
        ) == udp_reply(request@, answer_echo(payload@, SERVFAIL, q))),
{
    match outcome {
        QueryOutcome::NoClient => Delivery { invalidate: false, reply: refuse(request, payload) },
        QueryOutcome::Answered(response) => {
            proof {
                if request@.transport matches Some(TransportView::Udp { .. }) && has_addresses(
                    request@,
                ) && 28 + response@.len() <= 65535 {
                    law_answer_is_delivered(request@, payload@, response@);
                }
            }
            Delivery {
                invalidate: false,
                reply: create_forwarded_response(request, payload, response.as_slice()),
            }
        },
        QueryOutcome::Failed => Delivery { invalidate: true, reply: refuse(request, payload) },
    }
}

/// Decides what follows when a forwarded query has ended, from the packet that
/// held the query as it was read.
pub fn forward_outcome(req_ip: &[u8], payload: &[u8], outcome: &QueryOutcome) -> (d: Delivery)
    ensures
        d.invalidate <==> outcome is Failed,
        octets_view(d.reply) == match sliced_packet(req_ip@) {
            Some(request) => outcome_reply(request, payload@, *outcome),
            None => None,
        },
        outcome matches QueryOutcome::Answered(response) ==> (sliced_packet(req_ip@) matches Some(
            request,
        ) ==> octets_view(d.reply) == udp_reply(request, with_id_of(payload@, response@))),
        outcome matches QueryOutcome::Answered(response) ==> (sliced_packet(req_ip@) matches Some(
            request,
        ) ==> (has_addresses(request) && 28
            + response@.len() <= 65535 ==> match (request.transport, d.reply) {
            (
                Some(TransportView::Udp { source_port, destination_port, .. }),
                Some(pkt),
            ) => match plain_packet(pkt@) {
                Some(
                    PacketView {
                        net: Some(back),
                        transport: Some(
                            TransportView::Udp {
                                source_port: from,
                                destination_port: to,
                                payload: got,
                            },
                        ),
                    },
                ) => {
                    &&& back == turned(request.net->0)
                    &&& from == destination_port
                    &&& to == source_port
                    &&& got.len() == response@.len()
                    &&& forall|i: int| 2 <= i < got.len() ==> got[i] == response@[i]
                    &&& payload@.len() >= 2 && response@.len() >= 2 ==> got[0] == payload@[0]
                    &&& payload@.len() >= 2 && response@.len() >= 2 ==> got[1] == payload@[1]
                    &&& payload@.len() < 2 || response@.len() < 2 ==> got == response@
                },
                _ => false,
            },
            (Some(TransportView::Udp { .. }), None) => false,
            _ => true,
        })),
        outcome !is Answered ==> (sliced_packet(req_ip@) matches Some(request) ==> octets_view(
            d.reply,
        ) == servfail_reply(request, payload@)),
        outcome !is Answered ==> (sliced_packet(req_ip@) matches Some(request) ==> (
        sole_question_of(payload@) matches Some(q) ==> octets_view(d.reply) == udp_reply(
            request,
            answer_echo(payload@, SERVFAIL, q),
        ))),
        plain_packet(req_ip@) matches Some(request) ==> octets_view(d.reply) == outcome_reply(
            request,
            payload@,
            *outcome,
        ),
{
    match slice_packet(req_ip) {
        Some(request) => deliver(&request, payload, outcome),
        None => Delivery { invalidate: matches!(outcome, QueryOutcome::Failed), reply: None },
    }
}

/// The datagram that answers `packet` with `payload`, as its receiver reads it.
pub open spec fn answered_with(packet: PacketView, payload: Seq<u8>) -> Option<PacketView> {
    match (packet.net, packet.transport) {
        (Some(net), Some(TransportView::Udp { source_port, destination_port, .. })) => Some(
            PacketView {
                net: Some(turned(net)),
                transport: Some(
                    TransportView::Udp {
                        source_port: destination_port,
                        destination_port: source_port,
                        payload,
                    },
                ),
            },
        ),
        _ => None,
    }
}

#[verifier::spinoff_prover]
proof fn lemma_reply_fits(packet: PacketView, payload: Seq<u8>)
    requires
        has_addresses(packet),
        packet.transport matches Some(TransportView::Udp { .. }),
        28 + payload.len() <= 0xffff,
    ensures
        udp_reply(packet, payload) is Some,
        plain_packet(udp_reply(packet, payload)->0) == answered_with(packet, payload),
{
    law_udp_reply_reads_back(packet, payload);
}

proof fn lemma_null_response_shape(payload: Seq<u8>, q: QuestionView)
    requires
        valid_labels(q.labels),
    ensures
        null_response(payload, q).len() <= 600,
        null_response(payload, q).take(2) == seq![payload[0], payload[1]],
        with_id_of(payload, null_response(payload, q)) == null_response(payload, q),
{
    let response = null_response(payload, q);
    assert(question_wire(q).len() <= 259);
    assert(null_soa(q.labels).len() <= 300);
    assert(response.take(2) =~= seq![payload[0], payload[1]]);
    assert(response[0] == payload[0] && response[1] == payload[1]);
    assert(with_id_of(payload, response) =~= response);
}

/// A query for a blocked name is answered at once: the client reads a datagram,
/// from where its query went, which says under the identifier of the query that
/// the name does not exist. Nothing goes to the upstream server.
#[verifier::spinoff_prover]
#[verifier::rlimit(40)]
pub proof fn law_blocked_query_is_answered(
    packet: PacketView,
    payload: Seq<u8>,
    q: QuestionView,
    blocked: Set<Seq<u8>>,
)
    requires
        has_addresses(packet),
        packet.transport matches Some(TransportView::Udp { destination_port, payload: p, .. })
            && destination_port == DNS_PORT && p == payload,
        sole_question_of(payload) == Some(q),
        valid_labels(q.labels),
        covers(blocked, key_of(q.labels)),
    ensures
        packet_action(packet, blocked) matches ActionView::Reply(r) && plain_packet(r)
            == answered_with(packet, null_response(payload, q)),
        null_response(payload, q).take(2) == seq![payload[0], payload[1]],
{
    lemma_null_response_shape(payload, q);
    lemma_reply_fits(packet, null_response(payload, q));
}

/// With a list of domains loaded, a query is answered as for a name that does
/// not exist exactly when the list holds the name or a domain above it. Every
/// other query is forwarded as it came.
#[verifier::spinoff_prover]
#[verifier::rlimit(40)]
pub proof fn law_listed_domains_are_blocked(
    packet: PacketView,
    payload: Seq<u8>,
    q: QuestionView,
    domains: Seq<Seq<u8>>,
)
    requires
        has_addresses(packet),
        packet.transport matches Some(TransportView::Udp { destination_port, payload: p, .. })
            && destination_port == DNS_PORT && p == payload,
        sole_question_of(payload) == Some(q),
        valid_labels(q.labels),
    ensures
        is_blocked_by(domains, q.labels) ==> (packet_action(packet, keys_of(domains)) matches
            ActionView::Reply(r) && plain_packet(r) == answered_with(
            packet,
            null_response(payload, q),
        )),
        !is_blocked_by(domains, q.labels) ==> packet_action(packet, keys_of(domains))
            == ActionView::Forward(payload),
{
    assert(short_labels(q.labels));
    law_blocks_listed_domains_and_below(domains, q.labels);
    if is_blocked_by(domains, q.labels) {
        law_blocked_query_is_answered(packet, payload, q, keys_of(domains));
    }
}

/// Nothing but a query to the port of DNS is ever forwarded, as it came, and
/// then its name is not blocked.
pub proof fn law_only_unblocked_queries_are_forwarded(
    packet: PacketView,
    blocked: Set<Seq<u8>>,
    forwarded: Seq<u8>,
)
    requires
        packet_action(packet, blocked) == ActionView::Forward(forwarded),
    ensures
        packet.transport matches Some(TransportView::Udp { destination_port, payload, .. })
            && destination_port == DNS_PORT && payload == forwarded,
        sole_question_of(forwarded) matches Some(q) && !covers(blocked, key_of(q.labels)),
{
}

/// Every TCP segment is refused by a reset to its sender, whatever its ports.
pub proof fn law_tcp_is_refused(packet: PacketView, blocked: Set<Seq<u8>>)
    requires
        has_addresses(packet),
        packet.transport matches Some(TransportView::Tcp(_)),
    ensures
        packet_action(packet, blocked) matches ActionView::Reply(r) && (plain_packet(r) matches
            Some(answer) && answer.net == Some(turned(packet.net->0)) && (answer.transport matches
            Some(TransportView::Tcp(_)))),
{
    law_tcp_reset_reads_back(packet);
}

/// What is neither TCP nor a UDP datagram to the port of DNS is dropped.
pub proof fn law_other_traffic_is_dropped(packet: PacketView, blocked: Set<Seq<u8>>)
    requires
        !(packet.transport matches Some(TransportView::Tcp(_))),
        packet.transport matches Some(TransportView::Udp { destination_port, .. })
            ==> destination_port != DNS_PORT,
    ensures
        packet_action(packet, blocked) == ActionView::Drop,
{
}

proof fn lemma_servfail_shape(payload: Seq<u8>, q: QuestionView)
    requires
        valid_labels(q.labels),
    ensures
        answer_echo(payload, SERVFAIL, q).len() <= 300,
        answer_echo(payload, SERVFAIL, q).take(2) == seq![payload[0], payload[1]],
{
    let response = answer_echo(payload, SERVFAIL, q);
    assert(question_wire(q).len() <= 259);
    assert(response.take(2) =~= seq![payload[0], payload[1]]);
}

/// A forwarded query that cannot be answered leaves its client with a server
/// failure, which echoes the identifier and the question.
#[verifier::spinoff_prover]
#[verifier::rlimit(40)]
pub proof fn law_failed_query_is_answered(packet: PacketView, payload: Seq<u8>, q: QuestionView)
    requires
        has_addresses(packet),
        packet.transport matches Some(TransportView::Udp { .. }),
        valid_labels(q.labels),
    ensures
        udp_reply(packet, answer_echo(payload, SERVFAIL, q)) is Some,
        plain_packet(udp_reply(packet, answer_echo(payload, SERVFAIL, q))->0) == answered_with(
            packet,
            answer_echo(payload, SERVFAIL, q),
        ),
        answer_echo(payload, SERVFAIL, q).take(2) == seq![payload[0], payload[1]],
{
    lemma_servfail_shape(payload, q);
    lemma_reply_fits(packet, answer_echo(payload, SERVFAIL, q));
}

/// A response from the upstream server reaches the client unchanged but for the
/// identifier, which is that of the client's query.
pub proof fn law_response_keeps_query_id(payload: Seq<u8>, response: Seq<u8>)
    requires
        payload.len() >= 2,
        response.len() >= 2,
    ensures
        with_id_of(payload, response).len() == response.len(),
        with_id_of(payload, response).take(2) == payload.take(2),
        with_id_of(payload, response).skip(2) == response.skip(2),
{
}

/// The response to a forwarded query reaches its client: the packet delivered is
/// read as a datagram from where the query went to where it came from, whose
/// payload is the response, of its full length and unchanged but for the first two
/// octets, which are those of the query.
pub proof fn law_answer_is_delivered(request: PacketView, payload: Seq<u8>, response: Seq<u8>)
    requires
        has_addresses(request),
        request.transport matches Some(TransportView::Udp { .. }),
        28 + response.len() <= 65535,
    ensures
        match (request.transport, udp_reply(request, with_id_of(payload, response))) {
            (
                Some(TransportView::Udp { source_port, destination_port, .. }),
                Some(pkt),
            ) => match plain_packet(pkt) {
                Some(
                    PacketView {
                        net: Some(back),
                        transport: Some(
                            TransportView::Udp {
                                source_port: from,
                                destination_port: to,
                                payload: got,
                            },
                        ),
                    },
                ) => {
                    &&& back == turned(request.net->0)
                    &&& from == destination_port
                    &&& to == source_port
                    &&& got.len() == response.len()
                    &&& forall|i: int| 2 <= i < got.len() ==> got[i] == response[i]
                    &&& payload.len() >= 2 && response.len() >= 2 ==> got[0] == payload[0]
                    &&& payload.len() >= 2 && response.len() >= 2 ==> got[1] == payload[1]
                    &&& payload.len() < 2 || response.len() < 2 ==> got == response
                },
                _ => false,
            },
            (Some(TransportView::Udp { .. }), None) => false,
            _ => true,
        },
{
    law_only_the_identifier_changes(payload, response);
    lemma_reply_fits(request, with_id_of(payload, response));
}

/// What becomes of a forwarded query is decided by how it ended alone: an answer
/// is passed on, and only without one is there a server failure.
pub proof fn law_outcome_decides_the_reply(
    request: PacketView,
    payload: Seq<u8>,
    outcome: QueryOutcome,
)
    ensures
        outcome matches QueryOutcome::Answered(response) ==> outcome_reply(
            request,
            payload,
            outcome,
        ) == udp_reply(request, with_id_of(payload, response@)),
        outcome is NoClient || outcome is Failed ==> outcome_reply(request, payload, outcome)
            == servfail_reply(request, payload),
        payload.len() >= 12 ==> servfail_reply(request, payload) == udp_reply(
            request,
            servfail_response(payload),
        ),
        payload.len() < 12 ==> servfail_reply(request, payload) is None,
{
}

/// What is done with each packet, whatever its addresses: a datagram to port 53
/// with one readable question is forwarded as it came, or, where the name is
/// covered by the blocklist, answered as for a name that does not exist; a TCP
/// segment is refused; and everything else is dropped.
pub proof fn law_what_becomes_of_a_packet(packet: PacketView, blocked: Set<Seq<u8>>)
    ensures
        match packet.transport {
            Some(TransportView::Udp { destination_port, payload, .. }) => if destination_port
                != 53 {
                packet_action(packet, blocked) == ActionView::Drop
            } else {
                match sole_question_of(payload) {
                    None => packet_action(packet, blocked) == ActionView::Drop,
                    Some(q) => if !covers(blocked, key_of(q.labels)) {
                        packet_action(packet, blocked) == ActionView::Forward(payload)
                    } else {
                        match udp_reply(packet, null_response(payload, q)) {
                            Some(r) => packet_action(packet, blocked) == ActionView::Reply(r),
                            None => packet_action(packet, blocked) == ActionView::Drop,
                        }
                    },
                }
            },
            Some(TransportView::Tcp(_)) => match tcp_reset(packet) {
                Some(r) => packet_action(packet, blocked) == ActionView::Reply(r),
                None => packet_action(packet, blocked) == ActionView::Drop,
            },
            _ => packet_action(packet, blocked) == ActionView::Drop,
        },
{
    if let Some(TransportView::Udp { payload, .. }) = packet.transport {
        if let Some(q) = sole_question_of(payload) {
            lemma_null_response_keeps_id(payload, q);
        }
    }
}

proof fn lemma_null_response_keeps_id(payload: Seq<u8>, q: QuestionView)
    ensures
        with_id_of(payload, null_response(payload, q)) == null_response(payload, q),
{
    let response = null_response(payload, q);
    assert(response[0] == payload[0] && response[1] == payload[1]);
    assert(with_id_of(payload, response) =~= response);
}

/// What is done with a packet is seen as it is, and a reply that cannot be made is
/// no reply.
pub proof fn law_actions_are_seen_as_they_are(action: PacketAction, packet: Seq<u8>)
    ensures
        match action {
            PacketAction::Drop => action@ == ActionView::Drop,
            PacketAction::Reply(p) => action@ == ActionView::Reply(p@),
            PacketAction::Forward(p) => action@ == ActionView::Forward(p@),
        },
        reply_or_drop(Some(packet)) == ActionView::Reply(packet),
        reply_or_drop(None) == ActionView::Drop,
{
}

/// How the receiver reads the answer to a datagram: the addresses and the ports
/// turned round, and the payload of the answer.
pub proof fn law_answers_go_back(
    net: NetView,
    source_port: u16,
    destination_port: u16,
    asked: Seq<u8>,
    payload: Seq<u8>,
)
    ensures
        answered_with(
            PacketView {
                net: Some(net),
                transport: Some(
                    TransportView::Udp { source_port, destination_port, payload: asked },
                ),
            },
            payload,
        ) == Some(
            PacketView {
                net: Some(turned(net)),
                transport: Some(
                    TransportView::Udp {
                        source_port: destination_port,
                        destination_port: source_port,
                        payload,
                    },
                ),
            },
        ),
{
}

/// The limits that a run keeps.
pub proof fn law_limits_of_a_run()
    ensures
        DNS_PORT == 53,
        QUERY_DEADLINE_SECS == 3,
        REPLY_QUEUE == 1000,
{
}

} // verus!
