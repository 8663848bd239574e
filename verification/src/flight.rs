//! The queries that are under way to the upstream server, and their limit.

use crate::message::{
    answer_echo, lemma_one_question, readable_questions, sole_question_of, QuestionView,
};
use crate::names::valid_labels;
use crate::packet::{has_addresses, plain_packet, sliced_packet, PacketView, TransportView};
use crate::pipeline::{
    answered_with, law_failed_query_is_answered, let_through, reply_or_drop, servfail_reply,
    ActionView, PacketAction,
};
use crate::proxy::{udp_reply, SERVFAIL};
use vstd::prelude::*;

verus! {

/// How many queries of a run may be under way to the upstream server at a time.
pub const MAX_IN_FLIGHT: usize = 100;

/// The queries of a run that are under way.
pub struct InFlight {
    running: usize,
}

/// Whether one more query may be under way.
pub open spec fn has_room(running: int) -> bool {
    running < MAX_IN_FLIGHT
}

/// What is done with the query `payload` in `request` that is to be forwarded,
/// while `running` others are under way.
pub open spec fn dispatch_action(
    running: int,
    request: Option<PacketView>,
    payload: Seq<u8>,
) -> ActionView {
    if has_room(running) {
        ActionView::Forward(payload)
    } else {
        match request {
            Some(r) => reply_or_drop(servfail_reply(r, payload)),
            None => ActionView::Drop,
        }
    }
}

/// How many queries are under way after one more is to be forwarded.
pub open spec fn after_dispatch(running: int) -> int {
    if has_room(running) {
        running + 1
    } else {
        running
    }
}

impl InFlight {
    /// How many queries are under way.
    pub closed spec fn count(&self) -> int {
        self.running as int
    }

    /// The limit is kept.
    #[verifier::type_invariant]
    spec fn limit_kept(self) -> bool {
        self.running <= MAX_IN_FLIGHT
    }

    /// No queries.
    pub fn new() -> (flights: InFlight)
        ensures
            flights.count() == 0,
    {
        InFlight { running: 0 }
    }

    /// How many queries are under way.
    pub fn running(&self) -> (running: usize)
        ensures
            running == self.count(),
            running <= MAX_IN_FLIGHT,
    {
        proof {
            use_type_invariant(self);
        }
        self.running
    }

    /// Decides what is done with a query that is to be forwarded. It is counted
    /// as under way, or, where the limit is reached, its client gets a server
    /// failure at once.
    pub fn dispatch(&mut self, req_ip: &[u8], payload: &[u8]) -> (action: PacketAction)
        ensures
            0 <= final(self).count() <= MAX_IN_FLIGHT,
            final(self).count() == after_dispatch(old(self).count()),
            action@ == dispatch_action(old(self).count(), sliced_packet(req_ip@), payload@),
            old(self).count() < 100 ==> action@ == ActionView::Forward(payload@),
            old(self).count() < 100 ==> final(self).count() == old(self).count() + 1,
            old(self).count() >= 100 ==> !(action@ is Forward),
            old(self).count() >= 100 ==> final(self).count() == old(self).count(),
            !has_room(old(self).count()) ==> (sliced_packet(req_ip@) matches Some(request) ==> (
            sole_question_of(payload@) matches Some(q) ==> action@ == reply_or_drop(
                udp_reply(request, answer_echo(payload@, SERVFAIL, q)),
            ))),
            plain_packet(req_ip@) is Some ==> action@ == dispatch_action(
                old(self).count(),
                plain_packet(req_ip@),
                payload@,
            ),
    {
        proof {
            use_type_invariant(&*self);
        }
        let permit = self.running < MAX_IN_FLIGHT;
        if permit {
            self.running = self.running + 1;
        }
        let_through(req_ip, payload, permit)
    }

    /// Notes that a query has ended.
    pub fn finish(&mut self)
        requires
            old(self).count() > 0,
        ensures
            final(self).count() == old(self).count() - 1,
    {
        proof {
            use_type_invariant(&*self);
        }
        self.running = self.running - 1;
    }
}

/// What happens to the queries of a run.
pub enum FlightOp {
    /// One is to be forwarded.
    Dispatch,
    /// One that was under way has ended.
    Finish,
}

/// How many queries are under way after `ops`.
pub open spec fn flights_after(ops: Seq<FlightOp>) -> int
    decreases ops.len(),
{
    if ops.len() == 0 {
        0
    } else {
        let before = flights_after(ops.drop_last());
        match ops.last() {
            FlightOp::Dispatch => after_dispatch(before),
            FlightOp::Finish => before - 1,
        }
    }
}

/// How many queries `ops` let through to the upstream server.
pub open spec fn let_through_by(ops: Seq<FlightOp>) -> int
    decreases ops.len(),
{
    if ops.len() == 0 {
        0
    } else {
        let before = let_through_by(ops.drop_last());
        if ops.last() is Dispatch && has_room(flights_after(ops.drop_last())) {
            before + 1
        } else {
            before
        }
    }
}

/// How many queries have ended in `ops`.
pub open spec fn ended_by(ops: Seq<FlightOp>) -> int
    decreases ops.len(),
{
    if ops.len() == 0 {
        0
    } else if ops.last() is Finish {
        ended_by(ops.drop_last()) + 1
    } else {
        ended_by(ops.drop_last())
    }
}

/// Whether only queries end that were let through and have not ended before.
pub open spec fn queries_end_once(ops: Seq<FlightOp>) -> bool {
    forall|i: int|
        0 <= i < ops.len() && (#[trigger] ops[i]) is Finish ==> let_through_by(ops.take(i))
            > ended_by(ops.take(i))
}

/// At every moment of a run, however its queries come and end, those that were
/// let through and have not ended are counted, and they are at most the limit.
pub proof fn law_in_flight_is_bounded(ops: Seq<FlightOp>)
    requires
        queries_end_once(ops),
    ensures
        flights_after(ops) == let_through_by(ops) - ended_by(ops),
        0 <= let_through_by(ops) - ended_by(ops) <= MAX_IN_FLIGHT,
    decreases ops.len(),
{
    if ops.len() > 0 {
        let before = ops.drop_last();
        assert(ops.take(ops.len() - 1) =~= before);
        assert(ops[ops.len() - 1] == ops.last());
        assert forall|i: int|
            0 <= i < before.len() && (#[trigger] before[i]) is Finish implies let_through_by(
            before.take(i),
        ) > ended_by(before.take(i)) by {
            assert(before[i] == ops[i]);
            assert(before.take(i) =~= ops.take(i));
        }
        law_in_flight_is_bounded(before);
    }
}

/// With the limit reached, one more query is not forwarded. Its client reads at
/// once, from where its query went, a server failure that echoes the identifier
/// and the question, and nothing more is under way than before.
pub proof fn law_query_beyond_limit_is_refused(
    request: PacketView,
    payload: Seq<u8>,
    q: QuestionView,
)
    requires
        has_addresses(request),
        request.transport matches Some(TransportView::Udp { .. }),
        valid_labels(q.labels),
        payload.len() >= 12,
        readable_questions(payload) == seq![q],
    ensures
        dispatch_action(MAX_IN_FLIGHT as int, Some(request), payload) matches ActionView::Reply(r)
            && plain_packet(r) == answered_with(request, answer_echo(payload, SERVFAIL, q)),
        after_dispatch(MAX_IN_FLIGHT as int) == MAX_IN_FLIGHT,
{
    lemma_one_question(payload, SERVFAIL, q);
    law_failed_query_is_answered(request, payload, q);
}

/// Below the limit a query is forwarded as it came, and is then under way.
pub proof fn law_query_below_limit_is_forwarded(
    running: int,
    request: Option<PacketView>,
    payload: Seq<u8>,
)
    requires
        0 <= running < MAX_IN_FLIGHT,
    ensures
        dispatch_action(running, request, payload) == ActionView::Forward(payload),
        after_dispatch(running) == running + 1,
{
}

/// A query is let through exactly while fewer than a hundred are under way, and is
/// then one more of them; otherwise nothing is forwarded, and a request that can
/// be answered is answered.
pub proof fn law_hundred_queries_at_a_time(
    running: int,
    request: Option<PacketView>,
    payload: Seq<u8>,
)
    ensures
        running < 100 ==> dispatch_action(running, request, payload) == ActionView::Forward(payload)
            && after_dispatch(running) == running + 1,
        running >= 100 ==> !(dispatch_action(running, request, payload) is Forward)
            && after_dispatch(running) == running,
        running >= 100 ==> (request matches Some(r) ==> (servfail_reply(r, payload) matches Some(p)
            ==> dispatch_action(running, request, payload) == ActionView::Reply(p))),
        has_room(running) <==> running < 100,
{
}

/// Queries are counted one by one.
pub proof fn law_flights_are_counted(ops: Seq<FlightOp>)
    ensures
        flights_after(Seq::empty()) == 0,
        flights_after(ops) < 100 ==> flights_after(ops.push(FlightOp::Dispatch)) == flights_after(
            ops,
        ) + 1,
        flights_after(ops) >= 100 ==> flights_after(ops.push(FlightOp::Dispatch)) == flights_after(
            ops,
        ),
        flights_after(ops.push(FlightOp::Finish)) == flights_after(ops) - 1,
        flights_after(ops) < 100 ==> let_through_by(ops.push(FlightOp::Dispatch)) == let_through_by(
            ops,
        ) + 1,
        let_through_by(ops.push(FlightOp::Finish)) == let_through_by(ops),
        ended_by(ops.push(FlightOp::Finish)) == ended_by(ops) + 1,
        ended_by(ops.push(FlightOp::Dispatch)) == ended_by(ops),
{
    assert(ops.push(FlightOp::Dispatch).drop_last() =~= ops);
    assert(ops.push(FlightOp::Finish).drop_last() =~= ops);
}

} // verus!
