//! The upstream connection that the queries of a run share, and the race that
//! sets one up.

use vstd::prelude::*;

verus! {

/// The upstream connection of a run.
///
/// While a connection is set up, the queries that need one wait for it: exactly
/// one of them dials.
pub enum ConnState<C> {
    /// There is none; the next query that needs one dials.
    Idle,
    /// One is being set up.
    Connecting,
    /// There is one, which may have died since.
    Connected(C),
}

/// What a query that needs a connection does next.
#[derive(Clone, Copy, PartialEq, Eq, Structural)]
pub enum LookupAction {
    /// Looks at the state of the connection.
    Inspect,
    /// Waits until the state changes, or the deadline passes.
    Wait,
    /// Claims the right to dial.
    Claim,
    /// Dials, until the deadline passes.
    Dial,
    /// Takes the connection that there is.
    UseClient,
    /// Does without a connection.
    GiveUp,
}

/// What a query does that finds `state`, where `alive` tells whether a
/// connection that is there is alive.
pub open spec fn inspected<C>(state: ConnState<C>, alive: bool) -> LookupAction {
    match state {
        ConnState::Connected(_) => if alive {
            LookupAction::UseClient
        } else {
            LookupAction::Claim
        },
        ConnState::Connecting => LookupAction::Wait,
        ConnState::Idle => LookupAction::Claim,
    }
}

/// What a query does that claims the right to dial in `state`.
pub open spec fn claimed<C>(state: ConnState<C>, alive: bool) -> LookupAction {
    match state {
        ConnState::Connected(_) => if alive {
            LookupAction::UseClient
        } else {
            LookupAction::Dial
        },
        ConnState::Connecting => LookupAction::Inspect,
        ConnState::Idle => LookupAction::Dial,
    }
}

/// The state after a claim.
pub open spec fn after_claim<C>(state: ConnState<C>, alive: bool) -> ConnState<C> {
    if claimed(state, alive) == LookupAction::Dial {
        ConnState::Connecting
    } else {
        state
    }
}

/// The state after a dial.
pub open spec fn after_dial<C>(client: Option<C>) -> ConnState<C> {
    match client {
        Some(c) => ConnState::Connected(c),
        None => ConnState::Idle,
    }
}

/// The state after the connection was given up.
pub open spec fn after_invalidate<C>(state: ConnState<C>) -> ConnState<C> {
    match state {
        ConnState::Connected(_) => ConnState::Idle,
        _ => state,
    }
}

impl<C> ConnState<C> {
    /// The connection that there is.
    pub fn client(&self) -> (client: Option<&C>)
        ensures
            client == match *self {
                ConnState::Connected(c) => Some(&c),
                _ => None,
            },
    {
        match self {
            ConnState::Connected(c) => Some(c),
            _ => None,
        }
    }

    /// Looks for a connection; `alive` tells whether the one that is there, if
    /// any, is alive.
    pub fn inspect(&self, alive: bool) -> (action: LookupAction)
        ensures
            action == inspected(*self, alive),
            action == LookupAction::Wait <==> *self is Connecting,
            action == LookupAction::UseClient <==> *self is Connected && alive,
            action == LookupAction::Claim <==> *self is Idle || (*self is Connected && !alive),
    {
        match self {
            ConnState::Connected(_) => if alive {
                LookupAction::UseClient
            } else {
                LookupAction::Claim
            },
            ConnState::Connecting => LookupAction::Wait,
            ConnState::Idle => LookupAction::Claim,
        }
    }

    /// Claims the right to dial, unless another query has claimed it, or has set
    /// up a connection, in the meantime.
    pub fn claim(&mut self, alive: bool) -> (action: LookupAction)
        ensures
            action == claimed(*old(self), alive),
            *final(self) == after_claim(*old(self), alive),
            action == LookupAction::Inspect <==> *old(self) is Connecting,
            action == LookupAction::UseClient <==> *old(self) is Connected && alive,
            action == LookupAction::Dial <==> *old(self) is Idle || (*old(self) is Connected
                && !alive),
            action == LookupAction::Dial ==> *final(self) is Connecting,
            action != LookupAction::Dial ==> *final(self) == *old(self),
    {
        let action = match self {
            ConnState::Connected(_) => if alive {
                LookupAction::UseClient
            } else {
                LookupAction::Dial
            },
            ConnState::Connecting => LookupAction::Inspect,
            ConnState::Idle => LookupAction::Dial,
        };
        if action == LookupAction::Dial {
            *self = ConnState::Connecting;
        }
        action
    }

    /// Notes how a dial ended; a dial that ran out of time has no client.
    pub fn dial_finished(&mut self, client: Option<C>) -> (action: LookupAction)
        ensures
            *final(self) == after_dial(client),
            client matches Some(c) ==> *final(self) == ConnState::Connected(c),
            client is None ==> *final(self) is Idle,
            action == if client is Some {
                LookupAction::UseClient
            } else {
                LookupAction::GiveUp
            },
    {
        match client {
            Some(c) => {
                *self = ConnState::Connected(c);
                LookupAction::UseClient
            },
            None => {
                *self = ConnState::Idle;
                LookupAction::GiveUp
            },
        }
    }

    /// Gives up a connection, so that the next query dials. A dial that is under
    /// way goes on.
    pub fn invalidate(&mut self)
        ensures
            *final(self) == after_invalidate(*old(self)),
            *old(self) is Connected ==> *final(self) is Idle,
            !(*old(self) is Connected) ==> *final(self) == *old(self),
    {
        if let ConnState::Connected(_) = self {
            *self = ConnState::Idle;
        }
    }
}

/// What a query does that has waited: it looks again after a change, and does
/// without a connection after its deadline.
pub fn after_wait(changed: bool) -> (action: LookupAction)
    ensures
        action == if changed {
            LookupAction::Inspect
        } else {
            LookupAction::GiveUp
        },
{
    if changed {
        LookupAction::Inspect
    } else {
        LookupAction::GiveUp
    }
}

/// What the queries of a run do to the connection they share.
pub enum SharedOp<C> {
    Claim { alive: bool },
    DialFinished { client: Option<C> },
    Invalidate,
}

/// The state of the connection and the number of dials under way after `ops`,
/// from a start without a connection.
pub open spec fn after_ops<C>(ops: Seq<SharedOp<C>>) -> (ConnState<C>, int)
    decreases ops.len(),
{
    if ops.len() == 0 {
        (ConnState::Idle, 0)
    } else {
        let (state, dials) = after_ops(ops.drop_last());
        match ops.last() {
            SharedOp::Claim { alive } => (
                after_claim(state, alive),
                if claimed(state, alive) == LookupAction::Dial {
                    dials + 1
                } else {
                    dials
                },
            ),
            SharedOp::DialFinished { client } => (after_dial(client), dials - 1),
            SharedOp::Invalidate => (after_invalidate(state), dials),
        }
    }
}

/// Whether only dials that are under way end.
pub open spec fn dials_end_once<C>(ops: Seq<SharedOp<C>>) -> bool {
    forall|i: int|
        0 <= i < ops.len() && (#[trigger] ops[i]) is DialFinished ==> after_ops(ops.take(i)).1 > 0
}

/// However the queries of a run interleave, never more than one dials at a time,
/// and one does exactly while the connection is being set up.
pub proof fn law_at_most_one_dial<C>(ops: Seq<SharedOp<C>>)
    requires
        dials_end_once(ops),
    ensures
        0 <= after_ops(ops).1 <= 1,
        after_ops(ops).1 == 1 <==> after_ops(ops).0 is Connecting,
    decreases ops.len(),
{
    if ops.len() > 0 {
        let before = ops.drop_last();
        assert(ops.take(ops.len() - 1) =~= before);
        assert(ops[ops.len() - 1] == ops.last());
        assert forall|i: int|
            0 <= i < before.len() && (#[trigger] before[i]) is DialFinished implies after_ops(
            before.take(i),
        ).1 > 0 by {
            assert(before[i] == ops[i]);
            assert(before.take(i) =~= ops.take(i));
        }
        law_at_most_one_dial(before);
    }
}

/// While a dial is under way nobody else gets to dial, and giving up the
/// connection does not touch it.
pub proof fn law_dial_is_not_interrupted<C>(state: ConnState<C>, alive: bool)
    requires
        state is Connecting,
    ensures
        inspected(state, alive) == LookupAction::Wait,
        claimed(state, alive) == LookupAction::Inspect,
        after_claim(state, alive) == state,
        after_invalidate(state) == state,
{
}

/// A connection that failed is not used again: the next query dials.
pub proof fn law_next_query_redials<C>(client: C, alive: bool)
    ensures
        claimed(after_invalidate(ConnState::Connected(client)), alive) == LookupAction::Dial,
        claimed(ConnState::Connected(client), false) == LookupAction::Dial,
{
}

/// A version of IP to dial over.
#[derive(Clone, Copy, PartialEq, Eq, Structural)]
pub enum Family {
    V4,
    V6,
}

/// How far a dial has come that prefers IPv6 and falls back on IPv4.
#[derive(Clone, Copy, PartialEq, Eq, Structural)]
pub enum DialPhase {
    /// IPv6 is tried alone for a while.
    HeadStart,
    /// Both are tried.
    Both,
    /// One is tried; the other has failed or is not to be had.
    Only(Family),
    /// A connection was set up.
    Connected(Family),
    /// There is no connection.
    Failed,
}

/// What happens during a dial.
pub enum DialEvent {
    /// The attempt over one version of IP has succeeded or failed.
    Finished { family: Family, ok: bool },
    /// The head start of IPv6 is over.
    HeadStartOver,
}

/// How long, in milliseconds, IPv6 is tried alone.
pub const HEAD_START_MS: u64 = 50;

/// The other version of IP.
pub open spec fn other_family(family: Family) -> Family {
    match family {
        Family::V4 => Family::V6,
        Family::V6 => Family::V4,
    }
}

/// How a dial begins: with both upstream servers IPv6 gets a head start, and
/// otherwise the one there is is tried.
pub open spec fn dial_start(has_v4: bool, has_v6: bool) -> DialPhase {
    if has_v4 && has_v6 {
        DialPhase::HeadStart
    } else if has_v6 {
        DialPhase::Only(Family::V6)
    } else {
        DialPhase::Only(Family::V4)
    }
}

/// Whether the attempt over `family` is under way in `phase`.
pub open spec fn tries(phase: DialPhase, family: Family) -> bool {
    match phase {
        DialPhase::HeadStart => family == Family::V6,
        DialPhase::Both => true,
        DialPhase::Only(f) => family == f,
        _ => false,
    }
}

/// The phase after an event. The end of an attempt that is not under way means
/// nothing.
pub open spec fn dial_next(phase: DialPhase, event: DialEvent) -> DialPhase {
    match event {
        DialEvent::HeadStartOver => if phase == DialPhase::HeadStart {
            DialPhase::Both
        } else {
            phase
        },
        DialEvent::Finished { family, ok } => if !tries(phase, family) {
            phase
        } else if ok {
            DialPhase::Connected(family)
        } else {
            match phase {
                DialPhase::Only(_) => DialPhase::Failed,
                _ => DialPhase::Only(other_family(family)),
            }
        },
    }
}

impl DialPhase {
    /// Begins a dial to the upstream servers that there are.
    pub fn start(has_v4: bool, has_v6: bool) -> (phase: DialPhase)
        ensures
            phase == dial_start(has_v4, has_v6),
            has_v4 && has_v6 ==> phase == DialPhase::HeadStart,
            has_v6 && !has_v4 ==> phase == DialPhase::Only(Family::V6),
            !has_v6 ==> phase == DialPhase::Only(Family::V4),
    {
        if has_v4 && has_v6 {
            DialPhase::HeadStart
        } else if has_v6 {
            DialPhase::Only(Family::V6)
        } else {
            DialPhase::Only(Family::V4)
        }
    }

    /// Whether the attempt over `family` is under way.
    pub fn is_trying(&self, family: Family) -> (r: bool)
        ensures
            r == tries(*self, family),
            r <==> (*self == DialPhase::HeadStart && family == Family::V6) || *self
                == DialPhase::Both || *self == DialPhase::Only(family),
    {
        match self {
            DialPhase::HeadStart => family == Family::V6,
            DialPhase::Both => true,
            DialPhase::Only(f) => family == *f,
            _ => false,
        }
    }

    /// Notes an event.
    pub fn step(&mut self, event: DialEvent)
        ensures
            *final(self) == dial_next(*old(self), event),
            event is HeadStartOver ==> *final(self) == if *old(self) == DialPhase::HeadStart {
                DialPhase::Both
            } else {
                *old(self)
            },
            event matches DialEvent::Finished { family, ok } ==> ok ==> tries(*old(self), family)
                ==> *final(self) == DialPhase::Connected(family),
            event matches DialEvent::Finished { family, ok } ==> !ok ==> *old(self)
                == DialPhase::Only(family) ==> *final(self) == DialPhase::Failed,
            event matches DialEvent::Finished { family, ok } ==> !tries(*old(self), family)
                ==> *final(self) == *old(self),
    {
        match event {
            DialEvent::HeadStartOver => {
                if *self == DialPhase::HeadStart {
                    *self = DialPhase::Both;
                }
            },
            DialEvent::Finished { family, ok } => {
                if self.is_trying(family) {
                    if ok {
                        *self = DialPhase::Connected(family);
                    } else {
                        *self =
                        match self {
                            DialPhase::Only(_) => DialPhase::Failed,
                            _ => DialPhase::Only(
                                match family {
                                    Family::V4 => Family::V6,
                                    Family::V6 => Family::V4,
                                },
                            ),
                        };
                    }
                }
            },
        }
    }
}

/// The phase after a sequence of events.
pub open spec fn dial_run(start: DialPhase, events: Seq<DialEvent>) -> DialPhase
    decreases events.len(),
{
    if events.len() == 0 {
        start
    } else {
        dial_next(dial_run(start, events.drop_last()), events.last())
    }
}

/// Whether the attempt over `family` ended like this among `events`, while it
/// was under way.
pub open spec fn ended(start: DialPhase, events: Seq<DialEvent>, family: Family, ok: bool) -> bool {
    exists|i: int|
        0 <= i < events.len() && (#[trigger] events[i]) == (DialEvent::Finished { family, ok })
            && tries(dial_run(start, events.take(i)), family)
}

proof fn lemma_ended_extends(start: DialPhase, events: Seq<DialEvent>, family: Family, ok: bool)
    requires
        events.len() > 0,
    ensures
        ended(start, events.drop_last(), family, ok) ==> ended(start, events, family, ok),
        events.last() == (DialEvent::Finished { family, ok }) && tries(
            dial_run(start, events.drop_last()),
            family,
        ) ==> ended(start, events, family, ok),
{
    let before = events.drop_last();
    if ended(start, before, family, ok) {
        let i = choose|i: int|
            0 <= i < before.len() && (#[trigger] before[i]) == (DialEvent::Finished { family, ok })
                && tries(dial_run(start, before.take(i)), family);
        assert(events[i] == before[i]);
        assert(events.take(i) =~= before.take(i));
    }
    assert(events.take(events.len() - 1) =~= before);
    assert(events[events.len() - 1] == events.last());
}

proof fn lemma_dial_run(
    has_v4: bool,
    has_v6: bool,
    events: Seq<DialEvent>,
)
    ensures
        dial_run(dial_start(has_v4, has_v6), events) is Failed ==> {
            &&& has_v4 ==> ended(dial_start(has_v4, has_v6), events, Family::V4, false)
            &&& has_v6 ==> ended(dial_start(has_v4, has_v6), events, Family::V6, false)
        },
        dial_run(dial_start(has_v4, has_v6), events) matches DialPhase::Connected(family) ==> ended(
            dial_start(has_v4, has_v6),
            events,
            family,
            true,
        ),
        dial_run(dial_start(has_v4, has_v6), events) matches DialPhase::Only(family) ==> has_v4
            && has_v6 ==> ended(
            dial_start(has_v4, has_v6),
            events,
            other_family(family),
            false,
        ),
        dial_run(dial_start(has_v4, has_v6), events) matches DialPhase::Only(family) ==> !(has_v4
            && has_v6) ==> dial_start(has_v4, has_v6) == DialPhase::Only(family),
        dial_run(dial_start(has_v4, has_v6), events) is HeadStart || dial_run(
            dial_start(has_v4, has_v6),
            events,
        ) is Both ==> has_v4 && has_v6,
    decreases events.len(),
{
    if events.len() > 0 {
        let start = dial_start(has_v4, has_v6);
        lemma_dial_run(has_v4, has_v6, events.drop_last());
        lemma_ended_extends(start, events, Family::V4, false);
        lemma_ended_extends(start, events, Family::V6, false);
        lemma_ended_extends(start, events, Family::V4, true);
        lemma_ended_extends(start, events, Family::V6, true);
    }
}

/// A dial fails only once every upstream server that there is has been tried and
/// has failed. It ends with a connection only over a version of IP on which one
/// was set up.
pub proof fn law_dial_ends_with_its_attempts(
    has_v4: bool,
    has_v6: bool,
    events: Seq<DialEvent>,
)
    ensures
        dial_run(dial_start(has_v4, has_v6), events) is Failed ==> {
            &&& has_v4 ==> ended(dial_start(has_v4, has_v6), events, Family::V4, false)
            &&& has_v6 ==> ended(dial_start(has_v4, has_v6), events, Family::V6, false)
        },
        dial_run(dial_start(has_v4, has_v6), events) matches DialPhase::Connected(family) ==> ended(
            dial_start(has_v4, has_v6),
            events,
            family,
            true,
        ),
{
    lemma_dial_run(has_v4, has_v6, events);
}

proof fn lemma_without_fallback(events: Seq<DialEvent>)
    requires
        forall|i: int| 0 <= i < events.len() ==> (#[trigger] events[i]) !is HeadStartOver,
        forall|i: int|
            0 <= i < events.len() ==> (#[trigger] events[i]) != (DialEvent::Finished {
                family: Family::V6,
                ok: false,
            }),
    ensures
        dial_run(dial_start(true, true), events) is HeadStart || dial_run(
            dial_start(true, true),
            events,
        ) == DialPhase::Connected(Family::V6),
    decreases events.len(),
{
    if events.len() > 0 {
        let before = events.drop_last();
        assert forall|i: int| 0 <= i < before.len() implies (#[trigger] before[i]) !is HeadStartOver
            && before[i] != (DialEvent::Finished { family: Family::V6, ok: false }) by {
            assert(before[i] == events[i]);
        }
        lemma_without_fallback(before);
        assert(events.last() == events[events.len() - 1]);
    }
}

/// With both upstream servers, IPv4 is not tried before the head start of IPv6
/// is over or IPv6 has failed.
pub proof fn law_ipv6_has_a_head_start(events: Seq<DialEvent>)
    requires
        forall|i: int| 0 <= i < events.len() ==> (#[trigger] events[i]) !is HeadStartOver,
        forall|i: int|
            0 <= i < events.len() ==> (#[trigger] events[i]) != (DialEvent::Finished {
                family: Family::V6,
                ok: false,
            }),
    ensures
        !tries(dial_run(dial_start(true, true), events), Family::V4),
{
    lemma_without_fallback(events);
}

/// The first connection that is set up is the one that is taken.
pub proof fn law_first_connection_wins(phase: DialPhase, family: Family, events: Seq<DialEvent>)
    requires
        tries(phase, family),
    ensures
        dial_next(phase, DialEvent::Finished { family, ok: true }) == DialPhase::Connected(family),
        dial_run(DialPhase::Connected(family), events) == DialPhase::Connected(family),
    decreases events.len(),
{
    if events.len() > 0 {
        law_first_connection_wins(phase, family, events.drop_last());
    }
}

/// A query waits exactly while a dial is under way, takes a connection exactly
/// where there is one that is alive, and in every other state goes on to claim
/// the dial, gets it, and is then the one that dials.
pub proof fn law_query_without_connection_dials<C>(state: ConnState<C>, alive: bool)
    ensures
        inspected(state, alive) == LookupAction::Wait <==> state is Connecting,
        inspected(state, alive) == LookupAction::UseClient <==> state is Connected && alive,
        !(state is Connecting) && !(state is Connected && alive) ==> {
            &&& inspected(state, alive) == LookupAction::Claim
            &&& claimed(state, alive) == LookupAction::Dial
            &&& after_claim(state, alive) is Connecting
        },
        claimed(state, alive) == LookupAction::UseClient <==> state is Connected && alive,
        claimed(state, alive) == LookupAction::Inspect <==> state is Connecting,
        claimed(state, alive) != LookupAction::Dial ==> after_claim(state, alive) == state,
{
}

/// The first query of a run dials, whatever is said of a connection that is not
/// there.
pub proof fn law_first_query_dials<C>(alive: bool)
    ensures
        inspected(ConnState::<C>::Idle, alive) == LookupAction::Claim,
        claimed(ConnState::<C>::Idle, alive) == LookupAction::Dial,
        after_claim(ConnState::<C>::Idle, alive) is Connecting,
{
}

/// A connection that a dial has set up is the one that the next query takes while
/// it is alive; after a dial that failed, and after a connection was given up, the
/// next query dials.
pub proof fn law_dial_decides_what_comes_next<C>(client: C, state: ConnState<C>, alive: bool)
    ensures
        after_dial(Some(client)) == ConnState::Connected(client),
        inspected(after_dial(Some(client)), true) == LookupAction::UseClient,
        after_dial(None::<C>) is Idle,
        inspected(after_dial(None::<C>), alive) == LookupAction::Claim,
        claimed(after_dial(None::<C>), alive) == LookupAction::Dial,
        state is Connected ==> after_invalidate(state) is Idle,
        !(state is Connected) ==> after_invalidate(state) == state,
        state is Connected ==> claimed(after_invalidate(state), alive) == LookupAction::Dial,
{
}

/// A dial begins with every upstream server that there is, IPv6 first.
pub proof fn law_dial_begins_with_what_there_is(has_v4: bool, has_v6: bool)
    ensures
        tries(dial_start(has_v4, has_v6), Family::V6) <==> has_v6,
        tries(dial_start(has_v4, has_v6), Family::V4) <==> !has_v6,
        has_v4 && has_v6 ==> dial_start(has_v4, has_v6) == DialPhase::HeadStart,
        has_v6 && !has_v4 ==> dial_start(has_v4, has_v6) == DialPhase::Only(Family::V6),
        !has_v6 ==> dial_start(has_v4, has_v6) == DialPhase::Only(Family::V4),
        forall|phase: DialPhase, family: Family| #[trigger]
            tries(phase, family) <==> (phase == DialPhase::HeadStart && family == Family::V6)
                || phase == DialPhase::Both || phase == DialPhase::Only(family),
{
}

/// What each event does to a dial: an attempt under way that succeeds ends it, one
/// that fails leaves it to the other version of IP, or ends it where that is not
/// to be tried, and the end of the head start brings in IPv4. Nothing else changes
/// it.
pub proof fn law_events_of_a_dial(phase: DialPhase, family: Family, other: Family)
    requires
        other != family,
    ensures
        tries(phase, family) ==> dial_next(phase, DialEvent::Finished { family, ok: true })
            == DialPhase::Connected(family),
        phase == DialPhase::Only(family) ==> dial_next(
            phase,
            DialEvent::Finished { family, ok: false },
        ) == DialPhase::Failed,
        phase == DialPhase::Both ==> dial_next(phase, DialEvent::Finished { family, ok: false })
            == DialPhase::Only(other),
        phase == DialPhase::HeadStart && family == Family::V6 ==> dial_next(
            phase,
            DialEvent::Finished { family, ok: false },
        ) == DialPhase::Only(Family::V4),
        !tries(phase, family) ==> dial_next(phase, DialEvent::Finished { family, ok: true })
            == phase,
        !tries(phase, family) ==> dial_next(phase, DialEvent::Finished { family, ok: false })
            == phase,
        dial_next(DialPhase::HeadStart, DialEvent::HeadStartOver) == DialPhase::Both,
        phase != DialPhase::HeadStart ==> dial_next(phase, DialEvent::HeadStartOver) == phase,
        other_family(family) == other,
        HEAD_START_MS == 50,
{
}

/// While a dial is neither connected nor failed, some attempt is under way; so a
/// dial whose attempts all end comes to an end itself.
pub proof fn law_unfinished_dial_is_trying(phase: DialPhase)
    ensures
        tries(phase, Family::V4) || tries(phase, Family::V6) <==> !(phase is Connected) && !(
        phase is Failed),
{
}

} // verus!
