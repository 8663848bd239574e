//! The proxy as its user holds it: the upstream servers, the blocklist and the
//! run that is under way.

use crate::blocklist::{domain_octets, keys_of, Blocklist};
use crate::token::{
    token_ask, token_cancel, token_clone, token_new, CancelledToken, FreshToken, TokenAnswer,
};
use tokio_util::sync::CancellationToken;
use vstd::prelude::*;

verus! {

/// An IP address.
pub enum IpAddress {
    V4([u8; 4]),
    V6([u8; 16]),
}

/// The upstream servers, one for each version of IP.
pub struct Upstreams {
    pub v4: Option<[u8; 4]>,
    pub v6: Option<[u8; 16]>,
}

impl Upstreams {
    /// Takes each server under the version of IP that it was named for; an
    /// address of the other version is no server.
    pub fn new(v4: Option<IpAddress>, v6: Option<IpAddress>) -> (upstreams: Upstreams)
        ensures
            upstreams.v4 == match v4 {
                Some(IpAddress::V4(a)) => Some(a),
                _ => None,
            },
            upstreams.v6 == match v6 {
                Some(IpAddress::V6(a)) => Some(a),
                _ => None,
            },
    {
        Upstreams {
            v4: match v4 {
                Some(IpAddress::V4(a)) => Some(a),
                _ => None,
            },
            v6: match v6 {
                Some(IpAddress::V6(a)) => Some(a),
                _ => None,
            },
        }
    }
}

/// The run that is under way. The generation tells runs apart, so that the end
/// of an old one cannot clear the token of a new one.
pub struct RunSlot<T> {
    pub generation: u64,
    pub token: Option<T>,
}

/// Whether a run may start in `slot`: there is none, or the one there is has been
/// cancelled.
pub open spec fn may_start<T>(slot: RunSlot<T>, cancelled: bool) -> bool {
    slot.token is None || cancelled
}

/// The slot after a start with the token `fresh`.
pub open spec fn after_start<T>(slot: RunSlot<T>, cancelled: bool, fresh: T) -> RunSlot<T> {
    if may_start(slot, cancelled) {
        RunSlot { generation: (slot.generation + 1) as u64, token: Some(fresh) }
    } else {
        slot
    }
}

/// The slot after a stop.
pub open spec fn after_stop<T>(slot: RunSlot<T>) -> RunSlot<T> {
    RunSlot { generation: slot.generation, token: None }
}

/// The slot after the run of `generation` has ended.
pub open spec fn after_finish<T>(slot: RunSlot<T>, generation: u64) -> RunSlot<T> {
    if slot.generation == generation {
        RunSlot { generation: slot.generation, token: None }
    } else {
        slot
    }
}

impl<T> RunSlot<T> {
    /// A slot without a run.
    pub fn new() -> (slot: RunSlot<T>)
        ensures
            slot == (RunSlot::<T> { generation: 0, token: None }),
    {
        RunSlot { generation: 0, token: None }
    }

    /// Claims the slot for a new run with the token `fresh`, unless one is under
    /// way; `cancelled` tells whether the token that is there, if any, has been
    /// cancelled. Returns the generation of the run.
    pub fn claim(&mut self, cancelled: bool, fresh: T) -> (generation: Option<u64>)
        requires
            may_start(*old(self), cancelled) ==> old(self).generation < u64::MAX,
        ensures
            *final(self) == after_start(*old(self), cancelled, fresh),
            generation == if may_start(*old(self), cancelled) {
                Some((old(self).generation + 1) as u64)
            } else {
                None
            },
            generation is Some <==> old(self).token is None || cancelled,
            generation matches Some(g) ==> g == old(self).generation + 1,
            generation matches Some(g) ==> final(self).generation == g && final(self).token == Some(
                fresh,
            ),
            generation is None ==> *final(self) == *old(self),
    {
        if self.token.is_some() && !cancelled {
            return None;
        }
        self.generation = self.generation + 1;
        self.token = Some(fresh);
        Some(self.generation)
    }

    /// Takes the token of the run that is under way out of the slot.
    pub fn release(&mut self) -> (token: Option<T>)
        ensures
            token == old(self).token,
            *final(self) == after_stop(*old(self)),
            final(self).token is None,
            final(self).generation == old(self).generation,
    {
        self.token.take()
    }

    /// Notes the end of the run of `generation`. A newer run keeps its token.
    pub fn finish(&mut self, generation: u64)
        ensures
            *final(self) == after_finish(*old(self), generation),
            final(self).generation == old(self).generation,
            old(self).generation == generation ==> final(self).token is None,
            old(self).generation != generation ==> *final(self) == *old(self),
    {
        if self.generation == generation {
            self.token = None;
        }
    }
}

/// What came of a start.
pub struct StartOutcome {
    /// What the token that was there answered, if there was one.
    pub asked: Option<TokenAnswer>,
    /// The generation of the new run and the token that ends it, made for it;
    /// none where a run was under way.
    pub run: Option<(u64, FreshToken)>,
}

impl StartOutcome {
    /// Whether there was a token, which answered that it has been cancelled.
    pub open spec fn heard_cancelled(&self) -> bool {
        self.asked matches Some(answer) && answer.said_cancelled()
    }
}

/// The DNS proxy.
pub struct DnsProxy {
    tun_fd: i32,
    quic_fd_v4: Option<i32>,
    quic_fd_v6: Option<i32>,
    upstreams: Upstreams,
    sni_hostname: String,
    blocklist: Blocklist,
    run_slot: RunSlot<CancellationToken>,
}

/// The DNS proxy, as a value.
pub struct ProxyView {
    pub tun_fd: i32,
    pub quic_fd_v4: Option<i32>,
    pub quic_fd_v6: Option<i32>,
    pub upstreams: Upstreams,
    pub sni_hostname: Seq<char>,
    pub blocked: Set<Seq<u8>>,
    pub run_slot: RunSlot<CancellationToken>,
}

impl ProxyView {
    /// Whether there is a socket for each upstream server, and no other.
    pub open spec fn well_formed(self) -> bool {
        &&& self.quic_fd_v4 is Some <==> self.upstreams.v4 is Some
        &&& self.quic_fd_v6 is Some <==> self.upstreams.v6 is Some
    }
}

impl View for DnsProxy {
    type V = ProxyView;

    closed spec fn view(&self) -> ProxyView {
        ProxyView {
            tun_fd: self.tun_fd,
            quic_fd_v4: self.quic_fd_v4,
            quic_fd_v6: self.quic_fd_v6,
            upstreams: self.upstreams,
            sni_hostname: self.sni_hostname@,
            blocked: self.blocklist@,
            run_slot: self.run_slot,
        }
    }
}

impl DnsProxy {
    /// A proxy on the tunnel device `tun_fd`, which blocks nothing and is not
    /// running. It has a socket for each of its upstream servers.
    pub fn new(
        tun_fd: i32,
        upstreams: Upstreams,
        quic_fd_v4: Option<i32>,
        quic_fd_v6: Option<i32>,
        sni_hostname: String,
    ) -> (proxy: DnsProxy)
        requires
            quic_fd_v4 is Some <==> upstreams.v4 is Some,
            quic_fd_v6 is Some <==> upstreams.v6 is Some,
        ensures
            proxy@.well_formed(),
            proxy@ == (ProxyView {
                tun_fd,
                quic_fd_v4,
                quic_fd_v6,
                upstreams,
                sni_hostname: sni_hostname@,
                blocked: Set::empty(),
                run_slot: RunSlot { generation: 0, token: None },
            }),
    {
        DnsProxy {
            tun_fd,
            quic_fd_v4,
            quic_fd_v6,
            upstreams,
            sni_hostname,
            blocklist: Blocklist::new(),
            run_slot: RunSlot::new(),
        }
    }

    /// The socket for the upstream server over IPv4.
    pub fn get_quic_fd_v4(&self) -> (fd: Option<i32>)
        ensures
            fd == self@.quic_fd_v4,
    {
        self.quic_fd_v4
    }

    /// The socket for the upstream server over IPv6.
    pub fn get_quic_fd_v6(&self) -> (fd: Option<i32>)
        ensures
            fd == self@.quic_fd_v6,
    {
        self.quic_fd_v6
    }

    /// The tunnel device.
    pub fn tun_fd(&self) -> (fd: i32)
        ensures
            fd == self@.tun_fd,
    {
        self.tun_fd
    }

    /// The upstream servers.
    pub fn upstreams(&self) -> (upstreams: &Upstreams)
        ensures
            *upstreams == self@.upstreams,
    {
        &self.upstreams
    }

    /// The host name that the upstream servers identify themselves by.
    pub fn sni_hostname(&self) -> (name: &String)
        ensures
            name@ == self@.sni_hostname,
    {
        &self.sni_hostname
    }

    /// The blocked domains.
    pub fn blocklist(&self) -> (list: &Blocklist)
        ensures
            list@ == self@.blocked,
    {
        &self.blocklist
    }

    /// How many runs have been started.
    pub fn generation(&self) -> (generation: u64)
        ensures
            generation == self@.run_slot.generation,
    {
        self.run_slot.generation
    }

    /// Starts a run, unless one is under way: there is a token, and it answers
    /// that it has not been cancelled. Every run has a token of its own.
    pub fn start(&mut self) -> (outcome: StartOutcome)
        requires
            old(self)@.run_slot.generation < u64::MAX,
        ensures
            match outcome.asked {
                Some(answer) => old(self)@.run_slot.token == Some(answer.token()),
                None => old(self)@.run_slot.token is None,
            },
            outcome.run is Some <==> may_start(old(self)@.run_slot, outcome.heard_cancelled()),
            match outcome.run {
                Some((generation, fresh)) => {
                    &&& generation == old(self)@.run_slot.generation + 1
                    &&& old(self)@.run_slot.token != Some(fresh.token())
                    &&& final(self)@ == (ProxyView {
                        run_slot: RunSlot { generation, token: Some(fresh.token()) },
                        ..old(self)@
                    })
                },
                None => final(self)@ == old(self)@,
            },
    {
        let asked = match &self.run_slot.token {
            Some(token) => Some(token_ask(token_clone(token))),
            None => None,
        };
        let cancelled = match &asked {
            Some(answer) => answer.is_cancelled(),
            None => false,
        };
        let fresh = token_new(&self.run_slot.token);
        let run = match self.run_slot.claim(cancelled, fresh.share()) {
            Some(generation) => Some((generation, fresh)),
            None => None,
        };
        StartOutcome { asked, run }
    }

    /// Cancels the run that is under way, if any, and returns its token, which has
    /// been cancelled. The proxy can be started again afterwards.
    pub fn stop(&mut self) -> (cancelled: Option<CancelledToken>)
        ensures
            final(self)@ == (ProxyView { run_slot: after_stop(old(self)@.run_slot), ..old(self)@ }),
            match cancelled {
                Some(c) => old(self)@.run_slot.token == Some(c.token()),
                None => old(self)@.run_slot.token is None,
            },
    {
        match self.run_slot.release() {
            Some(token) => Some(token_cancel(token)),
            None => None,
        }
    }

    /// Notes that the run of `generation` has ended.
    pub fn finish(&mut self, generation: u64)
        ensures
            final(self)@ == (ProxyView {
                run_slot: after_finish(old(self)@.run_slot, generation),
                ..old(self)@
            }),
    {
        self.run_slot.finish(generation);
    }

    /// Replaces the blocklist by the one of the given domains. A domain that has
    /// no key is left out.
    pub fn update_blocklist(&mut self, domains: Vec<String>)
        ensures
            final(self)@ == (ProxyView {
                blocked: keys_of(domain_octets(domains@)),
                ..old(self)@
            }),
    {
        self.replace_blocklist(Blocklist::from_domains(&domains));
    }

    /// Replaces the blocklist.
    pub fn replace_blocklist(&mut self, list: Blocklist)
        ensures
            final(self)@ == (ProxyView { blocked: list@, ..old(self)@ }),
    {
        self.blocklist = list;
    }
}

/// A start while a run is under way changes nothing.
pub proof fn law_start_is_idempotent<T>(slot: RunSlot<T>, first: T, second: T)
    ensures
        may_start(slot, false) ==> after_start(after_start(slot, false, first), false, second)
            == after_start(slot, false, first),
        !may_start(slot, false) ==> after_start(slot, false, first) == slot,
{
}

/// A stop without a run changes nothing, and after a stop a run can start.
pub proof fn law_stop_is_idempotent<T>(slot: RunSlot<T>, fresh: T)
    ensures
        slot.token is None ==> after_stop(slot) == slot,
        after_stop(after_stop(slot)) == after_stop(slot),
        may_start(after_stop(slot), false),
        after_start(after_stop(slot), false, fresh).token == Some(fresh),
{
}

/// What is done to the slot of a proxy.
pub enum SlotOp<T> {
    Start { cancelled: bool, fresh: T },
    Stop,
    Finish { generation: u64 },
}

/// The slot after `ops`, from the slot of a new proxy.
pub open spec fn after_slot_ops<T>(ops: Seq<SlotOp<T>>) -> RunSlot<T>
    decreases ops.len(),
{
    if ops.len() == 0 {
        RunSlot { generation: 0, token: None }
    } else {
        let slot = after_slot_ops(ops.drop_last());
        match ops.last() {
            SlotOp::Start { cancelled, fresh } => after_start(slot, cancelled, fresh),
            SlotOp::Stop => after_stop(slot),
            SlotOp::Finish { generation } => after_finish(slot, generation),
        }
    }
}

proof fn lemma_generation_counts_starts<T>(ops: Seq<SlotOp<T>>)
    requires
        ops.len() < u64::MAX,
    ensures
        after_slot_ops(ops).generation <= ops.len(),
    decreases ops.len(),
{
    if ops.len() > 0 {
        lemma_generation_counts_starts(ops.drop_last());
    }
}

proof fn lemma_generation_grows<T>(ops: Seq<SlotOp<T>>, more: Seq<SlotOp<T>>)
    requires
        ops.len() + more.len() < u64::MAX,
    ensures
        after_slot_ops(ops).generation <= after_slot_ops(ops + more).generation,
    decreases more.len(),
{
    if more.len() == 0 {
        assert(ops + more =~= ops);
    } else {
        assert((ops + more).drop_last() =~= ops + more.drop_last());
        lemma_generation_grows(ops, more.drop_last());
        lemma_generation_counts_starts(ops + more.drop_last());
    }
}

/// The end of a run never clears the token of a later one: a run that started
/// after `ops`, once a further run has started, ends without changing the slot.
pub proof fn law_stale_finish_changes_nothing<T>(
    ops: Seq<SlotOp<T>>,
    between: Seq<SlotOp<T>>,
    later: Seq<SlotOp<T>>,
    cancelled: bool,
    fresh: T,
)
    requires
        ops.len() + between.len() + later.len() + 1 < u64::MAX,
        may_start(after_slot_ops(ops + between), cancelled),
    ensures
        ({
            let old_run = after_slot_ops(ops).generation;
            let slot = after_slot_ops(
                (ops + between).push(SlotOp::Start { cancelled, fresh }) + later,
            );
            after_finish(slot, old_run) == slot
        }),
{
    let started = (ops + between).push(SlotOp::Start { cancelled, fresh });
    assert(started.drop_last() =~= ops + between);
    lemma_generation_grows(ops, between);
    lemma_generation_counts_starts(ops + between);
    lemma_generation_grows(started, later);
}

/// A run starts exactly where none is under way or its token is cancelled; it has
/// the next generation and the token made for it. A stop takes the token and
/// leaves the generation, and the end of a run clears the slot exactly where no
/// later run has started.
pub proof fn law_steps_of_a_slot<T>(slot: RunSlot<T>, cancelled: bool, fresh: T, generation: u64)
    requires
        slot.generation < u64::MAX,
    ensures
        may_start(slot, cancelled) <==> slot.token is None || cancelled,
        slot.token is None || cancelled ==> after_start(slot, cancelled, fresh).token == Some(fresh),
        slot.token is None || cancelled ==> after_start(slot, cancelled, fresh).generation
            == slot.generation + 1,
        slot.token is Some && !cancelled ==> after_start(slot, cancelled, fresh) == slot,
        after_stop(slot).token is None,
        after_stop(slot).generation == slot.generation,
        slot.generation == generation ==> after_finish(slot, generation).token is None,
        after_finish(slot, generation).generation == slot.generation,
        slot.generation != generation ==> after_finish(slot, generation) == slot,
{
}

/// A run that has started is the one that its own end clears, and after that
/// another can start.
pub proof fn law_finished_run_makes_room<T>(slot: RunSlot<T>, first: T, second: T)
    requires
        slot.generation < u64::MAX,
        slot.token is None,
    ensures
        ({
            let started = after_start(slot, false, first);
            let ended = after_finish(started, started.generation);
            &&& started.token == Some(first)
            &&& ended.token is None
            &&& after_start(ended, false, second).token == Some(second)
        }),
{
}

/// A proxy is seen with all that it holds.
proof fn law_proxy_is_seen_as_it_is(proxy: DnsProxy)
    ensures
        proxy@.tun_fd == proxy.tun_fd,
        proxy@.quic_fd_v4 == proxy.quic_fd_v4,
        proxy@.quic_fd_v6 == proxy.quic_fd_v6,
        proxy@.upstreams == proxy.upstreams,
        proxy@.sni_hostname == proxy.sni_hostname@,
        proxy@.blocked == proxy.blocklist@,
        proxy@.run_slot == proxy.run_slot,
{
}

} // verus!
