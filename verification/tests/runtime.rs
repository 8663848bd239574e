use freeblock::connection::{
    after_wait, ConnState, DialEvent, DialPhase, Family, LookupAction,
};
use freeblock::blocklist::Blocklist;
use freeblock::dns_proxy::{DnsProxy, IpAddress, RunSlot, Upstreams};
use freeblock::doq::{frame_query, response_len, DoqError};
use freeblock::names::domain_to_wire_format;
use freeblock::tun::{
    nonblocking_flags, read_action, IoFailure, PacketWriter, ReadAction, Registration, WriteAction,
};

#[test]
fn lookup_follows_the_state() {
    assert!(ConnState::<u8>::Idle.inspect(true) == LookupAction::Claim);
    assert!(ConnState::<u8>::Connecting.inspect(true) == LookupAction::Wait);
    assert!(ConnState::Connected(1u8).inspect(true) == LookupAction::UseClient);
    assert!(ConnState::Connected(1u8).inspect(false) == LookupAction::Claim);
    assert!(after_wait(true) == LookupAction::Inspect);
    assert!(after_wait(false) == LookupAction::GiveUp);
}

#[test]
fn one_query_dials_at_a_time() {
    let mut state: ConnState<u8> = ConnState::Idle;
    assert!(state.claim(false) == LookupAction::Dial);
    assert!(matches!(state, ConnState::Connecting));
    assert!(state.claim(false) == LookupAction::Inspect);
    state.invalidate();
    assert!(matches!(state, ConnState::Connecting));
    assert!(state.dial_finished(Some(7)) == LookupAction::UseClient);
    assert_eq!(state.client(), Some(&7));
    assert!(state.claim(true) == LookupAction::UseClient);
    assert!(matches!(state, ConnState::Connected(7)));
}

#[test]
fn lost_connection_is_dialed_again() {
    let mut state = ConnState::Connected(7u8);
    state.invalidate();
    assert!(matches!(state, ConnState::Idle));
    assert_eq!(state.client(), None);
    state.invalidate();
    assert!(matches!(state, ConnState::Idle));
    let mut dead = ConnState::Connected(7u8);
    assert!(dead.claim(false) == LookupAction::Dial);
    assert!(dead.dial_finished(None) == LookupAction::GiveUp);
    assert!(matches!(dead, ConnState::Idle));
}

fn run(has_v4: bool, has_v6: bool, events: Vec<DialEvent>) -> DialPhase {
    let mut phase = DialPhase::start(has_v4, has_v6);
    for e in events {
        phase.step(e);
    }
    phase
}

fn end(family: Family, ok: bool) -> DialEvent {
    DialEvent::Finished { family, ok }
}

#[test]
fn dial_starts_with_what_there_is() {
    assert!(DialPhase::start(true, true) == DialPhase::HeadStart);
    assert!(DialPhase::start(false, true) == DialPhase::Only(Family::V6));
    assert!(DialPhase::start(true, false) == DialPhase::Only(Family::V4));
    assert!(DialPhase::start(false, false) == DialPhase::Only(Family::V4));
}

#[test]
fn ipv6_is_tried_first() {
    let phase = DialPhase::start(true, true);
    assert!(phase.is_trying(Family::V6));
    assert!(!phase.is_trying(Family::V4));
    assert!(run(true, true, vec![end(Family::V6, true)]) == DialPhase::Connected(Family::V6));
    let both = run(true, true, vec![DialEvent::HeadStartOver]);
    assert!(both == DialPhase::Both);
    assert!(both.is_trying(Family::V4) && both.is_trying(Family::V6));
}

#[test]
fn ipv4_takes_over() {
    let after_failure = run(true, true, vec![end(Family::V6, false)]);
    assert!(after_failure == DialPhase::Only(Family::V4));
    let won = run(true, true, vec![DialEvent::HeadStartOver, end(Family::V4, true)]);
    assert!(won == DialPhase::Connected(Family::V4));
    let v6_left = run(true, true, vec![DialEvent::HeadStartOver, end(Family::V4, false)]);
    assert!(v6_left == DialPhase::Only(Family::V6));
}

#[test]
fn dial_fails_when_all_failed() {
    let both = vec![end(Family::V6, false), end(Family::V4, false)];
    assert!(run(true, true, both) == DialPhase::Failed);
    assert!(run(false, true, vec![end(Family::V6, false)]) == DialPhase::Failed);
    assert!(run(false, false, vec![end(Family::V4, false)]) == DialPhase::Failed);
}

#[test]
fn first_connection_wins() {
    let events = vec![end(Family::V6, true), DialEvent::HeadStartOver, end(Family::V4, true)];
    assert!(run(true, true, events) == DialPhase::Connected(Family::V6));
    assert!(run(true, true, vec![end(Family::V4, true)]) == DialPhase::HeadStart);
}

#[test]
fn packet_is_written_in_parts() {
    let mut w = PacketWriter::new(10);
    assert!(w.step(-1, IoFailure::WouldBlock) == WriteAction::WaitWritable);
    assert!(w.step(-1, IoFailure::Interrupted) == WriteAction::Retry);
    assert_eq!((w.offset(), w.remaining()), (0, 10));
    assert!(w.step(4, IoFailure::Other) == WriteAction::WaitWritable);
    assert_eq!((w.offset(), w.remaining()), (4, 6));
    assert!(w.step(6, IoFailure::Other) == WriteAction::Done);
    assert_eq!(w.remaining(), 0);
}

#[test]
fn write_errors_end_the_packet() {
    assert!(PacketWriter::new(10).step(-1, IoFailure::Other) == WriteAction::Fail);
    assert!(PacketWriter::new(10).step(0, IoFailure::WouldBlock) == WriteAction::Closed);
    assert!(PacketWriter::new(0).step(0, IoFailure::Other) == WriteAction::Closed);
}

#[test]
fn read_outcomes() {
    assert!(read_action(60, IoFailure::Other) == ReadAction::Packet(60));
    assert!(read_action(-1, IoFailure::WouldBlock) == ReadAction::WaitReadable);
    assert!(read_action(-1, IoFailure::Interrupted) == ReadAction::Stop);
    assert!(read_action(-1, IoFailure::Other) == ReadAction::Stop);
    assert!(read_action(0, IoFailure::WouldBlock) == ReadAction::Stop);
}

#[test]
fn registration_is_tried_five_hundred_times() {
    let mut r = Registration::new();
    let mut tries = 0;
    while r.may_try() {
        r.note_held();
        tries += 1;
    }
    assert_eq!(tries, 500);
}

#[test]
fn unread_flags_are_not_set() {
    assert_eq!(nonblocking_flags(-1, 0x800), None);
    assert_eq!(nonblocking_flags(2, 0x800), Some(0x802));
    assert_eq!(nonblocking_flags(0x802, 0x800), Some(0x802));
}

#[test]
fn query_is_framed() {
    assert_eq!(frame_query(b"abc").unwrap(), b"\x00\x03abc".to_vec());
    assert_eq!(frame_query(&[]).unwrap(), vec![0, 0]);
    let long = frame_query(&vec![7u8; 65535]).unwrap();
    assert_eq!((long.len(), long[0], long[1]), (65537, 0xff, 0xff));
    assert_eq!(frame_query(&vec![7u8; 65536]), Err(DoqError::QueryTooLarge));
}

#[test]
fn response_length_is_bounded() {
    assert_eq!(response_len([0, 0]), Ok(0));
    assert_eq!(response_len([0x20, 0x00]), Ok(8192));
    assert_eq!(response_len([0x20, 0x01]), Err(DoqError::ResponseTooLarge(8193)));
    assert_eq!(response_len([0xff, 0xff]), Err(DoqError::ResponseTooLarge(65535)));
}

#[test]
fn framed_message_is_found() {
    let frame = frame_query(b"message").unwrap();
    let len = response_len([frame[0], frame[1]]).unwrap();
    assert_eq!(&frame[2..2 + len], b"message");
}

#[test]
fn upstreams_keep_to_their_version() {
    let u = Upstreams::new(Some(IpAddress::V4([1, 2, 3, 4])), Some(IpAddress::V6([9; 16])));
    assert_eq!((u.v4, u.v6), (Some([1, 2, 3, 4]), Some([9; 16])));
    let crossed = Upstreams::new(Some(IpAddress::V6([9; 16])), Some(IpAddress::V4([1, 2, 3, 4])));
    assert_eq!((crossed.v4, crossed.v6), (None, None));
    let none = Upstreams::new(None, None);
    assert_eq!((none.v4, none.v6), (None, None));
}

#[test]
fn stale_run_does_not_clear_a_newer_one() {
    let mut slot: RunSlot<&str> = RunSlot::new();
    assert_eq!(slot.claim(false, "a"), Some(1));
    assert_eq!(slot.claim(false, "b"), None);
    assert_eq!(slot.token, Some("a"));
    assert_eq!(slot.claim(true, "c"), Some(2));
    slot.finish(1);
    assert_eq!(slot.token, Some("c"));
    slot.finish(2);
    assert_eq!(slot.token, None);
    assert_eq!(slot.release(), None);
    assert_eq!(slot.claim(false, "d"), Some(3));
    assert_eq!(slot.release(), Some("d"));
}

fn proxy() -> DnsProxy {
    let upstreams = Upstreams::new(Some(IpAddress::V4([1, 1, 1, 1])), None);
    DnsProxy::new(5, upstreams, Some(11), None, "dns.example".to_string())
}

#[test]
fn proxy_keeps_what_it_was_made_with() {
    let p = proxy();
    assert_eq!(p.tun_fd(), 5);
    assert_eq!((p.get_quic_fd_v4(), p.get_quic_fd_v6()), (Some(11), None));
    assert_eq!(p.upstreams().v4, Some([1, 1, 1, 1]));
    assert_eq!(p.sni_hostname(), "dns.example");
}

#[test]
fn proxy_starts_once_and_again_after_stop() {
    let mut p = proxy();
    assert!(proxy().start().asked.is_none());
    let (generation, made) = p.start().run.unwrap();
    let token = made.share();
    assert_eq!(generation, 1);
    assert!(!token.is_cancelled());
    assert!(p.start().run.is_none());
    assert!(p.stop().is_some());
    assert!(token.is_cancelled());
    assert!(p.stop().is_none());
    let (second, made) = p.start().run.unwrap();
    let fresh = made.share();
    assert!(fresh != token);
    assert_eq!(second, 2);
    assert!(!fresh.is_cancelled());
    p.finish(generation);
    assert!(p.start().run.is_none());
    p.finish(second);
    assert!(!fresh.is_cancelled());
    assert_eq!(p.start().run.unwrap().0, 3);
}

#[test]
fn cancelled_run_gives_way() {
    let mut p = proxy();
    let token = p.start().run.unwrap().1.share();
    let refused = p.start();
    assert!(refused.run.is_none());
    assert!(!refused.asked.unwrap().is_cancelled());
    token.cancel();
    let started = p.start();
    assert!(started.asked.unwrap().is_cancelled());
    let (generation, made) = started.run.unwrap();
    assert_eq!(generation, 2);
    let fresh = made.share();
    assert!(fresh != token);
    assert!(!fresh.is_cancelled());
    assert!(made.share() == fresh);
    p.stop();
    assert!(fresh.is_cancelled());
}

#[test]
fn blocklist_is_replaced() {
    let mut p = proxy();
    let key = domain_to_wire_format("a.example").unwrap();
    assert!(!p.blocklist().blocks(&key));
    p.update_blocklist(vec!["example".to_string()]);
    assert!(p.blocklist().blocks(&key));
    p.update_blocklist(vec!["other".to_string()]);
    assert!(!p.blocklist().blocks(&key));
    p.replace_blocklist(Blocklist::from_domains(&vec!["a.example".to_string()]));
    assert!(p.blocklist().blocks(&key));
}
