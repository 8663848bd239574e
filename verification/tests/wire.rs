use domain::base::iana::{Class, Rcode, Rtype};
use domain::base::message::Message;
use domain::base::message_builder::MessageBuilder;
use domain::base::name::{Name, ToName};
use freeblock::names::domain_to_wire_format;
use freeblock::proxy::{
    build_null_response, build_servfail_response, parse_query, qname_str,
};
use radix_trie::Trie;

fn make_query(domain: &str) -> Vec<u8> {
    let mut qb = MessageBuilder::new_vec().question();
    qb.push((Name::vec_from_str(domain).unwrap(), Rtype::A, Class::IN)).unwrap();
    qb.finish()
}

fn trie_key_for(domain: &str) -> Vec<u8> {
    let mut labels: Vec<Vec<u8>> = Vec::new();
    for part in domain.split('.').filter(|p| !p.is_empty()) {
        let mut label = Vec::new();
        label.push(part.len() as u8);
        label.extend_from_slice(part.to_ascii_lowercase().as_bytes());
        labels.push(label);
    }
    labels.reverse();
    let mut out = Vec::new();
    for label in labels {
        out.extend_from_slice(&label);
    }
    out
}

/// A query under identifier 0x1234 with recursion desired.
fn raw_query(question: &[u8]) -> Vec<u8> {
    let mut p = vec![0x12, 0x34, 0x01, 0x00, 0x00, 0x01, 0x00, 0x00, 0x00, 0x00, 0x00, 0x00];
    p.extend_from_slice(question);
    p
}

#[test]
fn parse_query_builds_unchanged_keys() {
    let q = make_query("ads.Example.COM");
    let trie_key = parse_query(&q).unwrap();
    assert_eq!(&trie_key[..], trie_key_for("ads.example.com"));
}

#[test]
fn parse_query_handles_single_label_and_case() {
    let q = make_query("Example.com");
    let trie_key = parse_query(&q).unwrap();
    assert_eq!(&trie_key[..], trie_key_for("example.com"));
}

#[test]
fn parse_query_rejects_garbage() {
    assert!(parse_query(&[0u8; 3]).is_none());
    assert!(parse_query(&[]).is_none());
}

#[test]
fn null_response_matches_legacy_shape() {
    let q = make_query("ads.example.com");
    let msg = Message::from_slice(&q).unwrap();
    let resp = build_null_response(&q).unwrap();
    let parsed = Message::from_slice(&resp).unwrap();
    assert_eq!(parsed.header().rcode(), Rcode::NXDOMAIN);
    assert!(parsed.header().aa());
    assert_eq!(parsed.header_counts().ancount(), 0);
    assert_eq!(parsed.header_counts().nscount(), 1);
    assert!(parsed.answer().unwrap().next().is_none());
    let auth: Vec<_> = parsed.authority().unwrap().collect();
    assert_eq!(auth.len(), 1);
    let rec = auth[0].as_ref().unwrap();
    assert_eq!(rec.ttl(), domain::base::Ttl::from_secs(1));
    let expected_owner = msg.sole_question().unwrap().qname().to_name::<Vec<u8>>();
    assert_eq!(rec.owner().to_name::<Vec<u8>>(), expected_owner);
}

#[test]
fn servfail_response_has_empty_sections() {
    let q = make_query("ads.example.com");
    let msg = Message::from_slice(&q).unwrap();
    let resp = build_servfail_response(&q).unwrap();
    let parsed = Message::from_slice(&resp).unwrap();
    assert_eq!(parsed.header().rcode(), Rcode::SERVFAIL);
    assert_eq!(parsed.header_counts().ancount(), 0);
    assert_eq!(parsed.header_counts().nscount(), 0);
    assert_eq!(parsed.header_counts().qdcount(), 1);
    assert_eq!(parsed.header().id(), msg.header().id());
}

#[test]
fn parse_query_handles_root_qname() {
    let mut qb = MessageBuilder::new_vec().question();
    qb.push((Name::root_ref(), Rtype::A, Class::IN)).unwrap();
    let p = qb.finish();
    let trie_key = parse_query(&p).unwrap();
    assert!(trie_key.is_empty());
}

#[test]
fn parse_query_rejects_multiple_questions() {
    let mut p = vec![
        0x12, 0x34, 0x01, 0x00, 0x00, 0x02, 0x00, 0x00, 0x00, 0x00, 0x00, 0x00,
    ];
    for name in ["\x07example\x03com", "\x04test\x03org"] {
        p.extend_from_slice(name.as_bytes());
        p.push(0);
        p.extend_from_slice(&[0, 1, 0, 1]);
    }
    assert!(parse_query(&p).is_none());
}

#[test]
fn blocked_subdomain_of_blocked_parent_is_blocked() {
    let mut trie = Trie::new();
    trie.insert(domain_to_wire_format("example.com").unwrap(), ());
    let q = make_query("ads.example.com");
    let trie_key = parse_query(&q).unwrap();
    assert!(trie.get_ancestor_value(&trie_key).is_some());
}

#[test]
fn unblocked_subdomain_does_not_match() {
    let mut trie = Trie::new();
    trie.insert(domain_to_wire_format("example.com").unwrap(), ());
    let q = make_query("notexample.com");
    let trie_key = parse_query(&q).unwrap();
    assert!(trie.get_ancestor_value(&trie_key).is_none());
}

#[test]
fn parse_query_rejects_no_question() {
    let p = vec![0x12, 0x34, 0x01, 0, 0, 0, 0, 0, 0, 0, 0, 0];
    assert!(parse_query(&p).is_none());
    assert!(build_null_response(&p).is_none());
}

#[test]
fn parse_query_rejects_truncated_question() {
    assert!(parse_query(&raw_query(b"\x03ads\x07exam")).is_none());
    assert!(parse_query(&raw_query(b"\x03ads\x00\x00\x01\x00")).is_none());
}

#[test]
fn parse_query_resolves_compressed_name() {
    // The pointer leads to octet 11 of the header, which is zero: the root.
    let p = raw_query(b"\x03AdS\xC0\x0B\x00\x01\x00\x01");
    assert_eq!(parse_query(&p).unwrap(), b"\x03ads".to_vec());
}

#[test]
fn parse_query_joins_own_labels_and_pointed_ones() {
    let mut p = raw_query(b"\x01a\xC0\x09\x00\x01\x00\x01");
    // The name `x` stands at offset 9, within the header.
    p[9..12].copy_from_slice(b"\x01x\x00");
    assert_eq!(parse_query(&p).unwrap(), b"\x01x\x01a".to_vec());
    assert_eq!(qname_str(&p), "a.x");
    assert_eq!(&build_servfail_response(&p).unwrap()[12..], b"\x01a\x01x\x00\x00\x01\x00\x01");
}

#[test]
fn parse_query_rejects_pointers_that_do_not_lead_back() {
    assert!(parse_query(&raw_query(b"\xC0\x0C\x00\x01\x00\x01")).is_none());
    assert!(parse_query(&raw_query(b"\x01a\xC0\x0E\x00\x01\x00\x01")).is_none());
    assert!(parse_query(&raw_query(b"\xC0\x40\x00\x01\x00\x01")).is_none());
    assert!(parse_query(&raw_query(b"\x01a\xC0\x0B\x00\x01\x00")).is_none());
}

#[test]
fn parse_query_rejects_other_label_types_and_long_names() {
    assert!(parse_query(&raw_query(b"\x40a\x00\x00\x01\x00\x01")).is_none());
    assert!(parse_query(&raw_query(b"\x80a\x00\x00\x01\x00\x01")).is_none());
    let mut long = Vec::new();
    for _ in 0..127 {
        long.extend_from_slice(b"\x01a");
    }
    let tail = b"\x00\x00\x01\x00\x01";
    assert_eq!(parse_query(&raw_query(&[&long[..], tail].concat())).unwrap().len(), 254);
    long.extend_from_slice(b"\x01a");
    assert!(parse_query(&raw_query(&[&long[..], tail].concat())).is_none());
}

#[test]
fn null_response_exact_octets() {
    let p = raw_query(b"\x03AdS\x03com\x00\x00\x1c\x00\x01");
    let mut expected = vec![0x12, 0x34, 0x85, 0x03, 0, 1, 0, 0, 0, 1, 0, 0];
    expected.extend_from_slice(b"\x03AdS\x03com\x00\x00\x1c\x00\x01");
    expected.extend_from_slice(b"\x03AdS\x03com\x00");
    expected.extend_from_slice(&[0, 6, 0, 1, 0, 0, 0, 1, 0, 22, 0, 0]);
    expected.extend_from_slice(&[0; 16]);
    expected.extend_from_slice(&[0, 0, 0, 1]);
    assert_eq!(build_null_response(&p).unwrap(), expected);
}

#[test]
fn null_response_echoes_compressed_name_in_full() {
    let p = raw_query(b"\x03ads\xC0\x0B\x00\x01\x00\x01");
    let r = build_null_response(&p).unwrap();
    assert_eq!(&r[12..21], b"\x03ads\x00\x00\x01\x00\x01");
    assert_eq!(&r[21..26], b"\x03ads\x00");
}

#[test]
fn null_response_keeps_only_operation_and_recursion_flags() {
    let mut p = raw_query(b"\x00\x00\x01\x00\x01");
    p[2] = 0xff;
    p[3] = 0xff;
    let r = build_null_response(&p).unwrap();
    assert_eq!(&r[2..4], &[0xfd, 0x03]);
}

#[test]
fn servfail_response_exact_octets() {
    let p = raw_query(b"\x03ads\x03com\x00\x00\x01\x00\x01");
    let mut expected = vec![0x12, 0x34, 0x81, 0x02, 0, 1, 0, 0, 0, 0, 0, 0];
    expected.extend_from_slice(b"\x03ads\x03com\x00\x00\x01\x00\x01");
    assert_eq!(build_servfail_response(&p).unwrap(), expected);
}

#[test]
fn servfail_response_needs_a_header() {
    assert!(build_servfail_response(&[0u8; 11]).is_none());
    let r = build_servfail_response(&[7, 8, 0, 0, 0, 0, 0, 0, 0, 0, 0, 0]).unwrap();
    assert_eq!(r, vec![7, 8, 0x80, 2, 0, 0, 0, 0, 0, 0, 0, 0]);
}

#[test]
fn servfail_response_echoes_every_question() {
    let mut p = raw_query(b"\x03ads\x03com\x00\x00\x01\x00\x01\x03Two\x00\x00\x1c\x00\x03");
    p[5] = 2;
    let mut expected = vec![0x12, 0x34, 0x81, 0x02, 0, 2, 0, 0, 0, 0, 0, 0];
    expected.extend_from_slice(&p[12..]);
    p.extend_from_slice(b"trailing");
    p[7] = 1;
    assert_eq!(build_servfail_response(&p).unwrap(), expected);
}

#[test]
fn servfail_response_writes_compressed_questions_in_full() {
    let mut p = raw_query(b"\x03com\x00\x00\x01\x00\x01\x03ads\xC0\x0C\x00\x01\x00\x01");
    p[5] = 2;
    let r = build_servfail_response(&p).unwrap();
    assert_eq!(&r[4..6], &[0, 2]);
    assert_eq!(&r[12..], b"\x03com\x00\x00\x01\x00\x01\x03ads\x03com\x00\x00\x01\x00\x01");
}

#[test]
fn servfail_response_stops_at_an_unreadable_question() {
    let mut p = raw_query(b"\x03com\x00\x00\x01\x00\x01\x03ad");
    p[5] = 2;
    let r = build_servfail_response(&p).unwrap();
    assert_eq!(&r[4..6], &[0, 1]);
    assert_eq!(&r[12..], b"\x03com\x00\x00\x01\x00\x01");
}

#[test]
fn qname_is_shown_dotted() {
    assert_eq!(qname_str(&make_query("ads.Example.com")), "ads.Example.com");
    assert_eq!(qname_str(&[0u8; 3]), "<malformed>");
    assert_eq!(qname_str(&raw_query(b"\x00\x00\x01\x00\x01")), "");
    let odd = raw_query(b"\x06a b.\\\x07\x01\xff\x00\x00\x01\x00\x01");
    assert_eq!(qname_str(&odd), "a\\ b\\.\\\\\\007.\\255");
}
