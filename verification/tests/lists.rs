use freeblock::blocklist::Blocklist;
use freeblock::bytes::{append_lowercased, append_octets, to_lower};
use freeblock::names::{domain_to_wire_format, to_name_wire, trie_key};

fn list(domains: &[&str]) -> Blocklist {
    let owned: Vec<String> = domains.iter().map(|d| d.to_string()).collect();
    Blocklist::from_domains(&owned)
}

fn key(domain: &str) -> Vec<u8> {
    domain_to_wire_format(domain).unwrap()
}

#[test]
fn domain_key_is_reversed_and_small() {
    assert_eq!(key("ads.Example.COM"), b"\x03com\x07example\x03ads".to_vec());
}

#[test]
fn domain_key_skips_empty_labels() {
    assert_eq!(key("example.com."), key("example.com"));
    assert_eq!(key("..example..com"), key("example.com"));
    assert_eq!(key(""), Vec::<u8>::new());
    assert_eq!(key("."), Vec::<u8>::new());
}

#[test]
fn domain_key_counts_octets_not_letters() {
    assert_eq!(key("\u{e4}.de"), b"\x02de\x02\xc3\xa4".to_vec());
}

#[test]
fn domain_label_limit() {
    assert_eq!(key(&"a".repeat(63)).len(), 64);
    assert!(domain_to_wire_format(&"a".repeat(64)).is_none());
    assert!(domain_to_wire_format(&format!("{}.com", "a".repeat(64))).is_none());
}

#[test]
fn domain_key_limit() {
    let label = "a".repeat(63);
    let three = format!("{label}.{label}.{label}");
    assert_eq!(key(&format!("{}.{three}", "b".repeat(62))).len(), 255);
    assert!(domain_to_wire_format(&format!("{}.{three}", "b".repeat(63))).is_none());
}

#[test]
fn labels_and_dotted_name_have_one_key() {
    let labels = vec![b"Ads".to_vec(), b"example".to_vec(), b"com".to_vec()];
    assert_eq!(trie_key(&labels), key("ads.example.com"));
    assert_eq!(to_name_wire(&labels), b"\x03Ads\x07example\x03com\x00".to_vec());
    assert_eq!(to_name_wire(&vec![]), vec![0]);
}

#[test]
fn list_blocks_domains_and_below() {
    let l = list(&["example.com", "Test.ORG"]);
    assert!(l.blocks(&key("example.com")));
    assert!(l.blocks(&key("a.b.example.com")));
    assert!(l.blocks(&key("x.test.org")));
    assert!(!l.blocks(&key("notexample.com")));
    assert!(!l.blocks(&key("com")));
    assert!(!l.blocks(&key("example.com.net")));
}

#[test]
fn new_list_blocks_nothing() {
    assert!(!Blocklist::new().blocks(&key("example.com")));
    assert!(!Blocklist::new().blocks(&vec![]));
}

#[test]
fn domains_without_key_are_left_out() {
    let bad = "a".repeat(64);
    let l = list(&[&bad, "example.com", "example.com"]);
    assert!(l.blocks(&key("example.com")));
    assert!(!l.blocks(&key("aaaa")));
}

#[test]
fn empty_domain_blocks_everything() {
    assert!(list(&["."]).blocks(&key("example.com")));
    assert!(list(&[""]).blocks(&vec![]));
}

#[test]
fn longer_list_blocks_more() {
    let l = list(&["b.net", "a.net"]);
    assert!(l.blocks(&key("a.net")));
    assert!(l.blocks(&key("b.net")));
    assert!(!list(&["b.net"]).blocks(&key("a.net")));
}

#[test]
fn lower_case_touches_capitals_only() {
    assert_eq!(to_lower(b'A'), b'a');
    assert_eq!(to_lower(b'Z'), b'z');
    assert_eq!(to_lower(b'['), b'[');
    assert_eq!(to_lower(b'@'), b'@');
    assert_eq!(to_lower(0xc4), 0xc4);
    let mut out = b"x".to_vec();
    append_lowercased(&mut out, b"Y-Z");
    append_octets(&mut out, b"Q");
    assert_eq!(out, b"xy-zQ".to_vec());
}
