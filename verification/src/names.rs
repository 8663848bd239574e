//! Domain names as label sequences, their wire form, and the keys under which
//! the blocklist files them.

use crate::bytes::{
    append_lowercased, append_octets, law_folding_of_strings, lower, lowercased, octet_strings,
    same_letter,
};
use vstd::prelude::*;
use vstd::string::*;

verus! {

/// The longest label that a domain name may hold.
pub const MAX_LABEL_LEN: usize = 63;

/// The longest blocklist key that is accepted for a domain.
pub const MAX_KEY_LEN: usize = 255;

/// The octet that separates the labels of a dotted name.
pub const DOT: u8 = 46;

/// How far the first dot of `s` lies from its start, or the length of `s` where
/// it holds none.
pub open spec fn first_dot(s: Seq<u8>) -> nat
    decreases s.len(),
{
    if s.len() == 0 || s[0] == DOT {
        0
    } else {
        1 + first_dot(s.skip(1))
    }
}

/// The labels of the dotted name `s`, from left to right; empty ones are left
/// out.
pub open spec fn dotted_labels(s: Seq<u8>) -> Seq<Seq<u8>>
    decreases s.len(),
{
    if s.len() == 0 {
        seq![]
    } else if s[0] == DOT {
        dotted_labels(s.skip(1))
    } else {
        let n = first_dot(s) as int;
        proof {
            lemma_first_dot(s);
        }
        seq![s.take(n)] + dotted_labels(s.skip(n))
    }
}

/// Where the first dot of a name lies.
pub proof fn lemma_first_dot(s: Seq<u8>)
    ensures
        first_dot(s) <= s.len(),
        s.len() > 0 && s[0] != DOT ==> first_dot(s) > 0,
        forall|i: int| 0 <= i < first_dot(s) ==> s[i] != DOT,
        first_dot(s) < s.len() ==> s[first_dot(s) as int] == DOT,
    decreases s.len(),
{
    if s.len() > 0 && s[0] != DOT {
        lemma_first_dot(s.skip(1));
        assert forall|i: int| 0 <= i < first_dot(s) implies s[i] != DOT by {
            if i > 0 {
                assert(s[i] == s.skip(1)[i - 1]);
            }
        }
    }
}

/// The wire form of one label: its length, then its octets.
pub open spec fn wire_label(label: Seq<u8>) -> Seq<u8> {
    seq![label.len() as u8] + label
}

/// The wire form of a name: its labels from left to right, then the root.
pub open spec fn name_wire(labels: Seq<Seq<u8>>) -> Seq<u8>
    decreases labels.len(),
{
    if labels.len() == 0 {
        seq![0u8]
    } else {
        wire_label(labels[0]) + name_wire(labels.drop_first())
    }
}

/// The wire form of labels without the root behind them.
pub open spec fn labels_wire(labels: Seq<Seq<u8>>) -> Seq<u8>
    decreases labels.len(),
{
    if labels.len() == 0 {
        seq![]
    } else {
        wire_label(labels[0]) + labels_wire(labels.drop_first())
    }
}

/// Whether no label is empty or longer than 63 octets.
pub open spec fn wire_sized(labels: Seq<Seq<u8>>) -> bool {
    forall|i: int| 0 <= i < labels.len() ==> 1 <= (#[trigger] labels[i]).len() <= 63
}

/// Whether `labels` are those of a domain name: none is empty or longer than
/// 63 octets, and the wire form of the name fits into 255.
pub open spec fn valid_labels(labels: Seq<Seq<u8>>) -> bool {
    &&& wire_sized(labels)
    &&& name_wire(labels).len() <= 255
}

/// Whether the length of each label fits into its length octet.
pub open spec fn short_labels(labels: Seq<Seq<u8>>) -> bool {
    forall|i: int| 0 <= i < labels.len() ==> (#[trigger] labels[i]).len() <= 255
}

/// The blocklist key of a name: its labels in small letters, each behind its
/// length, from the top-level domain down.
pub open spec fn key_of(labels: Seq<Seq<u8>>) -> Seq<u8>
    decreases labels.len(),
{
    if labels.len() == 0 {
        seq![]
    } else {
        key_of(labels.drop_first()) + wire_label(lowercased(labels[0]))
    }
}

/// The blocklist key of the dotted name `domain`; none where a label is longer
/// than 63 octets or the key is longer than 255.
pub open spec fn domain_key(domain: Seq<u8>) -> Option<Seq<u8>> {
    let labels = dotted_labels(domain);
    if (forall|i: int| 0 <= i < labels.len() ==> (#[trigger] labels[i]).len() <= 63)
        && key_of(labels).len() <= 255 {
        Some(key_of(labels))
    } else {
        None
    }
}

/// Whether the name `parent` is `child` or one of the domains above it, letter
/// case aside.
pub open spec fn is_parent_or_self(parent: Seq<Seq<u8>>, child: Seq<Seq<u8>>) -> bool {
    &&& parent.len() <= child.len()
    &&& forall|i: int|
        0 <= i < parent.len() ==> lowercased(#[trigger] parent[i]) == lowercased(
            child[child.len() - parent.len() + i],
        )
}

/// Splits a dotted name into its labels.
fn split_labels(domain: &[u8]) -> (labels: Vec<Vec<u8>>)
    ensures
        octet_strings(labels@) == dotted_labels(domain@),
{
    let mut labels: Vec<Vec<u8>> = Vec::new();
    let mut pos: usize = 0;
    proof {
        assert(domain@.skip(0) == domain@);
    }
    while pos < domain.len()
        invariant
            pos <= domain@.len(),
            octet_strings(labels@) + dotted_labels(domain@.skip(pos as int)) == dotted_labels(
                domain@,
            ),
        decreases domain@.len() - pos,
    {
        let ghost rest = domain@.skip(pos as int);
        if domain[pos] == DOT {
            proof {
                assert(rest.skip(1) == domain@.skip(pos + 1));
            }
            pos = pos + 1;
        } else {
            let mut label: Vec<u8> = Vec::new();
            let start: usize = pos;
            let ghost n = first_dot(rest) as int;
            proof {
                lemma_first_dot(rest);
            }
            while pos < domain.len() && domain[pos] != DOT
                invariant
                    start < domain@.len(),
                    start <= pos <= start + n,
                    rest == domain@.skip(start as int),
                    n == first_dot(rest),
                    n <= rest.len(),
                    n < rest.len() ==> rest[n] == DOT,
                    forall|i: int| 0 <= i < n ==> rest[i] != DOT,
                    label@ == rest.take(pos - start),
                decreases domain@.len() - pos,
            {
                proof {
                    assert(domain@[pos as int] == rest[pos - start]);
                    assert(rest.take(pos + 1 - start) == rest.take(pos - start).push(
                        domain@[pos as int],
                    ));
                }
                label.push(domain[pos]);
                pos = pos + 1;
            }
            proof {
                if pos < start + n {
                    assert(domain@[pos as int] == rest[pos - start]);
                }
                assert(rest.skip(n) == domain@.skip(pos as int));
                assert(octet_strings(labels@.push(label)) == octet_strings(labels@).push(label@));
            }
            labels.push(label);
        }
    }
    proof {
        assert(domain@.skip(pos as int).len() == 0);
    }
    labels
}

/// Appends a label to a blocklist key.
fn append_key_label(key: &mut Vec<u8>, label: &Vec<u8>)
    requires
        label@.len() <= 255,
    ensures
        final(key)@ == old(key)@ + wire_label(lowercased(label@)),
{
    key.push(label.len() as u8);
    append_lowercased(key, label.as_slice());
    proof {
        assert(key@ == old(key)@ + wire_label(lowercased(label@)));
    }
}

/// The key of all but the first `i - 1` labels, from that of all but the first
/// `i`.
proof fn lemma_key_step(labels: Seq<Seq<u8>>, i: int)
    requires
        0 < i <= labels.len(),
    ensures
        key_of(labels.skip(i - 1)) == key_of(labels.skip(i)) + wire_label(
            lowercased(labels[i - 1]),
        ),
{
    assert(labels.skip(i - 1).drop_first() == labels.skip(i));
}

/// The key of the last labels of a name is part of the name's key.
proof fn lemma_key_len(labels: Seq<Seq<u8>>, i: int)
    requires
        0 <= i <= labels.len(),
    ensures
        key_of(labels.skip(i)).len() <= key_of(labels).len(),
    decreases i,
{
    if i > 0 {
        lemma_key_step(labels, i);
        lemma_key_len(labels, i - 1);
    } else {
        assert(labels.skip(0) == labels);
    }
}

/// Derives the blocklist key of the name with the given labels, for example
/// `\x03com\x07example\x03ads` for `ads.example.com`.
pub fn trie_key(labels: &Vec<Vec<u8>>) -> (key: Vec<u8>)
    requires
        short_labels(octet_strings(labels@)),
    ensures
        key@ == key_of(octet_strings(labels@)),
{
    let ghost all = octet_strings(labels@);
    let mut key: Vec<u8> = Vec::new();
    let mut i: usize = labels.len();
    proof {
        assert(all.skip(all.len() as int).len() == 0);
    }
    while i > 0
        invariant
            i <= labels@.len(),
            all == octet_strings(labels@),
            short_labels(all),
            key@ == key_of(all.skip(i as int)),
        decreases i,
    {
        proof {
            assert(all[i - 1] == labels@[i - 1]@);
            lemma_key_step(all, i as int);
        }
        i = i - 1;
        append_key_label(&mut key, &labels[i]);
    }
    proof {
        assert(all.skip(0) == all);
    }
    key
}

/// Converts a dotted domain into its blocklist key, for example
/// `\x03com\x07example` for `example.com`.
///
/// The labels stand in reverse, so that the key of a domain is a prefix of the
/// keys of its subdomains. A domain with a label of more than 63 octets, or
/// whose key would be longer than 255, has none.
pub fn domain_to_wire_format(domain: &str) -> (key: Option<Vec<u8>>)
    ensures
        match key {
            Some(k) => domain_key(domain.spec_bytes()) == Some(k@),
            None => domain_key(domain.spec_bytes()) is None,
        },
        key is Some <==> key_of(dotted_labels(domain.spec_bytes())).len() <= 255 && (forall|i: int|
            0 <= i < dotted_labels(domain.spec_bytes()).len() ==> (#[trigger] dotted_labels(
                domain.spec_bytes(),
            )[i]).len() <= 63),
        key matches Some(k) ==> k@ == key_of(dotted_labels(domain.spec_bytes())),
{
    let labels = split_labels(domain.as_bytes());
    let ghost all = octet_strings(labels@);
    let mut key: Vec<u8> = Vec::new();
    let mut i: usize = labels.len();
    proof {
        assert(all.skip(all.len() as int).len() == 0);
    }
    while i > 0
        invariant
            i <= labels@.len(),
            all == octet_strings(labels@),
            all == dotted_labels(domain.spec_bytes()),
            key@ == key_of(all.skip(i as int)),
            key@.len() <= 255,
            forall|j: int| i <= j < all.len() ==> (#[trigger] all[j]).len() <= 63,
        decreases i,
    {
        proof {
            assert(all[i - 1] == labels@[i - 1]@);
            lemma_key_step(all, i as int);
            lemma_key_len(all, i - 1);
        }
        i = i - 1;
        let label: &Vec<u8> = &labels[i];
        if label.len() > MAX_LABEL_LEN || key.len() + 1 + label.len() > MAX_KEY_LEN {
            return None;
        }
        append_key_label(&mut key, label);
    }
    proof {
        assert(all.skip(0) == all);
    }
    Some(key)
}

/// Writes out the wire form of the name with the given labels.
pub fn to_name_wire(labels: &Vec<Vec<u8>>) -> (wire: Vec<u8>)
    requires
        short_labels(octet_strings(labels@)),
    ensures
        wire@ == name_wire(octet_strings(labels@)),
{
    let ghost all = octet_strings(labels@);
    let mut wire: Vec<u8> = Vec::new();
    let mut i: usize = 0;
    proof {
        assert(all.skip(0) == all);
    }
    while i < labels.len()
        invariant
            i <= labels@.len(),
            all == octet_strings(labels@),
            short_labels(all),
            wire@ + name_wire(all.skip(i as int)) == name_wire(all),
        decreases labels@.len() - i,
    {
        proof {
            assert(all[i as int] == labels@[i as int]@);
            assert(all.skip(i as int).drop_first() == all.skip(i + 1));
        }
        let ghost before = wire@;
        wire.push(labels[i].len() as u8);
        append_octets(&mut wire, labels[i].as_slice());
        proof {
            assert(wire@ == before + wire_label(all[i as int]));
        }
        i = i + 1;
    }
    wire.push(0);
    proof {
        assert(all.skip(i as int).len() == 0);
    }
    wire
}

/// The labels of `labels` joined by dots.
pub open spec fn dotted(labels: Seq<Seq<u8>>) -> Seq<u8>
    decreases labels.len(),
{
    if labels.len() == 0 {
        seq![]
    } else if labels.len() == 1 {
        labels[0]
    } else {
        labels[0] + seq![DOT] + dotted(labels.drop_first())
    }
}

/// Whether `labels` can be told apart once they are joined by dots.
pub open spec fn dot_free_labels(labels: Seq<Seq<u8>>) -> bool {
    forall|i: int|
        0 <= i < labels.len() ==> (#[trigger] labels[i]).len() > 0 && !labels[i].contains(DOT)
}

/// The key of a name starts with the key of its last label.
proof fn lemma_key_from_top(labels: Seq<Seq<u8>>)
    requires
        labels.len() > 0,
    ensures
        key_of(labels) == wire_label(lowercased(labels.last())) + key_of(labels.drop_last()),
    decreases labels.len(),
{
    if labels.len() == 1 {
        assert(labels.drop_first().len() == 0);
        assert(labels.drop_last().len() == 0);
        assert(key_of(labels.drop_first()) == Seq::<u8>::empty());
        assert(key_of(labels.drop_last()) == Seq::<u8>::empty());
        assert(key_of(labels) =~= wire_label(lowercased(labels.last())) + key_of(
            labels.drop_last(),
        ));
    } else {
        lemma_key_from_top(labels.drop_first());
        assert(labels.drop_first().drop_last() == labels.drop_last().drop_first());
        assert(key_of(labels) =~= wire_label(lowercased(labels.last())) + key_of(
            labels.drop_last(),
        ));
    }
}

/// One length-prefixed label in front decides whether a key is a prefix of
/// another.
proof fn lemma_prefix_by_label(a: Seq<u8>, b: Seq<u8>, s: Seq<u8>, t: Seq<u8>)
    requires
        a.len() <= 255,
        b.len() <= 255,
    ensures
        (wire_label(a) + s).is_prefix_of(wire_label(b) + t) <==> a == b && s.is_prefix_of(t),
{
    let x = wire_label(a) + s;
    let y = wire_label(b) + t;
    if x.is_prefix_of(y) {
        assert(x[0] == y[0]);
        assert(x[0] == a.len() as u8);
        assert(y[0] == b.len() as u8);
        assert(a.len() == b.len());
        assert forall|i: int| 0 <= i < a.len() implies a[i] == b[i] by {
            assert(x[i + 1] == y[i + 1]);
        }
        assert(a =~= b);
        assert forall|i: int| 0 <= i < s.len() implies s[i] == t[i] by {
            assert(x[i + 1 + a.len()] == y[i + 1 + a.len()]);
        }
        assert(s =~= t.take(s.len() as int));
    }
    if a == b && s.is_prefix_of(t) {
        assert forall|i: int| 0 <= i < x.len() implies x[i] == y[i] by {
            if i >= 1 + a.len() {
                assert(s[i - 1 - a.len()] == t[i - 1 - a.len()]);
            }
        }
        assert(x =~= y.take(x.len() as int));
    }
}

/// The key of one name is a prefix of the key of another exactly when the first
/// name is the second or one of the domains above it. In particular
/// `example.com` covers `ads.example.com` and does not cover `notexample.com`.
pub proof fn law_key_prefix_means_parent(parent: Seq<Seq<u8>>, child: Seq<Seq<u8>>)
    requires
        short_labels(parent),
        short_labels(child),
    ensures
        key_of(parent).is_prefix_of(key_of(child)) <==> is_parent_or_self(parent, child),
    decreases parent.len(),
{
    if parent.len() == 0 {
        assert(key_of(parent) =~= key_of(child).take(0));
    } else if child.len() == 0 {
        lemma_key_from_top(parent);
        assert(key_of(parent).len() > 0);
    } else {
        lemma_key_from_top(parent);
        lemma_key_from_top(child);
        let p = parent.drop_last();
        let c = child.drop_last();
        assert forall|i: int| 0 <= i < p.len() implies (#[trigger] p[i]).len() <= 255 by {
            assert(p[i] == parent[i]);
        }
        assert forall|i: int| 0 <= i < c.len() implies (#[trigger] c[i]).len() <= 255 by {
            assert(c[i] == child[i]);
        }
        law_key_prefix_means_parent(p, c);
        lemma_prefix_by_label(
            lowercased(parent.last()),
            lowercased(child.last()),
            key_of(p),
            key_of(c),
        );
        if is_parent_or_self(parent, child) {
            assert(lowercased(parent[parent.len() - 1]) == lowercased(child[child.len() - 1]));
            assert forall|i: int| 0 <= i < p.len() implies lowercased(#[trigger] p[i])
                == lowercased(c[c.len() - p.len() + i]) by {
                assert(p[i] == parent[i]);
            }
        }
        if is_parent_or_self(p, c) && lowercased(parent.last()) == lowercased(child.last()) {
            assert forall|i: int| 0 <= i < parent.len() implies lowercased(#[trigger] parent[i])
                == lowercased(child[child.len() - parent.len() + i]) by {
                if i < p.len() {
                    assert(p[i] == parent[i]);
                }
            }
        }
    }
}

proof fn lemma_first_dot_of_concat(label: Seq<u8>, rest: Seq<u8>)
    requires
        !label.contains(DOT),
        rest.len() == 0 || rest[0] == DOT,
    ensures
        first_dot(label + rest) == label.len(),
    decreases label.len(),
{
    if label.len() > 0 {
        assert(label[0] != DOT);
        assert((label + rest).skip(1) == label.skip(1) + rest);
        assert forall|i: int| 0 <= i < label.skip(1).len() implies label.skip(1)[i] != DOT by {
            assert(label.skip(1)[i] == label[i + 1]);
        }
        lemma_first_dot_of_concat(label.skip(1), rest);
    } else {
        assert(label + rest =~= rest);
    }
}

/// Labels that are joined by dots are found again.
pub proof fn law_dotted_round_trip(labels: Seq<Seq<u8>>)
    requires
        dot_free_labels(labels),
    ensures
        dotted_labels(dotted(labels)) == labels,
    decreases labels.len(),
{
    if labels.len() > 0 {
        let head = labels[0];
        let tail = labels.drop_first();
        assert forall|i: int| 0 <= i < tail.len() implies (#[trigger] tail[i]).len() > 0
            && !tail[i].contains(DOT) by {
            assert(tail[i] == labels[i + 1]);
        }
        law_dotted_round_trip(tail);
        let rest = if labels.len() == 1 {
            Seq::<u8>::empty()
        } else {
            seq![DOT] + dotted(tail)
        };
        let s = dotted(labels);
        assert(s =~= head + rest);
        assert(s[0] == head[0]);
        assert(head.contains(head[0]));
        lemma_first_dot_of_concat(head, rest);
        assert(s.take(head.len() as int) =~= head);
        assert(s.skip(head.len() as int) =~= rest);
        if labels.len() > 1 {
            assert(rest.skip(1) =~= dotted(tail));
            assert(dotted_labels(rest) == tail);
        } else {
            assert(dotted_labels(rest) =~= tail);
        }
        assert(dotted_labels(s) == seq![head] + tail);
        assert(seq![head] + tail =~= labels);
    }
}

proof fn lemma_key_and_wire_len(labels: Seq<Seq<u8>>)
    ensures
        key_of(labels).len() + 1 == name_wire(labels).len(),
    decreases labels.len(),
{
    if labels.len() > 0 {
        lemma_key_and_wire_len(labels.drop_first());
    }
}

/// The key of a blocked domain is the one that a query for that same domain is
/// looked up under.
pub proof fn law_domain_and_query_keys_agree(labels: Seq<Seq<u8>>)
    requires
        valid_labels(labels),
        dot_free_labels(labels),
    ensures
        domain_key(dotted(labels)) == Some(key_of(labels)),
{
    law_dotted_round_trip(labels);
    lemma_key_and_wire_len(labels);
}

/// No label of a dotted name is empty or holds a dot.
pub proof fn law_labels_of_dotted_are_dot_free(s: Seq<u8>)
    ensures
        dot_free_labels(dotted_labels(s)),
    decreases s.len(),
{
    if s.len() > 0 {
        if s[0] == DOT {
            law_labels_of_dotted_are_dot_free(s.skip(1));
        } else {
            let n = first_dot(s) as int;
            lemma_first_dot(s);
            law_labels_of_dotted_are_dot_free(s.skip(n));
            let tail = dotted_labels(s.skip(n));
            let labels = seq![s.take(n)] + tail;
            assert forall|i: int| 0 <= i < labels.len() implies (#[trigger] labels[i]).len() > 0
                && !labels[i].contains(DOT) by {
                if i > 0 {
                    assert(labels[i] == tail[i - 1]);
                }
            }
        }
    }
}

/// Two names have the same key exactly when they are the same, letter case
/// aside.
pub proof fn law_keys_tell_names_apart(a: Seq<Seq<u8>>, b: Seq<Seq<u8>>)
    requires
        short_labels(a),
        short_labels(b),
    ensures
        key_of(a) == key_of(b) <==> a.len() == b.len() && is_parent_or_self(a, b),
{
    law_key_prefix_means_parent(a, b);
    law_key_prefix_means_parent(b, a);
    if key_of(a) == key_of(b) {
        assert(key_of(a).is_prefix_of(key_of(b)));
        assert(key_of(b).is_prefix_of(key_of(a)));
    }
    if a.len() == b.len() && is_parent_or_self(a, b) {
        assert forall|i: int| 0 <= i < b.len() implies lowercased(#[trigger] b[i]) == lowercased(
            a[a.len() - b.len() + i],
        ) by {
            assert(lowercased(a[i]) == lowercased(b[b.len() - a.len() + i]));
        }
        assert(is_parent_or_self(b, a));
        assert(key_of(a) =~= key_of(b));
    }
}

proof fn lemma_first_dot_lowercased(s: Seq<u8>)
    ensures
        first_dot(lowercased(s)) == first_dot(s),
    decreases s.len(),
{
    if s.len() > 0 && s[0] != DOT {
        assert(lowercased(s).skip(1) =~= lowercased(s.skip(1)));
        lemma_first_dot_lowercased(s.skip(1));
        assert(lower(s[0]) != DOT);
    }
}

proof fn lemma_dotted_labels_lowercased(s: Seq<u8>)
    ensures
        dotted_labels(lowercased(s)) == dotted_labels(s).map_values(
            |label: Seq<u8>| lowercased(label),
        ),
    decreases s.len(),
{
    let lowered = |label: Seq<u8>| lowercased(label);
    if s.len() == 0 {
        assert(dotted_labels(lowercased(s)) =~= dotted_labels(s).map_values(lowered));
    } else if s[0] == DOT {
        assert(lowercased(s)[0] == DOT);
        assert(lowercased(s).skip(1) =~= lowercased(s.skip(1)));
        lemma_dotted_labels_lowercased(s.skip(1));
    } else {
        let n = first_dot(s) as int;
        lemma_first_dot(s);
        lemma_first_dot_lowercased(s);
        assert(lowercased(s)[0] == lower(s[0]));
        assert(lower(s[0]) != DOT);
        assert(lowercased(s).take(n) =~= lowercased(s.take(n)));
        assert(lowercased(s).skip(n) =~= lowercased(s.skip(n)));
        lemma_dotted_labels_lowercased(s.skip(n));
        assert(dotted_labels(lowercased(s)) =~= dotted_labels(s).map_values(lowered));
    }
}

proof fn lemma_key_lowercased(labels: Seq<Seq<u8>>)
    ensures
        key_of(labels.map_values(|label: Seq<u8>| lowercased(label))) == key_of(labels),
    decreases labels.len(),
{
    let lowered = |label: Seq<u8>| lowercased(label);
    if labels.len() > 0 {
        assert(labels.map_values(lowered).drop_first() =~= labels.drop_first().map_values(lowered));
        lemma_key_lowercased(labels.drop_first());
        assert(lowercased(lowercased(labels[0])) =~= lowercased(labels[0]));
    } else {
        assert(labels.map_values(lowered) =~= labels);
    }
}

/// Letter case does not matter in a blocked domain.
pub proof fn law_domain_key_ignores_case(domain: Seq<u8>)
    ensures
        domain_key(lowercased(domain)) == domain_key(domain),
{
    lemma_dotted_labels_lowercased(domain);
    lemma_key_lowercased(dotted_labels(domain));
    let a = dotted_labels(domain);
    let b = dotted_labels(lowercased(domain));
    assert forall|i: int| 0 <= i < a.len() implies (#[trigger] a[i]).len() == b[i].len() by {}
    assert((forall|i: int| 0 <= i < a.len() ==> (#[trigger] a[i]).len() <= 63) <==> (forall|i: int|
        0 <= i < b.len() ==> (#[trigger] b[i]).len() <= 63)) by {
        if forall|i: int| 0 <= i < b.len() ==> (#[trigger] b[i]).len() <= 63 {
            assert forall|i: int| 0 <= i < a.len() implies (#[trigger] a[i]).len() <= 63 by {
                assert(b[i].len() <= 63);
            }
        }
    }
}

/// A dot ends a label: what stands before it and what stands behind it are split
/// on their own.
pub proof fn law_dot_separates(a: Seq<u8>, b: Seq<u8>)
    ensures
        dotted_labels(a + seq![46u8] + b) == dotted_labels(a) + dotted_labels(b),
    decreases a.len(),
{
    let s = a + seq![46u8] + b;
    if a.len() == 0 {
        assert(s[0] == DOT);
        assert(s.skip(1) =~= b);
        assert(dotted_labels(a) + dotted_labels(b) =~= dotted_labels(b));
    } else if a[0] == DOT {
        assert(s[0] == DOT);
        assert(s.skip(1) =~= a.skip(1) + seq![46u8] + b);
        law_dot_separates(a.skip(1), b);
    } else {
        let n = first_dot(a) as int;
        lemma_first_dot(a);
        let label = a.take(n);
        let tail = a.skip(n);
        let rest = tail + seq![46u8] + b;
        assert forall|i: int| 0 <= i < label.len() implies label[i] != DOT by {
            assert(label[i] == a[i]);
        }
        assert(rest[0] == DOT) by {
            if n < a.len() {
                assert(tail[0] == a[n]);
            }
        }
        assert(s =~= label + rest);
        lemma_first_dot_of_concat(label, rest);
        assert(s[0] == a[0]);
        assert(s.take(n) =~= label);
        assert(s.skip(n) =~= rest);
        law_dot_separates(tail, b);
        assert(dotted_labels(s) =~= seq![label] + dotted_labels(rest));
        assert(dotted_labels(a) =~= seq![label] + dotted_labels(tail));
        assert(dotted_labels(a) + dotted_labels(b) =~= seq![label] + (dotted_labels(tail)
            + dotted_labels(b)));
    }
}

/// Nothing but a dot ends a label: a name without one is one label, unless it is
/// empty.
pub proof fn law_name_without_dot_is_one_label(s: Seq<u8>)
    requires
        !s.contains(46u8),
    ensures
        s.len() > 0 ==> dotted_labels(s) == seq![s],
        s.len() == 0 ==> dotted_labels(s) == Seq::<Seq<u8>>::empty(),
{
    if s.len() > 0 {
        assert(s.contains(s[0]));
        let none = Seq::<u8>::empty();
        lemma_first_dot_of_concat(s, none);
        assert(s + none =~= s);
        assert(s.take(s.len() as int) =~= s);
        assert(s.skip(s.len() as int) =~= none);
        assert(dotted_labels(none) =~= seq![]);
        assert(dotted_labels(s) =~= seq![s]);
    }
}

/// Labels are joined by one dot each.
pub proof fn law_joining_by_dots(label: Seq<u8>, labels: Seq<Seq<u8>>)
    ensures
        dotted(Seq::empty()) == Seq::<u8>::empty(),
        dotted(seq![label]) == label,
        labels.len() > 0 ==> dotted(seq![label] + labels) == label + seq![46u8] + dotted(labels),
{
    assert((seq![label] + labels).drop_first() =~= labels);
}

/// The key of one label: its length, then its octets with capital ASCII letters
/// made small and nothing else changed.
pub proof fn law_key_of_one_label(label: Seq<u8>)
    requires
        label.len() <= 255,
    ensures
        key_of(Seq::empty()) == Seq::<u8>::empty(),
        key_of(seq![label]).len() == 1 + label.len(),
        key_of(seq![label])[0] == label.len(),
        forall|i: int|
            0 <= i < label.len() ==> key_of(seq![label])[i + 1] == if 65 <= (#[trigger] label[i])
                <= 90 {
                (label[i] + 32) as u8
            } else {
                label[i]
            },
{
    law_folding_of_strings(label, label);
    assert(seq![label].drop_first() =~= Seq::<Seq<u8>>::empty());
    assert(key_of(Seq::<Seq<u8>>::empty()) =~= Seq::<u8>::empty());
    assert(key_of(seq![label]) =~= wire_label(lowercased(label)));
    assert forall|i: int| 0 <= i < label.len() implies key_of(seq![label])[i + 1] == if 65 <= (
    #[trigger] label[i]) <= 90 {
        (label[i] + 32) as u8
    } else {
        label[i]
    } by {
        assert(key_of(seq![label])[i + 1] == lowercased(label)[i]);
    }
}

/// The key of a name is that of its last labels, then that of the labels before
/// them: labels stand in reverse.
pub proof fn law_key_reverses_labels(a: Seq<Seq<u8>>, b: Seq<Seq<u8>>)
    ensures
        key_of(a + b) == key_of(b) + key_of(a),
    decreases a.len(),
{
    if a.len() == 0 {
        assert(a + b =~= b);
        assert(key_of(a) =~= seq![]);
        assert(key_of(b) + key_of(a) =~= key_of(b));
    } else {
        assert((a + b).drop_first() =~= a.drop_first() + b);
        assert((a + b)[0] == a[0]);
        law_key_reverses_labels(a.drop_first(), b);
        assert(key_of(a + b) =~= key_of(b) + key_of(a));
    }
}

/// The wire form of a name: each label behind its length, from left to right, and
/// a zero at the end.
pub proof fn law_wire_form_of_names(label: Seq<u8>, labels: Seq<Seq<u8>>)
    requires
        label.len() <= 255,
    ensures
        name_wire(Seq::empty()) == seq![0u8],
        name_wire(seq![label] + labels) == seq![label.len() as u8] + label + name_wire(labels),
        labels_wire(Seq::empty()) == Seq::<u8>::empty(),
        labels_wire(seq![label] + labels) == seq![label.len() as u8] + label + labels_wire(labels),
        name_wire(labels) == labels_wire(labels) + seq![0u8],
    decreases labels.len(),
{
    assert((seq![label] + labels).drop_first() =~= labels);
    assert((seq![label] + labels)[0] == label);
    if labels.len() > 0 {
        let empty = Seq::<u8>::empty();
        law_wire_form_of_names(empty, labels.drop_first());
        assert(name_wire(labels) =~= labels_wire(labels) + seq![0u8]);
    } else {
        assert(labels =~= Seq::<Seq<u8>>::empty());
        assert(name_wire(labels) =~= labels_wire(labels) + seq![0u8]);
    }
}

/// The limits of a name: labels of 1 to 63 octets, 255 octets on the wire.
pub proof fn law_limits_of_names(labels: Seq<Seq<u8>>)
    ensures
        valid_labels(labels) <==> name_wire(labels).len() <= 255 && (forall|i: int|
            0 <= i < labels.len() ==> 1 <= (#[trigger] labels[i]).len() <= 63),
        short_labels(labels) <==> (forall|i: int|
            0 <= i < labels.len() ==> (#[trigger] labels[i]).len() <= 255),
        wire_sized(labels) <==> (forall|i: int|
            0 <= i < labels.len() ==> 1 <= (#[trigger] labels[i]).len() <= 63),
{
}

/// A domain has a key, that of its labels, unless a label has more than 63 octets
/// or the key would have more than 255.
pub proof fn law_domains_with_a_key(domain: Seq<u8>)
    ensures
        domain_key(domain) is Some <==> key_of(dotted_labels(domain)).len() <= 255 && (forall|i: int|
            0 <= i < dotted_labels(domain).len() ==> (#[trigger] dotted_labels(domain)[i]).len()
                <= 63),
        domain_key(domain) matches Some(k) ==> k == key_of(dotted_labels(domain)),
{
}

/// Whether two labels are the same but for the case of ASCII letters.
pub open spec fn same_label(a: Seq<u8>, b: Seq<u8>) -> bool {
    a.len() == b.len() && (forall|i: int|
        0 <= i < a.len() ==> (#[trigger] a[i] == b[i] || (65 <= a[i] <= 90 && b[i] == a[i] + 32) || (
        65 <= b[i] <= 90 && a[i] == b[i] + 32)))
}

/// Labels are compared octet by octet, and only the case of an ASCII letter does
/// not count.
pub proof fn law_labels_differ_in_any_other_octet(a: Seq<u8>, b: Seq<u8>)
    ensures
        same_label(a, b) <==> lowercased(a) == lowercased(b),
        same_label(a, b) ==> a.len() == b.len(),
        forall|i: int|
            0 <= i < a.len() && same_label(a, b) ==> same_letter(#[trigger] a[i], b[i]),
        a.len() != b.len() ==> !same_label(a, b),
        forall|i: int|
            0 <= i < a.len() && !same_letter(#[trigger] a[i], b[i]) ==> !same_label(a, b),
{
    law_folding_of_strings(a, b);
}

/// A name lies at or below another exactly when its last labels are those of the
/// other, letter case aside.
pub proof fn law_parents_share_the_last_labels(parent: Seq<Seq<u8>>, child: Seq<Seq<u8>>)
    ensures
        is_parent_or_self(parent, child) <==> parent.len() <= child.len() && (forall|i: int|
            0 <= i < parent.len() ==> same_label(
                #[trigger] parent[i],
                child[child.len() - parent.len() + i],
            )),
{
    if parent.len() <= child.len() {
        assert forall|i: int| 0 <= i < parent.len() implies same_label(
            #[trigger] parent[i],
            child[child.len() - parent.len() + i],
        ) == (lowercased(parent[i]) == lowercased(child[child.len() - parent.len() + i])) by {
            law_labels_differ_in_any_other_octet(
                parent[i],
                child[child.len() - parent.len() + i],
            );
        }
        if forall|i: int|
            0 <= i < parent.len() ==> same_label(
                #[trigger] parent[i],
                child[child.len() - parent.len() + i],
            ) {
            assert forall|i: int| 0 <= i < parent.len() implies lowercased(#[trigger] parent[i])
                == lowercased(child[child.len() - parent.len() + i]) by {
                assert(same_label(parent[i], child[child.len() - parent.len() + i]));
            }
        }
    }
}

/// Names whose labels differ in anything but the case of ASCII letters have
/// different keys.
pub proof fn law_different_names_have_different_keys(a: Seq<Seq<u8>>, b: Seq<Seq<u8>>)
    requires
        forall|i: int| 0 <= i < a.len() ==> (#[trigger] a[i]).len() <= 255,
        forall|i: int| 0 <= i < b.len() ==> (#[trigger] b[i]).len() <= 255,
    ensures
        key_of(a) == key_of(b) <==> a.len() == b.len() && (forall|i: int|
            0 <= i < a.len() ==> same_label(#[trigger] a[i], b[i])),
{
    law_keys_tell_names_apart(a, b);
    law_parents_share_the_last_labels(a, b);
}

} // verus!
