//! The set of blocked domains.

use crate::bytes::lowercased;
use crate::names::{
    domain_key, domain_to_wire_format, dotted_labels, is_parent_or_self, key_of,
    law_domains_with_a_key, law_key_prefix_means_parent, law_parents_share_the_last_labels,
    same_label, short_labels,
};
use radix_trie::Trie;
use vstd::prelude::*;
use vstd::string::*;

verus! {

/// `radix_trie::Trie`, known by the keys that it holds.
#[verifier::external_type_specification]
#[verifier::external_body]
#[verifier::reject_recursive_types(K)]
#[verifier::reject_recursive_types(V)]
pub struct ExTrie<K, V>(Trie<K, V>);

/// The keys that a `radix_trie::Trie` holds.
pub uninterp spec fn trie_keys(trie: Trie<Vec<u8>, ()>) -> Set<Seq<u8>>;

/// `radix_trie::Trie::new`: the trie that it returns holds no key.
#[verifier::external_body]
fn trie_new() -> (trie: Trie<Vec<u8>, ()>)
    ensures
        trie_keys(trie) == Set::<Seq<u8>>::empty(),
{
    Trie::new()
}

/// `radix_trie::Trie::insert`: the key is added to those that the trie holds,
/// and a previous value comes back exactly where the key was there already.
#[verifier::external_body]
fn trie_insert(trie: &mut Trie<Vec<u8>, ()>, key: Vec<u8>) -> (previous: Option<()>)
    ensures
        trie_keys(*final(trie)) == trie_keys(*old(trie)).insert(key@),
        previous is Some <==> trie_keys(*old(trie)).contains(key@),
{
    trie.insert(key, ())
}

/// `radix_trie::Trie::get_ancestor_value`: there is a value exactly where some
/// key that the trie holds is a prefix of the given one. Octet strings are
/// encoded as they are, so that prefixes are taken octet by octet.
#[verifier::external_body]
fn trie_has_ancestor(trie: &Trie<Vec<u8>, ()>, key: &Vec<u8>) -> (found: bool)
    ensures
        found <==> covers(trie_keys(*trie), key@),
{
    trie.get_ancestor_value(key).is_some()
}

/// Whether one of `keys` is a prefix of `key`.
pub open spec fn covers(keys: Set<Seq<u8>>, key: Seq<u8>) -> bool {
    exists|k: Seq<u8>| #[trigger] keys.contains(k) && k.is_prefix_of(key)
}

/// The octets of each domain in a list.
pub open spec fn domain_octets(domains: Seq<String>) -> Seq<Seq<u8>> {
    domains.map_values(|d: String| vstd::utf8::encode_utf8(d@))
}

/// The keys of those domains in a list that have one.
pub open spec fn keys_of(domains: Seq<Seq<u8>>) -> Set<Seq<u8>> {
    Set::new(|k: Seq<u8>| exists|i: int|
        0 <= i < domains.len() && domain_key(#[trigger] domains[i]) == Some(k))
}

/// Whether a name is blocked by a list of domains: the list holds the name or a
/// domain above it.
pub open spec fn is_blocked_by(domains: Seq<Seq<u8>>, name: Seq<Seq<u8>>) -> bool {
    exists|i: int|
        0 <= i < domains.len() && domain_key(#[trigger] domains[i]) is Some && is_parent_or_self(
            dotted_labels(domains[i]),
            name,
        )
}

/// The blocked domains, filed by their keys.
pub struct Blocklist {
    trie: Trie<Vec<u8>, ()>,
}

impl View for Blocklist {
    type V = Set<Seq<u8>>;

    closed spec fn view(&self) -> Set<Seq<u8>> {
        trie_keys(self.trie)
    }
}

impl Blocklist {
    /// A list that blocks nothing.
    pub fn new() -> (list: Blocklist)
        ensures
            list@ == Set::<Seq<u8>>::empty(),
    {
        Blocklist { trie: trie_new() }
    }

    /// The list of the given domains. A domain that has no key is left out.
    pub fn from_domains(domains: &Vec<String>) -> (list: Blocklist)
        ensures
            list@ == keys_of(domain_octets(domains@)),
    {
        let mut trie = trie_new();
        let ghost all = domain_octets(domains@);
        let mut i: usize = 0;
        while i < domains.len()
            invariant
                i <= domains@.len(),
                all == domain_octets(domains@),
                trie_keys(trie) == keys_of(all.take(i as int)),
            decreases domains@.len() - i,
        {
            let wire_format = domain_to_wire_format(domains[i].as_str());
            proof {
                assert(all[i as int] == vstd::utf8::encode_utf8(domains@[i as int]@));
                lemma_keys_step(all, i as int);
            }
            if let Some(key) = wire_format {
                let _ = trie_insert(&mut trie, key);
            }
            i = i + 1;
        }
        proof {
            assert(all.take(all.len() as int) == all);
        }
        Blocklist { trie }
    }

    /// Whether the name with the given key, or a domain above it, is on the
    /// list.
    pub fn blocks(&self, key: &Vec<u8>) -> (blocked: bool)
        ensures
            blocked <==> covers(self@, key@),
    {
        trie_has_ancestor(&self.trie, key)
    }
}

proof fn lemma_keys_step(domains: Seq<Seq<u8>>, i: int)
    requires
        0 <= i < domains.len(),
    ensures
        keys_of(domains.take(i + 1)) == match domain_key(domains[i]) {
            Some(k) => keys_of(domains.take(i)).insert(k),
            None => keys_of(domains.take(i)),
        },
{
    let before = domains.take(i);
    let after = domains.take(i + 1);
    assert forall|k: Seq<u8>| keys_of(after).contains(k) <==> (keys_of(before).contains(k)
        || domain_key(domains[i]) == Some(k)) by {
        if keys_of(before).contains(k) {
            let j = choose|j: int|
                0 <= j < before.len() && domain_key(#[trigger] before[j]) == Some(k);
            assert(after[j] == before[j]);
        }
        if domain_key(domains[i]) == Some(k) {
            assert(after[i] == domains[i]);
        }
        if keys_of(after).contains(k) {
            let j = choose|j: int|
                0 <= j < after.len() && domain_key(#[trigger] after[j]) == Some(k);
            if j < i {
                assert(before[j] == after[j]);
            }
        }
    }
    assert(keys_of(after) =~= match domain_key(domains[i]) {
        Some(k) => keys_of(before).insert(k),
        None => keys_of(before),
    });
}

/// A name is looked up as blocked exactly when the list that was loaded holds
/// the name itself or a domain above it.
pub proof fn law_blocks_listed_domains_and_below(domains: Seq<Seq<u8>>, name: Seq<Seq<u8>>)
    requires
        short_labels(name),
    ensures
        covers(keys_of(domains), key_of(name)) <==> is_blocked_by(domains, name),
{
    if covers(keys_of(domains), key_of(name)) {
        let k = choose|k: Seq<u8>|
            #[trigger] keys_of(domains).contains(k) && k.is_prefix_of(key_of(name));
        let i = choose|i: int|
            0 <= i < domains.len() && domain_key(#[trigger] domains[i]) == Some(k);
        law_key_prefix_means_parent(dotted_labels(domains[i]), name);
        assert(domain_key(domains[i]) is Some);
    }
    if is_blocked_by(domains, name) {
        let i = choose|i: int|
            0 <= i < domains.len() && domain_key(#[trigger] domains[i]) is Some
                && is_parent_or_self(dotted_labels(domains[i]), name);
        let k = key_of(dotted_labels(domains[i]));
        law_key_prefix_means_parent(dotted_labels(domains[i]), name);
        assert(keys_of(domains).contains(k));
    }
}

/// Loading more domains never unblocks a name.
pub proof fn law_longer_list_blocks_more(
    domains: Seq<Seq<u8>>,
    more: Seq<Seq<u8>>,
    name: Seq<Seq<u8>>,
)
    requires
        is_blocked_by(domains, name),
    ensures
        is_blocked_by(domains + more, name),
        is_blocked_by(more + domains, name),
{
    let i = choose|i: int|
        0 <= i < domains.len() && domain_key(#[trigger] domains[i]) is Some && is_parent_or_self(
            dotted_labels(domains[i]),
            name,
        );
    assert((domains + more)[i] == domains[i]);
    assert((more + domains)[more.len() + i] == domains[i]);
}

/// Whatever lies below a blocked name is blocked too.
pub proof fn law_subdomains_of_blocked_are_blocked(
    domains: Seq<Seq<u8>>,
    name: Seq<Seq<u8>>,
    below: Seq<Seq<u8>>,
)
    requires
        is_blocked_by(domains, name),
    ensures
        is_blocked_by(domains, below + name),
{
    let i = choose|i: int|
        0 <= i < domains.len() && domain_key(#[trigger] domains[i]) is Some && is_parent_or_self(
            dotted_labels(domains[i]),
            name,
        );
    let parent = dotted_labels(domains[i]);
    let child = below + name;
    assert forall|j: int| 0 <= j < parent.len() implies lowercased(#[trigger] parent[j])
        == lowercased(child[child.len() - parent.len() + j]) by {
        assert(child[child.len() - parent.len() + j] == name[name.len() - parent.len() + j]);
    }
    assert(is_parent_or_self(parent, child));
}

/// A key is covered by a set of keys exactly when one of these agrees with it in
/// every octet that it has.
pub proof fn law_covered_by_a_leading_part(keys: Set<Seq<u8>>, key: Seq<u8>)
    ensures
        covers(keys, key) <==> exists|k: Seq<u8>| #[trigger]
            keys.contains(k) && k.len() <= key.len() && (forall|i: int|
                0 <= i < k.len() ==> k[i] == key[i]),
{
    if covers(keys, key) {
        let k = choose|k: Seq<u8>| #[trigger] keys.contains(k) && k.is_prefix_of(key);
        assert forall|i: int| 0 <= i < k.len() implies k[i] == key[i] by {
            assert(key.take(k.len() as int)[i] == key[i]);
        }
    }
    if exists|k: Seq<u8>| #[trigger]
        keys.contains(k) && k.len() <= key.len() && (forall|i: int|
            0 <= i < k.len() ==> k[i] == key[i]) {
        let k = choose|k: Seq<u8>| #[trigger]
            keys.contains(k) && k.len() <= key.len() && (forall|i: int|
                0 <= i < k.len() ==> k[i] == key[i]);
        assert(k =~= key.take(k.len() as int));
        assert(k.is_prefix_of(key));
    }
}

/// The keys of a list are those of its domains, each domain taken as its UTF-8
/// octets: one more domain adds its own key, if it has one, and no other.
pub proof fn law_list_holds_the_keys_of_its_domains(
    domains: Seq<Seq<u8>>,
    next: Seq<u8>,
    texts: Seq<String>,
)
    ensures
        keys_of(Seq::empty()) == Set::<Seq<u8>>::empty(),
        forall|k: Seq<u8>|
            keys_of(domains.push(next)).contains(k) <==> keys_of(domains).contains(k) || domain_key(
                next,
            ) == Some(k),
        domain_octets(texts).len() == texts.len(),
        forall|i: int|
            0 <= i < texts.len() ==> #[trigger] domain_octets(texts)[i] == vstd::utf8::encode_utf8(
                texts[i]@,
            ),
{
    assert(keys_of(Seq::empty()) =~= Set::<Seq<u8>>::empty());
    let n = domains.len() as int;
    let all = domains.push(next);
    lemma_keys_step(all, n);
    assert(all.take(n + 1) =~= all);
    assert(all.take(n) =~= domains);
}

/// A name is blocked exactly when the list holds a domain, with labels of at most
/// 63 octets and a key of at most 255, whose labels are the last ones of the name,
/// the case of ASCII letters aside.
pub proof fn law_blocked_means_listed(domains: Seq<Seq<u8>>, name: Seq<Seq<u8>>)
    requires
        forall|i: int| 0 <= i < name.len() ==> (#[trigger] name[i]).len() <= 255,
    ensures
        covers(keys_of(domains), key_of(name)) <==> exists|i: int|
            0 <= i < domains.len() && lies_below(dotted_labels(#[trigger] domains[i]), name),
{
    law_blocks_listed_domains_and_below(domains, name);
    assert forall|i: int| 0 <= i < domains.len() implies (lies_below(
        dotted_labels(#[trigger] domains[i]),
        name,
    ) <==> domain_key(domains[i]) is Some && is_parent_or_self(dotted_labels(domains[i]), name)) by {
        law_domains_with_a_key(domains[i]);
        law_parents_share_the_last_labels(dotted_labels(domains[i]), name);
    }
    if is_blocked_by(domains, name) {
        let i = choose|i: int|
            0 <= i < domains.len() && domain_key(#[trigger] domains[i]) is Some
                && is_parent_or_self(dotted_labels(domains[i]), name);
        assert(lies_below(dotted_labels(domains[i]), name));
    }
    if exists|i: int|
        0 <= i < domains.len() && lies_below(dotted_labels(#[trigger] domains[i]), name) {
        let i = choose|i: int|
            0 <= i < domains.len() && lies_below(dotted_labels(#[trigger] domains[i]), name);
        assert(domain_key(domains[i]) is Some);
    }
}

/// Whether the domain with the given labels may be listed, and `name` is that
/// domain or below it.
pub open spec fn lies_below(labels: Seq<Seq<u8>>, name: Seq<Seq<u8>>) -> bool {
    &&& key_of(labels).len() <= 255
    &&& labels.len() <= name.len()
    &&& forall|j: int| 0 <= j < labels.len() ==> (#[trigger] labels[j]).len() <= 63
    &&& forall|j: int|
        0 <= j < labels.len() ==> same_label(
            #[trigger] labels[j],
            name[name.len() - labels.len() + j],
        )
}

/// A domain that is not listed, and under no listed one, is not blocked, however
/// little it differs.
pub proof fn law_nothing_else_is_blocked(domain: Seq<u8>, name: Seq<Seq<u8>>, j: int)
    requires
        forall|i: int| 0 <= i < name.len() ==> (#[trigger] name[i]).len() <= 255,
        0 <= j < dotted_labels(domain).len(),
        dotted_labels(domain).len() <= name.len(),
        !same_label(
            dotted_labels(domain)[j],
            name[name.len() - dotted_labels(domain).len() + j],
        ),
    ensures
        !covers(keys_of(seq![domain]), key_of(name)),
{
    law_blocked_means_listed(seq![domain], name);
    if covers(keys_of(seq![domain]), key_of(name)) {
        let i = choose|i: int|
            0 <= i < seq![domain].len() && lies_below(
                dotted_labels(#[trigger] seq![domain][i]),
                name,
            );
        assert(seq![domain][i] == domain);
        assert(same_label(
            dotted_labels(domain)[j],
            name[name.len() - dotted_labels(domain).len() + j],
        ));
    }
}

/// A blocklist is seen as the keys in its trie.
proof fn law_blocklist_is_seen_as_its_keys(list: Blocklist)
    ensures
        list@ == trie_keys(list.trie),
{
}

} // verus!
