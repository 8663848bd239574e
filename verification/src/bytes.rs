//! Octet-level vocabulary: big-endian numbers, ASCII case and the Internet
//! checksum.

use vstd::prelude::*;

verus! {

/// The two octets of `x` in network order.
pub open spec fn be16(x: int) -> Seq<u8> {
    seq![(x / 256) as u8, (x % 256) as u8]
}

/// The four octets of `x` in network order.
pub open spec fn be32(x: int) -> Seq<u8> {
    be16(x / 65536) + be16(x % 65536)
}

/// The big-endian 16-bit number at offset `i` of `s`.
pub open spec fn word_at(s: Seq<u8>, i: int) -> int {
    s[i] * 256 + s[i + 1]
}

/// The big-endian 32-bit number at offset `i` of `s`.
pub open spec fn long_at(s: Seq<u8>, i: int) -> int {
    word_at(s, i) * 65536 + word_at(s, i + 2)
}

/// `b` with an ASCII capital letter replaced by its small one.
pub open spec fn lower(b: u8) -> u8 {
    if 65 <= b <= 90 {
        (b + 32) as u8
    } else {
        b
    }
}

/// `s` with every ASCII capital letter replaced by its small one.
pub open spec fn lowercased(s: Seq<u8>) -> Seq<u8> {
    s.map_values(|b: u8| lower(b))
}

/// The sum of the big-endian 16-bit words of `s`; a last odd octet counts as
/// the high half of a word.
pub open spec fn word_sum(s: Seq<u8>) -> nat
    decreases s.len(),
{
    if s.len() == 0 {
        0
    } else if s.len() == 1 {
        (s[0] * 256) as nat
    } else {
        (word_at(s, 0) + word_sum(s.skip(2))) as nat
    }
}

/// The Internet checksum of `s`: the complement of the one's complement sum of
/// its 16-bit words.
pub open spec fn internet_checksum(s: Seq<u8>) -> int {
    if word_sum(s) == 0 {
        0xffff
    } else {
        0xfffe - (word_sum(s) - 1) % 0xffff
    }
}

/// The Internet checksum as UDP carries it, where zero is written as all ones.
pub open spec fn udp_checksum(s: Seq<u8>) -> int {
    if internet_checksum(s) == 0 {
        0xffff
    } else {
        internet_checksum(s)
    }
}

/// The views of the octet strings in `v`.
pub open spec fn octet_strings(v: Seq<Vec<u8>>) -> Seq<Seq<u8>> {
    v.map_values(|s: Vec<u8>| s@)
}

/// Replaces an ASCII capital letter by its small one.
pub fn to_lower(b: u8) -> (r: u8)
    ensures
        r == lower(b),
        65 <= b <= 90 ==> r == b + 32,
        b < 65 || b > 90 ==> r == b,
{
    if 65 <= b && b <= 90 {
        b + 32
    } else {
        b
    }
}

/// Appends the octets of `tail` to `out`.
pub fn append_octets(out: &mut Vec<u8>, tail: &[u8])
    ensures
        final(out)@ == old(out)@ + tail@,
{
    let mut i: usize = 0;
    while i < tail.len()
        invariant
            i <= tail@.len(),
            out@ == old(out)@ + tail@.take(i as int),
        decreases tail@.len() - i,
    {
        out.push(tail[i]);
        proof {
            assert(tail@.take(i + 1) == tail@.take(i as int).push(tail@[i as int]));
        }
        i = i + 1;
    }
    proof {
        assert(tail@.take(tail@.len() as int) == tail@);
    }
}

/// Appends the octets of `tail` to `out` in small letters.
pub fn append_lowercased(out: &mut Vec<u8>, tail: &[u8])
    ensures
        final(out)@ == old(out)@ + lowercased(tail@),
        final(out)@.len() == old(out)@.len() + tail@.len(),
        forall|i: int| 0 <= i < old(out)@.len() ==> final(out)@[i] == old(out)@[i],
        forall|i: int|
            0 <= i < tail@.len() ==> final(out)@[old(out)@.len() + i] == if 65 <= (#[trigger] tail@[i])
                <= 90 {
                (tail@[i] + 32) as u8
            } else {
                tail@[i]
            },
{
    let mut i: usize = 0;
    while i < tail.len()
        invariant
            i <= tail@.len(),
            out@ == old(out)@ + lowercased(tail@.take(i as int)),
        decreases tail@.len() - i,
    {
        out.push(to_lower(tail[i]));
        proof {
            assert(lowercased(tail@.take(i + 1)) == lowercased(tail@.take(i as int)).push(
                lower(tail@[i as int]),
            ));
        }
        i = i + 1;
    }
    proof {
        assert(tail@.take(tail@.len() as int) == tail@);
    }
}

/// A number read back from its own two octets.
pub proof fn lemma_be16_read(x: int, s: Seq<u8>, i: int)
    requires
        0 <= x < 65536,
        0 <= i,
        i + 2 <= s.len(),
        s.subrange(i, i + 2) == be16(x),
    ensures
        word_at(s, i) == x,
{
    assert(s[i] == s.subrange(i, i + 2)[0]);
    assert(s[i + 1] == s.subrange(i, i + 2)[1]);
}

/// The words of a sequence of even length, and of what follows it, add up.
proof fn lemma_word_sum_concat(s: Seq<u8>, t: Seq<u8>)
    requires
        s.len() % 2 == 0,
    ensures
        word_sum(s + t) == word_sum(s) + word_sum(t),
    decreases s.len(),
{
    if s.len() == 0 {
        assert(s + t =~= t);
    } else {
        assert((s + t).skip(2) =~= s.skip(2) + t);
        lemma_word_sum_concat(s.skip(2), t);
    }
}

proof fn lemma_word_sum_filled(head: Seq<u8>, checksum: int, tail: Seq<u8>)
    requires
        head.len() % 2 == 0,
        0 <= checksum <= 0xffff,
    ensures
        word_sum(head + be16(checksum) + tail) == word_sum(head) + checksum + word_sum(tail),
{
    lemma_word_sum_concat(head + be16(checksum), tail);
    lemma_word_sum_concat(head, be16(checksum));
    assert(be16(checksum).skip(2).len() == 0);
    assert(word_sum(be16(checksum).skip(2)) == 0);
    assert(word_sum(be16(checksum)) == checksum);
}

/// Octets that carry their own checksum, or all ones in place of zero, sum up to
/// the checksum zero: the receiver finds them intact.
pub proof fn law_checksum_verifies(head: Seq<u8>, checksum: int, tail: Seq<u8>)
    requires
        head.len() % 2 == 0,
        checksum == internet_checksum(head + be16(0) + tail) || checksum == udp_checksum(
            head + be16(0) + tail,
        ),
    ensures
        internet_checksum(head + be16(checksum) + tail) == 0,
{
    lemma_word_sum_filled(head, 0, tail);
    lemma_word_sum_filled(head, checksum, tail);
    let sum = word_sum(head) + word_sum(tail);
    let total = sum + checksum;
    assert(word_sum(head + be16(checksum) + tail) == total);
    if sum > 0 {
        vstd::arithmetic::div_mod::lemma_fundamental_div_mod(sum - 1, 0xffff);
        let q = (sum - 1) / 0xffff;
        let k = if checksum == internet_checksum(head + be16(0) + tail) {
            q
        } else {
            q + 1
        };
        assert(total - 1 == k * 0xffff + 0xfffe) by (nonlinear_arith)
            requires
                sum - 1 == 0xffff * q + (sum - 1) % 0xffff,
                total == sum + checksum,
                k == q && checksum == 0xfffe - (sum - 1) % 0xffff || k == q + 1 && checksum
                    == 0xffff && (sum - 1) % 0xffff == 0xfffe,
        ;
        vstd::arithmetic::div_mod::lemma_fundamental_div_mod_converse(total - 1, 0xffff, k, 0xfffe);
    }
}

/// Whether two octets are the same but for the case of an ASCII letter.
pub open spec fn same_letter(a: u8, b: u8) -> bool {
    a == b || (65 <= a <= 90 && b == a + 32) || (65 <= b <= 90 && a == b + 32)
}

/// Folding touches capital ASCII letters only, and identifies an octet with no
/// other but the other case of the same letter.
pub proof fn law_folding_joins_letter_cases_only(a: u8, b: u8)
    ensures
        65 <= a <= 90 ==> lower(a) == a + 32,
        a < 65 || a > 90 ==> lower(a) == a,
        lower(a) == lower(b) <==> a == b || (65 <= a <= 90 && b == a + 32) || (65 <= b <= 90 && a
            == b + 32),
        same_letter(a, b) <==> a == b || (65 <= a <= 90 && b == a + 32) || (65 <= b <= 90 && a == b
            + 32),
{
}

/// Octet strings fold octet by octet, and fold to the same only where they are
/// the same but for the case of ASCII letters.
pub proof fn law_folding_of_strings(s: Seq<u8>, t: Seq<u8>)
    ensures
        lowercased(s).len() == s.len(),
        forall|i: int|
            0 <= i < s.len() ==> #[trigger] lowercased(s)[i] == if 65 <= s[i] <= 90 {
                (s[i] + 32) as u8
            } else {
                s[i]
            },
        lowercased(s) == lowercased(t) <==> s.len() == t.len() && (forall|i: int|
            0 <= i < s.len() ==> (#[trigger] s[i] == t[i] || (65 <= s[i] <= 90 && t[i] == s[i] + 32)
                || (65 <= t[i] <= 90 && s[i] == t[i] + 32))),
{
    if lowercased(s) == lowercased(t) {
        assert forall|i: int| 0 <= i < s.len() implies (#[trigger] s[i] == t[i] || (65 <= s[i] <= 90
            && t[i] == s[i] + 32) || (65 <= t[i] <= 90 && s[i] == t[i] + 32)) by {
            assert(lowercased(s)[i] == lowercased(t)[i]);
        }
    }
    if s.len() == t.len() && (forall|i: int|
        0 <= i < s.len() ==> (#[trigger] s[i] == t[i] || (65 <= s[i] <= 90 && t[i] == s[i] + 32) || (
        65 <= t[i] <= 90 && s[i] == t[i] + 32))) {
        assert forall|i: int| 0 <= i < s.len() implies lowercased(s)[i] == lowercased(t)[i] by {
            assert(s[i] == t[i] || (65 <= s[i] <= 90 && t[i] == s[i] + 32) || (65 <= t[i] <= 90
                && s[i] == t[i] + 32));
        }
        assert(lowercased(s) =~= lowercased(t));
    }
}

/// Numbers are written with the most significant octet first, and are read back
/// the same way.
pub proof fn law_numbers_in_network_order(x: int, y: int, s: Seq<u8>, i: int)
    requires
        0 <= x < 0x1_0000,
        0 <= y < 0x1_0000_0000,
    ensures
        be16(x).len() == 2,
        be16(x)[0] * 256 + be16(x)[1] == x,
        be32(y).len() == 4,
        ((be32(y)[0] * 256 + be32(y)[1]) * 256 + be32(y)[2]) * 256 + be32(y)[3] == y,
        word_at(s, i) == s[i] * 256 + s[i + 1],
        long_at(s, i) == ((s[i] * 256 + s[i + 1]) * 256 + s[i + 2]) * 256 + s[i + 3],
{
}

/// The octet strings of a list are those of its members, in order.
pub proof fn law_octet_strings(v: Seq<Vec<u8>>)
    ensures
        octet_strings(v).len() == v.len(),
        forall|i: int| 0 <= i < v.len() ==> #[trigger] octet_strings(v)[i] == v[i]@,
{
}

/// The sum that checksums are taken over: each pair of octets counts as a number,
/// a last single octet as the high half of one.
pub proof fn law_word_sum(a: u8, b: u8, s: Seq<u8>)
    ensures
        word_sum(Seq::empty()) == 0,
        word_sum(seq![a]) == a * 256,
        word_sum(seq![a, b] + s) == a * 256 + b + word_sum(s),
{
    assert((seq![a, b] + s).skip(2) =~= s);
}

/// A checksum fills the sum of what it is taken over up to a multiple of 65535. It
/// is all ones exactly where there is nothing to sum, and UDP carries all ones in
/// place of zero.
pub proof fn law_checksum_fills_the_sum(s: Seq<u8>)
    ensures
        0 <= internet_checksum(s) <= 0xffff,
        (word_sum(s) + internet_checksum(s)) % 0xffff == 0,
        internet_checksum(s) == 0xffff <==> word_sum(s) == 0,
        udp_checksum(s) == 0xffff <==> internet_checksum(s) == 0 || internet_checksum(s) == 0xffff,
        internet_checksum(s) != 0 ==> udp_checksum(s) == internet_checksum(s),
{
    let sum = word_sum(s) as int;
    if sum > 0 {
        vstd::arithmetic::div_mod::lemma_fundamental_div_mod(sum - 1, 0xffff);
        let q = (sum - 1) / 0xffff;
        assert(sum + internet_checksum(s) == (q + 1) * 0xffff) by (nonlinear_arith)
            requires
                sum - 1 == 0xffff * q + (sum - 1) % 0xffff,
                internet_checksum(s) == 0xfffe - (sum - 1) % 0xffff,
        ;
        vstd::arithmetic::div_mod::lemma_mod_multiples_basic(q + 1, 0xffff);
    }
}

} // verus!
