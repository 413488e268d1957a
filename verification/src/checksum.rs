//! The Internet checksum: the 16-bit one's-complement sum of the
//! big-endian 16-bit words of a byte string, carries folded back in and
//! the result complemented. Every probe carries this checksum, computed
//! over an IPv4 pseudo-header followed by the TCP header.

use vstd::prelude::*;
use vstd::arithmetic::div_mod::{
    lemma_div_is_ordered, lemma_fundamental_div_mod, lemma_mod_bound, lemma_mod_multiples_vanish,
};

verus! {

/// Sum of the big-endian 16-bit words of `s` from index `i` on. An odd
/// trailing byte is padded with a zero low byte, per the checksum rule.
pub open spec fn word_sum_from(s: Seq<u8>, i: int) -> int
    decreases s.len() - i,
{
    if i < 0 || i >= s.len() {
        0
    } else if i + 1 == s.len() {
        s[i] * 0x100
    } else {
        s[i] * 0x100 + s[i + 1] + word_sum_from(s, i + 2)
    }
}

/// Sum of all big-endian 16-bit words of `s`.
pub open spec fn word_sum(s: Seq<u8>) -> int {
    word_sum_from(s, 0)
}

/// One's-complement folding: carries above the low 16 bits are added
/// back in until the value fits in 16 bits.
pub open spec fn fold_carries(n: int) -> int
    decreases n,
        via fold_carries_decreases
{
    if n < 0x10000 {
        n
    } else {
        fold_carries(n % 0x10000 + n / 0x10000)
    }
}

#[via_fn]
proof fn fold_carries_decreases(n: int) {
    if n >= 0x10000 {
        lemma_fundamental_div_mod(n, 0x10000);
        lemma_div_is_ordered(0x10000, n, 0x10000);
        lemma_mod_bound(n, 0x10000);
        let q = n / 0x10000;
        assert(0xffff * q >= 0xffff) by (nonlinear_arith)
            requires
                q >= 1,
        ;
    }
}

/// The checksum of `s`: the folded word sum, complemented.
pub open spec fn checksum16(s: Seq<u8>) -> int {
    0xffff - fold_carries(word_sum(s))
}

/// A byte string whose embedded checksum is right folds to all ones;
/// this is the receiver-side validity test.
pub open spec fn checksum_ok(s: Seq<u8>) -> bool {
    fold_carries(word_sum(s)) == 0xffff
}

/// The word sum is non-negative and at most 0xffff per byte summed.
pub proof fn lemma_word_sum_from_bounds(s: Seq<u8>, i: int)
    requires
        0 <= i <= s.len(),
    ensures
        0 <= word_sum_from(s, i) <= (s.len() - i) * 0xffff,
    decreases s.len() - i,
{
    if i >= s.len() {
    } else if i + 1 == s.len() {
    } else {
        lemma_word_sum_from_bounds(s, i + 2);
    }
}

/// The word sum from `i` reads nothing below `i`: two strings that agree
/// from `i` on have the same word sum from `i`.
pub proof fn lemma_word_sum_from_agree(s1: Seq<u8>, s2: Seq<u8>, i: int)
    requires
        s1.len() == s2.len(),
        forall|k: int| i <= k < s1.len() ==> s1[k] == s2[k],
    ensures
        word_sum_from(s1, i) == word_sum_from(s2, i),
    decreases s1.len() - i,
{
    if 0 <= i && i < s1.len() && i + 1 != s1.len() {
        lemma_word_sum_from_agree(s1, s2, i + 2);
    }
}

/// Overwriting the byte at `j` moves the word sum by the difference of
/// the bytes, weighted by the byte's place in its 16-bit word.
pub proof fn lemma_word_sum_from_update(s: Seq<u8>, i: int, j: int, b: u8)
    requires
        0 <= i <= j < s.len(),
    ensures
        word_sum_from(s.update(j, b), i) == word_sum_from(s, i) + (b - s[j]) * (
        if (j - i) % 2 == 0 {
            0x100int
        } else {
            1int
        }),
    decreases j - i,
{
    let s2 = s.update(j, b);
    if j == i {
        if i + 1 == s.len() {
        } else {
            lemma_word_sum_from_agree(s2, s, i + 2);
        }
    } else if j == i + 1 {
        lemma_word_sum_from_agree(s2, s, i + 2);
    } else {
        lemma_word_sum_from_update(s, i + 2, j, b);
        assert((j - i) % 2 == (j - (i + 2)) % 2) by {
            lemma_mod_multiples_vanish(-1, j - i, 2);
        };
    }
}

/// Folding keeps the value's residue modulo 0xffff, lands in
/// `0 ..= 0xffff`, and never folds a positive sum down to zero.
pub proof fn lemma_fold_carries_mod(n: int)
    requires
        0 <= n,
    ensures
        0 <= fold_carries(n) <= 0xffff,
        fold_carries(n) % 0xffff == n % 0xffff,
        n > 0 ==> 1 <= fold_carries(n),
    decreases n,
{
    if n < 0x10000 {
    } else {
        lemma_fundamental_div_mod(n, 0x10000);
        lemma_div_is_ordered(0x10000, n, 0x10000);
        lemma_mod_bound(n, 0x10000);
        let q = n / 0x10000;
        let r = n % 0x10000;
        let m = r + q;
        assert(0xffff * q >= 0xffff) by (nonlinear_arith)
            requires
                q >= 1,
        ;
        assert(n == 0xffff * q + m);
        lemma_mod_multiples_vanish(q, m, 0xffff);
        lemma_fold_carries_mod(m);
    }
}

/// Computes the Internet checksum of `data`: sums the big-endian 16-bit
/// words, folds the carries back in, and complements the result.
pub fn internet_checksum(data: &Vec<u8>) -> (r: u16)
    requires
        data@.len() <= 0x10000,
    ensures
        r == checksum16(data@),
{
    let ghost s = data@;
    let n: usize = data.len();
    let mut i: usize = 0;
    let mut sum: u64 = 0;
    proof {
        lemma_word_sum_from_bounds(s, 0);
    }
    while i + 1 < n
        invariant
            n == s.len(),
            s == data@,
            0 <= i <= n,
            sum + word_sum_from(s, i as int) == word_sum(s),
            0 <= word_sum(s) <= n * 0xffff,
            n <= 0x10000,
        decreases n - i,
    {
        proof {
            lemma_word_sum_from_bounds(s, i as int);
            lemma_word_sum_from_bounds(s, i + 2);
        }
        sum = sum + (data[i] as u64) * 0x100 + (data[i + 1] as u64);
        i = i + 2;
    }
    if i < n {
        proof {
            lemma_word_sum_from_bounds(s, i as int);
        }
        sum = sum + (data[i] as u64) * 0x100;
    }
    assert(sum == word_sum(s));
    while sum >= 0x10000
        invariant
            0 <= sum,
            fold_carries(sum as int) == fold_carries(word_sum(s)),
        decreases sum,
    {
        proof {
            lemma_fundamental_div_mod(sum as int, 0x10000);
            lemma_div_is_ordered(0x10000, sum as int, 0x10000);
            lemma_mod_bound(sum as int, 0x10000);
            let q = sum as int / 0x10000;
            assert(0xffff * q >= 0xffff) by (nonlinear_arith)
                requires
                    q >= 1,
            ;
        }
        sum = sum % 0x10000 + sum / 0x10000;
    }
    (0xffff - sum as u16) as u16
}

} // verus!
