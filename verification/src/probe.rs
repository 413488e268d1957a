//! Probe construction: a 20-byte TCP header with no options, flags drawn
//! from the scan technique, and an Internet checksum over the IPv4
//! pseudo-header and the header itself. One template is built per scan;
//! its destination port and checksum are rewritten in place per port.

use vstd::prelude::*;
use vstd::arithmetic::div_mod::{
    lemma_div_is_ordered, lemma_fundamental_div_mod, lemma_mod_bound, lemma_mod_multiples_vanish,
    lemma_small_mod,
};
use crate::checksum::{
    checksum16, checksum_ok, fold_carries, internet_checksum, lemma_fold_carries_mod,
    lemma_word_sum_from_bounds, lemma_word_sum_from_update, word_sum,
};
use crate::config::{flags_of, ScanConfig};

verus! {

/// Length of a TCP header without options, in bytes.
pub const TCP_HEADER_LEN: usize = 20;

/// The IP protocol number of TCP, as the pseudo-header carries it.
pub const PROTO_TCP: u8 = 6;

/// The 12-byte IPv4 pseudo-header for a 20-byte TCP segment: source
/// address, destination address, a reserved zero byte, the TCP protocol
/// number, and the segment length.
pub open spec fn pseudo_header(src: Seq<u8>, dst: Seq<u8>) -> Seq<u8> {
    src + dst + seq![0u8, PROTO_TCP, 0u8, 20u8]
}

/// The pseudo-header shared by every probe of a scan: it depends only on
/// the two addresses, never on the destination port.
pub open spec fn config_pseudo_header(cfg: ScanConfig) -> Seq<u8> {
    pseudo_header(cfg.src_addr@, cfg.dst_addr@)
}

/// The 20-byte header before its checksum is filled in: source port and
/// destination port `p` big-endian, data offset 5 words, the technique's
/// control bits, and zeroes elsewhere (sequence and acknowledgment
/// numbers, window, checksum, urgent pointer).
pub open spec fn probe_unchecksummed(cfg: ScanConfig, p: u16) -> Seq<u8> {
    seq![
        (cfg.src_port / 0x100) as u8,
        (cfg.src_port % 0x100) as u8,
        (p / 0x100) as u8,
        (p % 0x100) as u8,
        0u8,
        0u8,
        0u8,
        0u8,
        0u8,
        0u8,
        0u8,
        0u8,
        0x50u8,
        flags_of(cfg.technique),
        0u8,
        0u8,
        0u8,
        0u8,
        0u8,
        0u8,
    ]
}

/// The checksum a probe to port `p` carries: computed over the
/// pseudo-header and the header with its checksum field still zero.
pub open spec fn probe_checksum(cfg: ScanConfig, p: u16) -> int {
    checksum16(config_pseudo_header(cfg) + probe_unchecksummed(cfg, p))
}

/// The finished probe to port `p`: the header with its checksum written
/// big-endian into bytes 16 and 17.
pub open spec fn probe_bytes(cfg: ScanConfig, p: u16) -> Seq<u8> {
    probe_unchecksummed(cfg, p).update(16, (probe_checksum(cfg, p) / 0x100) as u8).update(
        17,
        (probe_checksum(cfg, p) % 0x100) as u8,
    )
}

/// A buffer holding some probe of this scan: the template, or the
/// template after any number of destination rewrites.
pub open spec fn is_probe(s: Seq<u8>, cfg: ScanConfig) -> bool {
    exists|q: u16| s == probe_bytes(cfg, q)
}

/// Writes `v` big-endian into `buf` at `idx` and `idx + 1`.
fn set_u16_at(buf: &mut Vec<u8>, idx: usize, v: u16)
    requires
        idx + 1 < old(buf)@.len(),
    ensures
        final(buf)@ == old(buf)@.update(idx as int, (v / 0x100) as u8).update(
            idx + 1,
            (v % 0x100) as u8,
        ),
{
    proof {
        lemma_div_is_ordered(v as int, 0xffff, 0x100);
        lemma_mod_bound(v as int, 0x100);
    }
    let len = buf.len();
    assert(idx + 1 < len);
    buf[idx] = (v / 0x100) as u8;
    buf[idx + 1] = (v % 0x100) as u8;
}

/// Concatenates the scan's pseudo-header with a 20-byte header, in the
/// order the checksum is defined over.
fn checksum_input(cfg: &ScanConfig, header: &Vec<u8>) -> (r: Vec<u8>)
    requires
        header@.len() == TCP_HEADER_LEN,
    ensures
        r@ == config_pseudo_header(*cfg) + header@,
{
    let mut buf: Vec<u8> = Vec::new();
    buf.push(cfg.src_addr[0]);
    buf.push(cfg.src_addr[1]);
    buf.push(cfg.src_addr[2]);
    buf.push(cfg.src_addr[3]);
    buf.push(cfg.dst_addr[0]);
    buf.push(cfg.dst_addr[1]);
    buf.push(cfg.dst_addr[2]);
    buf.push(cfg.dst_addr[3]);
    buf.push(0);
    buf.push(PROTO_TCP);
    buf.push(0);
    buf.push(20);
    proof {
        assert(buf@ =~= config_pseudo_header(*cfg));
    }
    let mut i: usize = 0;
    while i < TCP_HEADER_LEN
        invariant
            i <= TCP_HEADER_LEN,
            header@.len() == TCP_HEADER_LEN,
            buf@ == config_pseudo_header(*cfg) + header@.take(i as int),
        decreases TCP_HEADER_LEN - i,
    {
        buf.push(header[i]);
        proof {
            assert(header@.take(i + 1) =~= header@.take(i as int).push(header@[i as int]));
            assert(buf@ =~= config_pseudo_header(*cfg) + header@.take(i + 1));
        }
        i = i + 1;
    }
    proof {
        assert(header@.take(TCP_HEADER_LEN as int) =~= header@);
    }
    buf
}

/// Builds the probe template for `cfg`: destination port zero, a
/// placeholder that is rewritten before the first send.
pub fn build_probe(cfg: &ScanConfig) -> (r: Vec<u8>)
    ensures
        r@ == probe_bytes(*cfg, 0),
        is_probe(r@, *cfg),
{
    let mut hdr: Vec<u8> = Vec::new();
    let mut k: usize = 0;
    while k < TCP_HEADER_LEN
        invariant
            hdr@.len() == k,
            k <= TCP_HEADER_LEN,
            forall|j: int| 0 <= j < k ==> hdr@[j] == 0u8,
        decreases TCP_HEADER_LEN - k,
    {
        hdr.push(0);
        k = k + 1;
    }
    set_u16_at(&mut hdr, 0, cfg.src_port);
    hdr[12] = 0x50;
    hdr[13] = cfg.technique.flags();
    proof {
        lemma_mod_bound(cfg.src_port as int, 0x100);
        assert(hdr@ =~= probe_unchecksummed(*cfg, 0));
    }
    let input = checksum_input(cfg, &hdr);
    let ck = internet_checksum(&input);
    set_u16_at(&mut hdr, 16, ck);
    proof {
        assert(hdr@ =~= probe_bytes(*cfg, 0));
        assert(hdr@ == probe_bytes(*cfg, 0u16));
    }
    hdr
}

/// Rewrites the destination port of an existing probe and recomputes its
/// checksum over the same pseudo-header; the other sixteen bytes keep
/// the template's values.
pub fn reregister_destination_port(probe: &mut Vec<u8>, port: u16, cfg: &ScanConfig)
    requires
        is_probe(old(probe)@, *cfg),
    ensures
        final(probe)@ == probe_bytes(*cfg, port),
        is_probe(final(probe)@, *cfg),
{
    proof {
        let q = choose|q: u16| old(probe)@ == probe_bytes(*cfg, q);
        assert(old(probe)@.len() == 20);
    }
    set_u16_at(probe, 2, port);
    set_u16_at(probe, 16, 0);
    proof {
        assert(probe@ =~= probe_unchecksummed(*cfg, port));
    }
    let input = checksum_input(cfg, probe);
    let ck = internet_checksum(&input);
    set_u16_at(probe, 16, ck);
    proof {
        assert(probe@ =~= probe_bytes(*cfg, port));
    }
}

/// Receiver-side checksum test: sums the pseudo-header and the candidate
/// header with its checksum in place, and accepts when the folded sum is
/// all ones.
pub fn verify_probe_checksum(cfg: &ScanConfig, header: &Vec<u8>) -> (r: bool)
    requires
        header@.len() == TCP_HEADER_LEN,
    ensures
        r == checksum_ok(config_pseudo_header(*cfg) + header@),
{
    let input = checksum_input(cfg, header);
    proof {
        lemma_word_sum_from_bounds(input@, 0);
        lemma_fold_carries_mod(word_sum(input@));
    }
    let ck = internet_checksum(&input);
    ck == 0
}

/// Flag-mapping law: every probe built under a technique carries exactly
/// that technique's control bits in its flags byte, whatever the
/// destination port, and nothing rewrites them afterwards.
pub proof fn lemma_probe_flags(cfg: ScanConfig, p: u16)
    ensures
        probe_bytes(cfg, p).len() == 20,
        probe_bytes(cfg, p)[13] == flags_of(cfg.technique),
{
}

/// Checksum law, sound half: the checksum the builder and the mutator
/// write is the one the pseudo-header algorithm yields, so the finished
/// probe passes the receiver-side test.
pub proof fn lemma_probe_checksum_verifies(cfg: ScanConfig, p: u16)
    ensures
        checksum_ok(config_pseudo_header(cfg) + probe_bytes(cfg, p)),
{
    let pre = config_pseudo_header(cfg);
    let u = probe_unchecksummed(cfg, p);
    let full0 = pre + u;
    let s = word_sum(full0);
    lemma_word_sum_from_bounds(full0, 0);
    lemma_fold_carries_mod(s);
    let f = fold_carries(s);
    let c = probe_checksum(cfg, p);
    assert(c == 0xffff - f);
    lemma_fundamental_div_mod(c, 0x100);
    lemma_mod_bound(c, 0x100);
    lemma_div_is_ordered(c, 0xffff, 0x100);
    let hi = (c / 0x100) as u8;
    let lo = (c % 0x100) as u8;
    assert(hi == c / 0x100 && lo == c % 0x100);
    assert(hi * 0x100 + lo == c);
    let full1 = pre + probe_bytes(cfg, p);
    assert(full1 =~= full0.update(28, hi).update(29, lo));
    lemma_word_sum_from_update(full0, 0, 28, hi);
    lemma_word_sum_from_update(full0.update(28, hi), 0, 29, lo);
    assert(full0[28] == 0 && full0.update(28, hi)[29] == 0);
    assert(word_sum(full1) == s + c);
    // s + c is a multiple of 0xffff, and positive, so it folds to 0xffff.
    lemma_fundamental_div_mod(s, 0xffff);
    if f == 0xffff {
        assert(s % 0xffff == 0xffffint % 0xffff);
        lemma_mod_multiples_vanish(1, 0, 0xffff);
        lemma_small_mod(0, 0xffff);
        assert(s % 0xffff == 0);
        assert(c == 0);
        assert(s + c == 0xffff * (s / 0xffff));
        lemma_mod_multiples_vanish(s / 0xffff, 0, 0xffff);
        assert((s + c) % 0xffff == 0);
    } else {
        lemma_small_mod(f as nat, 0xffff);
        assert(f % 0xffff == f);
        assert(s % 0xffff == f);
        assert(s + c == 0xffff * (s / 0xffff) + f + 0xffff - f);
        assert(s + c == 0xffff * (s / 0xffff + 1)) by (nonlinear_arith)
            requires
                s + c == 0xffff * (s / 0xffff) + 0xffff,
        ;
        lemma_mod_multiples_vanish(s / 0xffff + 1, 0, 0xffff);
        lemma_small_mod(0, 0xffff);
        assert((s + c) % 0xffff == 0);
    }
    lemma_fold_carries_mod(s + c);
    assert(s + c > 0);
    let g = fold_carries(s + c);
    assert(1 <= g <= 0xffff && g % 0xffff == 0);
    if g < 0xffff {
        lemma_small_mod(g as nat, 0xffff);
        assert(false);
    }
}

/// Checksum law, detecting half: corrupting any single byte of a
/// finished probe makes the receiver-side test fail, because the folded
/// sum moves off the all-ones residue class.
pub proof fn lemma_corrupted_probe_fails(cfg: ScanConfig, p: u16, j: int, b: u8)
    requires
        0 <= j < 20,
        b != probe_bytes(cfg, p)[j],
    ensures
        !checksum_ok(config_pseudo_header(cfg) + probe_bytes(cfg, p).update(j, b)),
{
    let pre = config_pseudo_header(cfg);
    let full = pre + probe_bytes(cfg, p);
    let bad = pre + probe_bytes(cfg, p).update(j, b);
    assert(bad =~= full.update(12 + j, b));
    lemma_probe_checksum_verifies(cfg, p);
    let s = word_sum(full);
    lemma_word_sum_from_bounds(full, 0);
    lemma_fold_carries_mod(s);
    // the valid sum is a multiple of 0xffff
    lemma_mod_multiples_vanish(1, 0, 0xffff);
    lemma_small_mod(0, 0xffff);
    assert(s % 0xffff == 0xffffint % 0xffff);
    assert(s % 0xffff == 0);
    // corruption moves the sum by a nonzero amount too small to wrap
    lemma_word_sum_from_update(full, 0, 12 + j, b);
    lemma_mod_multiples_vanish(6, j, 2);
    assert((12 + j) % 2 == j % 2);
    let a = full[12 + j];
    assert(a == probe_bytes(cfg, p)[j]);
    let w: int = if j % 2 == 0 { 0x100 } else { 1 };
    let delta = (b - a) * w;
    assert(word_sum(bad) == s + delta);
    assert(delta != 0 && -0xff00 <= delta <= 0xff00);
    let s2 = word_sum(bad);
    lemma_word_sum_from_bounds(bad, 0);
    lemma_fundamental_div_mod(s, 0xffff);
    assert(s2 == 0xffff * (s / 0xffff) + delta);
    lemma_mod_multiples_vanish(s / 0xffff, delta, 0xffff);
    assert(s2 % 0xffff == delta % 0xffff);
    if delta > 0 {
        lemma_small_mod(delta as nat, 0xffff);
        assert(delta % 0xffff == delta);
    } else {
        lemma_mod_multiples_vanish(1, delta, 0xffff);
        lemma_small_mod((0xffff + delta) as nat, 0xffff);
        assert(delta % 0xffff == 0xffff + delta);
    }
    assert(s2 % 0xffff != 0);
    lemma_fold_carries_mod(s2);
    if fold_carries(s2) == 0xffff {
        assert(fold_carries(s2) % 0xffff == 0);
        assert(false);
    }
}

} // verus!
