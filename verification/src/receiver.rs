//! The receiving half of a scan: filters inbound TCP segments for the
//! scanner's source port, classifies accepted replies per technique, and
//! recognises completion when the highest probed port replies.

use vstd::prelude::*;
use crate::config::{ScanConfig, ScanTechnique, SYN_ACK_FLAGS};

verus! {

/// What the receiver reads off one inbound TCP segment: its destination
/// port, its source port (the target-side port that replied), and its
/// control bits.
#[derive(Copy, Clone, Debug, PartialEq, Eq, Structural)]
pub struct ReplySegment {
    pub dest_port: u16,
    pub src_port: u16,
    pub flags: u8,
}

/// A segment belongs to this scan when it is addressed to the scanner's
/// source port; all other traffic is discarded.
pub open spec fn accepts(cfg: ScanConfig, seg: ReplySegment) -> bool {
    seg.dest_port == cfg.src_port
}

/// The scan is complete when an accepted reply originates from the
/// highest probed port.
pub open spec fn is_terminating(cfg: ScanConfig, seg: ReplySegment) -> bool {
    accepts(cfg, seg) && seg.src_port == cfg.max_port
}

/// Under a Syn scan, an accepted reply with exactly SYN and ACK set
/// confirms that its origin port is open.
pub open spec fn syn_reports_open(cfg: ScanConfig, seg: ReplySegment) -> bool {
    accepts(cfg, seg) && cfg.technique == ScanTechnique::Syn && seg.flags == SYN_ACK_FLAGS
}

/// Under Fin, Xmas and Null scans every accepted reply, whatever its
/// flags, marks its origin port as having answered: closed ports answer
/// with RST, open ports stay silent.
pub open spec fn records_reply(cfg: ScanConfig, seg: ReplySegment) -> bool {
    accepts(cfg, seg) && cfg.technique != ScanTechnique::Syn
}

/// The ports among `1 ..= n - 1` that `replies` does not contain, in
/// ascending order.
pub open spec fn open_ports_below(replies: Seq<u16>, n: int) -> Seq<u16>
    decreases n,
{
    if n <= 1 {
        Seq::empty()
    } else if replies.contains((n - 1) as u16) {
        open_ports_below(replies, n - 1)
    } else {
        open_ports_below(replies, n - 1).push((n - 1) as u16)
    }
}

/// The ports among `1 ..= max_port` that never replied, ascending: what
/// Fin, Xmas and Null scans report open at completion.
pub open spec fn open_ports_of(replies: Seq<u16>, max_port: u16) -> Seq<u16> {
    open_ports_below(replies, max_port + 1)
}

/// Classification law for Fin, Xmas and Null: a port appears in the
/// final report exactly when it lies in the probed range and never
/// replied. With replies from every port but a silent subset, the report
/// is exactly that subset.
pub proof fn lemma_open_ports_membership(replies: Seq<u16>, n: int, p: u16)
    requires
        n <= 0x10000,
    ensures
        open_ports_below(replies, n).contains(p) <==> (1 <= p < n && !replies.contains(p)),
    decreases n,
{
    if n <= 1 {
    } else {
        lemma_open_ports_membership(replies, n - 1, p);
        let s0 = open_ports_below(replies, n - 1);
        if !replies.contains((n - 1) as u16) {
            let s1 = s0.push((n - 1) as u16);
            if s0.contains(p) {
                let i = choose|i: int| 0 <= i < s0.len() && s0[i] == p;
                assert(s1[i] == p);
            }
            if p == (n - 1) as u16 && !replies.contains(p) {
                assert(s1[s0.len() as int] == p);
            }
            if s1.contains(p) {
                let i = choose|i: int| 0 <= i < s1.len() && s1[i] == p;
                if i < s0.len() {
                    assert(s0[i] == p);
                }
            }
        }
    }
}

/// The open-port report is strictly ascending, so it names each open
/// port exactly once.
pub proof fn lemma_open_ports_sorted(replies: Seq<u16>, n: int)
    requires
        n <= 0x10000,
    ensures
        forall|i: int, j: int|
            0 <= i < j < open_ports_below(replies, n).len() ==> open_ports_below(replies, n)[i]
                < open_ports_below(replies, n)[j],
    decreases n,
{
    if n <= 1 {
    } else {
        lemma_open_ports_sorted(replies, n - 1);
        let s0 = open_ports_below(replies, n - 1);
        let s1 = open_ports_below(replies, n);
        if !replies.contains((n - 1) as u16) {
            assert forall|i: int, j: int| 0 <= i < j < s1.len() implies s1[i] < s1[j] by {
                if j == s0.len() {
                    lemma_open_ports_membership(replies, n - 1, s0[i]);
                    assert(s0.contains(s0[i]));
                }
            }
        }
    }
}

/// Linear scan for one port number.
fn contains_port(v: &Vec<u16>, x: u16) -> (r: bool)
    ensures
        r == v@.contains(x),
{
    let mut i: usize = 0;
    while i < v.len()
        invariant
            i <= v@.len(),
            forall|k: int| 0 <= k < i ==> v@[k] != x,
        decreases v@.len() - i,
    {
        if v[i] == x {
            assert(v@[i as int] == x);
            return true;
        }
        i = i + 1;
    }
    false
}

/// Computes the open-port report of a Fin, Xmas or Null scan: the ports
/// in `1 ..= max_port` missing from `replies`, in ascending order.
pub fn open_ports(replies: &Vec<u16>, max_port: u16) -> (r: Vec<u16>)
    ensures
        r@ == open_ports_of(replies@, max_port),
{
    let mut out: Vec<u16> = Vec::new();
    let mut p: u32 = 1;
    while p <= max_port as u32
        invariant
            1 <= p <= max_port + 1,
            out@ == open_ports_below(replies@, p as int),
        decreases max_port + 1 - p,
    {
        if !contains_port(replies, p as u16) {
            out.push(p as u16);
        }
        p = p + 1;
    }
    out
}

/// What one segment makes the receiver report: under Syn, the origin
/// port of a SYN+ACK reply; under the other techniques, the open-port
/// set once the reply that completes the scan arrives; otherwise
/// nothing.
pub open spec fn expected_reports(cfg: ScanConfig, replies: Seq<u16>, seg: ReplySegment) -> Seq<
    u16,
> {
    if syn_reports_open(cfg, seg) {
        seq![seg.src_port]
    } else if records_reply(cfg, seg) && is_terminating(cfg, seg) {
        open_ports_of(replies.push(seg.src_port), cfg.max_port)
    } else {
        Seq::empty()
    }
}

/// Classification law for Syn: an accepted reply carrying exactly SYN
/// and ACK is reported as its origin port, once per such reply; a reply
/// with any other flags, RST+ACK among them, is never reported.
pub proof fn lemma_syn_classification(cfg: ScanConfig, replies: Seq<u16>, seg: ReplySegment)
    requires
        cfg.technique == ScanTechnique::Syn,
        accepts(cfg, seg),
    ensures
        seg.flags == SYN_ACK_FLAGS ==> expected_reports(cfg, replies, seg) == seq![seg.src_port],
        seg.flags != SYN_ACK_FLAGS ==> expected_reports(cfg, replies, seg) == Seq::<u16>::empty(),
{
}

/// The receiver's state: the scan it serves, the origin ports that have
/// replied so far (used by Fin, Xmas and Null), and whether the
/// terminating reply has been seen.
pub struct Receiver {
    pub config: ScanConfig,
    pub reply_ports: Vec<u16>,
    pub done: bool,
}

impl Receiver {
    /// A receiver that has seen no replies yet.
    pub fn new(config: ScanConfig) -> (r: Receiver)
        ensures
            r.config == config,
            r.reply_ports@ == Seq::<u16>::empty(),
            !r.done,
    {
        Receiver { config, reply_ports: Vec::new(), done: false }
    }

    /// Handles one inbound segment: discards foreign traffic, classifies
    /// an accepted reply under the scan's technique, and flags
    /// completion when the highest probed port has answered. Returns the
    /// ports to report open, in reporting order.
    pub fn observe(&mut self, seg: ReplySegment) -> (reports: Vec<u16>)
        requires
            !old(self).done,
        ensures
            final(self).config == old(self).config,
            final(self).done == is_terminating(old(self).config, seg),
            final(self).reply_ports@ == if records_reply(old(self).config, seg) {
                old(self).reply_ports@.push(seg.src_port)
            } else {
                old(self).reply_ports@
            },
            reports@ == expected_reports(old(self).config, old(self).reply_ports@, seg),
    {
        if seg.dest_port != self.config.src_port {
            return Vec::new();
        }
        let mut reports: Vec<u16> = Vec::new();
        match self.config.technique {
            ScanTechnique::Syn => {
                if seg.flags == SYN_ACK_FLAGS {
                    reports.push(seg.src_port);
                    proof {
                        assert(reports@ =~= seq![seg.src_port]);
                    }
                }
            },
            ScanTechnique::Fin | ScanTechnique::Xmas | ScanTechnique::Null => {
                self.reply_ports.push(seg.src_port);
            },
        }
        if seg.src_port == self.config.max_port {
            self.done = true;
            match self.config.technique {
                ScanTechnique::Syn => {},
                ScanTechnique::Fin | ScanTechnique::Xmas | ScanTechnique::Null => {
                    reports = open_ports(&self.reply_ports, self.config.max_port);
                },
            }
        }
        reports
    }
}

/// The completion flag after a batch of inbound segments, each handled
/// in arrival order.
pub open spec fn done_after(cfg: ScanConfig, done0: bool, segs: Seq<ReplySegment>) -> bool
    decreases segs.len(),
{
    if segs.len() == 0 {
        done0
    } else {
        done_after(cfg, done0 || is_terminating(cfg, segs[0]), segs.skip(1))
    }
}

/// Termination law: after any batch of segments the receiver is done if
/// and only if it already was, or some segment of the batch is a reply
/// from the highest probed port addressed to the scanner. No other
/// segment ends the scan.
pub proof fn lemma_termination(cfg: ScanConfig, done0: bool, segs: Seq<ReplySegment>)
    ensures
        done_after(cfg, done0, segs) <==> (done0 || exists|i: int|
            0 <= i < segs.len() && is_terminating(cfg, #[trigger] segs[i])),
    decreases segs.len(),
{
    if segs.len() == 0 {
    } else {
        let rest = segs.skip(1);
        lemma_termination(cfg, done0 || is_terminating(cfg, segs[0]), rest);
        assert(forall|i: int| 0 <= i < rest.len() ==> #[trigger] rest[i] == segs[i + 1]);
        if exists|i: int| 0 <= i < rest.len() && is_terminating(cfg, #[trigger] rest[i]) {
            let i = choose|i: int| 0 <= i < rest.len() && is_terminating(cfg, #[trigger] rest[i]);
            assert(is_terminating(cfg, segs[i + 1]));
        }
        if exists|i: int| 0 <= i < segs.len() && is_terminating(cfg, #[trigger] segs[i]) {
            let i = choose|i: int|
                0 <= i < segs.len() && is_terminating(cfg, #[trigger] segs[i]);
            if i > 0 {
                assert(rest[i - 1] == segs[i]);
            }
        }
    }
}

} // verus!
