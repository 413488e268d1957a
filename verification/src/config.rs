//! Scan configuration: the scan technique with its TCP control bits, and
//! the immutable record describing one scan.

use vstd::prelude::*;
use vstd::string::StrSliceExecFns;

verus! {

/// TCP control bits, one constant per flag the scanner reads or writes.
pub const FLAG_FIN: u8 = 0x01;

pub const FLAG_SYN: u8 = 0x02;

pub const FLAG_RST: u8 = 0x04;

pub const FLAG_PSH: u8 = 0x08;

pub const FLAG_ACK: u8 = 0x10;

pub const FLAG_URG: u8 = 0x20;

/// Control bits of a probe under the Xmas technique. The three flags sit
/// in distinct bits, so their sum equals their bitwise union.
pub const XMAS_FLAGS: u8 = FLAG_FIN + FLAG_URG + FLAG_PSH;

/// Control bits of a reply that confirms an open port under a Syn scan:
/// SYN and ACK, in distinct bits.
pub const SYN_ACK_FLAGS: u8 = FLAG_SYN + FLAG_ACK;

/// The four probe styles. Each determines the control bits of every
/// outgoing probe and the rule for classifying replies.
#[derive(Copy, Clone, Debug, PartialEq, Eq, Structural)]
pub enum ScanTechnique {
    Syn,
    Fin,
    Xmas,
    Null,
}

/// The control bits every probe built under technique `t` carries:
/// Syn sets SYN only, Fin sets FIN only, Xmas sets FIN, URG and PSH,
/// and Null sets no bits at all.
pub open spec fn flags_of(t: ScanTechnique) -> u8 {
    match t {
        ScanTechnique::Syn => FLAG_SYN,
        ScanTechnique::Fin => FLAG_FIN,
        ScanTechnique::Xmas => XMAS_FLAGS,
        ScanTechnique::Null => 0u8,
    }
}

/// The technique selected by a command-line token: "sS", "sF", "sX" and
/// "sN" select Syn, Fin, Xmas and Null; every other token is rejected.
pub open spec fn technique_for_token(t: Seq<char>) -> Option<ScanTechnique> {
    if t == seq!['s', 'S'] {
        Some(ScanTechnique::Syn)
    } else if t == seq!['s', 'F'] {
        Some(ScanTechnique::Fin)
    } else if t == seq!['s', 'X'] {
        Some(ScanTechnique::Xmas)
    } else if t == seq!['s', 'N'] {
        Some(ScanTechnique::Null)
    } else {
        None
    }
}

impl ScanTechnique {
    /// The TCP control bits of every probe built under this technique.
    pub fn flags(self) -> (r: u8)
        ensures
            r == flags_of(self),
    {
        match self {
            ScanTechnique::Syn => FLAG_SYN,
            ScanTechnique::Fin => FLAG_FIN,
            ScanTechnique::Xmas => XMAS_FLAGS,
            ScanTechnique::Null => 0u8,
        }
    }

    /// Maps a selector token to its technique, rejecting unknown tokens.
    pub fn from_token(token: &str) -> (r: Option<ScanTechnique>)
        ensures
            r == technique_for_token(token@),
    {
        if token.unicode_len() != 2 {
            return None;
        }
        let c0 = token.get_char(0);
        let c1 = token.get_char(1);
        if c0 != 's' {
            return None;
        }
        if c1 == 'S' {
            proof {
                assert(token@ =~= seq!['s', 'S']);
            }
            Some(ScanTechnique::Syn)
        } else if c1 == 'F' {
            proof {
                assert(token@ =~= seq!['s', 'F']);
            }
            Some(ScanTechnique::Fin)
        } else if c1 == 'X' {
            proof {
                assert(token@ =~= seq!['s', 'X']);
            }
            Some(ScanTechnique::Xmas)
        } else if c1 == 'N' {
            proof {
                assert(token@ =~= seq!['s', 'N']);
            }
            Some(ScanTechnique::Null)
        } else {
            None
        }
    }
}

/// Immutable description of one scan. `src_port` is both the TCP source
/// port of every probe and the key for filtering inbound replies;
/// `max_port` is the highest destination port probed. Addresses are IPv4,
/// in network byte order.
#[derive(Copy, Clone, Debug)]
pub struct ScanConfig {
    pub src_addr: [u8; 4],
    pub dst_addr: [u8; 4],
    pub src_port: u16,
    pub max_port: u16,
    pub technique: ScanTechnique,
}

impl ScanConfig {
    /// A scan probes at least one port.
    pub open spec fn wf(self) -> bool {
        1 <= self.max_port
    }
}

} // verus!
