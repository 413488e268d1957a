//! The sending half of a scan: one probe per candidate port, ports
//! ascending from 1 to the configured maximum, each readied by rewriting
//! the shared template in place. Transmission and the fixed inter-send
//! pacing belong to the surrounding program.

use vstd::prelude::*;
use crate::config::ScanConfig;
use crate::probe::{build_probe, is_probe, probe_bytes, reregister_destination_port};

verus! {

/// The sender's state: the scan it serves, the reusable probe buffer,
/// and the next candidate port.
pub struct Sender {
    pub config: ScanConfig,
    pub packet: Vec<u8>,
    pub next_port: u32,
}

impl Sender {
    /// The buffer always holds a probe of this scan, and the cursor
    /// stays within one past the probed range.
    pub open spec fn wf(self) -> bool {
        &&& is_probe(self.packet@, self.config)
        &&& 1 <= self.next_port <= self.config.max_port + 1
    }

    /// A sender about to probe port 1, holding the freshly built
    /// template.
    pub fn new(config: ScanConfig) -> (r: Sender)
        ensures
            r.wf(),
            r.config == config,
            r.next_port == 1,
    {
        let packet = build_probe(&config);
        Sender { config, packet, next_port: 1 }
    }

    /// Readies the next probe: rewrites the buffer's destination to the
    /// next candidate port, recomputing the checksum, and returns that
    /// port; `None` once every port up to `max_port` has been readied.
    pub fn advance(&mut self) -> (r: Option<u16>)
        requires
            old(self).wf(),
        ensures
            final(self).wf(),
            final(self).config == old(self).config,
            match r {
                Some(p) => {
                    &&& p == old(self).next_port
                    &&& p <= old(self).config.max_port
                    &&& final(self).next_port == old(self).next_port + 1
                    &&& final(self).packet@ == probe_bytes(old(self).config, p)
                },
                None => {
                    &&& old(self).next_port > old(self).config.max_port
                    &&& *final(self) == *old(self)
                },
            },
    {
        if self.next_port > self.config.max_port as u32 {
            return None;
        }
        let p = self.next_port as u16;
        reregister_destination_port(&mut self.packet, p, &self.config);
        self.next_port = self.next_port + 1;
        Some(p)
    }

    /// The bytes to transmit for the port `advance` just returned.
    pub fn packet_bytes(&self) -> (r: &Vec<u8>)
        ensures
            r@ == self.packet@,
    {
        &self.packet
    }
}

} // verus!
