//! The handheld side of the statistics sync: the companion's address, the
//! request packet, and the reassembly of the chunked response.  The socket
//! calls themselves live outside; this module decides what to send and
//! what each received datagram contributes.

use vstd::prelude::*;

verus! {

use vstd::slice::slice_subrange;
use vstd::bytes::{spec_u16_from_le_bytes, u16_from_le_bytes};
use crate::codec::{spec_magic, spec_type_code, encode_stats_request, MessageType};

/// Where the desktop companion listens, as configured on the handheld.
pub struct NetworkManager {
    pub companion_ip: [u8; 4],
    pub companion_port: u16,
}

impl NetworkManager {
    /// A manager pointing at nobody, on the default port.
    pub fn new() -> (r: NetworkManager)
        ensures
            r.companion_ip@ =~= seq![0u8, 0u8, 0u8, 0u8],
            r.companion_port == 9276,
    {
        NetworkManager { companion_ip: [0, 0, 0, 0], companion_port: 9276 }
    }

    /// Points the manager at the companion's address.
    pub fn set_companion_ip(&mut self, ip: [u8; 4])
        ensures
            final(self).companion_ip == ip,
            final(self).companion_port == old(self).companion_port,
    {
        self.companion_ip = ip;
    }

    /// Points the manager at the companion's port.
    pub fn set_companion_port(&mut self, port: u16)
        ensures
            final(self).companion_port == port,
            final(self).companion_ip == old(self).companion_ip,
    {
        self.companion_port = port;
    }

    /// The statistics request packet to send: the header alone.
    pub fn build_stats_request(&self) -> (r: Vec<u8>)
        ensures
            r@ == spec_magic() + seq![spec_type_code(MessageType::StatsRequest)],
    {
        encode_stats_request()
    }
}

/// Whether a datagram carries a statistics-response header: the magic, the
/// response type byte, and at least the legacy leading fields.
pub open spec fn stats_header_ok(d: Seq<u8>) -> bool {
    d.len() >= 21 && d.take(4) == spec_magic() && d[4] == spec_type_code(MessageType::StatsResponse)
}

/// The declared data length of a response datagram.
pub open spec fn stats_data_len(d: Seq<u8>) -> int {
    spec_u16_from_le_bytes(d.subrange(19, 21)) as int
}

/// The declared chunk count of a response datagram.
pub open spec fn stats_total_chunks(d: Seq<u8>) -> u16 {
    spec_u16_from_le_bytes(d.subrange(17, 19))
}

/// Whether a response datagram carries all the data it declares.
pub open spec fn stats_data_ok(d: Seq<u8>) -> bool {
    stats_header_ok(d) && d.len() >= 21 + stats_data_len(d)
}

/// The statistics bytes a response datagram carries.
pub open spec fn stats_payload(d: Seq<u8>) -> Seq<u8> {
    d.subrange(21, 21 + stats_data_len(d))
}

/// Accumulates the chunked statistics response, datagram by datagram.
pub struct StatsCollector {
    /// The statistics bytes received so far, in arrival order.
    pub json_data: Vec<u8>,
    /// The chunk count the first header declared; zero until one arrives.
    pub expected_chunks: u16,
    /// How many data-carrying datagrams arrived; saturates rather than
    /// wraps.
    pub received_chunks: u16,
}

impl StatsCollector {
    /// A fresh collector with nothing received.
    pub fn new() -> (r: StatsCollector)
        ensures
            r.json_data@.len() == 0,
            r.expected_chunks == 0,
            r.received_chunks == 0,
    {
        StatsCollector { json_data: Vec::new(), expected_chunks: 0, received_chunks: 0 }
    }

    /// Feeds one received datagram: a valid header fixes the expected
    /// chunk count once, a complete datagram contributes its data, and
    /// anything else changes nothing.
    pub fn feed(&mut self, packet: &[u8]) -> (accepted: bool)
        ensures
            !stats_header_ok(packet@) ==> *final(self) == *old(self) && !accepted,
            stats_header_ok(packet@) ==> final(self).expected_chunks == (
            if old(self).expected_chunks == 0 {
                stats_total_chunks(packet@)
            } else {
                old(self).expected_chunks
            }),
            stats_header_ok(packet@) && stats_data_ok(packet@) ==> accepted
                && final(self).json_data@ == old(self).json_data@ + stats_payload(packet@)
                && final(self).received_chunks == (if old(self).received_chunks < 0xFFFF {
                (old(self).received_chunks + 1) as u16
            } else {
                old(self).received_chunks
            }),
            stats_header_ok(packet@) && !stats_data_ok(packet@) ==> !accepted
                && final(self).json_data@ == old(self).json_data@
                && final(self).received_chunks == old(self).received_chunks,
    {
        if packet.len() < 21 {
            return false;
        }
        if packet[0] != 0x50 || packet[1] != 0x53 || packet[2] != 0x50 || packet[3] != 0x52 {
            proof {
                assert(packet@.take(4) != spec_magic());
            }
            return false;
        }
        proof {
            assert(packet@.take(4) =~= spec_magic());
        }
        if packet[4] != 0x12 {
            return false;
        }
        let total_chunks = u16_from_le_bytes(slice_subrange(packet, 17, 19));
        let data_len = u16_from_le_bytes(slice_subrange(packet, 19, 21)) as usize;
        if self.expected_chunks == 0 {
            self.expected_chunks = total_chunks;
        }
        if packet.len() >= 21 + data_len {
            let mut part = vstd::slice::slice_to_vec(slice_subrange(packet, 21, 21 + data_len));
            self.json_data.append(&mut part);
            if self.received_chunks < 0xFFFF {
                self.received_chunks = self.received_chunks + 1;
            }
            true
        } else {
            false
        }
    }

    /// Whether every declared chunk has arrived (and at least one has).
    pub fn is_complete(&self) -> (r: bool)
        ensures
            r == (self.received_chunks > 0 && self.received_chunks >= self.expected_chunks),
    {
        self.received_chunks > 0 && self.received_chunks >= self.expected_chunks
    }

    /// The collected statistics bytes, or nothing if no data ever arrived.
    pub fn into_json(self) -> (r: Option<Vec<u8>>)
        ensures
            self.json_data@.len() == 0 ==> r is None,
            self.json_data@.len() > 0 ==> (r matches Some(d) && d@ == self.json_data@),
    {
        if self.json_data.len() == 0 {
            None
        } else {
            Some(self.json_data)
        }
    }
}

} // verus!
