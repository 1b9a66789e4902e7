use vstd::prelude::*;
use crate::trajectory::{AccelControl, ExteriorLights};

verus! {

/// The decoded CAM fields the UI logic reads (measured values such as speed, heading and
/// position travel separately).
#[derive(Clone, Copy, PartialEq, Eq, Debug, Structural)]
pub struct CamData {
    pub exterior_lights: Option<ExteriorLights>,
    pub accel_control: Option<AccelControl>,
    /// Raw CAM `DriveDirection` value.
    pub drive_direction: Option<u8>,
    /// CAM generation delta time in milliseconds.
    pub gen_delta_time_ms: u32,
}

/// The decoded ITS payload of a packet.
#[derive(Clone, Copy, PartialEq, Eq, Debug, Structural)]
pub enum ItsPayload {
    Cam(CamData),
    Denm,
    Unsupported,
}

/// A captured ITS-G5 frame, as far as the UI logic reads it.
#[derive(Clone, Debug)]
pub struct PacketRecord {
    /// Source MAC address.
    pub mac: String,
    /// Capture timestamp (Unix milliseconds).
    pub timestamp_ms: i64,
    /// The GeoNetworking header was decoded.
    pub has_gnw: bool,
    /// BTP-B destination port, when the BTP-B header was decoded.
    pub btp_destination_port: Option<u16>,
    /// The decoded ITS payload, if any.
    pub payload: Option<ItsPayload>,
    /// Frame length in bytes.
    pub data_len: usize,
    /// Station ID derived from the source MAC.
    pub station_id: u32,
    /// GNW LPV TST: TAI ms since 2004-01-01 UTC, mod 2^32.
    pub gnw_timestamp_ms: Option<u32>,
}

/// The decoded CAM of a packet, if it carries one.
pub open spec fn cam_of(p: PacketRecord) -> Option<CamData> {
    match p.payload {
        Some(ItsPayload::Cam(c)) => Some(c),
        _ => None,
    }
}

/// Number of packets satisfying `f`.
pub open spec fn count_matching(s: Seq<PacketRecord>, f: spec_fn(PacketRecord) -> bool) -> nat
    decreases s.len(),
{
    if s.len() == 0 {
        0
    } else {
        count_matching(s.drop_last(), f) + if f(s.last()) { 1nat } else { 0nat }
    }
}

/// Counting over a prefix one element longer adds that element's contribution.
pub proof fn lemma_count_step(s: Seq<PacketRecord>, f: spec_fn(PacketRecord) -> bool, i: int)
    requires
        0 <= i < s.len(),
    ensures
        count_matching(s.take(i + 1), f) == count_matching(s.take(i), f) + if f(s[i]) { 1nat } else { 0nat },
        count_matching(s.take(i), f) <= i,
    decreases i,
{
    assert(s.take(i + 1).drop_last() =~= s.take(i));
    if i > 0 {
        lemma_count_step(s, f, i - 1);
    } else {
        assert(s.take(0) =~= Seq::<PacketRecord>::empty());
    }
}

} // verus!
