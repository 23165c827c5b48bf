//! Plain-value parts of the broadcast server: client requests and the ping
//! span reported with each point batch.
use crate::point_cloud::{max_ping, min_ping, ping_bounds};
use vstd::prelude::*;

verus! {

/// A request sent by a client.
#[derive(Debug, Clone)]
pub struct ClientMessage {
    pub msg_type: String,
    pub request_backfill: Option<bool>,
}

/// The ping span announced with a batch of points: the bounds of the ping
/// numbers, with a start of `u32::MAX` (an empty batch) reported as `0`.
pub fn batch_ping_span(pings: &[u32]) -> (r: (u32, u32))
    ensures
        r.0 == if min_ping(pings@) == u32::MAX {
            0
        } else {
            min_ping(pings@)
        },
        r.1 == max_ping(pings@),
{
    let (start, end) = ping_bounds(pings);
    let start = if start == u32::MAX {
        0
    } else {
        start
    };
    let end = if end == u32::MIN {
        0
    } else {
        end
    };
    (start, end)
}

} // verus!
