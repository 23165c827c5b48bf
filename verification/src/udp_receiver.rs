//! The receive loop's decisions: when a silent socket gives way to the
//! simulated stream.
use vstd::prelude::*;

verus! {

/// Why the receiver stopped.
#[derive(Debug)]
pub enum UdpReceiverError {
    Io(std::io::Error),
    ChannelSend,
}

/// Consecutive failed receives after which the simulated stream takes over.
pub const IDLE_TICKS_BEFORE_SIMULATION: u64 = 1000;

/// What the receive loop does after one receive.
#[derive(Debug, Clone, Copy, PartialEq, Eq)]
pub enum ReceiverAction {
    /// Keep receiving.
    Continue,
    /// Stop listening and run the simulated stream instead.
    SwitchToSimulation,
}

/// One step of the receive loop: a datagram resets the idle count, and when
/// simulation is allowed every receive, failed or not, then counts one tick;
/// more than `IDLE_TICKS_BEFORE_SIMULATION` ticks switch to simulation.
/// Returns the new idle count and the action.
pub fn receiver_step(idle_count: u64, received: bool, simulate_if_no_data: bool) -> (r: (
    u64,
    ReceiverAction,
))
    requires
        idle_count < u64::MAX,
    ensures
        ({
            let base = if received {
                0
            } else {
                idle_count as int
            };
            let next = if simulate_if_no_data {
                base + 1
            } else {
                base
            };
            &&& r.0 == next
            &&& r.1 == if simulate_if_no_data && next > IDLE_TICKS_BEFORE_SIMULATION {
                ReceiverAction::SwitchToSimulation
            } else {
                ReceiverAction::Continue
            }
        }),
{
    let mut idle = if received {
        0
    } else {
        idle_count
    };
    if simulate_if_no_data {
        idle = idle + 1;
        if idle > IDLE_TICKS_BEFORE_SIMULATION {
            return (idle, ReceiverAction::SwitchToSimulation);
        }
    }
    (idle, ReceiverAction::Continue)
}

} // verus!
