// Signal propagation between antennas: the sample ring buffer, transfer-row
// bookkeeping, the per-tick fan-out of samples into receivers, the OFDM
// emitter and receiver state machines, and moving receivers.
use vstd::prelude::*;

pub mod bits;
pub mod moving;
pub mod ofdm;
pub mod propagation;
pub mod ring_buffer;
pub mod simulation;
pub mod transfer;

verus! {

} // verus!
