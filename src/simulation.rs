use vstd::prelude::*;
use crate::transfer::{check_valid, is_capacity, is_span, reception_capacity, row_span, strictly_increasing};

verus! {

/// Which of the two kinds an entity index holds.
#[derive(PartialEq, Eq, Structural, Clone, Copy, Debug)]
pub enum AntennaKind {
    Emit,
    Rece,
}

/// How a receiver's samples are used.
#[derive(PartialEq, Eq, Structural, Clone, Copy, Debug)]
pub enum ReceptionKind {
    /// Samples are only recorded; no demodulator reads them.
    Plain,
    /// Samples feed an OFDM demodulator.
    OFDM,
    /// A waypoint of a moving receiver.
    MovingPoint,
    /// A receiver whose sample is taken from its waypoints in turn.
    Moving,
}

/// The kind of entity index `i` holds: an emitter where its emitter slot is
/// filled, else a receiver where its receiver slot is, else none.
pub fn antenna_kind(has_emitter: bool, has_receiver: bool) -> (r: Option<AntennaKind>)
    ensures
        has_emitter ==> r == Some(AntennaKind::Emit),
        !has_emitter && has_receiver ==> r == Some(AntennaKind::Rece),
        !has_emitter && !has_receiver ==> r is None,
{
    if has_emitter {
        Some(AntennaKind::Emit)
    } else if has_receiver {
        Some(AntennaKind::Rece)
    } else {
        None
    }
}

/// Whether a receiver listens to row `k`: there is an emitter at index `k`.
pub open spec fn listens(emitter_at: Seq<bool>, k: int) -> bool {
    0 <= k < emitter_at.len() && emitter_at[k]
}

/// The indices below `n` that a receiver listens to, in increasing order.
pub open spec fn listened(emitter_at: Seq<bool>, n: nat) -> Seq<usize>
    decreases n,
{
    if n == 0 {
        Seq::empty()
    } else {
        let p = listened(emitter_at, (n - 1) as nat);
        if listens(emitter_at, n - 1) {
            p.push((n - 1) as usize)
        } else {
            p
        }
    }
}

/// Row `k` is one the receiver listens to and is not strictly increasing.
pub open spec fn malformed(emitter_at: Seq<bool>, rows: Seq<Vec<usize>>, k: int) -> bool {
    listens(emitter_at, k) && !strictly_increasing(rows[k]@)
}

/// What a receiver needs to run: the emitters it listens to, the span of
/// each of their rows, and the capacity of its sample buffer.
pub struct ReceiverPlan {
    pub sources: Vec<usize>,
    pub spans: Vec<usize>,
    pub capacity: usize,
}

/// Plans one receiver from its transfer rows (`rows[k]` holds the event
/// times from entity `k`) and from which indices hold an emitter. It fails
/// with the first listened row whose times are not strictly increasing.
/// Otherwise every event time of every listened row falls inside the
/// buffer's capacity.
pub fn plan_receiver(emitter_at: &Vec<bool>, rows: &Vec<Vec<usize>>) -> (r: Result<ReceiverPlan, usize>)
    requires
        forall|k: int, j: int| 0 <= k < rows@.len() && 0 <= j < rows@[k]@.len() ==> #[trigger] rows@[k]@[j] < usize::MAX,
    ensures
        match r {
            Err(k) => {
                &&& 0 <= k < rows@.len()
                &&& malformed(emitter_at@, rows@, k as int)
                &&& forall|j: int| 0 <= j < k ==> !#[trigger] malformed(emitter_at@, rows@, j)
            },
            Ok(plan) => {
                &&& forall|j: int| 0 <= j < rows@.len() ==> !#[trigger] malformed(emitter_at@, rows@, j)
                &&& plan.sources@ == listened(emitter_at@, rows@.len())
                &&& plan.spans@.len() == plan.sources@.len()
                &&& forall|i: int| 0 <= i < plan.sources@.len() ==> is_span(rows@[#[trigger] plan.sources@[i] as int]@, plan.spans@[i] as int)
                &&& is_capacity(plan.spans@, plan.capacity as int)
                &&& forall|i: int, j: int| 0 <= i < plan.sources@.len() && 0 <= j < rows@[plan.sources@[i] as int]@.len()
                    ==> #[trigger] rows@[plan.sources@[i] as int]@[j] < plan.capacity
            },
        },
{
    let mut sources: Vec<usize> = Vec::new();
    let mut spans: Vec<usize> = Vec::new();
    let mut k: usize = 0;
    while k < rows.len()
        invariant
            k <= rows@.len(),
            forall|k: int, j: int| 0 <= k < rows@.len() && 0 <= j < rows@[k]@.len() ==> #[trigger] rows@[k]@[j] < usize::MAX,
            forall|j: int| 0 <= j < k ==> !#[trigger] malformed(emitter_at@, rows@, j),
            sources@ == listened(emitter_at@, k as nat),
            spans@.len() == sources@.len(),
            forall|i: int| 0 <= i < sources@.len() ==> (#[trigger] sources@[i]) < k,
            forall|i: int| 0 <= i < sources@.len() ==> is_span(rows@[#[trigger] sources@[i] as int]@, spans@[i] as int),
        decreases rows.len() - k,
    {
        if k < emitter_at.len() && emitter_at[k] {
            if !check_valid(&rows[k]) {
                return Err(k);
            }
            let sp = row_span(&rows[k]);
            sources.push(k);
            spans.push(sp);
        }
        k = k + 1;
    }
    let capacity = reception_capacity(&spans);
    proof {
        assert forall|i: int, j: int| 0 <= i < sources@.len() && 0 <= j < rows@[sources@[i] as int]@.len()
            implies #[trigger] rows@[sources@[i] as int]@[j] < capacity by {
            assert(is_span(rows@[sources@[i] as int]@, spans@[i] as int));
            assert(spans@[i] <= capacity);
        };
    }
    Ok(ReceiverPlan { sources, spans, capacity })
}

} // verus!
