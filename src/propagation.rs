use vstd::prelude::*;
use crate::ring_buffer::RingBuffer;
use crate::transfer::strictly_increasing;

verus! {

/// The fan-out and advance phases of a tick for one receiver.
pub struct PropagationSystem;

impl PropagationSystem {
    /// Fans one emitter's row out into a receiver's buffer: for each event
    /// `j`, the slot `times[j]` ticks ahead is replaced by `accumulate(slot, j)`
    /// (the caller's `accumulate` adds the emitter's sample scaled by event `j`'s
    /// gain). Every other slot keeps its value. The row's times are strictly
    /// increasing, so each slot is touched at most once.
    pub fn fan_out<T: Copy + Default, F: Fn(T, usize) -> T>(
        &self,
        buf: &mut RingBuffer<T>,
        times: &Vec<usize>,
        accumulate: &F,
    )
        requires
            old(buf).wf(),
            strictly_increasing(times@),
            forall|j: int| 0 <= j < times@.len() ==> #[trigger] times@[j] < old(buf).capacity(),
            forall|x: T, j: usize| j < times@.len() ==> #[trigger] accumulate.requires((x, j)),
        ensures
            final(buf).wf(),
            final(buf).capacity() == old(buf).capacity(),
            final(buf).blank() == old(buf).blank(),
            forall|s: usize| s < old(buf).capacity() && !times@.contains(s)
                ==> #[trigger] final(buf)@[s as int] == old(buf)@[s as int],
            forall|j: int| 0 <= j < times@.len()
                ==> accumulate.ensures((old(buf)@[times@[j] as int], j as usize), #[trigger] final(buf)@[times@[j] as int]),
    {
        let mut j: usize = 0;
        while j < times.len()
            invariant
                j <= times@.len(),
                buf.wf(),
                buf.capacity() == old(buf).capacity(),
                buf.blank() == old(buf).blank(),
                strictly_increasing(times@),
                forall|i: int| 0 <= i < times@.len() ==> #[trigger] times@[i] < old(buf).capacity(),
                forall|x: T, i: usize| i < times@.len() ==> #[trigger] accumulate.requires((x, i)),
                forall|s: usize| s < old(buf).capacity() && !times@.take(j as int).contains(s)
                    ==> #[trigger] buf@[s as int] == old(buf)@[s as int],
                forall|i: int| 0 <= i < j
                    ==> accumulate.ensures((old(buf)@[times@[i] as int], i as usize), #[trigger] buf@[times@[i] as int]),
            decreases times@.len() - j,
        {
            let t = times[j];
            let ghost before = buf@;
            proof {
                buf.lemma_view_len();
                old(buf).lemma_view_len();
                assert forall|i: int| 0 <= i < j implies #[trigger] times@[i] < t by {
                    crate::transfer::lemma_increasing_pairwise(times@, i, j as int);
                };
                assert(!times@.take(j as int).contains(t)) by {
                    if times@.take(j as int).contains(t) {
                        let i = choose|i: int| 0 <= i < j && times@.take(j as int)[i] == t;
                        assert(times@[i] < t);
                    }
                };
            }
            match buf.get_mut(t) {
                Some(slot) => {
                    *slot = accumulate(*slot, j);
                }
                None => {}
            }
            proof {
                assert(buf@ == before.update(t as int, buf@[t as int]));
                assert forall|s: usize| s < old(buf).capacity() && !times@.take(j + 1).contains(s)
                    implies #[trigger] buf@[s as int] == old(buf)@[s as int] by {
                    assert(times@.take(j + 1)[j as int] == t);
                    if s != t {
                        if times@.take(j as int).contains(s) {
                            let i = choose|i: int| 0 <= i < j && times@.take(j as int)[i] == s;
                            assert(times@.take(j + 1)[i] == s);
                        }
                    }
                };
                assert forall|i: int| 0 <= i < j + 1
                    implies accumulate.ensures((old(buf)@[times@[i] as int], i as usize), #[trigger] buf@[times@[i] as int]) by {
                    if i < j {
                        assert(times@[i] < t);
                        assert(times@[i] != t);
                    } else {
                        assert(before[t as int] == old(buf)@[t as int]);
                    }
                };
            }
            j = j + 1;
        }
        proof {
            assert(times@.take(times@.len() as int) =~= times@);
        }
    }
}

} // verus!
