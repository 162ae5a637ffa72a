use vstd::prelude::*;

verus! {

/// Cycles through the waypoint receivers of a moving receiver, one per tick.
pub struct MovementHandler {
    current_pos: usize,
    antenna_cycle: Vec<usize>,
}

impl MovementHandler {
    /// The waypoint receivers, by entity index, in the order visited.
    pub closed spec fn cycle(&self) -> Seq<usize> {
        self.antenna_cycle@
    }

    /// Position in the cycle of this tick's waypoint.
    pub closed spec fn position(&self) -> nat {
        self.current_pos as nat
    }

    pub closed spec fn wf(&self) -> bool {
        self.current_pos == 0 || self.current_pos < self.antenna_cycle@.len()
    }

    /// Starts at the first waypoint.
    pub fn new(antenna_cycle: Vec<usize>) -> (r: Self)
        ensures
            r.wf(),
            r.cycle() == antenna_cycle@,
            r.position() == 0,
    {
        MovementHandler { current_pos: 0, antenna_cycle }
    }

    /// This tick's waypoint, `None` for an empty cycle, and a move to the
    /// next waypoint, back to the first after the last.
    pub fn step(&mut self) -> (r: Option<usize>)
        requires
            old(self).wf(),
        ensures
            final(self).wf(),
            final(self).cycle() == old(self).cycle(),
            old(self).cycle().len() == 0 ==> r is None && final(self).position() == 0,
            old(self).cycle().len() > 0 ==> {
                &&& r == Some(old(self).cycle()[old(self).position() as int])
                &&& final(self).position() == (old(self).position() + 1) % old(self).cycle().len()
            },
    {
        let len = self.antenna_cycle.len();
        if len == 0 {
            return None;
        }
        let r = self.antenna_cycle[self.current_pos];
        proof {
            let p = self.current_pos as int;
            let n = len as int;
            if p + 1 >= n {
                assert((p + 1) % n == 0) by (nonlinear_arith)
                    requires p + 1 == n, n > 0;
            } else {
                assert((p + 1) % n == p + 1) by (nonlinear_arith)
                    requires 0 <= p + 1 < n;
            }
        }
        self.current_pos = if self.current_pos + 1 >= len { 0 } else { self.current_pos + 1 };
        Some(r)
    }
}

} // verus!
