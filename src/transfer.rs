use vstd::prelude::*;

verus! {

/// Each time is strictly greater than the one before it.
pub open spec fn strictly_increasing(times: Seq<usize>) -> bool {
    forall|i: int| 1 <= i < times.len() ==> #[trigger] times[i - 1] < times[i]
}

/// Strictly increasing from one time to the next means strictly increasing
/// between any two positions.
pub proof fn lemma_increasing_pairwise(times: Seq<usize>, i: int, j: int)
    requires
        strictly_increasing(times),
        0 <= i < j < times.len(),
    ensures
        times[i] < times[j],
    decreases j - i,
{
    if i + 1 < j {
        lemma_increasing_pairwise(times, i, j - 1);
        assert(times[j - 1] < times[j]);
    } else {
        assert(times[j - 1] < times[j]);
    }
}

/// Whether the event times of a transfer row are strictly increasing, as the
/// solver leaves them.
pub fn check_valid(times: &Vec<usize>) -> (r: bool)
    ensures
        r == strictly_increasing(times@),
{
    let mut i: usize = 1;
    while i < times.len()
        invariant
            1 <= i,
            forall|j: int| 1 <= j < i && j < times@.len() ==> #[trigger] times@[j - 1] < times@[j],
        decreases times.len() - i,
    {
        if times[i - 1] >= times[i] {
            return false;
        }
        i = i + 1;
    }
    true
}

/// `r` is the largest time of the row plus one, or 0 for an empty row.
pub open spec fn is_span(times: Seq<usize>, r: int) -> bool {
    &&& forall|i: int| 0 <= i < times.len() ==> #[trigger] times[i] < r
    &&& times.len() == 0 ==> r == 0
    &&& times.len() > 0 ==> exists|i: int| 0 <= i < times.len() && r == #[trigger] times[i] + 1
}

/// `r` is the largest of the spans, and at least 1.
pub open spec fn is_capacity(spans: Seq<usize>, r: int) -> bool {
    &&& r >= 1
    &&& forall|i: int| 0 <= i < spans.len() ==> #[trigger] spans[i] <= r
    &&& r == 1 || exists|i: int| 0 <= i < spans.len() && r == #[trigger] spans[i]
}

/// Slots that a row needs in a receiver's buffer: its largest time plus one,
/// or 0 for a row without events.
pub fn row_span(times: &Vec<usize>) -> (r: usize)
    requires
        forall|i: int| 0 <= i < times@.len() ==> #[trigger] times@[i] < usize::MAX,
    ensures
        is_span(times@, r as int),
{
    let mut r: usize = 0;
    let mut i: usize = 0;
    while i < times.len()
        invariant
            i <= times@.len(),
            forall|j: int| 0 <= j < times@.len() ==> #[trigger] times@[j] < usize::MAX,
            forall|j: int| 0 <= j < i ==> #[trigger] times@[j] < r,
            i == 0 ==> r == 0,
            i > 0 ==> exists|j: int| 0 <= j < i && r == #[trigger] times@[j] + 1,
        decreases times.len() - i,
    {
        if times[i] + 1 > r {
            r = times[i] + 1;
        }
        i = i + 1;
    }
    r
}

/// Capacity of a receiver's buffer from the spans of the rows it listens
/// to: the largest span, and at least one slot (a receiver that nothing
/// reaches keeps one slot and reads zero).
pub fn reception_capacity(spans: &Vec<usize>) -> (r: usize)
    ensures
        is_capacity(spans@, r as int),
{
    let mut r: usize = 1;
    let mut i: usize = 0;
    while i < spans.len()
        invariant
            i <= spans@.len(),
            r >= 1,
            forall|j: int| 0 <= j < i ==> #[trigger] spans@[j] <= r,
            r == 1 || exists|j: int| 0 <= j < i && r == #[trigger] spans@[j],
        decreases spans.len() - i,
    {
        if spans[i] > r {
            r = spans[i];
        }
        i = i + 1;
    }
    r
}

/// Each time is strictly smaller than every later one.
pub open spec fn sorted_distinct(s: Seq<usize>) -> bool {
    forall|i: int, j: int| 0 <= i < j < s.len() ==> s[i] < s[j]
}

/// Position of `t` in the sorted, distinct `sorted`: the number of entries
/// below `t`, so that `t` is present exactly when it sits at that position.
fn lower_bound(sorted: &Vec<usize>, t: usize) -> (r: usize)
    requires
        sorted_distinct(sorted@),
    ensures
        r <= sorted@.len(),
        forall|i: int| 0 <= i < r ==> #[trigger] sorted@[i] < t,
        forall|i: int| r <= i < sorted@.len() ==> #[trigger] sorted@[i] >= t,
{
    let mut lo: usize = 0;
    let mut hi: usize = sorted.len();
    while lo < hi
        invariant
            lo <= hi <= sorted@.len(),
            sorted_distinct(sorted@),
            forall|i: int| 0 <= i < lo ==> #[trigger] sorted@[i] < t,
            forall|i: int| hi <= i < sorted@.len() ==> #[trigger] sorted@[i] >= t,
        decreases hi - lo,
    {
        let mid = lo + (hi - lo) / 2;
        if sorted[mid] < t {
            lo = mid + 1;
        } else {
            hi = mid;
        }
    }
    lo
}

/// Groups event times by tick: `ticks` holds each distinct time once, in
/// increasing order, and `bucket[i]` is the index in `ticks` of `times[i]`.
/// Summing the gains of each bucket gives the row in its final form.
pub fn group_times(times: &Vec<usize>) -> (r: (Vec<usize>, Vec<usize>))
    ensures
        sorted_distinct(r.0@),
        forall|j: int| 0 <= j < r.0@.len() ==> times@.contains(#[trigger] r.0@[j]),
        r.1@.len() == times@.len(),
        forall|i: int| 0 <= i < times@.len() ==> #[trigger] r.1@[i] < r.0@.len() && r.0@[r.1@[i] as int] == times@[i],
{
    let mut ticks: Vec<usize> = Vec::new();
    let mut k: usize = 0;
    while k < times.len()
        invariant
            k <= times@.len(),
            sorted_distinct(ticks@),
            forall|j: int| 0 <= j < ticks@.len() ==> times@.take(k as int).contains(#[trigger] ticks@[j]),
            forall|i: int| 0 <= i < k ==> #[trigger] ticks@.contains(times@[i]),
        decreases times.len() - k,
    {
        let t = times[k];
        let pos = lower_bound(&ticks, t);
        if pos == ticks.len() || ticks[pos] != t {
            let ghost before = ticks@;
            ticks.insert(pos, t);
            proof {
                assert(ticks@ == before.insert(pos as int, t));
                assert forall|a: int, b: int| 0 <= a < b < ticks@.len() implies ticks@[a] < ticks@[b] by {
                    if a == pos && b - 1 > pos {
                        assert(before[pos as int] < before[b - 1]);
                    }
                };
                assert forall|j: int| 0 <= j < ticks@.len() implies times@.take(k + 1).contains(#[trigger] ticks@[j]) by {
                    if j < pos {
                        assert(ticks@[j] == before[j]);
                        assert(times@.take(k as int).contains(before[j]));
                        let i0 = choose|i: int| 0 <= i < k && times@.take(k as int)[i] == before[j];
                        assert(times@.take(k + 1)[i0] == ticks@[j]);
                    } else if j == pos {
                        assert(times@.take(k + 1)[k as int] == ticks@[j]);
                    } else {
                        assert(ticks@[j] == before[j - 1]);
                        assert(times@.take(k as int).contains(before[j - 1]));
                        let i0 = choose|i: int| 0 <= i < k && times@.take(k as int)[i] == before[j - 1];
                        assert(times@.take(k + 1)[i0] == ticks@[j]);
                    }
                };
                assert forall|i: int| 0 <= i < k + 1 implies #[trigger] ticks@.contains(times@[i]) by {
                    if i < k {
                        assert(before.contains(times@[i]));
                        let j = choose|j: int| 0 <= j < before.len() && before[j] == times@[i];
                        if j < pos {
                            assert(ticks@[j] == times@[i]);
                        } else {
                            assert(ticks@[j + 1] == times@[i]);
                        }
                    } else {
                        assert(ticks@[pos as int] == t);
                    }
                };
            }
        } else {
            proof {
                assert(ticks@[pos as int] == t);
                assert forall|j: int| 0 <= j < ticks@.len() implies times@.take(k + 1).contains(#[trigger] ticks@[j]) by {
                    assert(times@.take(k as int).contains(ticks@[j]));
                    let i0 = choose|i: int| 0 <= i < k && times@.take(k as int)[i] == ticks@[j];
                    assert(times@.take(k + 1)[i0] == ticks@[j]);
                };
            }
        }
        k = k + 1;
    }

    assert(times@.take(k as int) =~= times@);
    let mut bucket: Vec<usize> = Vec::new();
    let mut i: usize = 0;
    while i < times.len()
        invariant
            i <= times@.len(),
            sorted_distinct(ticks@),
            forall|i: int| 0 <= i < times@.len() ==> #[trigger] ticks@.contains(times@[i]),
            forall|j: int| 0 <= j < ticks@.len() ==> times@.contains(#[trigger] ticks@[j]),
            bucket@.len() == i,
            forall|j: int| 0 <= j < i ==> #[trigger] bucket@[j] < ticks@.len() && ticks@[bucket@[j] as int] == times@[j],
        decreases times.len() - i,
    {
        let pos = lower_bound(&ticks, times[i]);
        proof {
            assert(ticks@.contains(times@[i as int]));
            let j = choose|j: int| 0 <= j < ticks@.len() && ticks@[j] == times@[i as int];
            if j < pos {
            } else if j > pos {
                assert(ticks@[pos as int] < ticks@[j]);
            }
        }
        bucket.push(pos);
        i = i + 1;
    }
    (ticks, bucket)
}

/// A row built from the distinct ticks that `group_times` returns passes
/// `check_valid`: grouped rows are strictly increasing in time.
pub proof fn lemma_grouped_row_valid(ticks: Seq<usize>)
    requires
        sorted_distinct(ticks),
    ensures
        strictly_increasing(ticks),
{
    assert forall|i: int| 1 <= i < ticks.len() implies #[trigger] ticks[i - 1] < ticks[i] by {
        assert(0 <= i - 1 < i < ticks.len());
    };
}

} // verus!
