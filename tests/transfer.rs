use wavesim::simulation::{antenna_kind, plan_receiver, AntennaKind};
use wavesim::transfer::{check_valid, group_times, reception_capacity, row_span};

#[test]
fn valid_rows() {
    assert!(check_valid(&vec![]));
    assert!(check_valid(&vec![4]));
    assert!(check_valid(&vec![1, 2, 9]));
    assert!(!check_valid(&vec![1, 1]));
    assert!(!check_valid(&vec![3, 5, 4]));
}

#[test]
fn spans_and_capacity() {
    assert_eq!(row_span(&vec![]), 0);
    assert_eq!(row_span(&vec![0]), 1);
    assert_eq!(row_span(&vec![3, 17, 5]), 18);
    assert_eq!(reception_capacity(&vec![]), 1);
    assert_eq!(reception_capacity(&vec![0, 0]), 1);
    assert_eq!(reception_capacity(&vec![4, 18, 2]), 18);
}

#[test]
fn grouping_sorts_and_merges_ticks() {
    let (ticks, bucket) = group_times(&vec![7, 2, 7, 5, 2, 2]);
    assert_eq!(ticks, vec![2, 5, 7]);
    assert_eq!(bucket, vec![2, 0, 2, 1, 0, 0]);
    assert!(check_valid(&ticks));
    let (ticks, bucket) = group_times(&vec![]);
    assert!(ticks.is_empty() && bucket.is_empty());
}

#[test]
fn grouped_gains_sum_per_tick() {
    let events = [(7usize, 0.5f32), (2, 1.0), (7, -0.25), (2, 2.0)];
    let times: Vec<usize> = events.iter().map(|e| e.0).collect();
    let (ticks, bucket) = group_times(&times);
    let mut gains = vec![0.0f32; ticks.len()];
    for (i, e) in events.iter().enumerate() {
        gains[bucket[i]] += e.1;
    }
    assert_eq!(ticks, vec![2, 7]);
    assert_eq!(gains, vec![3.0, 0.25]);
}

#[test]
fn plan_listens_to_emitters_only() {
    let emitter_at = vec![false, true, true];
    let rows = vec![vec![], vec![1, 4], vec![0, 2, 9]];
    let plan = plan_receiver(&emitter_at, &rows).ok().unwrap();
    assert_eq!(plan.sources, vec![1, 2]);
    assert_eq!(plan.spans, vec![5, 10]);
    assert_eq!(plan.capacity, 10);
}

#[test]
fn plan_of_isolated_receiver() {
    let plan = plan_receiver(&vec![false, true], &vec![vec![], vec![]]).ok().unwrap();
    assert_eq!(plan.sources, vec![1]);
    assert_eq!(plan.capacity, 1);
}

#[test]
fn plan_rejects_unsorted_row() {
    let emitter_at = vec![true, false, true];
    let rows = vec![vec![1, 2], vec![5, 5], vec![4, 3]];
    assert_eq!(plan_receiver(&emitter_at, &rows).err(), Some(2));
}

#[test]
fn kinds_by_slot() {
    assert_eq!(antenna_kind(true, false), Some(AntennaKind::Emit));
    assert_eq!(antenna_kind(false, true), Some(AntennaKind::Rece));
    assert_eq!(antenna_kind(false, false), None);
}
