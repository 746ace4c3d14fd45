use gateway_core::rotation::{pick, Candidate};

fn cand(index: usize, failures: u32, last_success_at: Option<u64>) -> Candidate {
    Candidate { index, failures, last_success_at }
}

fn picks(c: &Vec<Candidate>, ticks: u64) -> Vec<usize> {
    (0..ticks).map(|tick| pick(c, tick).index).collect()
}

#[test]
fn healthy_untouched_accounts_rotate() {
    let c = vec![cand(0, 0, None), cand(1, 0, None), cand(2, 0, None)];
    assert_eq!(picks(&c, 6), vec![0, 1, 2, 0, 1, 2]);
}

#[test]
fn healthy_accounts_rotate_whenever_they_last_succeeded() {
    let c = vec![cand(0, 0, Some(50)), cand(1, 0, Some(20)), cand(2, 0, Some(90))];
    assert_eq!(picks(&c, 6), vec![0, 1, 2, 0, 1, 2]);
    let c = vec![cand(0, 0, Some(50)), cand(1, 0, None), cand(2, 0, Some(0))];
    assert_eq!(pick(&c, 0).index, 0);
    assert_eq!(pick(&c, 4).index, 1);
    assert_eq!(pick(&c, u64::MAX).index, 0);
}

#[test]
fn single_candidate_always_wins() {
    let c = vec![cand(7, 5, Some(3))];
    for tick in 0..10 {
        assert_eq!(pick(&c, tick).index, 7);
    }
    assert_eq!(pick(&c, u64::MAX).index, 7);
}

#[test]
fn failing_account_takes_fewer_of_its_turns() {
    // one failure: it takes its turn in every second round
    let c = vec![cand(0, 0, Some(100)), cand(1, 1, None)];
    assert_eq!(picks(&c, 8), vec![0, 1, 0, 0, 0, 1, 0, 0]);
    // three failures: in every fourth round
    let c = vec![cand(0, 0, Some(100)), cand(1, 3, None)];
    assert_eq!(picks(&c, 16), vec![0, 1, 0, 0, 0, 0, 0, 0, 0, 1, 0, 0, 0, 0, 0, 0]);
}

#[test]
fn least_recent_success_stands_in() {
    // the second leaves its turn in the odd rounds; of the other two the
    // third succeeded less recently
    let c = vec![cand(0, 0, Some(50)), cand(1, 1, None), cand(2, 0, Some(20))];
    assert_eq!(picks(&c, 12), vec![0, 1, 2, 0, 2, 2, 0, 1, 2, 0, 2, 2]);
}

#[test]
fn equally_idle_accounts_stand_in_by_turns() {
    let c = vec![cand(0, 0, None), cand(1, 0, None), cand(2, 1, None)];
    assert_eq!(picks(&c, 12), vec![0, 1, 2, 0, 1, 0, 0, 1, 2, 0, 1, 1]);
    let c = vec![cand(0, 0, Some(7)), cand(1, 0, Some(7)), cand(2, 0, Some(9)), cand(3, 2, None)];
    assert_eq!(picks(&c, 16), vec![0, 1, 2, 3, 0, 1, 2, 0, 0, 1, 2, 1, 0, 1, 2, 3]);
}

#[test]
fn when_nobody_is_in_turn_each_owner_serves() {
    let c = vec![cand(0, 1, Some(5)), cand(1, 2, Some(9))];
    assert_eq!(picks(&c, 14), vec![0, 1, 0, 1, 0, 0, 1, 1, 0, 0, 0, 1, 0, 1]);
}

#[test]
fn shares_follow_the_weights() {
    // weights 1, 1/2 and 1/4 among accounts that never succeeded
    let c = vec![cand(0, 0, None), cand(1, 1, None), cand(2, 3, None)];
    let mut counts = [0u32; 3];
    for tick in 0..1200 {
        counts[pick(&c, tick).index] += 1;
    }
    assert_eq!(counts, [850, 250, 100]);
    // two healthy accounts share what the third leaves
    let c = vec![cand(0, 0, None), cand(1, 0, None), cand(2, 1, None)];
    let mut counts = [0u32; 3];
    for tick in 0..1200 {
        counts[pick(&c, tick).index] += 1;
    }
    assert_eq!(counts, [500, 500, 200]);
}

#[test]
fn equal_failures_share_equally() {
    let c = vec![cand(0, 1, None), cand(1, 1, None)];
    assert_eq!(picks(&c, 8), vec![0, 1, 0, 1, 0, 1, 0, 1]);
}
