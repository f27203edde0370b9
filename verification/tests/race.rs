use vods::RaceAggregator;
use vods::race::race_outcomes;
use vods::race::race_sequential;
use vods::race::worker_count;

#[test]
fn empty_race_has_no_result() {
    let outcomes: Vec<Result<u32, u32>> = Vec::new();
    assert_eq!(race_outcomes(outcomes), None);
}

#[test]
fn any_success_wins_regardless_of_failures() {
    let outcomes: Vec<Result<u32, u32>> = vec![Err(1), Err(2), Ok(7), Err(3)];
    assert_eq!(race_outcomes(outcomes), Some(Ok(7)));
    let outcomes: Vec<Result<u32, u32>> = vec![Ok(9)];
    assert_eq!(race_outcomes(outcomes), Some(Ok(9)));
    let outcomes: Vec<Result<u32, u32>> = vec![Err(1), Err(2), Ok(4)];
    assert_eq!(race_outcomes(outcomes), Some(Ok(4)));
}

#[test]
fn all_failures_keep_the_last_one() {
    // At concurrency 1 completion order is input order, so the failure of
    // the last item in input order survives.
    let outcomes: Vec<Result<u32, u32>> = vec![Err(1), Err(2), Err(3)];
    assert_eq!(race_outcomes(outcomes), Some(Err(3)));
}

#[test]
fn zero_concurrency_is_full_fanout() {
    for n in [0usize, 1, 5, 12, 100] {
        assert_eq!(worker_count(0, n), worker_count(n, n));
    }
    assert_eq!(worker_count(3, 12), 3);
}

#[test]
fn sequential_race_is_input_ordered() {
    // The first success in input order wins; items after it are never
    // checked.
    let checked = std::cell::RefCell::new(Vec::new());
    let result = race_sequential(vec![1, 2, 3, 4], |x: u32| {
        checked.borrow_mut().push(x);
        if x >= 2 {
            Ok(x * 10)
        } else {
            Err(x)
        }
    });
    assert_eq!(result, Some(Ok(20)));
    assert_eq!(*checked.borrow(), vec![1, 2]);
    // All failing: the last input-ordered failure survives.
    let result = race_sequential(vec![1, 2, 3], |x: u32| Err::<u32, u32>(x));
    assert_eq!(result, Some(Err(3)));
    // No work, no result.
    let result = race_sequential(Vec::new(), |x: u32| Err::<u32, u32>(x));
    assert_eq!(result, None);
}

#[test]
fn aggregator_stops_consuming_at_first_success() {
    // Twelve domains race; the eighth reports the only success. The
    // aggregator is done the moment it sees it, before items nine to
    // twelve report anything.
    let mut agg: RaceAggregator<&str, u32> = RaceAggregator::new(12);
    assert!(!agg.is_done());
    for k in 0..7u32 {
        let done = agg.absorb(Err(k));
        assert!(!done);
    }
    let done = agg.absorb(Ok("domain seven"));
    assert!(done);
    assert!(agg.is_done());
    assert_eq!(agg.into_result(), Some(Ok("domain seven")));
}

#[test]
fn aggregator_exhaustion_keeps_last_failure() {
    let mut agg: RaceAggregator<u32, &str> = RaceAggregator::new(3);
    assert!(!agg.absorb(Err("first")));
    assert!(!agg.absorb(Err("second")));
    assert!(agg.absorb(Err("third")));
    assert_eq!(agg.into_result(), Some(Err("third")));
}

#[test]
fn aggregator_of_empty_race_reports_nothing() {
    let agg: RaceAggregator<u32, u32> = RaceAggregator::new(0);
    assert!(agg.is_done());
    assert_eq!(agg.into_result(), None);
}
