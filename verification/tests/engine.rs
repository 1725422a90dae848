use parsplit::consumer::{Consumer, Reducer};
use parsplit::consumers::{
    AtLeast, CollectConsumer, EqValue, FindConsumer, FindOp, SumConsumer, SumOp,
};
use parsplit::producer::{Divisible, Producer};
use parsplit::range::RangeProducer;
use parsplit::scheduler::{Adaptive, ByBlocksScheduler, ForceDepth, Scheduler};
use parsplit::signal::FoldResult;

fn range(start: u64, end: u64) -> RangeProducer {
    RangeProducer { start, end }
}

#[test]
fn split_then_reduce_matches_whole_sum() {
    let whole: u64 = SumConsumer.consume_producer(range(0, 100));
    let (left, right) = range(0, 100).divide();
    let (c1, c2) = SumConsumer.fork();
    let red = SumConsumer.to_reducer();
    let combined: u64 = red.reduce(c1.consume_producer(left), c2.consume_producer(right));
    assert_eq!(whole, combined);
    assert_eq!(whole, 4950);
}

#[test]
fn split_then_reduce_matches_whole_find() {
    let whole = FindConsumer { predicate: EqValue { value: 37 } }.consume_producer(range(0, 100));
    let (left, right) = range(0, 100).divide_at(10);
    let finder = FindConsumer { predicate: EqValue { value: 37 } };
    let (c1, c2) = finder.fork();
    let red = finder.to_reducer();
    let combined = red.reduce(c1.consume_producer(left), c2.consume_producer(right));
    assert_eq!(whole.0, Some(37));
    assert_eq!(whole.1, 38);
    assert_eq!(combined.0, Some(37));
    assert_eq!(combined.1, 38);
}

#[test]
fn size_conservation_on_divide() {
    let (left, right) = range(0, 100).divide();
    assert_eq!(left.sizes().0 + right.sizes().0, 100);
    let (left, right) = range(0, 101).divide_at(30);
    assert_eq!(left.sizes().0, 30);
    assert_eq!(right.sizes().0, 71);
}

#[test]
fn divide_at_clamps_out_of_range_index() {
    let (left, right) = range(0, 10).divide_at(1000);
    assert_eq!(left.sizes().0, 10);
    assert_eq!(right.sizes().0, 0);
    let (left, right) = range(0, 10).divide_at(0);
    assert_eq!(left.sizes().0, 0);
    assert_eq!(right.sizes().0, 10);
}

#[test]
fn fold_determinism_sequential_vs_divided() {
    let (_, sequential, _) = range(0, 1000).partial_fold(0u64, SumOp, 1000);
    let adaptive: u64 = Adaptive.run(range(0, 1000), SumConsumer);
    let deep: u64 = ForceDepth { depth: 5 }.run(range(0, 1000), SumConsumer);
    assert_eq!(sequential, adaptive);
    assert_eq!(sequential, deep);
    assert_eq!(sequential, 499500);
}

#[test]
fn first_match_is_deterministic_across_policies() {
    let a = Adaptive.run(range(0, 100), FindConsumer { predicate: EqValue { value: 37 } });
    let b = ForceDepth { depth: 3 }.run(range(0, 100), FindConsumer {
        predicate: EqValue { value: 37 },
    });
    let c = ByBlocksScheduler { inner_scheduler: Adaptive }.run(range(0, 100), FindConsumer {
        predicate: EqValue { value: 37 },
    });
    assert_eq!(a.0, Some(37));
    assert_eq!(b.0, Some(37));
    assert_eq!(c.0, Some(37));
    assert_eq!(a.1, 38);
    assert!(b.1 >= 38 && b.1 <= 100);
    assert!(c.1 >= 38 && c.1 <= 100);
}

#[test]
fn is_full_reports_saturation_exactly() {
    let finder = FindConsumer { predicate: EqValue { value: 7 } };
    assert!(finder.is_full(&(Some(7), 8)));
    assert!(!finder.is_full(&(None, 8)));
    assert!(!SumConsumer.is_full(&123));
}

#[test]
fn first_match_prefers_leftmost() {
    let finder = FindConsumer { predicate: AtLeast { bound: 50 } };
    let r = ForceDepth { depth: 4 }.run(range(0, 100), finder);
    assert_eq!(r.0, Some(50));
}

#[test]
fn find_misses_when_no_item_matches() {
    let finder = FindConsumer { predicate: EqValue { value: 1000 } };
    let r = Adaptive.run(range(0, 100), finder);
    assert_eq!(r.0, None);
    assert_eq!(r.1, 100);
}

#[test]
fn by_blocks_early_exit_touches_a_prefix_only() {
    let finder = FindConsumer { predicate: EqValue { value: 4_999_999 } };
    let sched = ByBlocksScheduler { inner_scheduler: Adaptive };
    let r = sched.run(range(0, 10_000_000), finder);
    assert_eq!(r.0, Some(4_999_999));
    assert_eq!(r.1, 5_000_000);
    assert!(r.1 < 10_000_000);
}

#[test]
fn policy_substitutability_for_sum() {
    let expected: u64 = 499500;
    assert_eq!(Adaptive.run(range(0, 1000), SumConsumer), expected);
    assert_eq!(ForceDepth { depth: 0 }.run(range(0, 1000), SumConsumer), expected);
    assert_eq!(ForceDepth { depth: 8 }.run(range(0, 1000), SumConsumer), expected);
    let bb = ByBlocksScheduler { inner_scheduler: Adaptive };
    assert_eq!(bb.run(range(0, 1000), SumConsumer), expected);
    let nested = ByBlocksScheduler { inner_scheduler: ForceDepth { depth: 2 } };
    assert_eq!(nested.run(range(0, 1000), SumConsumer), expected);
}

#[test]
fn empty_producer_yields_unit_results() {
    assert_eq!(Adaptive.run(range(5, 5), SumConsumer), 0);
    let collected: Vec<u64> = Adaptive.run(range(5, 5), CollectConsumer);
    assert!(collected.is_empty());
    let finder = FindConsumer { predicate: AtLeast { bound: 0 } };
    let r = ByBlocksScheduler { inner_scheduler: Adaptive }.run(range(5, 5), finder);
    assert_eq!(r.0, None);
    assert_eq!(r.1, 0);
}

#[test]
fn wrapping_sum_wraps_on_overflow() {
    let red = SumConsumer.to_reducer();
    assert_eq!(red.reduce(u64::MAX, 1), 0);
    assert_eq!(red.reduce(u64::MAX, 5), 4);
}

#[test]
fn collect_preserves_order() {
    let collected: Vec<u64> = ForceDepth { depth: 3 }.run(range(10, 20), CollectConsumer);
    assert_eq!(collected, vec![10, 11, 12, 13, 14, 15, 16, 17, 18, 19]);
}

#[test]
fn range_preview_and_next_agree() {
    let p = range(5, 15);
    assert_eq!(p.preview(0), 5);
    assert_eq!(p.preview(3), 8);
    assert_eq!(p.preview(9), 14);
    let mut p = p;
    assert_eq!(p.next(), Some(5));
    assert_eq!(p.next_back(), Some(14));
    assert_eq!(p.sizes(), (8, Some(8)));
}

#[test]
fn partial_try_fold_breaks_with_first_match() {
    let op = FindOp { predicate: AtLeast { bound: 4 } };
    let (rest, out, _) = range(0, 10).partial_try_fold(0u64, op, 100);
    match out {
        FoldResult::Break((count, item)) => {
            assert_eq!(item, 4);
            assert_eq!(count, 5);
        }
        FoldResult::Continue(_) => panic!("expected the fold to break"),
    }
    assert_eq!(rest.sizes().0, 5);
}

#[test]
fn partial_try_fold_continues_without_match() {
    let op = FindOp { predicate: EqValue { value: 99 } };
    let (rest, out, _) = range(0, 10).partial_try_fold(0u64, op, 100);
    match out {
        FoldResult::Continue(count) => assert_eq!(count, 10),
        FoldResult::Break(_) => panic!("expected the fold to run through"),
    }
    assert_eq!(rest.sizes().0, 0);
}

#[test]
fn partial_fold_respects_its_limit() {
    let (rest, acc, _) = range(0, 10).partial_fold(0u64, SumOp, 4);
    assert_eq!(acc, 0 + 1 + 2 + 3);
    assert_eq!(rest.sizes().0, 6);
}

#[test]
fn should_be_divided_reflects_remaining_work() {
    assert!(range(0, 2).should_be_divided());
    assert!(!range(0, 1).should_be_divided());
    assert!(!range(0, 0).should_be_divided());
}
