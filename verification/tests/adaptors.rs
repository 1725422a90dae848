use parsplit::by_blocks::ByBlocks;
use parsplit::consumer::Consumer;
use parsplit::consumers::{AtLeast, CollectConsumer, EqValue, FindConsumer, MultipleOf, SumConsumer, SumOp};
use parsplit::filter::{filter_fold, Filter, FilterConsumer, FilterProducer};
use parsplit::par_iter::{DriveCallback, ParallelIterator};
use parsplit::producer::{Divisible, Producer};
use parsplit::range::{ParRange, RangeProducer};
use parsplit::signal::FoldOp;

fn par_range(start: u64, end: u64) -> ParRange {
    ParRange { start, end }
}

#[test]
fn filter_drive_equals_sequential_filter() {
    let it = Filter { base: par_range(0, 30), filter: MultipleOf { modulus: 3 } };
    let collected: Vec<u64> = it.drive(CollectConsumer);
    let mut expected: Vec<u64> = Vec::new();
    let mut i: u64 = 0;
    while i < 30 {
        if i % 3 == 0 {
            expected.push(i);
        }
        i += 1;
    }
    assert_eq!(collected, expected);
}

#[test]
fn filter_sum_counts_only_matching_items() {
    let it = Filter { base: par_range(0, 30), filter: MultipleOf { modulus: 3 } };
    let total: u64 = it.drive(SumConsumer);
    assert_eq!(total, 135);
}

#[test]
fn filter_with_empty_result_drives_to_unit() {
    let it = Filter { base: par_range(0, 30), filter: EqValue { value: 1000 } };
    let collected: Vec<u64> = it.drive(CollectConsumer);
    assert!(collected.is_empty());
}

#[test]
fn filter_consumer_feeds_only_matching_items() {
    let c = FilterConsumer { base: SumConsumer, filter: MultipleOf { modulus: 3 } };
    let total: u64 = c.consume_producer(RangeProducer { start: 0, end: 30 });
    assert_eq!(total, 135);
}

#[test]
fn filter_producer_is_double_ended() {
    let mut p = FilterProducer {
        base: RangeProducer { start: 0, end: 10 },
        filter: MultipleOf { modulus: 3 },
    };
    assert_eq!(p.next(), Some(0));
    assert_eq!(p.next_back(), Some(9));
    assert_eq!(p.next(), Some(3));
    assert_eq!(p.next_back(), Some(6));
    assert_eq!(p.next(), None);
    assert_eq!(p.next_back(), None);
}

#[test]
fn filter_producer_reports_honest_sizes() {
    let p = FilterProducer {
        base: RangeProducer { start: 0, end: 10 },
        filter: MultipleOf { modulus: 3 },
    };
    assert_eq!(p.sizes(), (0, Some(10)));
    let (left, right) = p.divide_at(4);
    assert_eq!(left.sizes(), (0, Some(4)));
    assert_eq!(right.sizes(), (0, Some(6)));
}

#[test]
fn filter_fold_skips_non_matching_items() {
    let w = filter_fold(MultipleOf { modulus: 3 }, SumOp);
    assert_eq!(w.apply(10, 6), 16);
    assert_eq!(w.apply(10, 5), 10);
}

#[test]
fn with_producer_drives_under_the_producers_policy() {
    let total: u64 = par_range(0, 100).with_producer(DriveCallback { consumer: SumConsumer });
    assert_eq!(total, 4950);
    let it = Filter { base: par_range(0, 30), filter: MultipleOf { modulus: 3 } };
    let total: u64 = it.with_producer(DriveCallback { consumer: SumConsumer });
    assert_eq!(total, 135);
}

#[test]
fn by_blocks_is_transparent_to_results() {
    let plain: u64 = par_range(0, 1000).drive(SumConsumer);
    let blocked: u64 = ByBlocks { base: par_range(0, 1000) }.drive(SumConsumer);
    assert_eq!(plain, blocked);
    let filtered = Filter { base: par_range(0, 100), filter: MultipleOf { modulus: 7 } };
    let blocked_filtered: u64 = ByBlocks { base: filtered }.drive(SumConsumer);
    assert_eq!(blocked_filtered, 7 + 14 + 21 + 28 + 35 + 42 + 49 + 56 + 63 + 70 + 77 + 84 + 91 + 98);
}

#[test]
fn by_blocks_finds_matches_like_the_plain_iterator() {
    let finder = FindConsumer { predicate: EqValue { value: 42 } };
    let plain = par_range(0, 100).drive(finder);
    let finder = FindConsumer { predicate: EqValue { value: 42 } };
    let blocked = ByBlocks { base: par_range(0, 100) }.drive(finder);
    assert_eq!(plain.0, Some(42));
    assert_eq!(blocked.0, Some(42));
}

#[test]
fn by_blocks_producer_wraps_without_change() {
    let p = ByBlocks { base: RangeProducer { start: 0, end: 10 } };
    assert_eq!(p.sizes(), (10, Some(10)));
    assert_eq!(p.preview(4), 4);
    let (left, right) = p.divide();
    assert_eq!(left.sizes().0 + right.sizes().0, 10);
}

#[test]
fn filter_find_short_circuits_on_filtered_items() {
    let it = Filter { base: par_range(0, 100), filter: MultipleOf { modulus: 7 } };
    let found = it.drive(FindConsumer { predicate: AtLeast { bound: 10 } });
    assert_eq!(found.0, Some(14));
}

#[test]
fn modulus_zero_matches_nothing() {
    let it = Filter { base: par_range(0, 10), filter: MultipleOf { modulus: 0 } };
    let collected: Vec<u64> = it.drive(CollectConsumer);
    assert!(collected.is_empty());
}
