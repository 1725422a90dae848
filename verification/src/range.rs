//! The basic controlled data source: a contiguous range of integers, as a
//! producer and as a parallel iterator.
use vstd::prelude::*;

use crate::consumer::Consumer;
use crate::par_iter::{ParallelIterator, ProducerCallback};
use crate::producer::{folded_prefix, try_folded_prefix, Divisible, Producer};
use crate::scheduler::{Adaptive, ScheduledProducer, Scheduler};
use crate::signal::{
    lemma_seq_fold_snoc, lemma_seq_try_fold_snoc, seq_fold, seq_try_fold, FoldOp, FoldResult,
    TryFoldOp,
};

verus! {

/// A producer of the integers in `start .. end`, in order. Controlled: its
/// exact size is known up front, splits land at exact positions, and any
/// item may be previewed.
pub struct RangeProducer {
    pub start: u64,
    pub end: u64,
}

impl Divisible for RangeProducer {
    open spec fn wf(&self) -> bool {
        self.start <= self.end && self.end - self.start <= usize::MAX
    }

    open spec fn work(&self) -> nat {
        (self.end - self.start) as nat
    }

    open spec fn divisible(&self) -> bool {
        self.end - self.start >= 2
    }

    proof fn lemma_divisible(&self) {
    }

    fn should_be_divided(&self) -> (r: bool) {
        self.end - self.start >= 2
    }
}

impl Producer for RangeProducer {
    type Item = u64;

    open spec fn items(&self) -> Seq<u64> {
        Seq::new((self.end - self.start) as nat, |i: int| (self.start + i) as u64)
    }

    open spec fn controlled(&self) -> bool {
        true
    }

    open spec fn previewable(&self) -> bool {
        true
    }

    proof fn lemma_items_bound(&self) {
    }

    fn divide(self) -> (r: (Self, Self)) {
        let mid = self.start + (self.end - self.start) / 2;
        let left = RangeProducer { start: self.start, end: mid };
        let right = RangeProducer { start: mid, end: self.end };
        proof {
            assert(left.items() + right.items() =~= self.items());
        }
        (left, right)
    }

    fn divide_at(self, index: usize) -> (r: (Self, Self)) {
        let len = self.end - self.start;
        let idx = index as u64;
        let at = if idx < len {
            idx
        } else {
            len
        };
        let mid = self.start + at;
        let left = RangeProducer { start: self.start, end: mid };
        let right = RangeProducer { start: mid, end: self.end };
        proof {
            assert(left.items() + right.items() =~= self.items());
        }
        (left, right)
    }

    fn sizes(&self) -> (r: (usize, Option<usize>)) {
        let len = (self.end - self.start) as usize;
        (len, Some(len))
    }

    fn preview(&self, index: usize) -> (r: u64) {
        self.start + (index as u64)
    }

    fn next(&mut self) -> (r: Option<u64>) {
        if self.start < self.end {
            let v = self.start;
            self.start = self.start + 1;
            proof {
                assert(self.items() =~= old(self).items().skip(1));
                assert(v == old(self).items()[0]);
            }
            Some(v)
        } else {
            None
        }
    }

    fn next_back(&mut self) -> (r: Option<u64>) {
        if self.start < self.end {
            self.end = self.end - 1;
            let v = self.end;
            proof {
                assert(self.items() =~= old(self).items().drop_last());
                assert(v == old(self).items().last());
            }
            Some(v)
        } else {
            None
        }
    }

    #[verifier::loop_isolation(false)]
    fn partial_fold<A, F: FoldOp<u64, A>>(self, init: A, f: F, limit: usize) -> (r: (
        Self,
        A,
        Ghost<int>,
    )) {
        let mut cur = self;
        let ghost orig = cur;
        let mut acc = init;
        let mut count: usize = 0;
        while count < limit && cur.start < cur.end
            invariant
                orig.wf(),
                cur.wf(),
                cur.end == orig.end,
                count <= limit,
                count as nat <= orig.work(),
                cur.start as int == orig.start + count,
                acc == seq_fold(f, init, orig.items().take(count as int)),
            decreases limit - count,
        {
            let v = cur.start;
            proof {
                assert(v == orig.items()[count as int]);
                assert(orig.items().take(count as int + 1) =~= orig.items().take(
                    count as int,
                ).push(orig.items()[count as int]));
                lemma_seq_fold_snoc(f, init, orig.items().take(count as int), orig.items()[count
                    as int]);
            }
            acc = f.apply(acc, v);
            cur.start = cur.start + 1;
            count = count + 1;
        }
        proof {
            assert(cur.items() =~= orig.items().skip(count as int));
            assert(folded_prefix(orig.items(), cur.items(), f, init, acc, count as int));
        }
        (cur, acc, Ghost(count as int))
    }

    #[verifier::loop_isolation(false)]
    fn partial_try_fold<A, B, F: TryFoldOp<u64, A, B>>(self, init: A, f: F, limit: usize) -> (r:
        (Self, FoldResult<A, B>, Ghost<int>)) {
        let mut cur = self;
        let ghost orig = cur;
        let mut acc = init;
        let mut count: usize = 0;
        while count < limit && cur.start < cur.end
            invariant
                orig.wf(),
                cur.wf(),
                cur.end == orig.end,
                count <= limit,
                count as nat <= orig.work(),
                cur.start as int == orig.start + count,
                seq_try_fold(f, init, orig.items().take(count as int)) == FoldResult::<
                    A,
                    B,
                >::Continue(acc),
            decreases limit - count,
        {
            let v = cur.start;
            proof {
                assert(v == orig.items()[count as int]);
                assert(orig.items().take(count as int + 1) =~= orig.items().take(
                    count as int,
                ).push(orig.items()[count as int]));
                lemma_seq_try_fold_snoc(f, init, orig.items().take(count as int), orig.items()[
                    count as int]);
            }
            let step = f.apply(acc, v);
            cur.start = cur.start + 1;
            count = count + 1;
            match step {
                FoldResult::Continue(a) => {
                    acc = a;
                },
                FoldResult::Break(b) => {
                    let out = FoldResult::Break(b);
                    proof {
                        assert(cur.items() =~= orig.items().skip(count as int));
                        assert(try_folded_prefix(orig.items(), cur.items(), f, init, out, count as int));
                    }
                    return (cur, out, Ghost(count as int));
                },
            }
        }
        let out = FoldResult::Continue(acc);
        proof {
            assert(cur.items() =~= orig.items().skip(count as int));
            assert(try_folded_prefix(orig.items(), cur.items(), f, init, out, count as int));
        }
        (cur, out, Ghost(count as int))
    }

    fn micro_block_sizes(&self) -> (r: (usize, usize)) {
        (1, 4096)
    }
}

impl ScheduledProducer for RangeProducer {
    type Sched = Adaptive;

    fn scheduler(&self) -> (s: Adaptive) {
        Adaptive
    }
}

/// A parallel iterator over the integers in `start .. end`: the root of a
/// composition, bottoming out in a `RangeProducer` driven by the producer's
/// own scheduling policy.
pub struct ParRange {
    pub start: u64,
    pub end: u64,
}

impl ParallelIterator for ParRange {
    type Item = u64;

    open spec fn wf(&self) -> bool {
        self.start <= self.end && self.end - self.start <= usize::MAX
    }

    open spec fn elements(&self) -> Seq<u64> {
        Seq::new((self.end - self.start) as nat, |i: int| (self.start + i) as u64)
    }

    open spec fn with_producer_allowed(&self) -> bool {
        true
    }

    fn drive<C: Consumer<u64>>(self, consumer: C) -> (r: C::Result) {
        let producer = RangeProducer { start: self.start, end: self.end };
        let sched = producer.scheduler();
        sched.run(producer, consumer)
    }

    fn with_producer<CB: ProducerCallback<u64>>(self, callback: CB) -> (r: CB::Output) {
        callback.call(RangeProducer { start: self.start, end: self.end })
    }
}

} // verus!
