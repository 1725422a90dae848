//! The scheduling-policy substitution adaptor: transparent to iteration and
//! splitting, its only effect is to install block-wise scheduling at the
//! point where consumption begins. It has no pull-model entry of its own,
//! since block-wise semantics only apply at the consumption entry point.
use vstd::prelude::*;

use crate::consumer::{Consumer, Reducer};
use crate::par_iter::{ParallelIterator, ProducerCallback};
use crate::producer::{folded_prefix, try_folded_prefix, Divisible, Producer};
use crate::scheduler::{ByBlocksScheduler, ScheduledProducer};
use crate::signal::{FoldOp, FoldResult, TryFoldOp};

verus! {

/// Wraps a parallel iterator, producer or consumer without changing what it
/// yields or means; only the advertised scheduling policy changes.
pub struct ByBlocks<I> {
    pub base: I,
}

impl<P: Producer> Divisible for ByBlocks<P> {
    open spec fn wf(&self) -> bool {
        self.base.wf()
    }

    open spec fn work(&self) -> nat {
        self.base.work()
    }

    open spec fn divisible(&self) -> bool {
        self.base.divisible()
    }

    proof fn lemma_divisible(&self) {
        self.base.lemma_divisible();
    }

    fn should_be_divided(&self) -> (r: bool) {
        self.base.should_be_divided()
    }
}

impl<P: Producer> Producer for ByBlocks<P> {
    type Item = P::Item;

    open spec fn items(&self) -> Seq<P::Item> {
        self.base.items()
    }

    open spec fn controlled(&self) -> bool {
        self.base.controlled()
    }

    open spec fn previewable(&self) -> bool {
        self.base.previewable()
    }

    proof fn lemma_items_bound(&self) {
        self.base.lemma_items_bound();
    }

    fn divide(self) -> (r: (Self, Self)) {
        let (left, right) = self.base.divide();
        (ByBlocks { base: left }, ByBlocks { base: right })
    }

    fn divide_at(self, index: usize) -> (r: (Self, Self)) {
        let (left, right) = self.base.divide_at(index);
        (ByBlocks { base: left }, ByBlocks { base: right })
    }

    fn sizes(&self) -> (r: (usize, Option<usize>)) {
        self.base.sizes()
    }

    fn preview(&self, index: usize) -> (r: P::Item) {
        self.base.preview(index)
    }

    fn next(&mut self) -> (r: Option<P::Item>) {
        self.base.next()
    }

    fn next_back(&mut self) -> (r: Option<P::Item>) {
        self.base.next_back()
    }

    fn partial_fold<A, F: FoldOp<P::Item, A>>(self, init: A, f: F, limit: usize) -> (r: (
        Self,
        A,
        Ghost<int>,
    )) {
        let (rest, val, wit) = self.base.partial_fold(init, f, limit);
        (ByBlocks { base: rest }, val, wit)
    }

    fn partial_try_fold<A, B, F: TryFoldOp<P::Item, A, B>>(
        self,
        init: A,
        f: F,
        limit: usize,
    ) -> (r: (Self, FoldResult<A, B>, Ghost<int>)) {
        let (rest, val, wit) = self.base.partial_try_fold(init, f, limit);
        (ByBlocks { base: rest }, val, wit)
    }

    fn micro_block_sizes(&self) -> (r: (usize, usize)) {
        self.base.micro_block_sizes()
    }
}

impl<P: ScheduledProducer> ScheduledProducer for ByBlocks<P> {
    type Sched = ByBlocksScheduler<P::Sched>;

    fn scheduler(&self) -> (s: ByBlocksScheduler<P::Sched>) {
        ByBlocksScheduler { inner_scheduler: self.base.scheduler() }
    }
}

impl<T, C: Consumer<T>> Consumer<T> for ByBlocks<C> {
    type Result = C::Result;

    type Model = C::Model;

    type Reducer = C::Reducer;

    open spec fn wf(&self) -> bool {
        self.base.wf()
    }

    open spec fn model(&self, r: C::Result) -> C::Model {
        self.base.model(r)
    }

    open spec fn semantics(&self, items: Seq<T>) -> C::Model {
        self.base.semantics(items)
    }

    open spec fn combine(&self, a: C::Model, b: C::Model) -> C::Model {
        self.base.combine(a, b)
    }

    proof fn lemma_homomorphism(&self, a: Seq<T>, b: Seq<T>) {
        self.base.lemma_homomorphism(a, b);
    }

    fn fork(&self) -> (r: (Self, Self)) {
        let (b1, b2) = self.base.fork();
        (ByBlocks { base: b1 }, ByBlocks { base: b2 })
    }

    fn consume_producer<P: Producer<Item = T>>(self, producer: P) -> (r: C::Result) {
        let producer = ByBlocks { base: producer };
        self.base.consume_producer(producer)
    }

    fn to_reducer(self) -> (r: C::Reducer) {
        self.base.to_reducer()
    }

    open spec fn saturated(&self, r: C::Result) -> bool {
        self.base.saturated(r)
    }

    proof fn lemma_saturated(&self, r: C::Result, m: C::Model) {
        self.base.lemma_saturated(r, m);
    }

    fn is_full(&self, r: &C::Result) -> (b: bool) {
        self.base.is_full(r)
    }
}

impl<I: ParallelIterator> ParallelIterator for ByBlocks<I> {
    type Item = I::Item;

    open spec fn wf(&self) -> bool {
        self.base.wf()
    }

    open spec fn elements(&self) -> Seq<I::Item> {
        self.base.elements()
    }

    open spec fn with_producer_allowed(&self) -> bool {
        false
    }

    fn drive<C: Consumer<I::Item>>(self, consumer: C) -> (r: C::Result) {
        let consumer = ByBlocks { base: consumer };
        self.base.drive(consumer)
    }

    fn with_producer<CB: ProducerCallback<I::Item>>(self, callback: CB) -> (r: CB::Output) {
        proof {
            assert(false);
        }
        vstd::pervasive::unreached()
    }
}

} // verus!
