//! The filtering adaptor, the representative nontrivial wrapper: its
//! producer narrows only the fold operations (skipping non-matching items
//! inside the bounded folds), reports honest size estimates, and disables
//! random-access preview, since filtering breaks positional correspondence.
use vstd::prelude::*;

use crate::consumer::{Consumer, Reducer};
use crate::par_iter::{ParallelIterator, ProducerCallback};
use crate::producer::{folded_prefix, try_folded_prefix, Divisible, Producer};
use crate::scheduler::ScheduledProducer;
use crate::signal::{pred_of, seq_fold, seq_try_fold, FoldOp, FoldResult, Predicate, TryFoldOp};

verus! {

/// A parallel iterator keeping only the items its predicate holds of.
pub struct Filter<I, F> {
    pub base: I,
    pub filter: F,
}

impl<I: ParallelIterator, F: Predicate<I::Item>> ParallelIterator for Filter<I, F> {
    type Item = I::Item;

    open spec fn wf(&self) -> bool {
        self.base.wf()
    }

    open spec fn elements(&self) -> Seq<I::Item> {
        self.base.elements().filter(pred_of(self.filter))
    }

    open spec fn with_producer_allowed(&self) -> bool {
        self.base.with_producer_allowed()
    }

    fn drive<C: Consumer<I::Item>>(self, consumer: C) -> (r: C::Result) {
        let c = FilterConsumer { base: consumer, filter: self.filter };
        self.base.drive(c)
    }

    fn with_producer<CB: ProducerCallback<I::Item>>(self, callback: CB) -> (r: CB::Output) {
        self.base.with_producer(FilterCallback { callback, filter: self.filter })
    }
}

/// The pull-model wrapper: hands the inner callback a filtering producer.
pub struct FilterCallback<CB, F> {
    pub callback: CB,
    pub filter: F,
}

impl<T, F: Predicate<T>, CB: ProducerCallback<T>> ProducerCallback<T> for FilterCallback<
    CB,
    F,
> {
    type Output = CB::Output;

    open spec fn wf(&self) -> bool {
        self.callback.wf()
    }

    open spec fn post(&self, items: Seq<T>, out: CB::Output) -> bool {
        self.callback.post(items.filter(pred_of(self.filter)), out)
    }

    fn call<P: ScheduledProducer<Item = T>>(self, producer: P) -> (r: CB::Output) {
        let producer = FilterProducer { base: producer, filter: self.filter };
        self.callback.call(producer)
    }
}

/// A producer that yields only the items of its base that the predicate
/// holds of. Uncontrolled (the exact filtered size is unknown up front) and
/// not previewable; its raw work is the base's, so bounded folds retire base
/// work even when few items survive the filter.
pub struct FilterProducer<I, F> {
    pub base: I,
    pub filter: F,
}

impl<I: Producer, Pr: Predicate<I::Item>> Divisible for FilterProducer<I, Pr> {
    open spec fn wf(&self) -> bool {
        self.base.wf()
    }

    open spec fn work(&self) -> nat {
        self.base.work()
    }

    open spec fn divisible(&self) -> bool {
        self.base.divisible()
    }

    proof fn lemma_divisible(&self) {
        self.base.lemma_divisible();
    }

    fn should_be_divided(&self) -> (r: bool) {
        self.base.should_be_divided()
    }
}

impl<I: Producer, Pr: Predicate<I::Item>> Producer for FilterProducer<I, Pr> {
    type Item = I::Item;

    open spec fn items(&self) -> Seq<I::Item> {
        self.base.items().filter(pred_of(self.filter))
    }

    open spec fn controlled(&self) -> bool {
        false
    }

    open spec fn previewable(&self) -> bool {
        false
    }

    proof fn lemma_items_bound(&self) {
        self.base.lemma_items_bound();
        self.base.items().lemma_filter_len(pred_of(self.filter));
    }

    fn divide(self) -> (r: (Self, Self)) {
        let ghost whole = self;
        let (left, right) = self.base.divide();
        proof {
            Seq::filter_distributes_over_add(left.items(), right.items(), pred_of(whole.filter));
        }
        (
            FilterProducer { base: left, filter: self.filter },
            FilterProducer { base: right, filter: self.filter },
        )
    }

    fn divide_at(self, index: usize) -> (r: (Self, Self)) {
        let ghost whole = self;
        let (left, right) = self.base.divide_at(index);
        proof {
            Seq::filter_distributes_over_add(left.items(), right.items(), pred_of(whole.filter));
        }
        (
            FilterProducer { base: left, filter: self.filter },
            FilterProducer { base: right, filter: self.filter },
        )
    }

    fn sizes(&self) -> (r: (usize, Option<usize>))
        ensures
            r.0 == 0usize,
    {
        let (_, upper) = self.base.sizes();
        proof {
            self.base.items().lemma_filter_len(pred_of(self.filter));
        }
        (0, upper)
    }

    fn preview(&self, index: usize) -> (r: I::Item) {
        proof {
            assert(false);
        }
        vstd::pervasive::unreached()
    }

    #[verifier::loop_isolation(false)]
    fn next(&mut self) -> (r: Option<I::Item>) {
        loop
            invariant
                self.wf(),
                self.filter == old(self).filter,
                self.items() == old(self).items(),
                self.work() <= old(self).work(),
            decreases self.base.work(),
        {
            let ghost prev = *self;
            let nx = self.base.next();
            match nx {
                None => {
                    proof {
                        prev.base.items().lemma_filter_len(pred_of(prev.filter));
                    }
                    return None;
                },
                Some(e) => {
                    let keep = self.filter.test(&e);
                    proof {
                        let p = pred_of(prev.filter);
                        assert(seq![e] + self.base.items() =~= prev.base.items());
                        self.base.items().lemma_filter_prepend(e, p);
                    }
                    if keep {
                        proof {
                            assert(prev.items() =~= seq![e] + self.items());
                            assert(old(self).items()[0] == e);
                            assert(old(self).items().skip(1) =~= self.items());
                        }
                        return Some(e);
                    }
                    proof {
                        assert(self.items() =~= prev.items());
                    }
                },
            }
        }
    }

    #[verifier::loop_isolation(false)]
    fn next_back(&mut self) -> (r: Option<I::Item>) {
        loop
            invariant
                self.wf(),
                self.filter == old(self).filter,
                self.items() == old(self).items(),
                self.work() <= old(self).work(),
            decreases self.base.work(),
        {
            let ghost prev = *self;
            let nx = self.base.next_back();
            match nx {
                None => {
                    proof {
                        prev.base.items().lemma_filter_len(pred_of(prev.filter));
                    }
                    return None;
                },
                Some(e) => {
                    let keep = self.filter.test(&e);
                    proof {
                        let p = pred_of(prev.filter);
                        assert(self.base.items().push(e) =~= prev.base.items());
                        self.base.items().lemma_filter_push(e, p);
                    }
                    if keep {
                        proof {
                            assert(prev.items() =~= self.items().push(e));
                            assert(old(self).items().last() == e);
                            assert(old(self).items().drop_last() =~= self.items());
                        }
                        return Some(e);
                    }
                    proof {
                        assert(self.items() =~= prev.items());
                    }
                },
            }
        }
    }

    fn partial_fold<A, F: FoldOp<I::Item, A>>(self, init: A, f: F, limit: usize) -> (r: (
        Self,
        A,
        Ghost<int>,
    )) {
        let ghost orig = self;
        let wrapped = filter_fold(self.filter, f);
        let (rest, val, wit) = self.base.partial_fold(init, wrapped, limit);
        let ghost n = wit@;
        let ghost p = pred_of(orig.filter);
        let ghost m = orig.base.items().take(n).filter(p).len() as int;
        let result = (FilterProducer { base: rest, filter: self.filter }, val, Ghost(m));
        proof {
            let bt = orig.base.items().take(n);
            let bs = orig.base.items().skip(n);
            assert(bt + bs =~= orig.base.items());
            Seq::filter_distributes_over_add(bt, bs, p);
            lemma_filter_fold_equiv(wrapped, init, bt);
            assert(orig.items().take(m) =~= bt.filter(p));
            assert(orig.items().skip(m) =~= bs.filter(p));
            assert(folded_prefix(orig.items(), result.0.items(), f, init, result.1, result.2@));
        }
        result
    }

    fn partial_try_fold<A, B, F: TryFoldOp<I::Item, A, B>>(
        self,
        init: A,
        f: F,
        limit: usize,
    ) -> (r: (Self, FoldResult<A, B>, Ghost<int>)) {
        let ghost orig = self;
        let mut pred = self.filter;
        let wrapped = filter_try_fold(&mut pred, f);
        let (rest, val, wit) = self.base.partial_try_fold(init, wrapped, limit);
        let ghost n = wit@;
        let ghost p = pred_of(orig.filter);
        let ghost m = orig.base.items().take(n).filter(p).len() as int;
        let result = (FilterProducer { base: rest, filter: pred }, val, Ghost(m));
        proof {
            let bt = orig.base.items().take(n);
            let bs = orig.base.items().skip(n);
            assert(bt + bs =~= orig.base.items());
            Seq::filter_distributes_over_add(bt, bs, p);
            lemma_filter_try_fold_equiv(wrapped, init, bt);
            assert(orig.items().take(m) =~= bt.filter(p));
            assert(orig.items().skip(m) =~= bs.filter(p));
            assert(try_folded_prefix(orig.items(), result.0.items(), f, init, result.1, result.2@));
        }
        result
    }

    fn micro_block_sizes(&self) -> (r: (usize, usize)) {
        self.base.micro_block_sizes()
    }
}

impl<I: ScheduledProducer, Pr: Predicate<I::Item>> ScheduledProducer for FilterProducer<
    I,
    Pr,
> {
    type Sched = I::Sched;

    fn scheduler(&self) -> (s: I::Sched) {
        self.base.scheduler()
    }
}

/// A fold step that applies `fold` only to items the predicate holds of and
/// passes the accumulator through unchanged otherwise.
#[derive(Clone, Copy)]
pub struct FilterFold<Pr, G> {
    pub predicate: Pr,
    pub fold: G,
}

impl<T, A, Pr: Predicate<T>, G: FoldOp<T, A>> FoldOp<T, A> for FilterFold<Pr, G> {
    open spec fn op(&self, acc: A, item: T) -> A {
        if self.predicate.holds(item) {
            self.fold.op(acc, item)
        } else {
            acc
        }
    }

    fn apply(&self, acc: A, item: T) -> (r: A) {
        if self.predicate.test(&item) {
            self.fold.apply(acc, item)
        } else {
            acc
        }
    }
}

/// Narrow an unconditional fold step to the items a predicate holds of.
pub fn filter_fold<T, A, Pr: Predicate<T>, G: FoldOp<T, A>>(predicate: Pr, fold: G) -> (r:
    FilterFold<Pr, G>)
    ensures
        r == (FilterFold { predicate, fold }),
{
    FilterFold { predicate, fold }
}

/// A short-circuiting fold step that applies `fold` only to items the
/// predicate holds of, and continues with the accumulator unchanged
/// otherwise.
#[derive(Clone, Copy)]
pub struct FilterTryFold<Pr, G> {
    pub predicate: Pr,
    pub fold: G,
}

impl<T, A, B, Pr: Predicate<T>, G: TryFoldOp<T, A, B>> TryFoldOp<T, A, B> for FilterTryFold<
    Pr,
    G,
> {
    open spec fn op(&self, acc: A, item: T) -> FoldResult<A, B> {
        if self.predicate.holds(item) {
            self.fold.op(acc, item)
        } else {
            FoldResult::Continue(acc)
        }
    }

    fn apply(&self, acc: A, item: T) -> (r: FoldResult<A, B>) {
        if self.predicate.test(&item) {
            self.fold.apply(acc, item)
        } else {
            FoldResult::Continue(acc)
        }
    }
}

/// Narrow a short-circuiting fold step to the items a predicate holds of.
pub fn filter_try_fold<T, A, B, Pr: Predicate<T>, G: TryFoldOp<T, A, B>>(
    predicate: &mut Pr,
    fold: G,
) -> (r: FilterTryFold<Pr, G>)
    ensures
        r == (FilterTryFold { predicate: *old(predicate), fold }),
        *final(predicate) == *old(predicate),
{
    FilterTryFold { predicate: *predicate, fold }
}

/// Folding a sequence through a narrowed step equals folding its filtered
/// sequence through the original step.
pub proof fn lemma_filter_fold_equiv<T, A, Pr: Predicate<T>, G: FoldOp<T, A>>(
    w: FilterFold<Pr, G>,
    init: A,
    s: Seq<T>,
)
    ensures
        seq_fold(w, init, s) == seq_fold(w.fold, init, s.filter(pred_of(w.predicate))),
    decreases s.len(),
{
    let p = pred_of(w.predicate);
    if s.len() == 0 {
        s.lemma_filter_len(p);
        assert(s.filter(p) =~= Seq::<T>::empty());
    } else {
        let tail = s.skip(1);
        assert(seq![s[0]] + tail =~= s);
        tail.lemma_filter_prepend(s[0], p);
        lemma_filter_fold_equiv(w, w.op(init, s[0]), tail);
        if p(s[0]) {
            assert((seq![s[0]] + tail.filter(p))[0] == s[0]);
            assert((seq![s[0]] + tail.filter(p)).skip(1) =~= tail.filter(p));
        } else {
            assert(Seq::<T>::empty() + tail.filter(p) =~= tail.filter(p));
        }
    }
}

/// Short-circuiting analogue of `lemma_filter_fold_equiv`.
pub proof fn lemma_filter_try_fold_equiv<T, A, B, Pr: Predicate<T>, G: TryFoldOp<T, A, B>>(
    w: FilterTryFold<Pr, G>,
    init: A,
    s: Seq<T>,
)
    ensures
        seq_try_fold(w, init, s) == seq_try_fold(w.fold, init, s.filter(pred_of(w.predicate))),
    decreases s.len(),
{
    let p = pred_of(w.predicate);
    if s.len() == 0 {
        s.lemma_filter_len(p);
        assert(s.filter(p) =~= Seq::<T>::empty());
    } else {
        let tail = s.skip(1);
        assert(seq![s[0]] + tail =~= s);
        tail.lemma_filter_prepend(s[0], p);
        if p(s[0]) {
            assert((seq![s[0]] + tail.filter(p))[0] == s[0]);
            assert((seq![s[0]] + tail.filter(p)).skip(1) =~= tail.filter(p));
            match w.op(init, s[0]) {
                FoldResult::Continue(a) => {
                    lemma_filter_try_fold_equiv(w, a, tail);
                },
                FoldResult::Break(_) => {},
            }
        } else {
            assert(Seq::<T>::empty() + tail.filter(p) =~= tail.filter(p));
            lemma_filter_try_fold_equiv(w, init, tail);
        }
    }
}

/// A consumer that keeps only the items its predicate holds of and feeds
/// them to its base consumer, by pairing the base with a filtering view of
/// whatever producer it is given.
pub struct FilterConsumer<C, F> {
    pub base: C,
    pub filter: F,
}

impl<T, F: Predicate<T>, C: Consumer<T>> Consumer<T> for FilterConsumer<C, F> {
    type Result = C::Result;

    type Model = C::Model;

    type Reducer = C::Reducer;

    open spec fn wf(&self) -> bool {
        self.base.wf()
    }

    open spec fn model(&self, r: C::Result) -> C::Model {
        self.base.model(r)
    }

    open spec fn semantics(&self, items: Seq<T>) -> C::Model {
        self.base.semantics(items.filter(pred_of(self.filter)))
    }

    open spec fn combine(&self, a: C::Model, b: C::Model) -> C::Model {
        self.base.combine(a, b)
    }

    proof fn lemma_homomorphism(&self, a: Seq<T>, b: Seq<T>) {
        let p = pred_of(self.filter);
        Seq::filter_distributes_over_add(a, b, p);
        self.base.lemma_homomorphism(a.filter(p), b.filter(p));
    }

    fn fork(&self) -> (r: (Self, Self)) {
        let (b1, b2) = self.base.fork();
        let r = (
            FilterConsumer { base: b1, filter: self.filter },
            FilterConsumer { base: b2, filter: self.filter },
        );
        proof {
            assert forall|items: Seq<T>| #[trigger] r.0.semantics(items) == self.semantics(
                items,
            ) by {
                assert(b1.semantics(items.filter(pred_of(self.filter))) == self.base.semantics(
                    items.filter(pred_of(self.filter)),
                ));
            }
            assert forall|items: Seq<T>| #[trigger] r.1.semantics(items) == self.semantics(
                items,
            ) by {
                assert(b2.semantics(items.filter(pred_of(self.filter))) == self.base.semantics(
                    items.filter(pred_of(self.filter)),
                ));
            }
        }
        r
    }

    fn consume_producer<P: Producer<Item = T>>(self, producer: P) -> (r: C::Result) {
        let filter_producer = FilterProducer { base: producer, filter: self.filter };
        self.base.consume_producer(filter_producer)
    }

    fn to_reducer(self) -> (r: C::Reducer) {
        self.base.to_reducer()
    }

    open spec fn saturated(&self, r: C::Result) -> bool {
        self.base.saturated(r)
    }

    proof fn lemma_saturated(&self, r: C::Result, m: C::Model) {
        self.base.lemma_saturated(r, m);
    }

    fn is_full(&self, r: &C::Result) -> (b: bool) {
        self.base.is_full(r)
    }
}

} // verus!
