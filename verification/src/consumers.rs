//! Ready-made sinks: a wrapping sum, a short-circuiting first-match search,
//! and a collector — together with the predicates the examples and tests use.
use vstd::prelude::*;

use crate::consumer::{Consumer, Reducer};
use crate::producer::{folded_prefix, try_folded_prefix, Producer};
use crate::signal::{
    lemma_seq_fold_app, seq_fold, FoldOp, FoldResult, Predicate, TryFoldOp,
};

verus! {

/// Addition on `u64`, wrapping around on overflow.
pub open spec fn add64(a: u64, b: u64) -> u64 {
    if a + b > u64::MAX {
        (a + b - 0x1_0000_0000_0000_0000) as u64
    } else {
        (a + b) as u64
    }
}

/// Saturating increment on `u64`.
pub open spec fn inc64(c: u64) -> u64 {
    if c < u64::MAX {
        (c + 1) as u64
    } else {
        c
    }
}

/// The fold step of the wrapping sum.
#[derive(Clone, Copy)]
pub struct SumOp;

impl FoldOp<u64, u64> for SumOp {
    open spec fn op(&self, acc: u64, item: u64) -> u64 {
        add64(acc, item)
    }

    fn apply(&self, acc: u64, item: u64) -> (r: u64) {
        acc.wrapping_add(item)
    }
}

/// The wrapping sum of a sequence.
pub open spec fn wrapped_sum(items: Seq<u64>) -> u64 {
    seq_fold(SumOp, 0u64, items)
}

/// Folding a sum from any starting accumulator adds the sequence's own sum to
/// it.
pub proof fn lemma_sum_shift(init: u64, items: Seq<u64>)
    ensures
        seq_fold(SumOp, init, items) == add64(init, wrapped_sum(items)),
    decreases items.len(),
{
    if items.len() == 0 {
    } else {
        lemma_sum_shift(add64(init, items[0]), items.skip(1));
        lemma_sum_shift(add64(0u64, items[0]), items.skip(1));
        assert(add64(add64(init, items[0]), wrapped_sum(items.skip(1))) == add64(
            init,
            add64(items[0], wrapped_sum(items.skip(1))),
        ));
    }
}

/// The wrapping sum is a homomorphism from concatenation to wrapping
/// addition.
pub proof fn lemma_wrapped_sum_app(a: Seq<u64>, b: Seq<u64>)
    ensures
        wrapped_sum(a + b) == add64(wrapped_sum(a), wrapped_sum(b)),
{
    lemma_seq_fold_app(SumOp, 0u64, a, b);
    lemma_sum_shift(wrapped_sum(a), b);
}

/// Combines partial sums by wrapping addition.
pub struct SumReducer;

impl Reducer<u64, u64> for SumReducer {
    open spec fn wf(&self) -> bool {
        true
    }

    open spec fn combine(&self, a: u64, b: u64) -> u64 {
        add64(a, b)
    }

    open spec fn model(&self, r: u64) -> u64 {
        r
    }

    fn reduce(&self, a: u64, b: u64) -> (r: u64) {
        a.wrapping_add(b)
    }
}

/// Sums the items it consumes, wrapping on overflow: an order-insensitive,
/// associative accumulation.
pub struct SumConsumer;

impl Consumer<u64> for SumConsumer {
    type Result = u64;

    type Model = u64;

    type Reducer = SumReducer;

    open spec fn wf(&self) -> bool {
        true
    }

    open spec fn model(&self, r: u64) -> u64 {
        r
    }

    open spec fn semantics(&self, items: Seq<u64>) -> u64 {
        wrapped_sum(items)
    }

    open spec fn combine(&self, a: u64, b: u64) -> u64 {
        add64(a, b)
    }

    proof fn lemma_homomorphism(&self, a: Seq<u64>, b: Seq<u64>) {
        lemma_wrapped_sum_app(a, b);
    }

    fn fork(&self) -> (r: (Self, Self)) {
        (SumConsumer, SumConsumer)
    }

    #[verifier::loop_isolation(false)]
    fn consume_producer<P: Producer<Item = u64>>(self, producer: P) -> (r: u64) {
        let mut p = producer;
        let ghost all = p.items();
        let mut acc: u64 = 0;
        let (bmin, bmax) = p.micro_block_sizes();
        let mut block = bmin;
        let ghost mut consumed: Seq<u64> = Seq::empty();
        proof {
            assert(consumed + p.items() =~= p.items());
        }
        loop
            invariant
                p.wf(),
                all == consumed + p.items(),
                acc == wrapped_sum(consumed),
                block >= 1,
            decreases p.work(),
        {
            let (_, upper) = p.sizes();
            if let Some(u) = upper {
                if u == 0 {
                    proof {
                        assert(consumed + p.items() =~= consumed);
                    }
                    return acc;
                }
            }
            proof {
                assert(p.work() > 0);
            }
            let ghost pre = p;
            let ghost acc0 = acc;
            let (rest, folded_acc, wit) = p.partial_fold(acc, SumOp, block);
            p = rest;
            acc = folded_acc;
            proof {
                let n = wit@;
                assert(folded_prefix(pre.items(), p.items(), SumOp, acc0, acc, n));
                lemma_seq_fold_app(SumOp, 0u64, consumed, pre.items().take(n));
                assert((consumed + pre.items().take(n)) + p.items() =~= consumed + pre.items());
                consumed = consumed + pre.items().take(n);
            }
            if block < bmax {
                block = if block <= bmax / 2 {
                    block * 2
                } else {
                    bmax
                };
            }
        }
    }

    fn to_reducer(self) -> (r: SumReducer) {
        SumReducer
    }

    open spec fn saturated(&self, r: u64) -> bool {
        false
    }

    proof fn lemma_saturated(&self, r: u64, m: u64) {
    }

    fn is_full(&self, r: &u64) -> (b: bool) {
        false
    }
}

/// The first item of a sequence that a predicate holds of.
pub open spec fn first_match<T, Pr: Predicate<T>>(pr: Pr, items: Seq<T>) -> Option<T>
    decreases items.len(),
{
    if items.len() == 0 {
        None
    } else if pr.holds(items[0]) {
        Some(items[0])
    } else {
        first_match(pr, items.skip(1))
    }
}

/// The first match of a concatenation is the left part's match if there is
/// one, and the right part's otherwise: the order-sensitive combination that
/// keeps a leftmost search deterministic under division.
pub proof fn lemma_first_match_app<T, Pr: Predicate<T>>(pr: Pr, a: Seq<T>, b: Seq<T>)
    ensures
        first_match(pr, a + b) == (match first_match(pr, a) {
            Some(t) => Some(t),
            None => first_match(pr, b),
        }),
    decreases a.len(),
{
    if a.len() == 0 {
        assert(a + b =~= b);
    } else {
        assert((a + b)[0] == a[0]);
        assert((a + b).skip(1) =~= a.skip(1) + b);
        if !pr.holds(a[0]) {
            lemma_first_match_app(pr, a.skip(1), b);
        }
    }
}

/// How many items a left-to-right scan for the first match examines: the
/// match's position plus one, or all of them when nothing matches.
pub open spec fn scanned_len<T, Pr: Predicate<T>>(pr: Pr, items: Seq<T>) -> nat
    decreases items.len(),
{
    if items.len() == 0 {
        0
    } else if pr.holds(items[0]) {
        1
    } else {
        1 + scanned_len(pr, items.skip(1))
    }
}

/// The scan never examines more items than there are; it examines all of
/// them exactly when nothing matches, and the match's position plus one —
/// at least one — when something does.
pub proof fn lemma_scanned_len_bounds<T, Pr: Predicate<T>>(pr: Pr, items: Seq<T>)
    ensures
        scanned_len(pr, items) <= items.len(),
        first_match(pr, items) is None ==> scanned_len(pr, items) == items.len(),
        first_match(pr, items) is Some ==> scanned_len(pr, items) >= 1,
    decreases items.len(),
{
    if items.len() > 0 && !pr.holds(items[0]) {
        lemma_scanned_len_bounds(pr, items.skip(1));
    }
}

/// Scanning a concatenation: a match in the left part settles the scan
/// there; otherwise the whole left part is examined and the scan goes on
/// into the right part.
pub proof fn lemma_scanned_len_app<T, Pr: Predicate<T>>(pr: Pr, a: Seq<T>, b: Seq<T>)
    ensures
        scanned_len(pr, a + b) == (if first_match(pr, a) is Some {
            scanned_len(pr, a)
        } else {
            a.len() + scanned_len(pr, b)
        }),
    decreases a.len(),
{
    if a.len() == 0 {
        assert(a + b =~= b);
    } else {
        assert((a + b)[0] == a[0]);
        assert((a + b).skip(1) =~= a.skip(1) + b);
        if !pr.holds(a[0]) {
            lemma_scanned_len_app(pr, a.skip(1), b);
        }
    }
}

/// The short-circuiting fold step of the first-match search: counts every
/// item it examines, and breaks with the first item the predicate holds of.
#[derive(Clone, Copy)]
pub struct FindOp<Pr> {
    pub predicate: Pr,
}

impl<T, Pr: Predicate<T>> TryFoldOp<T, u64, (u64, T)> for FindOp<Pr> {
    open spec fn op(&self, acc: u64, item: T) -> FoldResult<u64, (u64, T)> {
        if self.predicate.holds(item) {
            FoldResult::Break((inc64(acc), item))
        } else {
            FoldResult::Continue(inc64(acc))
        }
    }

    fn apply(&self, acc: u64, item: T) -> (r: FoldResult<u64, (u64, T)>) {
        let c = if acc < u64::MAX {
            acc + 1
        } else {
            acc
        };
        if self.predicate.test(&item) {
            FoldResult::Break((c, item))
        } else {
            FoldResult::Continue(c)
        }
    }
}

/// The first-match fold breaks exactly when the sequence holds a match, and
/// the terminal value carries that first match.
pub proof fn lemma_find_try_fold<T, Pr: Predicate<T>>(pr: Pr, init: u64, items: Seq<T>)
    ensures
        (match crate::signal::seq_try_fold(FindOp { predicate: pr }, init, items) {
            FoldResult::Continue(_) => first_match(pr, items) is None,
            FoldResult::Break(ct) => first_match(pr, items) == Some(ct.1),
        }),
    decreases items.len(),
{
    if items.len() > 0 {
        if !pr.holds(items[0]) {
            lemma_find_try_fold(pr, inc64(init), items.skip(1));
        }
    }
}

/// The first-match fold's count is exact: as long as it cannot overflow, the
/// fold examines — and counts — exactly `scanned_len` items, and carries the
/// first match out in its terminal value.
pub proof fn lemma_find_count<T, Pr: Predicate<T>>(pr: Pr, init: u64, items: Seq<T>)
    requires
        init + items.len() <= u64::MAX,
    ensures
        (match crate::signal::seq_try_fold(FindOp { predicate: pr }, init, items) {
            FoldResult::Continue(c) => first_match(pr, items) is None && c as int == init
                + items.len(),
            FoldResult::Break(ct) => first_match(pr, items) == Some(ct.1) && ct.0 as int == init
                + scanned_len(pr, items),
        }),
    decreases items.len(),
{
    if items.len() > 0 {
        if !pr.holds(items[0]) {
            lemma_find_count(pr, inc64(init), items.skip(1));
        }
    }
}

/// Combines first-match results left before right, adding the examined-item
/// counts (saturating).
pub struct FindReducer;

impl<T> Reducer<(Option<T>, u64), Option<T>> for FindReducer {
    open spec fn wf(&self) -> bool {
        true
    }

    open spec fn combine(&self, a: Option<T>, b: Option<T>) -> Option<T> {
        if a is Some {
            a
        } else {
            b
        }
    }

    open spec fn model(&self, r: (Option<T>, u64)) -> Option<T> {
        r.0
    }

    fn reduce(&self, a: (Option<T>, u64), b: (Option<T>, u64)) -> (r: (Option<T>, u64))
        ensures
            r.1 as int == (if a.1 + b.1 <= u64::MAX {
                a.1 + b.1
            } else {
                u64::MAX as int
            }),
    {
        let total = if a.1 <= u64::MAX - b.1 {
            a.1 + b.1
        } else {
            u64::MAX
        };
        match a.0 {
            Some(t) => (Some(t), total),
            None => (b.0, total),
        }
    }
}

/// Finds the leftmost item a predicate holds of, short-circuiting the rest of
/// the computation. Beside the match it reports how many items it examined;
/// for a plain sequential consumption that count is exactly `scanned_len`,
/// while a divided run may examine more, so only the match is part of the
/// result's model.
pub struct FindConsumer<Pr> {
    pub predicate: Pr,
}

impl<T, Pr: Predicate<T>> Consumer<T> for FindConsumer<Pr> {
    type Result = (Option<T>, u64);

    type Model = Option<T>;

    type Reducer = FindReducer;

    open spec fn wf(&self) -> bool {
        true
    }

    open spec fn model(&self, r: (Option<T>, u64)) -> Option<T> {
        r.0
    }

    open spec fn semantics(&self, items: Seq<T>) -> Option<T> {
        first_match(self.predicate, items)
    }

    open spec fn combine(&self, a: Option<T>, b: Option<T>) -> Option<T> {
        if a is Some {
            a
        } else {
            b
        }
    }

    proof fn lemma_homomorphism(&self, a: Seq<T>, b: Seq<T>) {
        lemma_first_match_app(self.predicate, a, b);
    }

    fn fork(&self) -> (r: (Self, Self)) {
        (FindConsumer { predicate: self.predicate }, FindConsumer { predicate: self.predicate })
    }

    #[verifier::loop_isolation(false)]
    fn consume_producer<P: Producer<Item = T>>(self, producer: P) -> (r: (Option<T>, u64))
        ensures
            r.1 as int == scanned_len(self.predicate, producer.items()),
    {
        let mut p = producer;
        let ghost all = p.items();
        let op = FindOp { predicate: self.predicate };
        let mut count: u64 = 0;
        let (bmin, bmax) = p.micro_block_sizes();
        let mut block = bmin;
        let ghost mut consumed: Seq<T> = Seq::empty();
        proof {
            p.lemma_items_bound();
            assert(consumed + p.items() =~= p.items());
        }
        loop
            invariant
                p.wf(),
                all == consumed + p.items(),
                first_match(self.predicate, consumed) is None,
                count as int == consumed.len(),
                block >= 1,
            decreases p.work(),
        {
            let (_, upper) = p.sizes();
            if let Some(u) = upper {
                if u == 0 {
                    proof {
                        assert(consumed + p.items() =~= consumed);
                        lemma_scanned_len_bounds(self.predicate, consumed);
                    }
                    return (None, count);
                }
            }
            proof {
                assert(p.work() > 0);
            }
            let ghost pre = p;
            let ghost count0 = count;
            let (rest, step, wit) = p.partial_try_fold(count, op, block);
            p = rest;
            let ghost n = wit@;
            proof {
                assert(try_folded_prefix(pre.items(), p.items(), op, count0, step, n));
                lemma_find_count(self.predicate, count0, pre.items().take(n));
                lemma_first_match_app(self.predicate, consumed, pre.items().take(n));
                lemma_scanned_len_bounds(self.predicate, consumed);
                lemma_scanned_len_app(self.predicate, consumed, pre.items().take(n));
                assert((consumed + pre.items().take(n)) + p.items() =~= consumed + pre.items());
                consumed = consumed + pre.items().take(n);
            }
            match step {
                FoldResult::Continue(c) => {
                    count = c;
                },
                FoldResult::Break(ct) => {
                    let (c, t) = ct;
                    proof {
                        lemma_first_match_app(self.predicate, consumed, p.items());
                        lemma_scanned_len_app(self.predicate, consumed, p.items());
                    }
                    return (Some(t), c);
                },
            }
            if block < bmax {
                block = if block <= bmax / 2 {
                    block * 2
                } else {
                    bmax
                };
            }
        }
    }

    fn to_reducer(self) -> (r: FindReducer) {
        FindReducer
    }

    open spec fn saturated(&self, r: (Option<T>, u64)) -> bool {
        r.0 is Some
    }

    proof fn lemma_saturated(&self, r: (Option<T>, u64), m: Option<T>) {
    }

    fn is_full(&self, r: &(Option<T>, u64)) -> (b: bool) {
        r.0.is_some()
    }
}

/// Combines collected prefixes by concatenation.
pub struct CollectReducer;

impl<T> Reducer<Vec<T>, Seq<T>> for CollectReducer {
    open spec fn wf(&self) -> bool {
        true
    }

    open spec fn combine(&self, a: Seq<T>, b: Seq<T>) -> Seq<T> {
        a + b
    }

    open spec fn model(&self, r: Vec<T>) -> Seq<T> {
        r@
    }

    fn reduce(&self, a: Vec<T>, b: Vec<T>) -> (r: Vec<T>) {
        let mut a = a;
        let mut b = b;
        a.append(&mut b);
        a
    }
}

/// Collects the items it consumes, in order: the identity accumulation.
pub struct CollectConsumer;

impl<T> Consumer<T> for CollectConsumer {
    type Result = Vec<T>;

    type Model = Seq<T>;

    type Reducer = CollectReducer;

    open spec fn wf(&self) -> bool {
        true
    }

    open spec fn model(&self, r: Vec<T>) -> Seq<T> {
        r@
    }

    open spec fn semantics(&self, items: Seq<T>) -> Seq<T> {
        items
    }

    open spec fn combine(&self, a: Seq<T>, b: Seq<T>) -> Seq<T> {
        a + b
    }

    proof fn lemma_homomorphism(&self, a: Seq<T>, b: Seq<T>) {
    }

    fn fork(&self) -> (r: (Self, Self)) {
        (CollectConsumer, CollectConsumer)
    }

    #[verifier::loop_isolation(false)]
    fn consume_producer<P: Producer<Item = T>>(self, producer: P) -> (r: Vec<T>) {
        let mut p = producer;
        let ghost all = p.items();
        let mut out: Vec<T> = Vec::new();
        proof {
            assert(out@ + p.items() =~= p.items());
        }
        loop
            invariant
                p.wf(),
                all == out@ + p.items(),
            decreases p.work(),
        {
            match p.next() {
                Some(x) => {
                    out.push(x);
                    proof {
                        assert(out@ + p.items() =~= all);
                    }
                },
                None => {
                    proof {
                        assert(out@ + p.items() =~= out@);
                    }
                    return out;
                },
            }
        }
    }

    fn to_reducer(self) -> (r: CollectReducer) {
        CollectReducer
    }

    open spec fn saturated(&self, r: Vec<T>) -> bool {
        false
    }

    proof fn lemma_saturated(&self, r: Vec<T>, m: Seq<T>) {
    }

    fn is_full(&self, r: &Vec<T>) -> (b: bool) {
        false
    }
}

/// Holds of items equal to `value`.
#[derive(Clone, Copy)]
pub struct EqValue {
    pub value: u64,
}

impl Predicate<u64> for EqValue {
    open spec fn holds(&self, item: u64) -> bool {
        item == self.value
    }

    fn test(&self, item: &u64) -> (r: bool) {
        *item == self.value
    }
}

/// Holds of items that are a multiple of `modulus` (of no item when the
/// modulus is zero).
#[derive(Clone, Copy)]
pub struct MultipleOf {
    pub modulus: u64,
}

impl Predicate<u64> for MultipleOf {
    open spec fn holds(&self, item: u64) -> bool {
        self.modulus != 0 && item % self.modulus == 0
    }

    fn test(&self, item: &u64) -> (r: bool) {
        self.modulus != 0 && *item % self.modulus == 0
    }
}

/// Holds of items at least as large as `bound`.
#[derive(Clone, Copy)]
pub struct AtLeast {
    pub bound: u64,
}

impl Predicate<u64> for AtLeast {
    open spec fn holds(&self, item: u64) -> bool {
        item >= self.bound
    }

    fn test(&self, item: &u64) -> (r: bool) {
        *item >= self.bound
    }
}

} // verus!
