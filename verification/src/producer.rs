//! The splitting and bounded-folding side of the engine: `Divisible` work
//! units and `Producer` sources.
//!
//! A producer is a linear value: it is either divided into two halves that
//! together carry exactly the items of the whole, or folded. `items` is the
//! sequence of items it still holds; `work` is the raw amount of underlying
//! work left (for a filtering producer, the unfiltered count), the measure by
//! which every division and every productive fold strictly shrinks.
use vstd::prelude::*;

use crate::signal::{seq_fold, seq_try_fold, FoldOp, FoldResult, TryFoldOp};

verus! {

/// Capability to report whether further division is profitable and to be
/// split into two ordered halves.
pub trait Divisible: Sized {
    /// Structural invariant of the work unit.
    spec fn wf(&self) -> bool;

    /// Raw work remaining: an upper bound on the items still to be produced,
    /// and the measure that splits and folds strictly decrease.
    spec fn work(&self) -> nat;

    /// Whether more than a minimal unit of work remains.
    spec fn divisible(&self) -> bool;

    /// A divisible unit holds at least two units of raw work, so both halves
    /// of a division are strictly smaller.
    proof fn lemma_divisible(&self)
        requires
            self.wf(),
            self.divisible(),
        ensures
            self.work() >= 2,
    ;

    /// Cheap, policy-independent division hint.
    fn should_be_divided(&self) -> (r: bool)
        requires
            self.wf(),
        ensures
            r == self.divisible(),
    ;
}

/// A sequential, splittable source of items supporting bounded partial
/// folding, size estimates, and (for controlled sources) random-access
/// preview.
pub trait Producer: Divisible {
    type Item;

    /// The items this producer still holds, in order.
    spec fn items(&self) -> Seq<Self::Item>;

    /// A controlled source knows its exact size: its raw work equals its item
    /// count, so splits land at exact item positions.
    spec fn controlled(&self) -> bool;

    /// Whether `preview` may be called. False for producers (such as
    /// filtering ones) that cannot support random access.
    spec fn previewable(&self) -> bool;

    /// Item count is bounded by raw work, raw work fits a machine word, and a
    /// controlled source has exactly as many items as raw work.
    proof fn lemma_items_bound(&self)
        requires
            self.wf(),
        ensures
            self.items().len() <= self.work(),
            self.work() <= usize::MAX,
            self.controlled() ==> self.items().len() == self.work(),
    ;

    /// Split at a near-midpoint. The halves together carry exactly the items
    /// of the whole, in order, and each half is strictly smaller.
    fn divide(self) -> (r: (Self, Self))
        requires
            self.wf(),
            self.divisible(),
        ensures
            r.0.wf(),
            r.1.wf(),
            r.0.items() + r.1.items() == self.items(),
            r.0.work() + r.1.work() == self.work(),
            r.0.work() < self.work(),
            r.1.work() < self.work(),
            r.0.controlled() == self.controlled(),
            r.1.controlled() == self.controlled(),
    ;

    /// Split exactly `index` units of raw work from the start (clamped to the
    /// available work, never failing).
    fn divide_at(self, index: usize) -> (r: (Self, Self))
        requires
            self.wf(),
        ensures
            r.0.wf(),
            r.1.wf(),
            r.0.items() + r.1.items() == self.items(),
            r.0.work() + r.1.work() == self.work(),
            index as nat <= self.work() ==> r.0.work() == index as nat,
            index as nat >= self.work() ==> r.1.work() == 0,
            r.0.controlled() == self.controlled(),
            r.1.controlled() == self.controlled(),
    ;

    /// Best-effort size estimate: a lower bound and an optional upper bound
    /// on the item count. A controlled source reports its exact size, and an
    /// exhausted source always reports an upper bound of zero.
    fn sizes(&self) -> (r: (usize, Option<usize>))
        requires
            self.wf(),
        ensures
            r.0 as nat <= self.items().len(),
            r.1 matches Some(u) ==> self.items().len() <= u as nat,
            self.work() == 0 ==> r.1 == Some(0usize),
            self.controlled() ==> r.0 as nat == self.items().len() && r.1 == Some(r.0),
    ;

    /// Random-access preview of the item at `index`, without consuming state.
    /// Only a previewable producer may be asked; on any other, the call is a
    /// composition error and is ruled out by the precondition.
    fn preview(&self, index: usize) -> (r: Self::Item)
        requires
            self.wf(),
            self.previewable(),
            (index as nat) < self.items().len(),
        ensures
            r == self.items()[index as int],
    ;

    /// Pop the first remaining item.
    fn next(&mut self) -> (r: Option<Self::Item>)
        requires
            old(self).wf(),
        ensures
            final(self).wf(),
            final(self).work() <= old(self).work(),
            old(self).items().len() == 0 ==> r is None && final(self).items() == old(self).items(),
            old(self).items().len() > 0 ==> r == Some(old(self).items()[0]) && final(self).items() == old(self).items().skip(1) && final(self).work() < old(self).work(),
    ;

    /// Pop the last remaining item.
    fn next_back(&mut self) -> (r: Option<Self::Item>)
        requires
            old(self).wf(),
        ensures
            final(self).wf(),
            final(self).work() <= old(self).work(),
            old(self).items().len() == 0 ==> r is None && final(self).items() == old(self).items(),
            old(self).items().len() > 0 ==> r == Some(old(self).items().last()) && final(self).items() == old(self).items().drop_last() && final(self).work() < old(self).work(),
    ;

    /// Fold at most `limit` units of raw work from the front, starting from
    /// `init`; never divides. A producer is linear: the fold consumes it and
    /// returns what remains of it beside the accumulator. The consumed prefix
    /// of items is folded exactly (the ghost part of the result says where
    /// the prefix ends); at most `limit` raw work is retired, and at least
    /// `limit` unless the producer runs out first.
    fn partial_fold<A, F: FoldOp<Self::Item, A>>(self, init: A, f: F, limit: usize) -> (r: (
        Self,
        A,
        Ghost<int>,
    ))
        requires
            self.wf(),
        ensures
            r.0.wf(),
            r.0.work() <= self.work(),
            folded_prefix(self.items(), r.0.items(), f, init, r.1, r.2@),
            r.0.controlled() == self.controlled(),
            self.work() - r.0.work() <= limit as nat,
            limit as nat <= self.work() ==> self.work() - r.0.work() >= limit as nat,
            self.work() < limit as nat ==> r.0.work() == 0,
    ;

    /// Short-circuiting variant of `partial_fold`: stops at the first step
    /// that breaks and returns the terminal value. At most `limit` raw work
    /// is retired either way; the lower progress bound applies only when no
    /// step broke.
    fn partial_try_fold<A, B, F: TryFoldOp<Self::Item, A, B>>(
        self,
        init: A,
        f: F,
        limit: usize,
    ) -> (r: (Self, FoldResult<A, B>, Ghost<int>))
        requires
            self.wf(),
        ensures
            r.0.wf(),
            r.0.work() <= self.work(),
            try_folded_prefix(self.items(), r.0.items(), f, init, r.1, r.2@),
            r.0.controlled() == self.controlled(),
            self.work() - r.0.work() <= limit as nat,
            r.1 is Continue ==> (limit as nat <= self.work() ==> self.work() - r.0.work()
                >= limit as nat),
            r.1 is Continue ==> (self.work() < limit as nat ==> r.0.work() == 0),
    ;

    /// The granularity range a scheduler should use for leaf-level sequential
    /// folds.
    fn micro_block_sizes(&self) -> (r: (usize, usize))
        requires
            self.wf(),
        ensures
            1 <= r.0,
            r.0 <= r.1,
    ;
}

/// After a bounded fold whose producer held items `pre` and now holds items
/// `post`: the first `n` items were consumed, and `r` is exactly the
/// sequential fold of that consumed prefix.
pub open spec fn folded_prefix<T, A, F: FoldOp<T, A>>(
    pre: Seq<T>,
    post: Seq<T>,
    f: F,
    init: A,
    r: A,
    n: int,
) -> bool {
    &&& 0 <= n <= pre.len()
    &&& post == pre.skip(n)
    &&& r == seq_fold(f, init, pre.take(n))
}

/// After a bounded short-circuiting fold whose producer held items `pre` and
/// now holds items `post`: the first `n` items were consumed, and `r` is
/// exactly the short-circuiting fold of that consumed prefix.
pub open spec fn try_folded_prefix<T, A, B, F: TryFoldOp<T, A, B>>(
    pre: Seq<T>,
    post: Seq<T>,
    f: F,
    init: A,
    r: FoldResult<A, B>,
    n: int,
) -> bool {
    &&& 0 <= n <= pre.len()
    &&& post == pre.skip(n)
    &&& r == seq_try_fold(f, init, pre.take(n))
}

/// Size conservation: any split that preserves the item sequence preserves
/// the item count, half by half.
pub proof fn lemma_size_conservation<P: Producer>(whole: P, left: P, right: P)
    requires
        left.items() + right.items() == whole.items(),
    ensures
        whole.items().len() == left.items().len() + right.items().len(),
{
}

} // verus!
