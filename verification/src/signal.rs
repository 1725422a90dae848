//! The short-circuit signal threaded through folds, and the operation
//! interfaces (fold steps and predicates) that producers and consumers are
//! driven by.
//!
//! A fold over a sequence either runs to completion, carrying an accumulator,
//! or stops at the first item whose step yields the terminal variant. The
//! spec-level folds `seq_fold` and `seq_try_fold` define what every bounded
//! fold of a producer computes; the composition lemmas below are what let a
//! divided computation be recombined without changing the outcome.
use vstd::prelude::*;

verus! {

/// Two-variant outcome of a short-circuiting fold step: either the fold goes
/// on with a new accumulator, or it stops with a terminal value that is
/// propagated unchanged through every enclosing combination.
pub enum FoldResult<A, B> {
    Continue(A),
    Break(B),
}

/// An unconditional fold step: small copyable configuration. `op` is the
/// mathematical meaning; `apply` computes it. Copying configuration into
/// split halves keeps the meaning, because the meaning is a function of the
/// value alone.
pub trait FoldOp<T, A>: Sized + Copy {
    spec fn op(&self, acc: A, item: T) -> A;

    fn apply(&self, acc: A, item: T) -> (r: A)
        ensures
            r == self.op(acc, item),
    ;
}

/// A short-circuiting fold step: may stop the whole fold by returning the
/// terminal variant.
pub trait TryFoldOp<T, A, B>: Sized + Copy {
    spec fn op(&self, acc: A, item: T) -> FoldResult<A, B>;

    fn apply(&self, acc: A, item: T) -> (r: FoldResult<A, B>)
        ensures
            r == self.op(acc, item),
    ;
}

/// A boolean test on items, with its mathematical meaning `holds`.
pub trait Predicate<T>: Sized + Copy {
    spec fn holds(&self, item: T) -> bool;

    fn test(&self, item: &T) -> (r: bool)
        ensures
            r == self.holds(*item),
    ;
}

/// The spec-level predicate of a `Predicate` value. Factoring the closure
/// through one function makes two equal predicate values yield one and the
/// same spec-level function.
pub open spec fn pred_of<T, F: Predicate<T>>(f: F) -> spec_fn(T) -> bool {
    |t: T| f.holds(t)
}

/// Sequential left fold of `items`, starting from `init`.
pub open spec fn seq_fold<T, A, F: FoldOp<T, A>>(f: F, init: A, items: Seq<T>) -> A
    decreases items.len(),
{
    if items.len() == 0 {
        init
    } else {
        seq_fold(f, f.op(init, items[0]), items.skip(1))
    }
}

/// Sequential left fold with short-circuiting: stops at the first item whose
/// step breaks, and propagates that terminal value.
pub open spec fn seq_try_fold<T, A, B, F: TryFoldOp<T, A, B>>(
    f: F,
    init: A,
    items: Seq<T>,
) -> FoldResult<A, B>
    decreases items.len(),
{
    if items.len() == 0 {
        FoldResult::Continue(init)
    } else {
        match f.op(init, items[0]) {
            FoldResult::Continue(a) => seq_try_fold(f, a, items.skip(1)),
            FoldResult::Break(b) => FoldResult::Break(b),
        }
    }
}

/// Folding a concatenation equals folding the left part and then folding the
/// right part from the intermediate accumulator. This is the fact that lets a
/// fold be cut at any point and resumed.
pub proof fn lemma_seq_fold_app<T, A, F: FoldOp<T, A>>(f: F, init: A, a: Seq<T>, b: Seq<T>)
    ensures
        seq_fold(f, init, a + b) == seq_fold(f, seq_fold(f, init, a), b),
    decreases a.len(),
{
    if a.len() == 0 {
        assert(a + b =~= b);
    } else {
        assert((a + b)[0] == a[0]);
        assert((a + b).skip(1) =~= a.skip(1) + b);
        lemma_seq_fold_app(f, f.op(init, a[0]), a.skip(1), b);
    }
}

/// Folding one more item folds the step function over the previous
/// accumulator.
pub proof fn lemma_seq_fold_snoc<T, A, F: FoldOp<T, A>>(f: F, init: A, s: Seq<T>, x: T)
    ensures
        seq_fold(f, init, s.push(x)) == f.op(seq_fold(f, init, s), x),
    decreases s.len(),
{
    if s.len() == 0 {
        assert(s.push(x)[0] == x);
        assert(s.push(x).skip(1) =~= Seq::<T>::empty());
        assert(seq_fold(f, f.op(init, x), Seq::<T>::empty()) == f.op(init, x));
    } else {
        assert(s.push(x)[0] == s[0]);
        assert(s.push(x).skip(1) =~= s.skip(1).push(x));
        lemma_seq_fold_snoc(f, f.op(init, s[0]), s.skip(1), x);
    }
}

/// Short-circuiting analogue of `lemma_seq_fold_snoc`.
pub proof fn lemma_seq_try_fold_snoc<T, A, B, F: TryFoldOp<T, A, B>>(f: F, init: A, s: Seq<T>, x: T)
    ensures
        seq_try_fold(f, init, s.push(x)) == (match seq_try_fold(f, init, s) {
            FoldResult::Continue(a) => f.op(a, x),
            FoldResult::Break(b) => FoldResult::Break(b),
        }),
    decreases s.len(),
{
    if s.len() == 0 {
        assert(s.push(x)[0] == x);
        assert(s.push(x).skip(1) =~= Seq::<T>::empty());
        match f.op(init, x) {
            FoldResult::Continue(a) => {
                assert(seq_try_fold(f, a, Seq::<T>::empty()) == FoldResult::<A, B>::Continue(a));
            },
            FoldResult::Break(_) => {},
        }
    } else {
        assert(s.push(x)[0] == s[0]);
        assert(s.push(x).skip(1) =~= s.skip(1).push(x));
        match f.op(init, s[0]) {
            FoldResult::Continue(a) => {
                lemma_seq_try_fold_snoc(f, a, s.skip(1), x);
            },
            FoldResult::Break(_) => {},
        }
    }
}

/// Short-circuiting analogue of `lemma_seq_fold_app`: a terminal value found
/// in the left part survives unchanged, and otherwise the right part is folded
/// from the left part's accumulator.
pub proof fn lemma_seq_try_fold_app<T, A, B, F: TryFoldOp<T, A, B>>(
    f: F,
    init: A,
    a: Seq<T>,
    b: Seq<T>,
)
    ensures
        seq_try_fold(f, init, a + b) == (match seq_try_fold(f, init, a) {
            FoldResult::Continue(x) => seq_try_fold(f, x, b),
            FoldResult::Break(s) => FoldResult::Break(s),
        }),
    decreases a.len(),
{
    if a.len() == 0 {
        assert(a + b =~= b);
    } else {
        assert((a + b)[0] == a[0]);
        assert((a + b).skip(1) =~= a.skip(1) + b);
        match f.op(init, a[0]) {
            FoldResult::Continue(x) => {
                lemma_seq_try_fold_app(f, x, a.skip(1), b);
            },
            FoldResult::Break(_) => {},
        }
    }
}

/// A sequence none of whose items can break folds to completion.
pub proof fn lemma_seq_try_fold_all_continue<T, A, B, F: TryFoldOp<T, A, B>>(
    f: F,
    init: A,
    items: Seq<T>,
)
    requires
        forall|j: int, x: A| 0 <= j < items.len() ==> (#[trigger] f.op(x, items[j])) is Continue,
    ensures
        seq_try_fold(f, init, items) is Continue,
    decreases items.len(),
{
    if items.len() > 0 {
        match f.op(init, items[0]) {
            FoldResult::Continue(a) => {
                assert(forall|j: int, x: A|
                    0 <= j < items.skip(1).len() ==> items.skip(1)[j] == items[j + 1]
                        && (#[trigger] f.op(x, items.skip(1)[j])) is Continue);
                lemma_seq_try_fold_all_continue(f, a, items.skip(1));
            },
            FoldResult::Break(_) => {
                assert(false);
            },
        }
    }
}

/// First-match propagation: if every item before position `k` lets the fold
/// continue and the item at `k` breaks it, then the whole fold returns exactly
/// the terminal value computed at `k`, from the accumulator reached there.
pub proof fn lemma_first_break<T, A, B, F: TryFoldOp<T, A, B>>(
    f: F,
    init: A,
    items: Seq<T>,
    k: int,
)
    requires
        0 <= k < items.len(),
        forall|j: int, x: A| 0 <= j < k ==> (#[trigger] f.op(x, items[j])) is Continue,
        forall|x: A| (#[trigger] f.op(x, items[k])) is Break,
    ensures
        exists|x: A|
            seq_try_fold(f, init, items.take(k)) == FoldResult::<A, B>::Continue(x)
                && seq_try_fold(f, init, items) == f.op(x, items[k]),
{
    let pre = items.take(k);
    let post = items.skip(k);
    assert(pre + post =~= items);
    assert(forall|j: int, x: A|
        0 <= j < pre.len() ==> pre[j] == items[j] && (#[trigger] f.op(x, pre[j])) is Continue);
    lemma_seq_try_fold_all_continue(f, init, pre);
    lemma_seq_try_fold_app(f, init, pre, post);
    match seq_try_fold(f, init, pre) {
        FoldResult::Continue(x) => {
            assert(post[0] == items[k]);
            assert(seq_try_fold(f, init, items) == seq_try_fold(f, x, post));
            match f.op(x, post[0]) {
                FoldResult::Continue(_) => {
                    assert(false);
                },
                FoldResult::Break(_) => {},
            }
        },
        FoldResult::Break(_) => {
            assert(false);
        },
    }
}

} // verus!
