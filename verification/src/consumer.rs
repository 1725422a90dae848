//! The sink side of the engine: `Consumer`s, which run a matching producer to
//! a result, and `Reducer`s, the associative combination operators that merge
//! two partial results in left-before-right order.
//!
//! Every consumer has a mathematical model: `semantics` maps an item sequence
//! to the model of the result of consuming it, and `model` abstracts a
//! concrete result to that model. The homomorphism law ties consumption to
//! combination, and is the soundness property that makes divided execution
//! equal sequential execution.
use vstd::prelude::*;

use crate::producer::Producer;

verus! {

/// The associative combination operator detached from consumption state.
/// `combine` is the mathematical meaning of `reduce` on models of results; it
/// is always applied to a left result and a right result in that order.
pub trait Reducer<R, M>: Sized {
    spec fn wf(&self) -> bool;

    /// Meaning of combination, on models.
    spec fn combine(&self, a: M, b: M) -> M;

    /// The model of a concrete result.
    spec fn model(&self, r: R) -> M;

    fn reduce(&self, a: R, b: R) -> (r: R)
        requires
            self.wf(),
        ensures
            self.model(r) == self.combine(self.model(a), self.model(b)),
    ;
}

/// A splittable sink paired positionally with a producer. Consuming a
/// producer yields a result whose model is exactly `semantics` of the
/// producer's items.
pub trait Consumer<T>: Sized {
    type Result;

    /// The mathematical model of results.
    type Model;

    type Reducer: Reducer<Self::Result, Self::Model>;

    spec fn wf(&self) -> bool;

    /// Abstraction of a concrete result to its model.
    spec fn model(&self, r: Self::Result) -> Self::Model;

    /// What consuming a given item sequence means, as a model.
    spec fn semantics(&self, items: Seq<T>) -> Self::Model;

    /// Meaning of this consumer's reducer, on models.
    spec fn combine(&self, a: Self::Model, b: Self::Model) -> Self::Model;

    /// The central soundness law: consuming a concatenation means combining
    /// the meanings of the parts, left before right.
    proof fn lemma_homomorphism(&self, a: Seq<T>, b: Seq<T>)
        requires
            self.wf(),
        ensures
            self.semantics(a + b) == self.combine(self.semantics(a), self.semantics(b)),
    ;

    /// Split into two independent consumers, each to be paired with one half
    /// of a divided producer. Both copies mean exactly what the original
    /// means.
    fn fork(&self) -> (r: (Self, Self))
        requires
            self.wf(),
        ensures
            r.0.wf(),
            r.1.wf(),
            forall|items: Seq<T>| #[trigger] r.0.semantics(items) == self.semantics(items),
            forall|x: Self::Model, y: Self::Model| #[trigger] r.0.combine(x, y) == self.combine(
                x,
                y,
            ),
            forall|x: Self::Result| #[trigger] r.0.model(x) == self.model(x),
            forall|items: Seq<T>| #[trigger] r.1.semantics(items) == self.semantics(items),
            forall|x: Self::Model, y: Self::Model| #[trigger] r.1.combine(x, y) == self.combine(
                x,
                y,
            ),
            forall|x: Self::Result| #[trigger] r.1.model(x) == self.model(x),
    ;

    /// Run a matching producer to completion, sequentially, and return the
    /// result.
    fn consume_producer<P: Producer<Item = T>>(self, producer: P) -> (r: Self::Result)
        requires
            self.wf(),
            producer.wf(),
        ensures
            self.model(r) == self.semantics(producer.items()),
    ;

    /// Detach the combination operator, so it can be applied after both
    /// halves have independently produced results.
    fn to_reducer(self) -> (r: Self::Reducer)
        requires
            self.wf(),
        ensures
            r.wf(),
            forall|a: Self::Model, b: Self::Model| #[trigger] r.combine(a, b) == self.combine(
                a,
                b,
            ),
            forall|x: Self::Result| #[trigger] r.model(x) == self.model(x),
    ;

    /// Whether a result is saturated: no further items can change what it
    /// means, so work to its right can be skipped.
    spec fn saturated(&self, r: Self::Result) -> bool;

    /// A saturated result absorbs every combination on its right.
    proof fn lemma_saturated(&self, r: Self::Result, m: Self::Model)
        requires
            self.wf(),
            self.saturated(r),
        ensures
            self.combine(self.model(r), m) == self.model(r),
    ;

    /// Report whether a result is saturated — exactly: a scheduler may rely
    /// on a `true` to skip the rest, and on a `false` to keep working, so a
    /// sink that never reports saturation here would break early exit.
    fn is_full(&self, r: &Self::Result) -> (b: bool)
        requires
            self.wf(),
        ensures
            b == self.saturated(*r),
    ;
}

/// Two consumers with one and the same meaning: equally well formed, equal
/// semantics on every item sequence, equal combination, equal abstraction.
pub open spec fn consumer_equiv<T, C: Consumer<T>>(a: C, b: C) -> bool {
    &&& a.wf() == b.wf()
    &&& forall|items: Seq<T>| #[trigger] a.semantics(items) == b.semantics(items)
    &&& forall|x: C::Model, y: C::Model| #[trigger] a.combine(x, y) == b.combine(x, y)
    &&& forall|r: C::Result| #[trigger] a.model(r) == b.model(r)
}

/// Equivalence of consumers is transitive.
pub proof fn lemma_consumer_equiv_trans<T, C: Consumer<T>>(a: C, b: C, c: C)
    requires
        consumer_equiv(a, b),
        consumer_equiv(b, c),
    ensures
        consumer_equiv(a, c),
{
    assert forall|items: Seq<T>| #[trigger] a.semantics(items) == c.semantics(items) by {
        assert(a.semantics(items) == b.semantics(items));
    }
    assert forall|x: C::Model, y: C::Model| #[trigger] a.combine(x, y) == c.combine(x, y) by {
        assert(a.combine(x, y) == b.combine(x, y));
    }
    assert forall|r: C::Result| #[trigger] a.model(r) == c.model(r) by {
        assert(a.model(r) == b.model(r));
    }
}

/// Split-then-reduce equivalence: consuming a whole item sequence means the
/// same as consuming the two parts of any cut and reducing the partial
/// results in left-before-right order.
pub proof fn lemma_split_then_reduce<T, C: Consumer<T>>(c: &C, items: Seq<T>, k: int)
    requires
        c.wf(),
        0 <= k <= items.len(),
    ensures
        c.semantics(items) == c.combine(c.semantics(items.take(k)), c.semantics(items.skip(k))),
{
    assert(items.take(k) + items.skip(k) =~= items);
    c.lemma_homomorphism(items.take(k), items.skip(k));
}

} // verus!
