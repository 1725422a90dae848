//! Pluggable scheduling policies: given a producer and a consumer, a policy
//! decides the division strategy and drives the work to completion.
//!
//! Every policy satisfies one and the same contract: the model of the result
//! equals the consumer's semantics of the producer's items. Policies are
//! therefore substitutable: which one runs can change the task-tree shape and
//! the amount of work retired before an early exit, never the result's
//! meaning.
use vstd::prelude::*;

use crate::consumer::{consumer_equiv, lemma_consumer_equiv_trans, Consumer, Reducer};
use crate::producer::Producer;

verus! {

/// A scheduling policy. `run` divides the producer as the policy sees fit,
/// folds the leaves, and combines partial results bottom-up in
/// left-before-right order.
pub trait Scheduler: Sized {
    spec fn wf(&self) -> bool;

    fn run<T, P: Producer<Item = T>, C: Consumer<T>>(&self, p: P, c: C) -> (r: C::Result)
        requires
            self.wf(),
            p.wf(),
            c.wf(),
        ensures
            c.model(r) == c.semantics(p.items()),
    ;
}

/// A producer that advertises the scheduling policy it considers appropriate
/// (the default may be overridden by composition, as the by-blocks adaptor
/// does). A separate capability so that the splitting and folding contract of
/// `Producer` stands on its own.
pub trait ScheduledProducer: Producer {
    type Sched: Scheduler;

    fn scheduler(&self) -> (s: Self::Sched)
        requires
            self.wf(),
        ensures
            s.wf(),
    ;
}

/// The demand-driven policy. Division happens only when an idle worker asks
/// for a half; with no external fork-join pool attached there is no such
/// demand, so the policy retires its work as a sequence of growing
/// sequential folds, driven by the consumer itself.
pub struct Adaptive;

impl Scheduler for Adaptive {
    open spec fn wf(&self) -> bool {
        true
    }

    fn run<T, P: Producer<Item = T>, C: Consumer<T>>(&self, p: P, c: C) -> (r: C::Result) {
        c.consume_producer(p)
    }
}

/// Divide unconditionally until a configured depth is reached, then fold:
/// a deterministic task-tree shape.
pub struct ForceDepth {
    pub depth: usize,
}

impl Scheduler for ForceDepth {
    open spec fn wf(&self) -> bool {
        true
    }

    fn run<T, P: Producer<Item = T>, C: Consumer<T>>(&self, p: P, c: C) -> (r: C::Result) {
        force_depth_run(p, c, self.depth)
    }
}

fn force_depth_run<T, P: Producer<Item = T>, C: Consumer<T>>(p: P, c: C, depth: usize) -> (r:
    C::Result)
    requires
        p.wf(),
        c.wf(),
    ensures
        c.model(r) == c.semantics(p.items()),
    decreases depth,
{
    if depth > 0 && p.should_be_divided() {
        let (p1, p2) = p.divide();
        let (c1, c2) = c.fork();
        let red = c.to_reducer();
        proof {
            assert(c1.wf());
            assert(c2.wf());
        }
        let r1 = force_depth_run(p1, c1, depth - 1);
        let r2 = force_depth_run(p2, c2, depth - 1);
        let out = red.reduce(r1, r2);
        proof {
            assert(c1.model(r1) == c.model(r1));
            assert(c2.model(r2) == c.model(r2));
            assert(c1.semantics(p1.items()) == c.semantics(p1.items()));
            assert(c2.semantics(p2.items()) == c.semantics(p2.items()));
            c.lemma_homomorphism(p1.items(), p2.items());
            assert(red.model(out) == c.model(out));
            assert(red.model(r1) == c.model(r1));
            assert(red.model(r2) == c.model(r2));
            assert(red.combine(c.model(r1), c.model(r2)) == c.combine(c.model(r1), c.model(r2)));
        }
        out
    } else {
        c.consume_producer(p)
    }
}

/// Consume the producer in a monotonically growing sequence of block sizes,
/// running the inner policy on each block in turn and combining the partial
/// results left to right. A saturated partial result ends the run early,
/// leaving the remaining blocks untouched.
pub struct ByBlocksScheduler<S> {
    pub inner_scheduler: S,
}

impl<S: Scheduler> Scheduler for ByBlocksScheduler<S> {
    open spec fn wf(&self) -> bool {
        self.inner_scheduler.wf()
    }

    #[verifier::loop_isolation(false)]
    fn run<T, P: Producer<Item = T>, C: Consumer<T>>(&self, p: P, c: C) -> (r: C::Result) {
        let ghost c0 = c;
        let ghost all = p.items();
        let (hold, start) = c.fork();
        let red = hold.to_reducer();
        proof {
            assert forall|a: C::Model, b: C::Model| #[trigger] red.combine(a, b) == c0.combine(
                a,
                b,
            ) by {
                assert(red.combine(a, b) == hold.combine(a, b));
            }
            assert forall|x: C::Result| #[trigger] red.model(x) == c0.model(x) by {
                assert(red.model(x) == hold.model(x));
            }
        }
        let (p0, rest0) = p.divide_at(0);
        let mut p = rest0;
        let (cl, cur0) = start.fork();
        let mut cur = cur0;
        proof {
            assert(consumer_equiv(start, c0));
            assert(consumer_equiv(cl, start));
            assert(consumer_equiv(cur, start));
            lemma_consumer_equiv_trans(cl, start, c0);
            lemma_consumer_equiv_trans(cur, start, c0);
            p0.lemma_items_bound();
            assert(p0.items() =~= Seq::<T>::empty());
            assert(cl.wf());
        }
        let mut acc = self.inner_scheduler.run(p0, cl);
        let ghost mut consumed: Seq<T> = p0.items();
        let mut block: usize = 2;
        proof {
            assert(c0.model(acc) == cl.model(acc));
            assert(c0.semantics(consumed) == cl.semantics(consumed));
        }
        loop
            invariant
                self.wf(),
                p.wf(),
                cur.wf(),
                c0.wf(),
                red.wf(),
                consumer_equiv(cur, c0),
                forall|a: C::Model, b: C::Model| #[trigger] red.combine(a, b) == c0.combine(a, b),
                forall|x: C::Result| #[trigger] red.model(x) == c0.model(x),
                all == consumed + p.items(),
                c0.model(acc) == c0.semantics(consumed),
                block >= 1,
            decreases p.work(),
        {
            let (_, upper) = p.sizes();
            if let Some(u) = upper {
                if u == 0 {
                    proof {
                        assert(p.items().len() == 0);
                        assert(consumed + p.items() =~= consumed);
                    }
                    return acc;
                }
            }
            if cur.is_full(&acc) {
                proof {
                    c0.lemma_homomorphism(consumed, p.items());
                    assert(cur.model(acc) == c0.model(acc));
                    cur.lemma_saturated(acc, c0.semantics(p.items()));
                    assert(cur.combine(cur.model(acc), c0.semantics(p.items())) == c0.combine(
                        cur.model(acc),
                        c0.semantics(p.items()),
                    ));
                }
                return acc;
            }
            proof {
                assert(p.work() > 0);
            }
            let ghost pre = p;
            let (left, rest) = p.divide_at(block);
            let (cl2, cnext) = cur.fork();
            proof {
                assert(consumer_equiv(cl2, cur));
                assert(consumer_equiv(cnext, cur));
                lemma_consumer_equiv_trans(cl2, cur, c0);
                lemma_consumer_equiv_trans(cnext, cur, c0);
                assert(cl2.wf());
            }
            let rl = self.inner_scheduler.run(left, cl2);
            proof {
                assert(c0.model(rl) == cl2.model(rl));
                assert(c0.semantics(left.items()) == cl2.semantics(left.items()));
                c0.lemma_homomorphism(consumed, left.items());
            }
            acc = red.reduce(acc, rl);
            proof {
                let newc = consumed + left.items();
                assert(newc + rest.items() =~= consumed + pre.items());
                consumed = newc;
            }
            cur = cnext;
            p = rest;
            if block <= usize::MAX / 2 {
                block = block * 2;
            }
        }
    }
}

} // verus!
