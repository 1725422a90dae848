//! The user-facing composable front end. Each adaptor wraps an inner
//! `ParallelIterator` and forwards `drive` (push model) or `with_producer`
//! (pull model) with its own wrapping applied, eventually bottoming out at a
//! data source that builds a producer and invokes that producer's scheduler.
use vstd::prelude::*;

use crate::consumer::Consumer;
use crate::producer::Producer;
use crate::scheduler::{ScheduledProducer, Scheduler};

verus! {

/// A composable, drivable description of a parallel computation over a
/// sequence of items.
pub trait ParallelIterator: Sized {
    type Item;

    spec fn wf(&self) -> bool;

    /// The items this composition describes, in order, after all wrapped
    /// transformations.
    spec fn elements(&self) -> Seq<Self::Item>;

    /// Whether the pull model may be used. False for adaptors (such as
    /// scheduling-policy substitutions) whose meaning only applies at the
    /// consumption entry point.
    spec fn with_producer_allowed(&self) -> bool;

    /// Push model: run the composition into a consumer.
    fn drive<C: Consumer<Self::Item>>(self, consumer: C) -> (r: C::Result)
        requires
            self.wf(),
            consumer.wf(),
        ensures
            consumer.model(r) == consumer.semantics(self.elements()),
    ;

    /// Pull model: hand a matching producer to the callback.
    fn with_producer<CB: ProducerCallback<Self::Item>>(self, callback: CB) -> (r: CB::Output)
        requires
            self.wf(),
            self.with_producer_allowed(),
            callback.wf(),
        ensures
            callback.post(self.elements(), r),
    ;
}

/// A callback that accepts whichever producer type the composition bottoms
/// out in. `post` relates the producer's items to the callback's output.
pub trait ProducerCallback<T>: Sized {
    type Output;

    spec fn wf(&self) -> bool;

    spec fn post(&self, items: Seq<T>, out: Self::Output) -> bool;

    fn call<P: ScheduledProducer<Item = T>>(self, producer: P) -> (r: Self::Output)
        requires
            self.wf(),
            producer.wf(),
        ensures
            self.post(producer.items(), r),
    ;
}

/// A callback that consumes the producer it is handed, under the producer's
/// own scheduling policy: the pull-model counterpart of `drive`.
pub struct DriveCallback<C> {
    pub consumer: C,
}

impl<T, C: Consumer<T>> ProducerCallback<T> for DriveCallback<C> {
    type Output = C::Result;

    open spec fn wf(&self) -> bool {
        self.consumer.wf()
    }

    open spec fn post(&self, items: Seq<T>, out: C::Result) -> bool {
        self.consumer.model(out) == self.consumer.semantics(items)
    }

    fn call<P: ScheduledProducer<Item = T>>(self, producer: P) -> (r: C::Result) {
        let sched = producer.scheduler();
        sched.run(producer, self.consumer)
    }
}

} // verus!
