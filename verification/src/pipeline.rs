//! The ordered fan-out/fan-in protocol of the parallel pipeline.
//!
//! A producer reads compressed frames in stream order and hands each to a
//! pool of workers through a shared dispatch channel; workers finish in
//! any order; the consumer restores stream order by waiting on a FIFO
//! queue of per-frame reply channels. This module holds the protocol's
//! decision state and its transitions; the threads and channels that
//! carry them out live outside the library, and every schedule they can
//! produce is a sequence of these transitions.

use vstd::prelude::*;

verus! {

/// The protocol state of one running pipeline.
///
/// `produced` counts frames handed to workers, `delivered` counts frames
/// the consumer has taken, `queue` is the FIFO of pending reply channels
/// (by frame index), `completed` records which in-flight frames workers
/// have finished (in any order), and `free` counts buffers in the pool.
pub struct Pipeline {
    capacity: usize,
    produced: u64,
    delivered: u64,
    free: usize,
    queue: Ghost<Seq<u64>>,
    completed: Ghost<Set<u64>>,
    finished: bool,
}

impl Pipeline {
    /// The pool capacity the pipeline was built with.
    pub closed spec fn spec_capacity(self) -> int {
        self.capacity as int
    }

    /// Frames handed to workers so far.
    pub closed spec fn spec_produced(self) -> u64 {
        self.produced
    }

    /// Frames the consumer has taken so far.
    pub closed spec fn spec_delivered(self) -> u64 {
        self.delivered
    }

    /// Buffers currently in the pool.
    pub closed spec fn spec_free(self) -> int {
        self.free as int
    }

    /// The FIFO ordering queue, as frame indices.
    pub closed spec fn spec_queue(self) -> Seq<u64> {
        self.queue@
    }

    /// The set of in-flight frames workers have finished.
    pub closed spec fn spec_completed(self) -> Set<u64> {
        self.completed@
    }

    /// Whether the pipeline has been shut down.
    pub closed spec fn spec_finished(self) -> bool {
        self.finished
    }

    /// Frames outside the pool: read but not yet consumed.
    pub open spec fn in_flight(self) -> int {
        self.spec_produced() - self.spec_delivered()
    }

    /// The protocol invariant.
    ///
    /// The ordering queue holds exactly the indices of the in-flight
    /// frames, in stream order; the number of in-flight frames never
    /// exceeds the pool capacity; and every buffer is either in the pool
    /// or carries an in-flight frame.
    pub open spec fn inv(self) -> bool {
        &&& self.spec_delivered() <= self.spec_produced()
        &&& self.spec_queue().len() == self.in_flight()
        &&& (forall|i: int|
            0 <= i < self.spec_queue().len() ==> #[trigger] self.spec_queue()[i]
                == self.spec_delivered() + i)
        &&& self.in_flight() + self.spec_free() == self.spec_capacity()
        &&& self.spec_free() >= 0
        &&& (self.spec_finished() ==> self.in_flight() == 0)
    }

    /// A fresh pipeline over a pool of `capacity` buffers.
    pub fn start(capacity: usize) -> (r: Pipeline)
        requires
            capacity > 0,
        ensures
            r.inv(),
            !r.spec_finished(),
            r.spec_capacity() == capacity,
            r.spec_produced() == 0,
            r.spec_delivered() == 0,
            r.spec_free() == capacity,
    {
        Pipeline {
            capacity,
            produced: 0,
            delivered: 0,
            free: capacity,
            queue: Ghost(Seq::empty()),
            completed: Ghost(Set::empty()),
            finished: false,
        }
    }

    /// The producer reads one frame into a pool buffer and enqueues its
    /// reply channel: allowed only while a buffer is free, which is the
    /// backpressure that bounds in-flight work.
    pub fn produce(&mut self) -> (idx: u64)
        requires
            old(self).inv(),
            !old(self).spec_finished(),
            old(self).spec_free() > 0,
            old(self).spec_produced() < u64::MAX,
        ensures
            final(self).inv(),
            !final(self).spec_finished(),
            idx == old(self).spec_produced(),
            final(self).spec_produced() == old(self).spec_produced() + 1,
            final(self).spec_delivered() == old(self).spec_delivered(),
            final(self).spec_free() == old(self).spec_free() - 1,
            final(self).spec_queue() == old(self).spec_queue().push(idx),
            final(self).spec_capacity() == old(self).spec_capacity(),
            final(self).in_flight() <= final(self).spec_capacity(),
    {
        let idx = self.produced;
        self.produced = self.produced + 1;
        self.free = self.free - 1;
        proof {
            self.queue@ = self.queue@.push(idx);
        }
        idx
    }

    /// A worker finishes decompressing an in-flight frame; workers race,
    /// so any in-flight index may complete at any time.
    pub fn complete(&mut self, idx: u64)
        requires
            old(self).inv(),
            old(self).spec_delivered() <= idx < old(self).spec_produced(),
        ensures
            final(self).inv(),
            final(self).spec_completed() == old(self).spec_completed().insert(idx),
            final(self).spec_produced() == old(self).spec_produced(),
            final(self).spec_delivered() == old(self).spec_delivered(),
            final(self).spec_free() == old(self).spec_free(),
            final(self).spec_queue() == old(self).spec_queue(),
            final(self).spec_capacity() == old(self).spec_capacity(),
            final(self).spec_finished() == old(self).spec_finished(),
    {
        proof {
            self.completed@ = self.completed@.insert(idx);
        }
    }

    /// The consumer takes the next frame: it waits on the reply channel
    /// at the front of the FIFO queue, so the frame it obtains is the
    /// oldest in-flight frame — the input order is restored no matter in
    /// which order workers completed. The freed buffer returns to the
    /// pool.
    pub fn deliver(&mut self) -> (idx: u64)
        requires
            old(self).inv(),
            old(self).spec_queue().len() > 0,
            old(self).spec_completed().contains(old(self).spec_queue()[0]),
        ensures
            final(self).inv(),
            idx == old(self).spec_queue()[0],
            idx == old(self).spec_delivered(),
            final(self).spec_delivered() == old(self).spec_delivered() + 1,
            final(self).spec_produced() == old(self).spec_produced(),
            final(self).spec_free() == old(self).spec_free() + 1,
            final(self).spec_queue() == old(self).spec_queue().drop_first(),
            final(self).spec_capacity() == old(self).spec_capacity(),
            final(self).spec_finished() == old(self).spec_finished(),
    {
        let idx = self.delivered;
        self.delivered = self.delivered + 1;
        self.free = self.free + 1;
        proof {
            self.queue@ = self.queue@.drop_first();
        }
        idx
    }

    /// Shutdown: the consumer stops taking new frames, drains every
    /// pending reply channel to completion, and joins the threads; all
    /// buffers end up back in the pool and the transition is terminal.
    pub fn shutdown(&mut self)
        requires
            old(self).inv(),
        ensures
            final(self).inv(),
            final(self).spec_finished(),
            final(self).in_flight() == 0,
            final(self).spec_free() == final(self).spec_capacity(),
            final(self).spec_queue().len() == 0,
            final(self).spec_delivered() == final(self).spec_produced(),
    {
        self.delivered = self.produced;
        self.free = self.capacity;
        self.finished = true;
        proof {
            self.queue@ = Seq::empty();
        }
    }
}

/// Order preservation: in every reachable pipeline state, the consumer
/// has taken exactly the first `delivered` frames of the stream, in
/// stream order, and the next frame it can take is frame `delivered` —
/// whatever the workers' completion order. The frames still in flight
/// wait in the ordering queue in exactly stream order.
pub proof fn lemma_order_preservation(p: Pipeline)
    requires
        p.inv(),
    ensures
        forall|i: int| 0 <= i < p.spec_queue().len() ==> #[trigger] p.spec_queue()[i]
            == p.spec_delivered() + i,
        p.spec_queue().len() > 0 ==> p.spec_queue()[0] == p.spec_delivered(),
{
}

/// Backpressure bound: in every reachable pipeline state, the number of
/// frames read but not yet consumed is at most the pool capacity.
pub proof fn lemma_in_flight_bound(p: Pipeline)
    requires
        p.inv(),
    ensures
        0 <= p.in_flight() <= p.spec_capacity(),
{
}

} // verus!
