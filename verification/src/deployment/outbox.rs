//! The queue of frames a replica ships to the gateway: in order, in batches,
//! and back to the front, in order, when a batch fails.
use vstd::prelude::*;
use crate::deployment::wire::ChatError;
use std::collections::VecDeque;

verus! {

/// Frames shipped in one publish call at most.
pub const BATCH: usize = 512;
/// Unshipped frames beyond which new mutations are refused until the gateway
/// catches up.
pub const OUTBOX_LIMIT: usize = 200_000;

/// Frames waiting for the gateway, oldest first.
pub struct Outbox<T> {
    pub frames: VecDeque<T>,
}

impl<T> Outbox<T> {
    pub open spec fn view(&self) -> Seq<T> {
        self.frames@
    }

    /// An empty queue.
    pub fn new() -> (r: Self)
        ensures
            r.view().len() == 0,
    {
        Outbox { frames: VecDeque::new() }
    }

    /// Queues a frame behind the others.
    pub fn push(&mut self, frame: T)
        ensures
            final(self).view() == old(self).view().push(frame),
    {
        self.frames.push_back(frame);
    }

    /// Refuses new mutations while the queue is full, so that state already
    /// changed is never left unpublished.
    pub fn ensure_capacity(&self) -> (r: Result<(), ChatError>)
        ensures
            r is Ok <==> self.view().len() < OUTBOX_LIMIT,
            r is Err ==> r matches Err(ChatError::Transport),
    {
        if self.frames.len() >= OUTBOX_LIMIT {
            Err(ChatError::Transport)
        } else {
            Ok(())
        }
    }

    /// Takes the oldest frames, at most a batch of them.
    pub fn take_batch(&mut self) -> (r: Vec<T>)
        ensures
            r@.len() == if old(self).view().len() < BATCH { old(self).view().len() } else { BATCH as nat },
            r@ == old(self).view().subrange(0, r@.len() as int),
            final(self).view() == old(self).view().subrange(r@.len() as int, old(self).view().len() as int),
    {
        let ghost o = self.frames@;
        let take = if self.frames.len() < BATCH { self.frames.len() } else { BATCH };
        let mut out: Vec<T> = Vec::new();
        while out.len() < take
            invariant
                take <= o.len(),
                out@.len() <= take,
                out@ == o.subrange(0, out@.len() as int),
                self.frames@ == o.subrange(out@.len() as int, o.len() as int),
            decreases take - out@.len(),
        {
            let f = self.frames.pop_front();
            match f {
                Some(x) => {
                    proof {
                        assert(o.subrange(0, out@.len() as int + 1) =~= o.subrange(0, out@.len() as int).push(x));
                    }
                    out.push(x);
                },
                None => {
                    assert(false);
                },
            }
            proof {
                assert(self.frames@ =~= o.subrange(out@.len() as int, o.len() as int));
            }
        }
        out
    }

    /// Puts frames that failed to ship back at the front, in their order.
    pub fn requeue(&mut self, frames: Vec<T>)
        ensures
            final(self).view() == frames@ + old(self).view(),
    {
        let ghost o = self.frames@;
        let ghost f = frames@;
        let mut rest = frames;
        while rest.len() > 0
            invariant
                self.frames@ == rest@.subrange(0, 0) + f.subrange(rest@.len() as int, f.len() as int) + o,
                rest@ == f.subrange(0, rest@.len() as int),
                rest@.len() <= f.len(),
            decreases rest@.len(),
        {
            let x = rest.pop().unwrap();
            proof {
                assert(f[rest@.len() as int] == x);
            }
            self.frames.push_front(x);
            proof {
                assert(rest@ =~= f.subrange(0, rest@.len() as int));
                assert(self.frames@ =~= rest@.subrange(0, 0) + f.subrange(rest@.len() as int, f.len() as int) + o);
            }
        }
        proof {
            assert(f.subrange(0, f.len() as int) =~= f);
            assert(self.frames@ =~= f + o);
        }
    }
}

/// A batch that fails to ship is back where it was: taking a batch and
/// putting it back leaves the queue as it was.
pub proof fn law_failed_batch_restores<T>(queue: Seq<T>, batch: Seq<T>, rest: Seq<T>)
    requires
        batch.len() <= queue.len(),
        batch == queue.subrange(0, batch.len() as int),
        rest == queue.subrange(batch.len() as int, queue.len() as int),
    ensures
        batch + rest == queue,
{
    assert(batch + rest =~= queue);
}

} // verus!
