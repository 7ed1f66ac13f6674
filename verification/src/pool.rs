//! The worker pool's permit discipline: at most `width` fetch-and-save
//! workers hold a permit at any instant. A worker takes a permit before it
//! runs and gives it back when it finishes; a start is admitted only while
//! the pool has room.

use vstd::prelude::*;

verus! {

/// Permit book-keeping of a bounded pool of concurrent workers.
pub struct WorkerPool {
    active: usize,
    width: usize,
}

impl WorkerPool {
    /// How many workers hold a permit.
    pub closed spec fn active(&self) -> int {
        self.active as int
    }

    /// The configured concurrency bound.
    pub closed spec fn width(&self) -> int {
        self.width as int
    }

    /// The concurrency bound holds: never more live workers than the
    /// width, and the width is at least one.
    pub open spec fn wf(&self) -> bool {
        0 <= self.active() <= self.width() && self.width() >= 1
    }

    /// An idle pool of the given width.
    pub fn new(width: usize) -> (p: WorkerPool)
        requires
            width >= 1,
        ensures
            p.wf(),
            p.active() == 0,
            p.width() == width,
    {
        WorkerPool { active: 0, width }
    }

    /// Admits one more worker while the pool has room; refuses at width,
    /// so the bound is kept whatever the callers do.
    pub fn try_acquire(&mut self) -> (ok: bool)
        requires
            old(self).wf(),
        ensures
            final(self).wf(),
            final(self).width() == old(self).width(),
            ok ==> old(self).active() < old(self).width() && final(self).active() == old(
                self,
            ).active() + 1,
            !ok ==> final(self).active() == old(self).active() && old(self).active() == old(
                self,
            ).width(),
    {
        if self.active < self.width {
            self.active = self.active + 1;
            true
        } else {
            false
        }
    }

    /// Releases one worker's permit.
    pub fn release(&mut self)
        requires
            old(self).wf(),
            old(self).active() >= 1,
        ensures
            final(self).wf(),
            final(self).width() == old(self).width(),
            final(self).active() == old(self).active() - 1,
    {
        self.active = self.active - 1;
    }
}

/// One observable event of the pool's life.
#[derive(Debug, Clone, Copy, PartialEq, Eq, Structural)]
pub enum PoolEvent {
    /// A worker asked to start.
    Start,
    /// A worker finished.
    Finish,
}

/// The live-worker count after one event, mirroring `try_acquire` and
/// `release`: a start is admitted only below the width, a finish only
/// above zero.
pub open spec fn pool_step(active: int, width: int, ev: PoolEvent) -> int {
    match ev {
        PoolEvent::Start => if active < width {
            active + 1
        } else {
            active
        },
        PoolEvent::Finish => if active > 0 {
            active - 1
        } else {
            active
        },
    }
}

/// The live-worker count after a sequence of events.
pub open spec fn pool_after(active: int, width: int, evs: Seq<PoolEvent>) -> int
    decreases evs.len(),
{
    if evs.len() == 0 {
        active
    } else {
        pool_after(pool_step(active, width, evs[0]), width, evs.drop_first())
    }
}

/// From a valid state, any sequence of starts and finishes leaves the
/// live count within `[0, width]`.
pub proof fn lemma_pool_after_bounded(active: int, width: int, evs: Seq<PoolEvent>)
    requires
        0 <= active <= width,
    ensures
        0 <= pool_after(active, width, evs) <= width,
    decreases evs.len(),
{
    if evs.len() > 0 {
        lemma_pool_after_bounded(pool_step(active, width, evs[0]), width, evs.drop_first());
    }
}

/// At no point of any schedule do more than `width` workers run at once:
/// the bound holds after every prefix of the events, for any width.
pub proof fn lemma_concurrency_bound(active: int, width: int, evs: Seq<PoolEvent>)
    requires
        0 <= active <= width,
    ensures
        forall|n: int|
            0 <= n <= evs.len() ==> 0 <= pool_after(active, width, #[trigger] evs.take(n))
                <= width,
{
    assert forall|n: int|
        0 <= n <= evs.len() implies 0 <= pool_after(active, width, #[trigger] evs.take(n))
        <= width by {
        lemma_pool_after_bounded(active, width, evs.take(n));
    }
}

} // verus!
