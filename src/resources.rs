//! The resource manager's bookkeeping: permits in use and waiters per
//! class, with bounded wait queues for disk permits.

use vstd::prelude::*;
use crate::limits::{limit_of, CalculatedLimits, ResourceType};

verus! {

/// Permits of one class.
#[derive(Clone, Copy, Debug, PartialEq, Eq, Structural)]
pub struct PermitPool {
    pub max_concurrent: usize,
    pub in_use: usize,
    pub waiting: usize,
    /// Bound on waiters; `None` lets any number wait.
    pub queue_capacity: Option<usize>,
}

/// What asking for a permit gives.
#[derive(Clone, Copy, Debug, PartialEq, Eq, Structural)]
pub enum Acquire {
    /// A permit is held now.
    Granted,
    /// The caller waits for a release or a larger limit.
    Queued,
    /// The wait queue is full: the caller sheds load.
    Overloaded,
}

impl PermitPool {
    /// Permits in use stay within the limit, unless the limit shrank below
    /// them; then nothing is granted until enough came back.
    pub open spec fn wf(&self) -> bool {
        self.waiting > 0 ==> self.in_use >= self.max_concurrent
    }

    pub fn new(max_concurrent: usize, queue_capacity: Option<usize>) -> (r: Self)
        ensures
            r.wf(),
            r.max_concurrent == max_concurrent,
            r.queue_capacity == queue_capacity,
            r.in_use == 0,
            r.waiting == 0,
    {
        PermitPool { max_concurrent, in_use: 0, waiting: 0, queue_capacity }
    }

    /// Asks for one permit.
    pub fn acquire(&mut self) -> (r: Acquire)
        requires
            old(self).wf(),
            old(self).waiting < usize::MAX,
        ensures
            final(self).wf(),
            final(self).max_concurrent == old(self).max_concurrent,
            final(self).queue_capacity == old(self).queue_capacity,
            r == Acquire::Granted <==> old(self).in_use < old(self).max_concurrent,
            r == Acquire::Granted ==> final(self).in_use == old(self).in_use + 1 && final(self).waiting == old(self).waiting,
            r == Acquire::Queued ==> final(self).in_use == old(self).in_use && final(self).waiting == old(self).waiting + 1,
            r == Acquire::Overloaded <==> (old(self).in_use >= old(self).max_concurrent
                && (old(self).queue_capacity matches Some(c) && old(self).waiting >= c)),
            r == Acquire::Overloaded ==> *final(self) == *old(self),
            final(self).in_use > final(self).max_concurrent ==> final(self).in_use == old(self).in_use,
            old(self).in_use <= old(self).max_concurrent ==> final(self).in_use <= final(self).max_concurrent,
    {
        if self.in_use < self.max_concurrent {
            self.in_use = self.in_use + 1;
            return Acquire::Granted;
        }
        match self.queue_capacity {
            Some(c) => {
                if self.waiting >= c {
                    return Acquire::Overloaded;
                }
            },
            None => {},
        }
        self.waiting = self.waiting + 1;
        Acquire::Queued
    }

    /// Grants waiters while permits are free; returns how many were granted.
    fn wake_waiters(&mut self) -> (woken: usize)
        ensures
            final(self).wf(),
            final(self).max_concurrent == old(self).max_concurrent,
            final(self).queue_capacity == old(self).queue_capacity,
            final(self).in_use == old(self).in_use + woken,
            final(self).waiting == old(self).waiting - woken,
            woken > 0 ==> final(self).in_use <= final(self).max_concurrent,
            woken == 0 ==> *final(self) == *old(self),
            woken <= old(self).waiting,
    {
        let mut woken: usize = 0;
        while self.waiting > 0 && self.in_use < self.max_concurrent
            invariant
                self.max_concurrent == old(self).max_concurrent,
                self.queue_capacity == old(self).queue_capacity,
                self.in_use == old(self).in_use + woken,
                self.waiting == old(self).waiting - woken,
                woken > 0 ==> self.in_use <= self.max_concurrent,
                woken == 0 ==> *self == *old(self),
            decreases self.waiting,
        {
            self.waiting = self.waiting - 1;
            self.in_use = self.in_use + 1;
            woken = woken + 1;
        }
        woken
    }

    /// Returns one permit; a waiter, if any, takes it at once. Returns
    /// whether a waiter was granted.
    pub fn release(&mut self) -> (woke: bool)
        requires
            old(self).wf(),
            old(self).in_use > 0,
        ensures
            final(self).wf(),
            final(self).max_concurrent == old(self).max_concurrent,
            woke ==> final(self).in_use == old(self).in_use && final(self).waiting == old(self).waiting - 1
                && final(self).in_use <= final(self).max_concurrent,
            !woke ==> final(self).in_use == old(self).in_use - 1 && final(self).waiting == old(self).waiting,
            woke <==> old(self).waiting > 0 && old(self).in_use - 1 < old(self).max_concurrent,
            old(self).in_use <= old(self).max_concurrent ==> final(self).in_use <= final(self).max_concurrent,
    {
        self.in_use = self.in_use - 1;
        if self.waiting > 0 && self.in_use < self.max_concurrent {
            self.waiting = self.waiting - 1;
            self.in_use = self.in_use + 1;
            true
        } else {
            false
        }
    }

    /// Replaces the limit. Permits in use are not revoked; waiters are
    /// granted as far as the new limit allows. Returns how many were granted.
    pub fn set_limit(&mut self, max_concurrent: usize) -> (woken: usize)
        requires
            old(self).wf(),
        ensures
            final(self).wf(),
            final(self).max_concurrent == max_concurrent,
            final(self).in_use == old(self).in_use + woken,
            final(self).waiting == old(self).waiting - woken,
            old(self).in_use <= max_concurrent ==> final(self).in_use <= max_concurrent,
            old(self).in_use > max_concurrent ==> woken == 0,
    {
        self.max_concurrent = max_concurrent;
        self.wake_waiters()
    }
}

/// Disk pools let at most twice their limit wait.
pub open spec fn disk_queue(max: usize) -> Option<usize> {
    if 2 * max > usize::MAX { Some(usize::MAX) } else { Some((2 * max) as usize) }
}

fn disk_queue_of(max: usize) -> (r: Option<usize>)
    ensures
        r == disk_queue(max),
{
    if max > usize::MAX / 2 { Some(usize::MAX) } else { Some(2 * max) }
}

/// The four permit pools.
#[derive(Clone, Copy, Debug, PartialEq, Eq, Structural)]
pub struct ResourceManager {
    pub reserve: PermitPool,
    pub peer_connection: PermitPool,
    pub disk_read: PermitPool,
    pub disk_write: PermitPool,
}

pub open spec fn pool_of(m: ResourceManager, k: ResourceType) -> PermitPool {
    match k {
        ResourceType::Reserve => m.reserve,
        ResourceType::PeerConnection => m.peer_connection,
        ResourceType::DiskRead => m.disk_read,
        ResourceType::DiskWrite => m.disk_write,
    }
}

impl ResourceManager {
    pub open spec fn wf(&self) -> bool {
        forall|k: ResourceType| (#[trigger] pool_of(*self, k)).wf()
    }

    /// Pools sized by the limits; disk pools queue up to twice their limit,
    /// the others without bound.
    pub fn new(limits: CalculatedLimits) -> (r: Self)
        ensures
            r.wf(),
            forall|k: ResourceType| #![auto] pool_of(r, k).max_concurrent == limit_of(limits, k)
                && pool_of(r, k).in_use == 0 && pool_of(r, k).waiting == 0,
            r.disk_read.queue_capacity == disk_queue(limits.disk_read_permits),
            r.disk_write.queue_capacity == disk_queue(limits.disk_write_permits),
            r.reserve.queue_capacity is None && r.peer_connection.queue_capacity is None,
    {
        ResourceManager {
            reserve: PermitPool::new(limits.reserve_permits, None),
            peer_connection: PermitPool::new(limits.max_connected_peers, None),
            disk_read: PermitPool::new(limits.disk_read_permits, disk_queue_of(limits.disk_read_permits)),
            disk_write: PermitPool::new(limits.disk_write_permits, disk_queue_of(limits.disk_write_permits)),
        }
    }

    /// Replaces every limit at once.
    pub fn update_limits(&mut self, limits: CalculatedLimits)
        requires
            old(self).wf(),
        ensures
            final(self).wf(),
            forall|k: ResourceType| #![auto] pool_of(*final(self), k).max_concurrent == limit_of(limits, k),
            forall|k: ResourceType| #![auto] pool_of(*old(self), k).in_use <= limit_of(limits, k)
                ==> pool_of(*final(self), k).in_use <= limit_of(limits, k),
            forall|k: ResourceType| #![auto] pool_of(*old(self), k).in_use > limit_of(limits, k)
                ==> pool_of(*final(self), k).in_use == pool_of(*old(self), k).in_use,
    {
        assert(pool_of(*self, ResourceType::Reserve).wf());
        assert(pool_of(*self, ResourceType::PeerConnection).wf());
        assert(pool_of(*self, ResourceType::DiskRead).wf());
        assert(pool_of(*self, ResourceType::DiskWrite).wf());
        self.reserve.set_limit(limits.reserve_permits);
        self.peer_connection.set_limit(limits.max_connected_peers);
        self.disk_read.set_limit(limits.disk_read_permits);
        self.disk_write.set_limit(limits.disk_write_permits);
        assert forall|k: ResourceType| (#[trigger] pool_of(*self, k)).wf() by {
            match k {
                ResourceType::Reserve => {},
                ResourceType::PeerConnection => {},
                ResourceType::DiskRead => {},
                ResourceType::DiskWrite => {},
            }
        }
    }
}

} // verus!
