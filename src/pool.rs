//! The container pool of an exploit: long-lived containers handed out under exclusive
//! lease, first available first, with requests that find none waiting in arrival order.
use vstd::prelude::*;

verus! {

/// The containers of one exploit and the requests waiting for one.
pub struct ContainerPool {
    /// Containers not leased, the next to hand out first.
    pub idle: Vec<String>,
    /// Requests waiting for a container, the oldest first.
    pub waiting: Vec<u64>,
}

impl ContainerPool {
    /// A request waits only while every container is leased.
    pub open spec fn wf(&self) -> bool {
        self.idle@.len() == 0 || self.waiting@.len() == 0
    }

    /// A pool whose containers are all idle.
    pub fn new(containers: Vec<String>) -> (r: ContainerPool)
        ensures
            r.wf(),
            r.idle@ == containers@,
            r.waiting@.len() == 0,
    {
        ContainerPool { idle: containers, waiting: Vec::new() }
    }

    /// Request `request` asks for a container: it gets the first idle one, or, if all
    /// are leased, joins the end of the queue.
    pub fn acquire(&mut self, request: u64) -> (r: Option<String>)
        requires
            old(self).wf(),
        ensures
            final(self).wf(),
            old(self).idle@.len() > 0 ==> r == Some(old(self).idle@[0]) && final(self).idle@
                == old(self).idle@.drop_first() && final(self).waiting@ == old(self).waiting@,
            old(self).idle@.len() == 0 ==> r is None && final(self).idle@ == old(self).idle@
                && final(self).waiting@ == old(self).waiting@.push(request),
    {
        if self.idle.len() > 0 {
            let c = self.idle.remove(0);
            proof {
                assert(self.idle@ =~= old(self).idle@.drop_first());
            }
            Some(c)
        } else {
            self.waiting.push(request);
            None
        }
    }

    /// A lease ends: the container goes to the oldest waiting request, or back to the
    /// idle ones if none waits.
    pub fn release(&mut self, container: String) -> (r: Option<u64>)
        requires
            old(self).wf(),
        ensures
            final(self).wf(),
            old(self).waiting@.len() > 0 ==> r == Some(old(self).waiting@[0])
                && final(self).waiting@ == old(self).waiting@.drop_first()
                && final(self).idle@ == old(self).idle@,
            old(self).waiting@.len() == 0 ==> r is None
                && final(self).waiting@ == old(self).waiting@
                && final(self).idle@ == old(self).idle@.push(container),
    {
        if self.waiting.len() > 0 {
            let w = self.waiting.remove(0);
            proof {
                assert(self.waiting@ =~= old(self).waiting@.drop_first());
            }
            Some(w)
        } else {
            self.idle.push(container);
            None
        }
    }

    /// Whether no request waits while a container is idle.
    pub fn is_consistent(&self) -> (r: bool)
        ensures
            r == self.wf(),
    {
        self.idle.len() == 0 || self.waiting.len() == 0
    }

    /// How many containers are idle.
    pub fn available(&self) -> (r: usize)
        ensures
            r == self.idle@.len(),
    {
        self.idle.len()
    }
}

} // verus!
