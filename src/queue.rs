use vstd::prelude::*;
use std::collections::VecDeque;
use std::sync::Arc;
use std::sync::atomic::AtomicBool;
use crate::extent::Extent;

verus! {

/// A DMA request: what to move, where in memory, and the flag that tells the
/// submitter it is done.
#[derive(Clone, Debug)]
pub struct Request {
    /// The blocks to move.
    pub extent: Extent,
    /// Physical address of the memory side.
    pub mem: usize,
    /// True to move from disk to memory.
    pub read: bool,
    /// Set once when the request has completed.
    pub complete: Arc<AtomicBool>,
}

/// The request in flight as a sequence of zero or one items.
pub open spec fn opt_seq(o: Option<Request>) -> Seq<Request> {
    match o {
        Some(r) => seq![r],
        None => Seq::empty(),
    }
}

/// Requests of one channel: at most one in flight, the rest waiting in
/// submission order.
pub struct RequestQueue {
    current: Option<Request>,
    pending: VecDeque<Request>,
    /// Every request ever submitted, in order.
    submitted: Ghost<Seq<Request>>,
    /// Every request completed so far, in order.
    completed: Ghost<Seq<Request>>,
}

impl RequestQueue {
    pub closed spec fn current(&self) -> Option<Request> {
        self.current
    }

    pub closed spec fn pending(&self) -> Seq<Request> {
        self.pending@
    }

    pub closed spec fn submitted(&self) -> Seq<Request> {
        self.submitted@
    }

    pub closed spec fn completed(&self) -> Seq<Request> {
        self.completed@
    }

    /// Submitted requests are the completed ones, then the one in flight,
    /// then the waiting ones.
    pub open spec fn wf(&self) -> bool {
        self.submitted() == self.completed() + opt_seq(self.current()) + self.pending()
    }

    pub fn new() -> (r: Self)
        ensures
            r.wf(),
            r.current() is None,
            r.pending().len() == 0,
            r.submitted().len() == 0,
            r.completed().len() == 0,
    {
        let r = RequestQueue {
            current: None,
            pending: VecDeque::new(),
            submitted: Ghost(Seq::empty()),
            completed: Ghost(Seq::empty()),
        };
        assert(r.submitted() =~= r.completed() + opt_seq(r.current()) + r.pending());
        r
    }

    /// True when no request is in flight.
    pub fn is_idle(&self) -> (r: bool)
        ensures
            r == self.current() is None,
    {
        self.current.is_none()
    }

    /// The request in flight.
    pub fn current_request(&self) -> (r: Option<&Request>)
        ensures
            r matches Some(x) ==> self.current() == Some(*x),
            r is None <==> self.current() is None,
    {
        match &self.current {
            Some(x) => Some(x),
            None => None,
        }
    }

    /// Number of requests waiting behind the one in flight.
    pub fn pending_len(&self) -> (r: usize)
        ensures
            r == self.pending().len(),
    {
        self.pending.len()
    }

    /// Appends a request behind those already waiting.
    pub fn push(&mut self, req: Request)
        requires
            old(self).wf(),
        ensures
            final(self).wf(),
            final(self).current() == old(self).current(),
            final(self).pending() == old(self).pending().push(req),
            final(self).submitted() == old(self).submitted().push(req),
            final(self).completed() == old(self).completed(),
    {
        proof {
            self.submitted@ = self.submitted@.push(req);
        }
        self.pending.push_back(req);
        assert(self.submitted() =~= self.completed() + opt_seq(self.current()) + self.pending());
    }

    /// Completes the request in flight, if any, and takes the first waiting
    /// one in its place. Returns the completed request.
    pub fn advance(&mut self) -> (done: Option<Request>)
        requires
            old(self).wf(),
        ensures
            done == old(self).current(),
            advanced(*old(self), *final(self)),
    {
        let done = self.current.take();
        proof {
            self.completed@ = self.completed@ + opt_seq(done);
        }
        self.current = self.pending.pop_front();
        assert(self.submitted() =~= self.completed() + opt_seq(self.current()) + self.pending());
        done
    }
}

/// `b` is `a` after one step: the request in flight of `a` completed, the
/// first waiting one (if any) now in flight.
pub open spec fn advanced(a: RequestQueue, b: RequestQueue) -> bool {
    &&& b.wf()
    &&& b.completed() == a.completed() + opt_seq(a.current())
    &&& b.submitted() == a.submitted()
    &&& if a.pending().len() == 0 {
        b.current() is None && b.pending().len() == 0
    } else {
        b.current() == Some(a.pending()[0]) && b.pending() == a.pending().drop_first()
    }
}

/// Completion order: at every moment the completed requests are the first
/// ones submitted, in submission order.
pub proof fn lemma_completion_in_order(q: RequestQueue)
    requires
        q.wf(),
    ensures
        q.completed().len() <= q.submitted().len(),
        q.completed() == q.submitted().subrange(0, q.completed().len() as int),
{
    assert(q.completed() =~= q.submitted().subrange(0, q.completed().len() as int));
}

} // verus!
