//! The pending draw queue: accumulates one frame's text requests until
//! the frame renderer drains them.

use vstd::prelude::*;

use crate::glyph::TextRequest;

verus! {

/// The per-frame accumulator of [`TextRequest`]s. Requests are kept in
/// enqueue order and consumed exactly once per frame: draining hands
/// every request out, in order, and leaves the queue empty.
#[derive(Debug)]
pub struct PendingQueue {
    pub requests: Vec<TextRequest>,
}

impl PendingQueue {
    /// An empty queue.
    pub fn new() -> (q: PendingQueue)
        ensures
            q.requests@.len() == 0,
    {
        PendingQueue { requests: Vec::new() }
    }

    /// Appends one request behind all earlier ones.
    pub fn enqueue(&mut self, request: TextRequest)
        ensures
            final(self).requests@ == old(self).requests@.push(request),
    {
        self.requests.push(request);
    }

    /// Hands back the accumulated requests in the exact order they were
    /// enqueued; afterwards the queue is empty. Draining an empty queue
    /// yields an empty list.
    pub fn drain(&mut self) -> (r: Vec<TextRequest>)
        ensures
            r@ == old(self).requests@,
            final(self).requests@.len() == 0,
    {
        let mut taken: Vec<TextRequest> = Vec::new();
        core::mem::swap(&mut taken, &mut self.requests);
        taken
    }
}

} // verus!
