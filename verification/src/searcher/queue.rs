//! The questions that wait for an answer.
use crate::searcher::run::SearchJob;
use vstd::prelude::*;

verus! {

/// What a look into the queue showed.
pub enum Heard {
    Job(SearchJob),
    Nothing,
    /// Nobody waits for an answer any more.
    Gone,
}

/// The searching side's view of the queue. A job that ends one search begins the
/// next, so it is kept, not thrown away.
pub struct JobQueue {
    pub next: Option<SearchJob>,
    pub closed: bool,
}

/// The queue after a look, and what the look says: the search that is going on
/// has been overtaken.
pub open spec fn after_look(queue: JobQueue, heard: Heard) -> JobQueue {
    if queue.next is None && !queue.closed {
        match heard {
            Heard::Job(job) => JobQueue { next: Some(job), ..queue },
            Heard::Nothing => queue,
            Heard::Gone => JobQueue { closed: true, ..queue },
        }
    } else {
        queue
    }
}

pub open spec fn overtaken(queue: JobQueue) -> bool {
    queue.next is Some || queue.closed
}

impl JobQueue {
    pub fn new() -> (out: Self)
        ensures
            out.next is None,
            !out.closed,
    {
        JobQueue { next: None, closed: false }
    }

    /// A look is worth taking: nothing is known yet.
    pub fn wants_look(&self) -> (out: bool)
        ensures
            out == !overtaken(*self),
    {
        self.next.is_none() && !self.closed
    }

    /// Takes what a look showed, and says whether the search is overtaken.
    pub fn look(&mut self, heard: Heard) -> (out: bool)
        ensures
            *final(self) == after_look(*old(self), heard),
            out == overtaken(*final(self)),
    {
        if self.next.is_none() && !self.closed {
            match heard {
                Heard::Job(job) => {
                    self.next = Some(job);
                },
                Heard::Nothing => {},
                Heard::Gone => {
                    self.closed = true;
                },
            }
        }
        self.next.is_some() || self.closed
    }

    /// The job that was kept while the last search went on.
    pub fn take_next(&mut self) -> (out: Option<SearchJob>)
        ensures
            out == old(self).next,
            *final(self) == (JobQueue { next: None, ..*old(self) }),
    {
        self.next.take()
    }
}

/// The job that is run: the newest of those that wait.
pub fn newest(first: SearchJob, newer: Vec<SearchJob>) -> (out: SearchJob)
    ensures
        out == if newer@.len() > 0 {
            newer@.last()
        } else {
            first
        },
{
    let mut newer = newer;
    match newer.pop() {
        Some(job) => job,
        None => first,
    }
}

} // verus!
