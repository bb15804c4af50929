//! The log of errors a device reported: repeats of the same error extend
//! the last entry instead of adding one.
use vstd::prelude::*;

use crate::reading::Error;

verus! {

/// An error and the time span, in milliseconds, over which it kept coming.
pub struct ErrorEvent {
    pub start: u64,
    /// When the error was last reported again, if it was.
    pub end: Option<u64>,
    pub error: Error,
}

/// Error events, oldest first.
pub struct ErrorLog {
    events: Vec<ErrorEvent>,
}

impl ErrorLog {
    pub closed spec fn entries(&self) -> Seq<ErrorEvent> {
        self.events@
    }

    pub fn new_empty() -> (r: ErrorLog)
        ensures
            r.entries().len() == 0,
    {
        ErrorLog { events: Vec::new() }
    }

    /// Records `error` at time `now`: a repeat of the newest entry's error
    /// moves that entry's end to `now`, any other error starts an entry.
    pub fn add(&mut self, error: Error, now: u64)
        ensures
            if old(self).entries().len() > 0 && old(self).entries().last().error.same(&error) {
                &&& final(self).entries().len() == old(self).entries().len()
                &&& final(self).entries().drop_last() == old(self).entries().drop_last()
                &&& final(self).entries().last().start == old(self).entries().last().start
                &&& final(self).entries().last().end == Some(now)
                &&& final(self).entries().last().error == old(self).entries().last().error
            } else {
                &&& final(self).entries().len() == old(self).entries().len() + 1
                &&& final(self).entries().drop_last() == old(self).entries()
                &&& final(self).entries().last().start == now
                &&& final(self).entries().last().end.is_none()
                &&& final(self).entries().last().error == error
            },
    {
        let n = self.events.len();
        if n > 0 && self.events[n - 1].error.is_same_as(&error) {
            let last = self.events.pop().unwrap();
            self.events.push(ErrorEvent { start: last.start, end: Some(now), error: last.error });
            assert(self.events@.drop_last() =~= old(self).events@.drop_last());
        } else {
            self.events.push(ErrorEvent { start: now, end: None, error });
            assert(self.events@.drop_last() =~= old(self).events@);
        }
    }

    /// Number of entries that started at or after `since`.
    pub fn count_since(&self, since: u64) -> (r: usize)
        ensures
            r == count_started_since(self.entries(), since),
    {
        let mut r: usize = 0;
        for i in 0..self.events.len()
            invariant
                r == count_started_since(self.entries().subrange(0, i as int), since),
                r <= i,
        {
            proof {
                assert(self.entries().subrange(0, i + 1).drop_last() =~= self.entries().subrange(
                    0,
                    i as int,
                ));
            }
            if self.events[i].start >= since {
                r = r + 1;
            }
        }
        assert(self.entries().subrange(0, self.entries().len() as int) =~= self.entries());
        r
    }

    /// The newest entry, if any.
    pub fn last(&self) -> (r: Option<&ErrorEvent>)
        ensures
            r.is_some() == (self.entries().len() > 0),
            r.is_some() ==> *r.unwrap() == self.entries().last(),
    {
        if self.events.len() == 0 {
            None
        } else {
            Some(&self.events[self.events.len() - 1])
        }
    }
}

/// How many entries started at or after `since`.
pub open spec fn count_started_since(events: Seq<ErrorEvent>, since: u64) -> nat
    decreases events.len(),
{
    if events.len() == 0 {
        0
    } else {
        count_started_since(events.drop_last(), since) + if events.last().start >= since {
            1nat
        } else {
            0nat
        }
    }
}

} // verus!
