//! The queues of a sensor node: readings and errors wait here until the
//! publishing task sends them, errors first and readings in batches.
use vstd::prelude::*;

use crate::codec::{ErrorReport, Msg, MsgView, SensorMessage, MAX_READINGS};
use crate::reading::{Error, Reading};

verus! {

/// The last `cap` entries of `s`.
pub open spec fn keep_last<T>(s: Seq<T>, cap: nat) -> Seq<T> {
    if s.len() > cap {
        s.subrange(s.len() - cap, s.len() as int)
    } else {
        s
    }
}

/// Bounded queues that drop their oldest entry when full. Errors equal to
/// the one queued last are coalesced into it.
pub struct Queues {
    readings: Vec<Reading>,
    errors: Vec<Error>,
    reading_cap: usize,
    error_cap: usize,
}

impl Queues {
    pub closed spec fn pending_readings(&self) -> Seq<Reading> {
        self.readings@
    }

    pub closed spec fn pending_errors(&self) -> Seq<Error> {
        self.errors@
    }

    pub closed spec fn reading_capacity(&self) -> nat {
        self.reading_cap as nat
    }

    pub closed spec fn error_capacity(&self) -> nat {
        self.error_cap as nat
    }

    pub open spec fn wf(&self) -> bool {
        &&& self.reading_capacity() > 0
        &&& self.error_capacity() > 0
        &&& self.pending_readings().len() <= self.reading_capacity()
        &&& self.pending_errors().len() <= self.error_capacity()
        &&& forall|i: int|
            0 <= i < self.pending_errors().len() ==> (#[trigger] self.pending_errors()[i]).wf()
    }

    pub fn new(reading_cap: usize, error_cap: usize) -> (r: Queues)
        requires
            reading_cap > 0,
            error_cap > 0,
        ensures
            r.wf(),
            r.pending_readings().len() == 0,
            r.pending_errors().len() == 0,
            r.reading_capacity() == reading_cap,
            r.error_capacity() == error_cap,
    {
        Queues { readings: Vec::new(), errors: Vec::new(), reading_cap, error_cap }
    }

    /// Queues a reading, dropping the oldest one when the queue is full.
    pub fn send_p0(&mut self, reading: Reading)
        requires
            old(self).wf(),
        ensures
            final(self).wf(),
            final(self).reading_capacity() == old(self).reading_capacity(),
            final(self).error_capacity() == old(self).error_capacity(),
            final(self).pending_errors() == old(self).pending_errors(),
            final(self).pending_readings() == keep_last(
                old(self).pending_readings().push(reading),
                old(self).reading_capacity(),
            ),
    {
        if self.readings.len() >= self.reading_cap {
            self.readings.remove(0);
        }
        self.readings.push(reading);
        assert(self.readings@ =~= keep_last(old(self).readings@.push(reading), self.reading_cap as nat));
    }

    /// Queues an error unless it equals the error queued last; drops the
    /// oldest error when the queue is full.
    pub fn queue_error(&mut self, error: Error)
        requires
            old(self).wf(),
            error.wf(),
        ensures
            final(self).wf(),
            final(self).reading_capacity() == old(self).reading_capacity(),
            final(self).error_capacity() == old(self).error_capacity(),
            final(self).pending_readings() == old(self).pending_readings(),
            if old(self).pending_errors().len() > 0 && old(self).pending_errors().last().same(&error) {
                final(self).pending_errors() == old(self).pending_errors()
            } else {
                final(self).pending_errors() == keep_last(
                    old(self).pending_errors().push(error),
                    old(self).error_capacity(),
                )
            },
    {
        let n = self.errors.len();
        if n > 0 && self.errors[n - 1].is_same_as(&error) {
            return;
        }
        if n >= self.error_cap {
            self.errors.remove(0);
        }
        self.errors.push(error);
        assert(self.errors@ =~= keep_last(old(self).errors@.push(error), self.error_cap as nat));
    }

    /// The next message to send: the oldest pending error, or else a batch
    /// of the oldest readings, at most [`MAX_READINGS`] of them.
    pub fn next_msg(&mut self) -> (r: Option<Msg>)
        requires
            old(self).wf(),
        ensures
            final(self).wf(),
            final(self).reading_capacity() == old(self).reading_capacity(),
            final(self).error_capacity() == old(self).error_capacity(),
            r.is_some() ==> r.unwrap().wf(),
            old(self).pending_errors().len() > 0 ==> {
                let e = old(self).pending_errors()[0];
                &&& r.is_some()
                &&& r.unwrap().view_of() == MsgView::ErrorReport(e.dev(), e.inner().cause(), e.inner().msg())
                &&& final(self).pending_errors() == old(self).pending_errors().drop_first()
                &&& final(self).pending_readings() == old(self).pending_readings()
            },
            old(self).pending_errors().len() == 0 && old(self).pending_readings().len() > 0 ==> {
                let n = if old(self).pending_readings().len() < MAX_READINGS {
                    old(self).pending_readings().len() as int
                } else {
                    MAX_READINGS as int
                };
                &&& r.is_some()
                &&& r.unwrap().view_of() == MsgView::Readings(old(self).pending_readings().subrange(0, n))
                &&& final(self).pending_readings() == old(self).pending_readings().subrange(
                    n,
                    old(self).pending_readings().len() as int,
                )
                &&& final(self).pending_errors().len() == 0
            },
            old(self).pending_errors().len() == 0 && old(self).pending_readings().len() == 0
                ==> r.is_none() && final(self).pending_readings().len() == 0
                && final(self).pending_errors().len() == 0,
    {
        if self.errors.len() > 0 {
            let error = self.errors.remove(0);
            assert(self.errors@ =~= old(self).errors@.drop_first());
            assert forall|i: int| 0 <= i < self.pending_errors().len() implies (
            #[trigger] self.pending_errors()[i]).wf() by {
                assert(self.pending_errors()[i] == old(self).pending_errors()[i + 1]);
            }
            assert(old(self).pending_errors()[0].wf());
            return Some(Msg::ErrorReport(ErrorReport::new(error)));
        }
        if self.readings.len() == 0 {
            return None;
        }
        let n = if self.readings.len() < MAX_READINGS {
            self.readings.len()
        } else {
            MAX_READINGS
        };
        let mut values: Vec<Reading> = Vec::new();
        for i in 0..n
            invariant
                n <= self.readings@.len(),
                self.readings@ == old(self).readings@,
                values@ == self.readings@.subrange(0, i as int),
        {
            values.push(self.readings[i]);
            assert(self.readings@.subrange(0, i + 1) =~= self.readings@.subrange(0, i as int).push(
                self.readings@[i as int],
            ));
        }
        let mut rest: Vec<Reading> = Vec::new();
        let len = self.readings.len();
        for i in n..len
            invariant
                n <= len,
                len == self.readings@.len(),
                rest@ == self.readings@.subrange(n as int, i as int),
        {
            rest.push(self.readings[i]);
            assert(self.readings@.subrange(n as int, i + 1) =~= self.readings@.subrange(
                n as int,
                i as int,
            ).push(self.readings@[i as int]));
        }
        self.readings = rest;
        Some(Msg::Readings(SensorMessage { values }))
    }
}

} // verus!
