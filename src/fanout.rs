//! The decisions of the fan-out bus: what one producer frame turns into,
//! what is sent to subscribers for each update, and which subscribers stay.
use vstd::prelude::*;

use crate::codec::{ErrorReport, Msg, MsgView, SensorMessage};
use crate::reading::{Error, Reading};

verus! {

/// Capacity of the queue between producers and the broadcasting task.
pub const EVENT_QUEUE_LEN: usize = 2000;

/// What the broadcasting task is told about.
pub enum Event<S> {
    /// A subscriber connected.
    NewSub(S),
    /// A producer sent a reading or an error.
    NewReading(Result<Reading, Error>),
}

/// The updates a producer's message carries, in the order they were sent.
pub fn updates_of(msg: Msg) -> (r: Vec<Result<Reading, Error>>)
    ensures
        match msg.view_of() {
            MsgView::Readings(rs) => r@.len() == rs.len() && forall|i: int|
                0 <= i < rs.len() ==> #[trigger] r@[i] == Ok::<Reading, Error>(rs[i]),
            MsgView::ErrorReport(..) => r@.len() == 1 && r@[0] is Err && r@[0]->Err_0.dev()
                == msg->ErrorReport_0.error.dev() && r@[0]->Err_0.inner().msg()
                == msg->ErrorReport_0.error.inner().msg() && r@[0]->Err_0.inner().cause()
                == msg->ErrorReport_0.error.inner().cause(),
        },
{
    let mut r: Vec<Result<Reading, Error>> = Vec::new();
    match msg {
        Msg::Readings(m) => {
            for i in 0..m.values.len()
                invariant
                    r@.len() == i,
                    forall|j: int|
                        0 <= j < i ==> #[trigger] r@[j] == Ok::<Reading, Error>(m.values@[j]),
            {
                r.push(Ok(m.values[i]));
            }
        },
        Msg::ErrorReport(report) => {
            r.push(Err(report.error));
        },
    }
    r
}

/// The message broadcast for one update: a batch of that one reading, or
/// a report of that error.
pub fn message_for(update: Result<Reading, Error>) -> (r: Msg)
    requires
        update is Err ==> update->Err_0.wf(),
    ensures
        r.wf(),
        update is Ok ==> r.view_of() == MsgView::Readings(seq![update->Ok_0]),
        update is Err ==> r.view_of() == MsgView::ErrorReport(
            update->Err_0.dev(),
            update->Err_0.inner().cause(),
            update->Err_0.inner().msg(),
        ),
{
    match update {
        Ok(reading) => {
            let mut batch = SensorMessage::new();
            let _ = batch.push(reading);
            assert(batch.values@ =~= seq![reading]);
            Msg::Readings(batch)
        },
        Err(error) => Msg::ErrorReport(ErrorReport::new(error)),
    }
}

/// The entries of `s` whose flag in `ok` is set, in their order.
pub open spec fn kept<S>(s: Seq<S>, ok: Seq<bool>) -> Seq<S>
    decreases s.len(),
{
    if s.len() == 0 || ok.len() == 0 {
        Seq::empty()
    } else {
        (if ok[0] {
            seq![s[0]]
        } else {
            Seq::empty()
        }) + kept(s.drop_first(), ok.drop_first())
    }
}

/// Number of set flags.
pub open spec fn count_ok(ok: Seq<bool>) -> nat
    decreases ok.len(),
{
    if ok.len() == 0 {
        0
    } else {
        (if ok[0] {
            1nat
        } else {
            0nat
        }) + count_ok(ok.drop_first())
    }
}

/// Drops every subscriber whose write failed; the others keep their order.
pub fn retain_written<S>(subs: &mut Vec<S>, written: &Vec<bool>)
    requires
        old(subs)@.len() == written@.len(),
    ensures
        final(subs)@ == kept(old(subs)@, written@),
{
    let n = subs.len();
    let mut i = n;
    assert(old(subs)@.subrange(n as int, n as int) =~= Seq::<S>::empty());
    assert(subs@ =~= old(subs)@.subrange(0, n as int) + kept(
        old(subs)@.subrange(n as int, n as int),
        written@.subrange(n as int, n as int),
    ));
    while i > 0
        invariant
            n == old(subs)@.len(),
            n == written@.len(),
            i <= n,
            subs@ == old(subs)@.subrange(0, i as int) + kept(
                old(subs)@.subrange(i as int, n as int),
                written@.subrange(i as int, n as int),
            ),
        decreases i,
    {
        i = i - 1;
        let ghost rest = kept(
            old(subs)@.subrange(i + 1, n as int),
            written@.subrange(i + 1, n as int),
        );
        assert(old(subs)@.subrange(i as int, n as int).drop_first() =~= old(subs)@.subrange(
            i + 1,
            n as int,
        ));
        assert(written@.subrange(i as int, n as int).drop_first() =~= written@.subrange(
            i + 1,
            n as int,
        ));
        if !written[i] {
            subs.remove(i);
            assert(subs@ =~= old(subs)@.subrange(0, i as int) + rest);
        } else {
            assert(subs@ =~= old(subs)@.subrange(0, i as int) + (seq![old(subs)@[i as int]]
                + rest));
        }
    }
    assert(old(subs)@.subrange(0, n as int) =~= old(subs)@);
    assert(written@.subrange(0, n as int) =~= written@);
    assert(old(subs)@.subrange(0, 0) =~= Seq::<S>::empty());
    assert(subs@ =~= kept(old(subs)@, written@));
}

/// A subscriber whose write succeeded stays, at the place given by the
/// number of successful subscribers before it; a subscriber whose write
/// failed is gone; none is added.
pub proof fn lemma_kept<S>(s: Seq<S>, ok: Seq<bool>, i: int)
    requires
        s.len() == ok.len(),
        0 <= i < s.len(),
    ensures
        kept(s, ok).len() == count_ok(ok),
        ok[i] ==> count_ok(ok.subrange(0, i)) < kept(s, ok).len() && kept(s, ok)[count_ok(
            ok.subrange(0, i),
        ) as int] == s[i],
    decreases s.len(),
{
    lemma_kept_len(s, ok);
    if i > 0 {
        lemma_kept(s.drop_first(), ok.drop_first(), i - 1);
        assert(ok.subrange(0, i).drop_first() =~= ok.drop_first().subrange(0, i - 1));
    } else {
        assert(ok.subrange(0, 0) =~= Seq::<bool>::empty());
    }
}

proof fn lemma_kept_len<S>(s: Seq<S>, ok: Seq<bool>)
    requires
        s.len() == ok.len(),
    ensures
        kept(s, ok).len() == count_ok(ok),
    decreases s.len(),
{
    if s.len() > 0 {
        lemma_kept_len(s.drop_first(), ok.drop_first());
    }
}

/// The subscribers left after one broadcast, when `accepts` tells whose
/// write succeeded.
pub open spec fn after_round(subs: Seq<u64>, accepts: spec_fn(u64) -> bool) -> Seq<u64> {
    kept(subs, subs.map_values(accepts))
}

/// The subscribers left after `n` broadcasts; `accepts(k, s)` tells whether
/// the write of broadcast `k` to subscriber `s` succeeded.
pub open spec fn after_rounds(subs: Seq<u64>, accepts: spec_fn(int, u64) -> bool, n: nat) -> Seq<
    u64,
>
    decreases n,
{
    if n == 0 {
        subs
    } else {
        after_round(after_rounds(subs, accepts, (n - 1) as nat), |s: u64| accepts(n - 1, s))
    }
}

proof fn lemma_kept_contains(s: Seq<u64>, ok: Seq<bool>, id: u64)
    requires
        s.len() == ok.len(),
    ensures
        kept(s, ok).contains(id) <==> exists|i: int| 0 <= i < s.len() && s[i] == id && ok[i],
    decreases s.len(),
{
    if s.len() > 0 {
        lemma_kept_contains(s.drop_first(), ok.drop_first(), id);
        let head = if ok[0] {
            seq![s[0]]
        } else {
            Seq::<u64>::empty()
        };
        let rest = kept(s.drop_first(), ok.drop_first());
        assert(kept(s, ok) == head + rest);
        if kept(s, ok).contains(id) {
            let j = choose|j: int| 0 <= j < kept(s, ok).len() && kept(s, ok)[j] == id;
            if j >= head.len() {
                assert(rest[j - head.len()] == id);
                assert(rest.contains(id));
                let i = choose|i: int|
                    0 <= i < s.drop_first().len() && s.drop_first()[i] == id && ok.drop_first()[i];
                assert(s[i + 1] == id && ok[i + 1]);
            } else {
                assert(s[0] == id && ok[0]);
            }
        }
        if exists|i: int| 0 <= i < s.len() && s[i] == id && ok[i] {
            let i = choose|i: int| 0 <= i < s.len() && s[i] == id && ok[i];
            if i == 0 {
                assert(kept(s, ok)[0] == id);
            } else {
                assert(s.drop_first()[i - 1] == id && ok.drop_first()[i - 1]);
                let j = choose|j: int| 0 <= j < rest.len() && rest[j] == id;
                assert(kept(s, ok)[head.len() + j] == id);
            }
        }
    }
}

proof fn lemma_after_round(subs: Seq<u64>, accepts: spec_fn(u64) -> bool, id: u64)
    ensures
        after_round(subs, accepts).contains(id) <==> subs.contains(id) && accepts(id),
{
    lemma_kept_contains(subs, subs.map_values(accepts), id);
    if subs.contains(id) && accepts(id) {
        let i = choose|i: int| 0 <= i < subs.len() && subs[i] == id;
        assert(subs.map_values(accepts)[i]);
    }
}

/// A subscriber whose writes all succeed stays through every broadcast, so
/// it is written every message, in the order they were broadcast; one whose
/// write fails is dropped at that broadcast and gets no later message,
/// whatever the others do.
pub proof fn lemma_fan_out(subs: Seq<u64>, accepts: spec_fn(int, u64) -> bool, id: u64, n: nat)
    ensures
        subs.contains(id) && (forall|k: int| 0 <= k < n ==> #[trigger] accepts(k, id))
            ==> after_rounds(subs, accepts, n).contains(id),
        forall|k: int| 0 <= k < n && !#[trigger] accepts(k, id) ==> !after_rounds(
            subs,
            accepts,
            n,
        ).contains(id),
    decreases n,
{
    if n > 0 {
        let m = (n - 1) as nat;
        lemma_fan_out(subs, accepts, id, m);
        lemma_after_round(after_rounds(subs, accepts, m), |s: u64| accepts(m as int, s), id);
    }
}

/// What the broadcasting task sees, without the content of updates.
pub enum EventView {
    /// The subscriber with this id connected.
    Sub(u64),
    /// An update was broadcast.
    Update,
}

/// The subscribers after handling `events` in order: a new subscriber is
/// appended, an update at position `k` is written to every subscriber and
/// keeps those whose write succeeded (`accepts(k, s)`).
pub open spec fn subscribers_after(events: Seq<EventView>, accepts: spec_fn(int, u64) -> bool) -> Seq<
    u64,
>
    decreases events.len(),
{
    if events.len() == 0 {
        Seq::empty()
    } else {
        let k = events.len() - 1;
        let prev = subscribers_after(events.drop_last(), accepts);
        match events.last() {
            EventView::Sub(id) => prev.push(id),
            EventView::Update => after_round(prev, |s: u64| accepts(k, s)),
        }
    }
}

/// Whether the update at position `k` of `events` is written to `id`.
pub open spec fn written_to(
    events: Seq<EventView>,
    accepts: spec_fn(int, u64) -> bool,
    k: int,
    id: u64,
) -> bool {
    events[k] is Update && subscribers_after(events.subrange(0, k), accepts).contains(id)
}

proof fn lemma_absent_until_sub(events: Seq<EventView>, accepts: spec_fn(int, u64) -> bool, id: u64)
    requires
        forall|k: int| 0 <= k < events.len() ==> events[k] != EventView::Sub(id),
    ensures
        !subscribers_after(events, accepts).contains(id),
    decreases events.len(),
{
    if events.len() > 0 {
        let k = events.len() - 1;
        assert forall|m: int| 0 <= m < events.drop_last().len() implies events.drop_last()[m]
            != EventView::Sub(id) by {
            assert(events.drop_last()[m] == events[m]);
        }
        lemma_absent_until_sub(events.drop_last(), accepts, id);
        let prev = subscribers_after(events.drop_last(), accepts);
        match events.last() {
            EventView::Sub(x) => {
                assert(x != id);
                if prev.push(x).contains(id) {
                    let m = choose|m: int| 0 <= m < prev.push(x).len() && prev.push(x)[m] == id;
                    assert(prev[m] == id);
                }
            },
            EventView::Update => {
                lemma_after_round(prev, |s: u64| accepts(k, s), id);
            },
        }
    }
}

/// A subscriber gets no update broadcast before it connected: there is no
/// replay.
pub proof fn lemma_no_replay(
    events: Seq<EventView>,
    accepts: spec_fn(int, u64) -> bool,
    j: int,
    id: u64,
    k: int,
)
    requires
        0 <= k < j < events.len(),
        events[j] == EventView::Sub(id),
        forall|m: int| 0 <= m < j ==> events[m] != EventView::Sub(id),
    ensures
        !written_to(events, accepts, k, id),
{
    let pre = events.subrange(0, k);
    assert forall|m: int| 0 <= m < pre.len() implies pre[m] != EventView::Sub(id) by {
        assert(pre[m] == events[m]);
    }
    lemma_absent_until_sub(pre, accepts, id);
}

/// After it connected, a subscriber whose writes succeed is written every
/// later update.
pub proof fn lemma_later_updates_written(
    events: Seq<EventView>,
    accepts: spec_fn(int, u64) -> bool,
    j: int,
    id: u64,
    k: int,
)
    requires
        0 <= j < k < events.len(),
        events[j] == EventView::Sub(id),
        events[k] is Update,
        forall|m: int| j < m < k ==> #[trigger] accepts(m, id),
    ensures
        written_to(events, accepts, k, id),
{
    lemma_present_after(events, accepts, j, id, k);
}

proof fn lemma_present_after(
    events: Seq<EventView>,
    accepts: spec_fn(int, u64) -> bool,
    j: int,
    id: u64,
    k: int,
)
    requires
        0 <= j < k < events.len(),
        events[j] == EventView::Sub(id),
        forall|m: int| j < m < k ==> #[trigger] accepts(m, id),
    ensures
        subscribers_after(events.subrange(0, k), accepts).contains(id),
    decreases k - j,
{
    let pre = events.subrange(0, k);
    assert(pre.drop_last() =~= events.subrange(0, k - 1));
    assert(pre.last() == events[k - 1]);
    if k - 1 == j {
        assert(subscribers_after(pre, accepts).last() == id);
    } else {
        lemma_present_after(events, accepts, j, id, k - 1);
        let prev = subscribers_after(events.subrange(0, k - 1), accepts);
        match events[k - 1] {
            EventView::Sub(x) => {
                let i = choose|i: int| 0 <= i < prev.len() && prev[i] == id;
                assert(prev.push(x)[i] == id);
            },
            EventView::Update => {
                lemma_after_round(prev, |s: u64| accepts(k - 1, s), id);
            },
        }
    }
}

} // verus!
