//! Timers: many sleepers share one deadline for the kernel to wait for.

use crate::time::{Duration, Instant};
use vstd::prelude::*;
use vstd::string::*;

verus! {

/// An armed timer.
pub struct Timer<W> {
    pub deadline: Instant,
    pub id: u64,
    pub waker: W,
}

/// Whether one timer comes before another: by deadline, and by age where deadlines are equal.
pub open spec fn earlier(a: (u128, u64), b: (u128, u64)) -> bool {
    a.0 < b.0 || (a.0 == b.0 && a.1 < b.1)
}

/// What a timer is sorted by.
pub open spec fn place<W>(t: Timer<W>) -> (u128, u64) {
    (t.deadline.nanos, t.id)
}

/// Timers in the order of their deadlines.
pub struct TimerWheel<W> {
    next_id: u64,
    timers: Vec<Timer<W>>,
}

/// The armed timer with this id.
pub open spec fn armed<W>(s: Seq<Timer<W>>, id: u64) -> bool {
    exists|i: int| 0 <= i < s.len() && (#[trigger] s[i]).id == id
}

/// Whether the timers are sorted.
pub open spec fn sorted<W>(s: Seq<Timer<W>>) -> bool {
    forall|i: int, j: int|
        0 <= i < j < s.len() ==> earlier(place(#[trigger] s[i]), place(#[trigger] s[j]))
}

/// Whether no two timers have the same id.
pub open spec fn distinct_ids<W>(s: Seq<Timer<W>>) -> bool {
    forall|i: int, j: int| 0 <= i < j < s.len() ==> (#[trigger] s[i]).id != (#[trigger] s[j]).id
}

/// The number of timers at the front that are due.
pub open spec fn due<W>(s: Seq<Timer<W>>, now: Instant) -> int
    decreases s.len(),
{
    if s.len() == 0 || s[0].deadline.nanos > now.nanos {
        0
    } else {
        1 + due(s.skip(1), now)
    }
}

/// Whether `after` is `before` with one more timer, in its place.
pub open spec fn gained<W>(before: Seq<Timer<W>>, after: Seq<Timer<W>>, t: Timer<W>) -> bool {
    exists|i: int| 0 <= i <= before.len() && #[trigger] before.insert(i, t) == after
}

/// The timers with the waker of one of them replaced.
pub open spec fn rewoken<W>(s: Seq<Timer<W>>, id: u64, waker: W) -> Seq<Timer<W>> {
    s.map_values(
        |t: Timer<W>|
            if t.id == id {
                Timer { waker, ..t }
            } else {
                t
            },
    )
}

/// The timers without the one with this id.
pub open spec fn without<W>(s: Seq<Timer<W>>, id: u64) -> Seq<Timer<W>>
    decreases s.len(),
{
    if s.len() == 0 {
        Seq::empty()
    } else if s.last().id == id {
        without(s.drop_last(), id)
    } else {
        without(s.drop_last(), id).push(s.last())
    }
}

impl<W> TimerWheel<W> {
    /// The armed timers, the earliest first.
    pub closed spec fn view(&self) -> Seq<Timer<W>> {
        self.timers@
    }

    /// The id of the next timer.
    pub closed spec fn next(&self) -> u64 {
        self.next_id
    }

    /// The timers are sorted, and their ids were given out by this wheel, each once.
    pub open spec fn wf(&self) -> bool {
        &&& sorted(self@)
        &&& distinct_ids(self@)
        &&& forall|i: int| 0 <= i < self@.len() ==> (#[trigger] self@[i]).id < self.next()
    }

    /// No timers.
    pub fn new() -> (r: TimerWheel<W>)
        ensures
            r.wf(),
            r@.len() == 0,
            r.next() == 1,
    {
        TimerWheel { next_id: 1, timers: Vec::new() }
    }

    /// Arms a timer for `deadline`.
    pub fn register(&mut self, deadline: Instant, waker: W) -> (id: u64)
        requires
            old(self).wf(),
            old(self).next() < u64::MAX,
        ensures
            final(self).wf(),
            id == old(self).next(),
            final(self).next() == old(self).next() + 1,
            !armed(old(self)@, id),
            gained(old(self)@, final(self)@, (Timer { deadline, id, waker })),
    {
        let id: u64 = self.next_id;
        self.next_id = self.next_id + 1;
        let ghost before = self.timers@;
        let mut i: usize = 0;
        while i < self.timers.len() && self.timers[i].deadline.nanos <= deadline.nanos
            invariant
                i <= self.timers.len(),
                self.timers@ == before,
                self.next_id == id + 1,
                forall|k: int| 0 <= k < i ==> (#[trigger] before[k]).deadline.nanos <= deadline.nanos,
            decreases self.timers.len() - i,
        {
            i = i + 1;
        }
        let t = Timer { deadline, id, waker };
        self.timers.insert(i, t);
        proof {
            let s = self.timers@;
            assert(s =~= before.insert(i as int, t));
            assert forall|a: int, b: int| 0 <= a < b < s.len() implies earlier(
                place(#[trigger] s[a]),
                place(#[trigger] s[b]),
            ) && s[a].id != s[b].id by {
                let a0 = if a < i {
                    a
                } else {
                    a - 1
                };
                let b0 = if b < i {
                    b
                } else {
                    b - 1
                };
                if a != i && b != i {
                    assert(earlier(place(before[a0]), place(before[b0])));
                    assert(before[a0].id != before[b0].id);
                } else if b == i {
                    assert(before[a].deadline.nanos <= deadline.nanos);
                } else if i < before.len() && b > i {
                    if b0 > i {
                        assert(earlier(place(before[i as int]), place(before[b0])));
                    }
                }
            }
            assert forall|a: int| 0 <= a < s.len() implies (#[trigger] s[a]).id < self.next_id by {
                if a < i {
                    assert(s[a] == before[a]);
                } else if a > i {
                    assert(s[a] == before[a - 1]);
                }
            }
        }
        id
    }

    fn position(&self, id: u64) -> (r: Option<usize>)
        ensures
            r.is_some() <==> armed(self@, id),
            r matches Some(i) ==> i < self@.len() && self@[i as int].id == id,
    {
        let mut i: usize = 0;
        while i < self.timers.len()
            invariant
                i <= self.timers.len(),
                forall|k: int| 0 <= k < i ==> (#[trigger] self@[k]).id != id,
            decreases self.timers.len() - i,
        {
            if self.timers[i].id == id {
                return Some(i);
            }
            i = i + 1;
        }
        None
    }

    /// Replaces the one whom an armed timer wakes.
    pub fn update_waker(&mut self, id: u64, waker: W)
        requires
            old(self).wf(),
        ensures
            final(self).wf(),
            final(self).next() == old(self).next(),
            final(self)@ == rewoken(old(self)@, id, waker),
    {
        let ghost before = self.timers@;
        match self.position(id) {
            Some(i) => {
                self.timers[i].waker = waker;
                proof {
                    let s = self.timers@;
                    assert forall|k: int| 0 <= k < s.len() implies s[k] == rewoken(
                        before,
                        id,
                        waker,
                    )[k] by {
                        if k < i {
                            assert(before[k].id != before[i as int].id);
                        } else if k > i {
                            assert(before[i as int].id != before[k].id);
                        }
                    }
                    assert(s =~= rewoken(before, id, waker));
                    assert forall|a: int, b: int| 0 <= a < b < s.len() implies earlier(
                        place(#[trigger] s[a]),
                        place(#[trigger] s[b]),
                    ) && s[a].id != s[b].id by {
                        assert(earlier(place(before[a]), place(before[b])));
                        assert(before[a].id != before[b].id);
                    }
                    assert forall|a: int| 0 <= a < s.len() implies (#[trigger] s[a]).id
                        < self.next_id by {
                        assert(before[a].id < self.next_id);
                    }
                }
            },
            None => {
                proof {
                    assert(self.timers@ =~= rewoken(before, id, waker));
                }
            },
        }
    }

    /// Disarms a timer; one that is not armed is let be.
    pub fn cancel(&mut self, id: u64)
        requires
            old(self).wf(),
        ensures
            final(self).wf(),
            final(self).next() == old(self).next(),
            final(self)@ == without(old(self)@, id),
            !armed(final(self)@, id),
    {
        let ghost before = self.timers@;
        match self.position(id) {
            Some(i) => {
                let _gone = self.timers.remove(i);
                proof {
                    lemma_without_at(before, id, i as int);
                    let s = self.timers@;
                    assert(s =~= before.remove(i as int));
                    assert forall|a: int, b: int| 0 <= a < b < s.len() implies earlier(
                        place(#[trigger] s[a]),
                        place(#[trigger] s[b]),
                    ) && s[a].id != s[b].id by {
                        let a0 = if a < i {
                            a
                        } else {
                            a + 1
                        };
                        let b0 = if b < i {
                            b
                        } else {
                            b + 1
                        };
                        assert(earlier(place(before[a0]), place(before[b0])));
                        assert(before[a0].id != before[b0].id);
                    }
                    assert forall|a: int| 0 <= a < s.len() implies (#[trigger] s[a]).id
                        < self.next_id && s[a].id != id by {
                        let a0 = if a < i {
                            a
                        } else {
                            a + 1
                        };
                        assert(s[a] == before[a0]);
                        assert(before[a0].id < self.next_id);
                        if a0 < i {
                            assert(before[a0].id != before[i as int].id);
                        } else {
                            assert(before[i as int].id != before[a0].id);
                        }
                    }
                }
            },
            None => {
                proof {
                    lemma_without_none(before, id);
                }
            },
        }
    }

    /// How long to wait for the earliest timer: nothing where it is due, and no bound where
    /// none is armed.
    pub fn next_timeout(&self, now: Instant) -> (r: Option<Duration>)
        ensures
            r.is_some() <==> self@.len() > 0,
            r matches Some(d) ==> d.nanos == if self@[0].deadline.nanos >= now.nanos {
                self@[0].deadline.nanos - now.nanos
            } else {
                0
            },
    {
        if self.timers.len() == 0 {
            return None;
        }
        Some(self.timers[0].deadline.saturating_duration_since(now))
    }

    /// Disarms every timer that is due; gives those to be woken, in the order of the deadlines.
    pub fn expire(&mut self, now: Instant) -> (r: Vec<W>)
        requires
            old(self).wf(),
        ensures
            final(self).wf(),
            final(self).next() == old(self).next(),
            ({
                let n = due(old(self)@, now);
                &&& 0 <= n <= old(self)@.len()
                &&& final(self)@ == old(self)@.skip(n)
                &&& r@ == old(self)@.take(n).map_values(|t: Timer<W>| t.waker)
            }),
    {
        let ghost before = self.timers@;
        let mut r: Vec<W> = Vec::new();
        let ghost mut n: int = 0;
        proof {
            assert(before.skip(0) =~= before);
            assert(r@ =~= before.take(0).map_values(|t: Timer<W>| t.waker));
        }
        while self.timers.len() > 0 && self.timers[0].deadline.nanos <= now.nanos
            invariant
                0 <= n <= before.len(),
                self.timers@ == before.skip(n),
                self.next_id == old(self).next(),
                due(before, now) == n + due(before.skip(n), now),
                r@ == before.take(n).map_values(|t: Timer<W>| t.waker),
            decreases self.timers.len(),
        {
            let t = self.timers.remove(0);
            r.push(t.waker);
            proof {
                assert(before.skip(n).skip(1) =~= before.skip(n + 1));
                assert(self.timers@ =~= before.skip(n + 1));
                assert(before.take(n + 1) =~= before.take(n).push(before[n]));
                assert(r@ =~= before.take(n + 1).map_values(|t: Timer<W>| t.waker));
                n = n + 1;
            }
        }
        proof {
            let s = self.timers@;
            assert forall|a: int, b: int| 0 <= a < b < s.len() implies earlier(
                place(#[trigger] s[a]),
                place(#[trigger] s[b]),
            ) && s[a].id != s[b].id by {
                assert(earlier(place(before[a + n]), place(before[b + n])));
                assert(before[a + n].id != before[b + n].id);
            }
            assert forall|a: int| 0 <= a < s.len() implies (#[trigger] s[a]).id < self.next_id by {
                assert(s[a] == before[a + n]);
            }
        }
        r
    }

    /// Whether no timer is armed.
    pub fn is_empty(&self) -> (r: bool)
        ensures
            r == (self@.len() == 0),
    {
        self.timers.len() == 0
    }
}

proof fn lemma_without_none<W>(s: Seq<Timer<W>>, id: u64)
    requires
        !armed(s, id),
    ensures
        without(s, id) == s,
    decreases s.len(),
{
    if s.len() > 0 {
        assert(s[s.len() - 1].id != id);
        assert(!armed(s.drop_last(), id)) by {
            assert forall|i: int| 0 <= i < s.len() - 1 implies (#[trigger] s.drop_last()[i]).id
                != id by {
                assert(s[i].id != id);
            }
        }
        lemma_without_none(s.drop_last(), id);
        assert(s =~= s.drop_last().push(s.last()));
    } else {
        assert(s =~= Seq::<Timer<W>>::empty());
    }
}

proof fn lemma_without_at<W>(s: Seq<Timer<W>>, id: u64, i: int)
    requires
        0 <= i < s.len(),
        s[i].id == id,
        distinct_ids(s),
    ensures
        without(s, id) == s.remove(i),
    decreases s.len(),
{
    let d = s.drop_last();
    if i == s.len() - 1 {
        assert(!armed(d, id)) by {
            assert forall|k: int| 0 <= k < d.len() implies (#[trigger] d[k]).id != id by {
                assert(s[k].id != s[i].id);
            }
        }
        lemma_without_none(d, id);
        assert(s.remove(i) =~= d);
    } else {
        assert(s[i].id != s[s.len() - 1].id);
        assert(distinct_ids(d)) by {
            assert forall|a: int, b: int| 0 <= a < b < d.len() implies (#[trigger] d[a]).id != (
            #[trigger] d[b]).id by {
                assert(s[a].id != s[b].id);
            }
        }
        lemma_without_at(d, id, i);
        assert(s.remove(i) =~= d.remove(i).push(s.last()));
    }
}

/// No timer fires early, and none that is due is passed over: the timers that expire are those
/// whose deadline has come, and those that stay are those whose deadline has not.
pub proof fn expiry_follows_deadlines<W>(s: Seq<Timer<W>>, now: Instant)
    requires
        sorted(s),
    ensures
        0 <= due(s, now) <= s.len(),
        forall|i: int|
            0 <= i < due(s, now) ==> (#[trigger] s[i]).deadline.nanos <= now.nanos,
        forall|i: int|
            due(s, now) <= i < s.len() ==> (#[trigger] s[i]).deadline.nanos > now.nanos,
    decreases s.len(),
{
    if s.len() > 0 && s[0].deadline.nanos <= now.nanos {
        let t = s.skip(1);
        assert(sorted(t)) by {
            assert forall|i: int, j: int| 0 <= i < j < t.len() implies earlier(
                place(#[trigger] t[i]),
                place(#[trigger] t[j]),
            ) by {
                assert(earlier(place(s[i + 1]), place(s[j + 1])));
            }
        }
        expiry_follows_deadlines(t, now);
        assert forall|i: int| 0 <= i < due(s, now) implies (#[trigger] s[i]).deadline.nanos
            <= now.nanos by {
            if i > 0 {
                assert(s[i] == t[i - 1]);
            }
        }
        assert forall|i: int| due(s, now) <= i < s.len() implies (#[trigger] s[i]).deadline.nanos
            > now.nanos by {
            assert(s[i] == t[i - 1]);
        }
    } else if s.len() > 0 {
        assert forall|i: int| 0 <= i < s.len() implies (#[trigger] s[i]).deadline.nanos
            > now.nanos by {
            if i > 0 {
                assert(earlier(place(s[0]), place(s[i])));
            }
        }
    }
}

// ----------------------------------------------------------------- histories

/// One call on a wheel.
pub ghost enum WheelStep<W> {
    Register { deadline: Instant, waker: W },
    Update { id: u64, waker: W },
    Cancel { id: u64 },
    Expire { now: Instant },
}

/// What one call makes of a wheel.
pub open spec fn wheel_follows<W>(a: TimerWheel<W>, b: TimerWheel<W>, step: WheelStep<W>) -> bool {
    match step {
        WheelStep::Register { deadline, waker } => b.next() == a.next() + 1 && gained(
            a@,
            b@,
            (Timer { deadline, id: a.next(), waker }),
        ),
        WheelStep::Update { id, waker } => b.next() == a.next() && b@ == rewoken(a@, id, waker),
        WheelStep::Cancel { id } => b.next() == a.next() && b@ == without(a@, id),
        WheelStep::Expire { now } => b.next() == a.next() && b@ == a@.skip(due(a@, now)),
    }
}

/// Whether a wheel went through these states by these calls.
pub open spec fn wheel_history<W>(wheels: Seq<TimerWheel<W>>, steps: Seq<WheelStep<W>>) -> bool {
    &&& wheels.len() == steps.len() + 1
    &&& forall|i: int| 0 <= i < wheels.len() ==> (#[trigger] wheels[i]).wf()
    &&& forall|i: int|
        0 <= i < steps.len() ==> wheel_follows(#[trigger] wheels[i], wheels[i + 1], steps[i])
}

/// Whether the calls gave the id out.
pub open spec fn given<W>(wheels: Seq<TimerWheel<W>>, steps: Seq<WheelStep<W>>, id: u64) -> bool
    decreases steps.len(),
{
    steps.len() > 0 && (given(wheels, steps.drop_last(), id) || (steps.last() is Register
        && wheels[steps.len() - 1].next() == id))
}

/// Whether the timer with this id is among those that are due.
pub open spec fn is_due<W>(s: Seq<Timer<W>>, now: Instant, id: u64) -> bool {
    exists|i: int| 0 <= i < due(s, now) && (#[trigger] s[i]).id == id
}

/// Whether the timer with this id, once given out, was cancelled or expired.
pub open spec fn ended<W>(wheels: Seq<TimerWheel<W>>, steps: Seq<WheelStep<W>>, id: u64) -> bool
    decreases steps.len(),
{
    steps.len() > 0 && (ended(wheels, steps.drop_last(), id) || match steps.last() {
        WheelStep::Cancel { id: c } => c == id && given(wheels, steps.drop_last(), id),
        WheelStep::Expire { now } => is_due(wheels[steps.len() - 1]@, now, id),
        _ => false,
    })
}

proof fn lemma_without_ids<W>(s: Seq<Timer<W>>, id: u64, x: u64)
    ensures
        armed(without(s, id), x) <==> armed(s, x) && x != id,
    decreases s.len(),
{
    if s.len() > 0 {
        let d = s.drop_last();
        lemma_without_ids(d, id, x);
        let w = without(s, id);
        if armed(d, x) {
            let i = choose|i: int| 0 <= i < d.len() && (#[trigger] d[i]).id == x;
            assert(s[i].id == x);
        }
        if armed(s, x) {
            let i = choose|i: int| 0 <= i < s.len() && (#[trigger] s[i]).id == x;
            if i < d.len() {
                assert(d[i].id == x);
            }
        }
        if s.last().id != id {
            let v = without(d, id);
            assert(w[v.len() as int] == s.last());
            if armed(v, x) {
                let i = choose|i: int| 0 <= i < v.len() && (#[trigger] v[i]).id == x;
                assert(w[i].id == x);
            }
            if armed(w, x) {
                let i = choose|i: int| 0 <= i < w.len() && (#[trigger] w[i]).id == x;
                if i < v.len() {
                    assert(v[i].id == x);
                } else {
                    assert(s[s.len() - 1].id == x);
                }
            }
        }
    }
}

/// Which timers are armed after one call.
proof fn lemma_armed<W>(a: TimerWheel<W>, b: TimerWheel<W>, step: WheelStep<W>, x: u64)
    requires
        a.wf(),
        wheel_follows(a, b, step),
    ensures
        armed(b@, x) <==> match step {
            WheelStep::Register { .. } => armed(a@, x) || x == a.next(),
            WheelStep::Update { .. } => armed(a@, x),
            WheelStep::Cancel { id } => armed(a@, x) && x != id,
            WheelStep::Expire { now } => armed(a@, x) && !is_due(a@, now, x),
        },
{
    let s = a@;
    let t = b@;
    match step {
        WheelStep::Register { deadline, waker } => {
            let new = Timer { deadline, id: a.next(), waker };
            let i = choose|i: int| 0 <= i <= s.len() && #[trigger] s.insert(i, new) == t;
            assert(t[i] == new);
            if armed(s, x) {
                let j = choose|j: int| 0 <= j < s.len() && (#[trigger] s[j]).id == x;
                assert(t[if j < i {
                    j
                } else {
                    j + 1
                }] == s[j]);
            }
            if armed(t, x) {
                let j = choose|j: int| 0 <= j < t.len() && (#[trigger] t[j]).id == x;
                if j < i {
                    assert(s[j] == t[j]);
                } else if j > i {
                    assert(s[j - 1] == t[j]);
                }
            }
        },
        WheelStep::Update { id, waker } => {
            if armed(s, x) {
                let j = choose|j: int| 0 <= j < s.len() && (#[trigger] s[j]).id == x;
                assert(t[j].id == x);
            }
            if armed(t, x) {
                let j = choose|j: int| 0 <= j < t.len() && (#[trigger] t[j]).id == x;
                assert(s[j].id == x);
            }
        },
        WheelStep::Cancel { id } => {
            lemma_without_ids(s, id, x);
        },
        WheelStep::Expire { now } => {
            expiry_follows_deadlines(s, now);
            let n = due(s, now);
            if armed(s, x) {
                let j = choose|j: int| 0 <= j < s.len() && (#[trigger] s[j]).id == x;
                if j >= n {
                    assert(t[j - n] == s[j]);
                }
            }
            if armed(t, x) {
                let j = choose|j: int| 0 <= j < t.len() && (#[trigger] t[j]).id == x;
                assert(s[j + n].id == x);
                if is_due(s, now, x) {
                    let k = choose|k: int| 0 <= k < n && (#[trigger] s[k]).id == x;
                    assert(s[k].id != s[j + n].id);
                }
            }
        },
    }
}

proof fn lemma_earlier_wheels<W>(wheels: Seq<TimerWheel<W>>, steps: Seq<WheelStep<W>>, x: u64)
    requires
        wheel_history(wheels, steps),
        steps.len() > 0,
    ensures
        wheel_history(wheels.drop_last(), steps.drop_last()),
        wheel_follows(wheels[steps.len() - 1], wheels.last(), steps.last()),
        wheels.drop_last().last() == wheels[steps.len() - 1],
        wheels[steps.len() - 1].wf(),
        given(wheels.drop_last(), steps.drop_last(), x) == given(wheels, steps.drop_last(), x),
        ended(wheels.drop_last(), steps.drop_last(), x) == ended(wheels, steps.drop_last(), x),
{
    let ws = wheels.drop_last();
    let ts = steps.drop_last();
    assert forall|i: int| 0 <= i < ws.len() implies (#[trigger] ws[i]).wf() by {
        assert(wheels[i].wf());
    }
    assert forall|i: int| 0 <= i < ts.len() implies wheel_follows(
        #[trigger] ws[i],
        ws[i + 1],
        ts[i],
    ) by {
        assert(wheel_follows(wheels[i], wheels[i + 1], steps[i]));
    }
    let n = steps.len() - 1;
    assert(wheel_follows(wheels[n], wheels[n + 1], steps[n]));
    assert(wheels[n].wf());
    lemma_same_past(ws, wheels, ts, x);
}

proof fn lemma_same_past<W>(
    a: Seq<TimerWheel<W>>,
    b: Seq<TimerWheel<W>>,
    steps: Seq<WheelStep<W>>,
    x: u64,
)
    requires
        steps.len() <= a.len(),
        steps.len() <= b.len(),
        forall|i: int| 0 <= i < steps.len() ==> a[i] == b[i],
    ensures
        given(a, steps, x) == given(b, steps, x),
        ended(a, steps, x) == ended(b, steps, x),
    decreases steps.len(),
{
    if steps.len() > 0 {
        lemma_same_past(a, b, steps.drop_last(), x);
    }
}

proof fn lemma_one_fate<W>(wheels: Seq<TimerWheel<W>>, steps: Seq<WheelStep<W>>, id: u64)
    requires
        wheel_history(wheels, steps),
        wheels[0]@.len() == 0,
    ensures
        armed(wheels.last()@, id) <==> given(wheels, steps, id) && !ended(wheels, steps, id),
        given(wheels, steps, id) ==> id < wheels.last().next(),
        ended(wheels, steps, id) ==> given(wheels, steps, id),
    decreases steps.len(),
{
    if steps.len() > 0 {
        lemma_earlier_wheels(wheels, steps, id);
        lemma_one_fate(wheels.drop_last(), steps.drop_last(), id);
        let a = wheels[steps.len() - 1];
        lemma_armed(a, wheels.last(), steps.last(), id);
        if let WheelStep::Expire { now } = steps.last() {
            expiry_follows_deadlines(a@, now);
            if is_due(a@, now, id) {
                let i = choose|i: int| 0 <= i < due(a@, now) && (#[trigger] a@[i]).id == id;
                assert(armed(a@, id));
            }
        }
    } else {
        assert(wheels.last() == wheels[0]);
    }
}

/// Whatever was called on a wheel: a timer is armed from when its id was given out until it is
/// cancelled or expires, so that the wheel is empty just where each timer has ended; no id is
/// given out twice.
pub proof fn timers_end_once<W>(wheels: Seq<TimerWheel<W>>, steps: Seq<WheelStep<W>>)
    requires
        wheel_history(wheels, steps),
        wheels[0]@.len() == 0,
    ensures
        forall|id: u64| #[trigger]
            armed(wheels.last()@, id) <==> given(wheels, steps, id) && !ended(wheels, steps, id),
        wheels.last()@.len() == 0 <==> forall|id: u64| #[trigger]
            given(wheels, steps, id) ==> ended(wheels, steps, id),
        !given(wheels, steps, wheels.last().next()),
{
    let s = wheels.last()@;
    assert forall|id: u64| #[trigger]
        armed(s, id) <==> given(wheels, steps, id) && !ended(wheels, steps, id) by {
        lemma_one_fate(wheels, steps, id);
    }
    assert forall|id: u64| #[trigger] given(wheels, steps, id) implies (ended(wheels, steps, id)
        || armed(s, id)) by {
        lemma_one_fate(wheels, steps, id);
    }
    if s.len() > 0 {
        assert(s[0].id == s[0].id);
        assert(armed(s, s[0].id));
        lemma_one_fate(wheels, steps, s[0].id);
    }
    lemma_one_fate(wheels, steps, wheels.last().next());
}

/// Replacing a waker arms no timer, not even one that has ended.
pub proof fn new_wakers_arm_nothing<W>(a: TimerWheel<W>, b: TimerWheel<W>, id: u64, waker: W)
    requires
        a.wf(),
        wheel_follows(a, b, WheelStep::Update { id, waker }),
    ensures
        b@.len() == a@.len(),
        forall|x: u64| #[trigger] armed(b@, x) <==> armed(a@, x),
{
    assert forall|x: u64| #[trigger] armed(b@, x) <==> armed(a@, x) by {
        lemma_armed(a, b, WheelStep::Update { id, waker }, x);
    }
}

// ----------------------------------------------------------------- sleepers

/// One that sleeps until a deadline.
#[derive(Clone, Copy, Debug, PartialEq, Eq, Structural)]
pub struct Sleep {
    pub deadline: Instant,
    pub id: Option<u64>,
    pub done: bool,
}

/// Sleeps for `dur` from `now` on.
pub fn sleep(now: Instant, dur: Duration) -> (r: Sleep)
    requires
        now.nanos + dur.nanos <= u128::MAX,
    ensures
        r.deadline.nanos == now.nanos + dur.nanos,
        r.id is None,
        !r.done,
{
    Sleep { deadline: Instant { nanos: now.nanos + dur.nanos }, id: None, done: false }
}

/// What a poll makes of a sleeper and its wheel: one whose deadline has come is done and has
/// no timer; any other has the timer that it had, with the new waker, or a new one.
pub open spec fn polled<W>(
    before: Sleep,
    after: Sleep,
    a: TimerWheel<W>,
    b: TimerWheel<W>,
    now: Instant,
    waker: W,
) -> bool {
    &&& after.deadline == before.deadline
    &&& if now.nanos >= before.deadline.nanos {
        &&& after.done
        &&& after.id is None
        &&& b.next() == a.next()
        &&& b@ == match before.id {
            Some(id) => without(a@, id),
            None => a@,
        }
    } else {
        &&& after.done == before.done
        &&& match before.id {
            Some(id) => after.id == Some(id) && b.next() == a.next() && b@ == rewoken(
                a@,
                id,
                waker,
            ),
            None => after.id == Some(a.next()) && b.next() == a.next() + 1 && gained(
                a@,
                b@,
                (Timer { deadline: before.deadline, id: a.next(), waker }),
            ),
        }
    }
}

impl Sleep {
    /// Whether the deadline has come. While it has not, a timer is armed for it.
    pub fn poll<W>(&mut self, now: Instant, wheel: &mut TimerWheel<W>, waker: W) -> (ready: bool)
        requires
            old(wheel).wf(),
            now.nanos < old(self).deadline.nanos && old(self).id is None ==> old(wheel).next()
                < u64::MAX,
        ensures
            final(wheel).wf(),
            ready == (now.nanos >= old(self).deadline.nanos),
            polled(*old(self), *final(self), *old(wheel), *final(wheel), now, waker),
    {
        if now.nanos >= self.deadline.nanos {
            self.done = true;
            if let Some(id) = self.id {
                self.id = None;
                wheel.cancel(id);
            }
            return true;
        }
        match self.id {
            None => {
                let id: u64 = wheel.register(self.deadline, waker);
                self.id = Some(id);
            },
            Some(id) => wheel.update_waker(id, waker),
        }
        false
    }

    /// The sleeper is dropped: its timer is disarmed.
    pub fn cancel<W>(&mut self, wheel: &mut TimerWheel<W>)
        requires
            old(wheel).wf(),
        ensures
            final(wheel).wf(),
            final(self).id is None,
            final(self).deadline == old(self).deadline,
            final(self).done == old(self).done,
            final(wheel).next() == old(wheel).next(),
            final(wheel)@ == match old(self).id {
                Some(id) => without(old(wheel)@, id),
                None => old(wheel)@,
            },
    {
        if let Some(id) = self.id {
            self.id = None;
            wheel.cancel(id);
        }
    }
}

/// What happens around a sleeper: it is polled, or its wheel is used for others.
pub ghost enum SleepStep<W> {
    Poll { now: Instant, waker: W },
    Other(WheelStep<W>),
}

/// The time at which something happens, where that matters.
pub open spec fn time_of<W>(step: SleepStep<W>) -> Option<u128> {
    match step {
        SleepStep::Poll { now, .. } => Some(now.nanos),
        SleepStep::Other(WheelStep::Expire { now }) => Some(now.nanos),
        _ => None,
    }
}

/// The clock after what has happened.
pub open spec fn clock<W>(steps: Seq<SleepStep<W>>) -> u128
    decreases steps.len(),
{
    if steps.len() == 0 {
        0
    } else {
        match time_of(steps.last()) {
            Some(t) => t,
            None => clock(steps.drop_last()),
        }
    }
}

/// Whether the clock never goes back.
pub open spec fn forward<W>(steps: Seq<SleepStep<W>>) -> bool
    decreases steps.len(),
{
    steps.len() > 0 ==> forward(steps.drop_last()) && clock(steps) >= clock(steps.drop_last())
}

/// What one step makes of a sleeper and its wheel. Others leave the sleeper's timer alone.
pub open spec fn sleep_follows<W>(
    before: Sleep,
    after: Sleep,
    a: TimerWheel<W>,
    b: TimerWheel<W>,
    step: SleepStep<W>,
) -> bool {
    match step {
        SleepStep::Poll { now, waker } => polled(before, after, a, b, now, waker),
        SleepStep::Other(other) => after == before && wheel_follows(a, b, other) && match other {
            WheelStep::Update { id, .. } => before.id != Some(id),
            WheelStep::Cancel { id } => before.id != Some(id),
            _ => true,
        },
    }
}

/// Whether a sleeper and its wheel went through these states by these steps.
pub open spec fn sleep_history<W>(
    sleeps: Seq<Sleep>,
    wheels: Seq<TimerWheel<W>>,
    steps: Seq<SleepStep<W>>,
) -> bool {
    &&& sleeps.len() == steps.len() + 1
    &&& wheels.len() == steps.len() + 1
    &&& forall|i: int| 0 <= i < wheels.len() ==> (#[trigger] wheels[i]).wf()
    &&& forall|i: int|
        0 <= i < steps.len() ==> sleep_follows(
            #[trigger] sleeps[i],
            sleeps[i + 1],
            wheels[i],
            wheels[i + 1],
            steps[i],
        )
}

/// Whether the timer with this id was armed for the sleeper.
pub open spec fn own<W>(sleeps: Seq<Sleep>, steps: Seq<SleepStep<W>>, id: u64) -> bool
    decreases steps.len(),
{
    steps.len() > 0 && (own(sleeps, steps.drop_last(), id) || (steps.last() is Poll
        && sleeps[steps.len() - 1].id is None && sleeps[steps.len() as int].id == Some(id)))
}

proof fn lemma_without_keeps<W>(s: Seq<Timer<W>>, id: u64, t: Timer<W>)
    requires
        s.contains(t),
        t.id != id,
    ensures
        without(s, id).contains(t),
    decreases s.len(),
{
    let d = s.drop_last();
    let i = choose|i: int| 0 <= i < s.len() && s[i] == t;
    if i < d.len() {
        assert(d[i] == t);
        lemma_without_keeps(d, id, t);
        let j = choose|j: int| 0 <= j < without(d, id).len() && without(d, id)[j] == t;
        assert(s.last().id != id ==> without(s, id)[j] == t);
    } else {
        assert(without(s, id).last() == t);
    }
}

/// A timer stays as it is until it is given a new waker, is cancelled or expires.
proof fn lemma_timer_stays<W>(
    a: TimerWheel<W>,
    b: TimerWheel<W>,
    step: WheelStep<W>,
    t: Timer<W>,
)
    requires
        a.wf(),
        wheel_follows(a, b, step),
        a@.contains(t),
        match step {
            WheelStep::Update { id, .. } => id != t.id,
            WheelStep::Cancel { id } => id != t.id,
            _ => true,
        },
    ensures
        b@.contains(t) || (step matches WheelStep::Expire { now } && t.deadline.nanos
            <= now.nanos),
{
    let s = a@;
    let i = choose|i: int| 0 <= i < s.len() && s[i] == t;
    match step {
        WheelStep::Register { deadline, waker } => {
            let new = Timer { deadline, id: a.next(), waker };
            let k = choose|k: int| 0 <= k <= s.len() && #[trigger] s.insert(k, new) == b@;
            assert(b@[if i < k {
                i
            } else {
                i + 1
            }] == t);
        },
        WheelStep::Update { id, waker } => {
            assert(b@[i] == t);
        },
        WheelStep::Cancel { id } => {
            lemma_without_keeps(s, id, t);
        },
        WheelStep::Expire { now } => {
            expiry_follows_deadlines(s, now);
            if i >= due(s, now) {
                assert(b@[i - due(s, now)] == t);
            }
        },
    }
}

/// What holds of a sleeper, its wheel and the clock, whatever has happened.
spec fn tended<W>(
    sleeps: Seq<Sleep>,
    steps: Seq<SleepStep<W>>,
    s: Sleep,
    w: TimerWheel<W>,
    deadline: Instant,
) -> bool {
    &&& s.deadline == deadline
    &&& match s.id {
        Some(x) => {
            &&& forall|y: u64| #[trigger] own(sleeps, steps, y) <==> y == x
            &&& x < w.next()
            &&& clock(steps) < deadline.nanos ==> exists|t: Timer<W>| #[trigger]
                w@.contains(t) && t.id == x && t.deadline == deadline
        },
        None => {
            ||| forall|y: u64| !#[trigger] own(sleeps, steps, y)
            ||| {
                &&& clock(steps) >= deadline.nanos
                &&& forall|y: u64| #[trigger]
                    own(sleeps, steps, y) ==> !armed(w@, y) && y < w.next()
            }
        },
    }
}

proof fn lemma_own_past<W>(a: Seq<Sleep>, b: Seq<Sleep>, steps: Seq<SleepStep<W>>, id: u64)
    requires
        steps.len() < a.len(),
        steps.len() < b.len(),
        forall|i: int| 0 <= i <= steps.len() ==> a[i] == b[i],
    ensures
        own(a, steps, id) == own(b, steps, id),
    decreases steps.len(),
{
    if steps.len() > 0 {
        lemma_own_past(a, b, steps.drop_last(), id);
    }
}

proof fn lemma_earlier_sleeps<W>(
    sleeps: Seq<Sleep>,
    wheels: Seq<TimerWheel<W>>,
    steps: Seq<SleepStep<W>>,
)
    requires
        sleep_history(sleeps, wheels, steps),
        steps.len() > 0,
    ensures
        sleep_history(sleeps.drop_last(), wheels.drop_last(), steps.drop_last()),
        sleep_follows(
            sleeps[steps.len() - 1],
            sleeps.last(),
            wheels[steps.len() - 1],
            wheels.last(),
            steps.last(),
        ),
        wheels[steps.len() - 1].wf(),
        wheels.last().wf(),
        forall|id: u64|
            own(sleeps.drop_last(), steps.drop_last(), id) == #[trigger] own(
                sleeps,
                steps.drop_last(),
                id,
            ),
{
    let ss = sleeps.drop_last();
    let ws = wheels.drop_last();
    let ts = steps.drop_last();
    assert forall|i: int| 0 <= i < ws.len() implies (#[trigger] ws[i]).wf() by {
        assert(wheels[i].wf());
    }
    assert forall|i: int| 0 <= i < ts.len() implies sleep_follows(
        #[trigger] ss[i],
        ss[i + 1],
        ws[i],
        ws[i + 1],
        ts[i],
    ) by {
        assert(sleep_follows(sleeps[i], sleeps[i + 1], wheels[i], wheels[i + 1], steps[i]));
    }
    let n = steps.len() - 1;
    assert(sleep_follows(sleeps[n], sleeps[n + 1], wheels[n], wheels[n + 1], steps[n]));
    assert(wheels[n].wf());
    assert(wheels[n + 1].wf());
    assert forall|id: u64| own(ss, ts, id) == #[trigger] own(sleeps, ts, id) by {
        lemma_own_past(ss, sleeps, ts, id);
    }
}

proof fn lemma_tended<W>(
    sleeps: Seq<Sleep>,
    wheels: Seq<TimerWheel<W>>,
    steps: Seq<SleepStep<W>>,
)
    requires
        sleep_history(sleeps, wheels, steps),
        forward(steps),
        sleeps[0].id is None,
    ensures
        tended(sleeps, steps, sleeps.last(), wheels.last(), sleeps[0].deadline),
    decreases steps.len(),
{
    let d = sleeps[0].deadline;
    if steps.len() == 0 {
        assert(sleeps.last() == sleeps[0]);
    } else {
        let ts = steps.drop_last();
        let n = steps.len() - 1;
        let (s, a) = (sleeps[n], wheels[n]);
        let (r, b) = (sleeps.last(), wheels.last());
        lemma_earlier_sleeps(sleeps, wheels, steps);
        lemma_tended(sleeps.drop_last(), wheels.drop_last(), ts);
        assert(tended(sleeps, ts, s, a, d));
        assert(sleeps[steps.len() as int] == r);
        match steps.last() {
            SleepStep::Poll { now, waker } => lemma_tended_poll(sleeps, steps, s, r, a, b),
            SleepStep::Other(other) => lemma_tended_other(sleeps, steps, s, a, b, other),
        }
    }
}

proof fn lemma_tended_poll<W>(
    sleeps: Seq<Sleep>,
    steps: Seq<SleepStep<W>>,
    s: Sleep,
    r: Sleep,
    a: TimerWheel<W>,
    b: TimerWheel<W>,
)
    requires
        steps.len() > 0,
        sleeps.len() == steps.len() + 1,
        sleeps[steps.len() - 1] == s,
        sleeps[steps.len() as int] == r,
        steps.last() is Poll,
        sleep_follows(s, r, a, b, steps.last()),
        forward(steps),
        a.wf(),
        tended(sleeps, steps.drop_last(), s, a, s.deadline),
    ensures
        tended(sleeps, steps, r, b, s.deadline),
{
    let d = s.deadline;
    let ts = steps.drop_last();
    let now = steps.last()->now;
    let waker = steps.last()->waker;
    assert forall|y: u64| #[trigger] own(sleeps, steps, y) <==> own(sleeps, ts, y) || (s.id is None
        && r.id == Some(y)) by {}
    if now.nanos >= d.nanos {
        if let Some(x) = s.id {
            lemma_without_ids(a@, x, x);
            assert(own(sleeps, ts, x));
        }
        assert forall|y: u64| #[trigger] own(sleeps, steps, y) implies !armed(b@, y) && y < b.next()
            || (forall|z: u64| !#[trigger] own(sleeps, steps, z)) by {}
    } else {
        match s.id {
            Some(x) => {
                let t = choose|t: Timer<W>| #[trigger]
                    a@.contains(t) && t.id == x && t.deadline == d;
                let k = choose|k: int| 0 <= k < a@.len() && a@[k] == t;
                assert(b@[k] == (Timer { waker, ..t }));
                assert(b@.contains(Timer { waker, ..t }));
            },
            None => {
                let new = Timer { deadline: d, id: a.next(), waker };
                let k = choose|k: int| 0 <= k <= a@.len() && #[trigger] a@.insert(k, new) == b@;
                assert(b@[k] == new);
                assert(b@.contains(new));
            },
        }
    }
}

proof fn lemma_tended_other<W>(
    sleeps: Seq<Sleep>,
    steps: Seq<SleepStep<W>>,
    s: Sleep,
    a: TimerWheel<W>,
    b: TimerWheel<W>,
    other: WheelStep<W>,
)
    requires
        steps.len() > 0,
        steps.last() == SleepStep::Other(other),
        sleep_follows(s, s, a, b, steps.last()),
        forward(steps),
        a.wf(),
        tended(sleeps, steps.drop_last(), s, a, s.deadline),
    ensures
        tended(sleeps, steps, s, b, s.deadline),
{
    let d = s.deadline;
    let ts = steps.drop_last();
    assert forall|y: u64| #[trigger] own(sleeps, steps, y) <==> own(sleeps, ts, y) by {}
    match s.id {
        Some(x) => {
            if clock(steps) < d.nanos {
                let t = choose|t: Timer<W>| #[trigger]
                    a@.contains(t) && t.id == x && t.deadline == d;
                lemma_timer_stays(a, b, other, t);
                assert(b@.contains(t));
            }
        },
        None => {
            if exists|y: u64| #[trigger] own(sleeps, ts, y) {
                assert forall|y: u64| #[trigger] own(sleeps, steps, y) implies !armed(b@, y) && y
                    < b.next() by {
                    assert(own(sleeps, ts, y));
                    lemma_armed(a, b, other, y);
                }
            }
        },
    }
}

/// However often a sleeper was polled, and whatever happened on its wheel in between: while its
/// deadline has not come, exactly one timer is armed for it, for its deadline and with the
/// waker of the latest poll; once its deadline has come and it was polled, none is.
pub proof fn sleepers_keep_one_timer<W>(
    sleeps: Seq<Sleep>,
    wheels: Seq<TimerWheel<W>>,
    steps: Seq<SleepStep<W>>,
    now: Instant,
    waker: W,
)
    requires
        sleep_history(sleeps, wheels, steps),
        forward(steps),
        sleeps[0].id is None,
        steps.len() > 0,
        steps.last() == (SleepStep::Poll { now, waker }),
    ensures
        sleeps.last().deadline == sleeps[0].deadline,
        now.nanos < sleeps[0].deadline.nanos ==> exists|k: int|
            {
                &&& 0 <= k < wheels.last()@.len()
                &&& sleeps.last().id == Some((#[trigger] wheels.last()@[k]).id)
                &&& wheels.last()@[k].deadline == sleeps[0].deadline
                &&& wheels.last()@[k].waker == waker
                &&& forall|j: int|
                    0 <= j < wheels.last()@.len() && own(
                        sleeps,
                        steps,
                        (#[trigger] wheels.last()@[j]).id,
                    ) <==> j == k
            },
        now.nanos >= sleeps[0].deadline.nanos ==> sleeps.last().done && sleeps.last().id is None
            && forall|j: int|
            0 <= j < wheels.last()@.len() ==> !own(sleeps, steps, (#[trigger] wheels.last()@[j]).id),
{
    let d = sleeps[0].deadline;
    let n = steps.len() - 1;
    let (s, a) = (sleeps[n], wheels[n]);
    let (r, b) = (sleeps.last(), wheels.last());
    lemma_earlier_sleeps(sleeps, wheels, steps);
    lemma_tended(sleeps, wheels, steps);
    if now.nanos < d.nanos {
        let x = r.id->0;
        let t = choose|t: Timer<W>| #[trigger] b@.contains(t) && t.id == x && t.deadline == d;
        let k = choose|k: int| 0 <= k < b@.len() && b@[k] == t;
        match s.id {
            Some(_) => {
                assert(b@[k].id == a@[k].id);
            },
            None => {
                let new = Timer { deadline: d, id: a.next(), waker };
                let i = choose|i: int| 0 <= i <= a@.len() && #[trigger] a@.insert(i, new) == b@;
                assert(b@[i] == new);
                if i < k {
                    assert(b@[i].id != b@[k].id);
                } else if k < i {
                    assert(b@[k].id != b@[i].id);
                }
            },
        }
        assert(b@[k].waker == waker);
        assert forall|j: int|
            0 <= j < b@.len() && own(sleeps, steps, (#[trigger] b@[j]).id) <==> j == k by {
            if 0 <= j < k {
                assert(b@[j].id != b@[k].id);
            } else if k < j < b@.len() {
                assert(b@[k].id != b@[j].id);
            }
        }
    } else {
        assert forall|j: int| 0 <= j < b@.len() implies !own(
            sleeps,
            steps,
            (#[trigger] b@[j]).id,
        ) by {
            assert(armed(b@, b@[j].id));
        }
    }
}

/// What is reported where the time ran out.
#[derive(Clone, Copy, Debug, PartialEq, Eq, Structural)]
pub struct Elapsed;

impl Elapsed {
    /// What is shown of it.
    pub fn message(&self) -> (r: &'static str)
        ensures
            r@ == "future timed out"@,
    {
        "future timed out"
    }
}

/// What became of work under a time limit: the work's own result goes first, even where the
/// time has run out as well.
pub fn timeout_outcome<T>(done: Option<T>, elapsed: bool) -> (r: Option<Result<T, Elapsed>>)
    ensures
        r == match done {
            Some(v) => Some(Ok::<T, Elapsed>(v)),
            None => if elapsed {
                Some(Err(Elapsed))
            } else {
                None
            },
        },
{
    match done {
        Some(v) => Some(Ok(v)),
        None => if elapsed {
            Some(Err(Elapsed))
        } else {
            None
        },
    }
}

/// A sleeper wakes at the moment that lies its span behind now.
pub proof fn sleepers_sleep_their_span(now: Instant, dur: Duration, s: Sleep)
    requires
        now.nanos + dur.nanos <= u128::MAX,
        call_ensures(sleep, (now, dur), s),
    ensures
        s.deadline.nanos == now.nanos + dur.nanos,
        s.id is None,
        !s.done,
{
}

/// Work that is done goes before the time that ran out; only without either is there more to
/// wait for.
pub proof fn done_work_goes_first<T>(done: Option<T>, elapsed: bool, r: Option<Result<T, Elapsed>>)
    requires
        call_ensures(timeout_outcome::<T>, (done, elapsed), r),
    ensures
        done matches Some(v) ==> r == Some(Ok::<T, Elapsed>(v)),
        done is None && elapsed ==> r == Some(Err::<T, Elapsed>(Elapsed)),
        done is None && !elapsed ==> r is None,
{
}

/// Timers are kept in the order of their deadlines, and those of one deadline in the order in
/// which they were armed.
pub proof fn earlier_deadlines_come_first<W>(s: Seq<Timer<W>>, i: int, j: int)
    requires
        sorted(s),
        0 <= i < j < s.len(),
    ensures
        s[i].deadline.nanos <= s[j].deadline.nanos,
        s[i].deadline.nanos == s[j].deadline.nanos ==> s[i].id < s[j].id,
{
    assert(earlier(place(s[i]), place(s[j])));
}

/// The wait for the earliest timer ends at its deadline, at once where that has come, and never
/// where there is none.
pub proof fn waits_end_at_the_first_deadline<W>(
    w: TimerWheel<W>,
    now: Instant,
    r: Option<Duration>,
)
    requires
        call_ensures(TimerWheel::<W>::next_timeout, (&w, now), r),
    ensures
        w@.len() == 0 ==> r is None,
        w@.len() > 0 && w@[0].deadline.nanos > now.nanos ==> (r matches Some(d) && now.nanos
            + d.nanos == w@[0].deadline.nanos),
        w@.len() > 0 && w@[0].deadline.nanos <= now.nanos ==> (r matches Some(d) && d.nanos == 0),
{
}

/// What the calls of a wheel do is a step of its history.
pub proof fn calls_are_steps<W>(
    a: &mut TimerWheel<W>,
    b: &mut TimerWheel<W>,
    c: &mut TimerWheel<W>,
    d: &mut TimerWheel<W>,
    deadline: Instant,
    waker: W,
    id: u64,
    given: u64,
    woken: Vec<W>,
)
    requires
        old(a).wf(),
        old(a).next() < u64::MAX,
        call_ensures(TimerWheel::<W>::register, (a, deadline, waker), given),
        old(b).wf(),
        call_ensures(TimerWheel::<W>::update_waker, (b, id, waker), ()),
        old(c).wf(),
        call_ensures(TimerWheel::<W>::cancel, (c, id), ()),
        old(d).wf(),
        call_ensures(TimerWheel::<W>::expire, (d, deadline), woken),
    ensures
        wheel_follows(*old(a), *final(a), WheelStep::Register { deadline, waker }),
        given == old(a).next(),
        armed(final(a)@, given),
        wheel_follows(*old(b), *final(b), WheelStep::Update { id, waker }),
        wheel_follows(*old(c), *final(c), WheelStep::Cancel { id }),
        !armed(final(c)@, id),
        wheel_follows(*old(d), *final(d), WheelStep::Expire { now: deadline }),
        woken@.len() + final(d)@.len() == old(d)@.len(),
        forall|i: int|
            0 <= i < woken@.len() ==> (#[trigger] woken@[i]) == old(d)@[i].waker
                && old(d)@[i].deadline.nanos <= deadline.nanos,
        forall|i: int|
            0 <= i < final(d)@.len() ==> (#[trigger] final(d)@[i]).deadline.nanos > deadline.nanos,
{
    expiry_follows_deadlines(old(d)@, deadline);
    let t = Timer { deadline, id: given, waker };
    let i = choose|i: int|
        0 <= i <= old(a)@.len() && #[trigger] old(a)@.insert(i, t) == final(a)@;
    assert(final(a)@[i] == t);
}

/// A sleeper is ready just when its deadline has come.
pub proof fn sleepers_wake_at_their_deadline<W>(
    s: &mut Sleep,
    now: Instant,
    wheel: &mut TimerWheel<W>,
    waker: W,
    ready: bool,
)
    requires
        old(wheel).wf(),
        now.nanos < old(s).deadline.nanos && old(s).id is None ==> old(wheel).next() < u64::MAX,
        call_ensures(Sleep::poll::<W>, (s, now, wheel, waker), ready),
    ensures
        ready <==> now.nanos >= old(s).deadline.nanos,
        final(s).deadline == old(s).deadline,
        ready ==> final(s).done && final(s).id is None,
        !ready ==> final(s).id is Some,
{
}

} // verus!
