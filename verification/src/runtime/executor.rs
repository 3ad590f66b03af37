//! The scheduler: tasks, the queue of those that can run, and the hand-over of results.

use crate::runtime::ring::{after_cqes, same_setup, tables_follow, woken_by, Cqe, Ring};
use crate::runtime::timer::{due, Timer, TimerWheel};
use crate::time::Instant;
use std::collections::{HashSet, VecDeque};
use vstd::prelude::*;

verus! {

/// Tasks by id, and the ids of those that can run.
pub struct Scheduler<F> {
    ready: VecDeque<usize>,
    queued: HashSet<usize>,
    tasks: Vec<Option<F>>,
    free: Vec<usize>,
}

impl<F> Scheduler<F> {
    /// The ids of the tasks that can run, in order.
    pub closed spec fn queue(&self) -> Seq<usize> {
        self.ready@
    }

    /// The slots of the tasks. A slot is empty where its task is being run or has ended.
    pub closed spec fn slots(&self) -> Seq<Option<F>> {
        self.tasks@
    }

    /// The slots that can be used again.
    pub closed spec fn reusable(&self) -> Seq<usize> {
        self.free@
    }

    /// Whether the task with this id is being run.
    pub open spec fn running(&self, id: usize) -> bool {
        id < self.slots().len() && self.slots()[id as int] is None && !self.reusable().contains(id)
    }

    /// The ids that are marked as queued are those that are.
    pub closed spec fn marked(&self) -> bool {
        &&& forall|id: usize| #[trigger] self.queued@.contains(id) <==> self.ready@.contains(id)
        &&& self.queued@.finite()
    }

    /// No id is queued twice, and no slot is both reusable and in use, or reusable twice.
    pub open spec fn wf(&self) -> bool {
        &&& self.marked()
        &&& self.queue().no_duplicates()
        &&& self.reusable().no_duplicates()
        &&& forall|i: int|
            0 <= i < self.reusable().len() ==> (#[trigger] self.reusable()[i])
                < self.slots().len() && self.slots()[self.reusable()[i] as int] is None
    }

    /// No id is queued twice.
    pub proof fn queue_holds_no_id_twice(self)
        requires
            self.wf(),
        ensures
            self.queue().no_duplicates(),
    {
    }

    /// No tasks.
    pub fn new() -> (r: Scheduler<F>)
        ensures
            r.wf(),
            r.queue().len() == 0,
            r.slots().len() == 0,
            r.reusable().len() == 0,
    {
        let r = Scheduler {
            ready: VecDeque::new(),
            queued: HashSet::new(),
            tasks: Vec::new(),
            free: Vec::new(),
        };
        r
    }

    /// Queues a task, unless it is queued.
    pub fn schedule(&mut self, id: usize)
        requires
            old(self).wf(),
        ensures
            final(self).wf(),
            final(self).queue() == if old(self).queue().contains(id) {
                old(self).queue()
            } else {
                old(self).queue().push(id)
            },
            final(self).slots() == old(self).slots(),
            final(self).reusable() == old(self).reusable(),
    {
        broadcast use vstd::std_specs::hash::group_hash_axioms;

        let ghost before = self.ready@;
        if self.queued.insert(id) {
            self.ready.push_back(id);
            proof {
                assert(!before.contains(id));
                assert(self.ready@ =~= before.push(id));
                lemma_push_distinct(before, id);
            }
        }
    }

    /// Adds a task and queues it.
    pub fn spawn(&mut self, future: F) -> (id: usize)
        requires
            old(self).wf(),
            old(self).reusable().len() > 0 || old(self).slots().len() < usize::MAX,
        ensures
            final(self).wf(),
            id < final(self).slots().len(),
            final(self).slots()[id as int] == Some(future),
            if old(self).reusable().len() > 0 {
                &&& id == old(self).reusable().last()
                &&& final(self).reusable() == old(self).reusable().drop_last()
                &&& final(self).slots() == old(self).slots().update(id as int, Some(future))
            } else {
                &&& id == old(self).slots().len()
                &&& final(self).reusable() == old(self).reusable()
                &&& final(self).slots() == old(self).slots().push(Some(future))
            },
            final(self).queue() == if old(self).queue().contains(id) {
                old(self).queue()
            } else {
                old(self).queue().push(id)
            },
    {
        let ghost before = *self;
        let id: usize = match self.free.pop() {
            Some(id) => {
                proof {
                    assert(before.free@[before.free@.len() - 1] == id);
                }
                self.tasks[id] = Some(future);
                proof {
                    assert(self.free@ =~= before.free@.drop_last());
                    assert forall|i: int| 0 <= i < self.free@.len() implies (
                    #[trigger] self.free@[i]) < self.tasks@.len()
                        && self.tasks@[self.free@[i] as int] is None by {
                        assert(self.free@[i] == before.free@[i]);
                        assert(before.free@[i] != before.free@[before.free@.len() - 1]);
                    }
                }
                id
            },
            None => {
                let n: usize = self.tasks.len();
                self.tasks.push(Some(future));
                proof {
                    assert(self.free@ =~= before.free@);
                }
                n
            },
        };
        self.schedule(id);
        id
    }

    /// Takes the next task that can run out of its slot. Ids whose task is gone are passed over.
    pub fn next_ready(&mut self) -> (r: Option<(usize, F)>)
        requires
            old(self).wf(),
        ensures
            final(self).wf(),
            final(self).reusable() == old(self).reusable(),
            ({
                let n = first_runnable(old(self).queue(), old(self).slots());
                match r {
                    None => n == old(self).queue().len() && final(self).queue().len() == 0
                        && final(self).slots() == old(self).slots(),
                    Some((id, future)) => {
                        &&& 0 <= n < old(self).queue().len()
                        &&& id == old(self).queue()[n]
                        &&& old(self).slots()[id as int] == Some(future)
                        &&& final(self).queue() == old(self).queue().skip(n + 1)
                        &&& final(self).slots() == old(self).slots().update(id as int, None)
                        &&& final(self).running(id)
                    },
                }
            }),
    {
        broadcast use vstd::std_specs::hash::group_hash_axioms;

        let ghost q = self.ready@;
        let ghost slots = self.tasks@;
        let ghost mut n: int = 0;
        proof {
            assert(q.skip(0) =~= q);
        }
        while self.ready.len() > 0
            invariant
                self.wf(),
                0 <= n <= q.len(),
                q == old(self).queue(),
                slots == old(self).slots(),
                old(self).wf(),
                self.ready@ == q.skip(n),
                self.tasks@ == slots,
                self.free@ == old(self).reusable(),
                first_runnable(q, slots) == n + first_runnable(q.skip(n), slots),
            decreases self.ready@.len(),
        {
            let ghost front = self.ready@;
            let popped = self.ready.pop_front();
            if let Some(id) = popped {
                let _was = self.queued.remove(&id);
                proof {
                    assert(front[0] == id);
                    assert(self.ready@ =~= front.skip(1));
                    assert(q.skip(n).skip(1) =~= q.skip(n + 1));
                    lemma_skip_distinct(front);
                    assert forall|x: usize| #[trigger]
                        self.queued@.contains(x) <==> self.ready@.contains(x) by {
                        lemma_skip_contains(front, x);
                    }
                    n = n + 1;
                }
                if id < self.tasks.len() {
                    let mut slot: Option<F> = None;
                    std::mem::swap(&mut self.tasks[id], &mut slot);
                    match slot {
                        Some(future) => {
                            proof {
                                assert(slots[id as int] == Some(future));
                                assert(self.tasks@ =~= slots.update(id as int, None));
                                assert(!self.free@.contains(id)) by {
                                    if self.free@.contains(id) {
                                        let k = choose|k: int|
                                            0 <= k < self.free@.len() && self.free@[k] == id;
                                        assert(slots[old(self).free@[k] as int] is None);
                                    }
                                }
                                assert forall|i: int| 0 <= i < self.free@.len() implies (
                                #[trigger] self.free@[i]) < self.tasks@.len()
                                    && self.tasks@[self.free@[i] as int] is None by {
                                    assert(old(self).free@[i] == self.free@[i]);
                                }
                            }
                            return Some((id, future));
                        },
                        None => {
                            proof {
                                assert(self.tasks@ =~= slots);
                            }
                        },
                    }
                }
            }
        }
        proof {
            assert(q.skip(n).len() == 0);
        }
        None
    }

    /// The task that was run has ended: its slot can be used again.
    pub fn finish(&mut self, id: usize)
        requires
            old(self).wf(),
            old(self).running(id),
        ensures
            final(self).wf(),
            final(self).queue() == old(self).queue(),
            final(self).slots() == old(self).slots(),
            final(self).reusable() == old(self).reusable().push(id),
    {
        let ghost before = self.free@;
        self.free.push(id);
        proof {
            lemma_push_distinct(before, id);
            assert forall|i: int| 0 <= i < self.free@.len() implies (#[trigger] self.free@[i])
                < self.tasks@.len() && self.tasks@[self.free@[i] as int] is None by {
                if i < before.len() {
                    assert(self.free@[i] == before[i]);
                }
            }
        }
    }

    /// The task that was run has not ended: it goes back into its slot.
    pub fn park(&mut self, id: usize, future: F)
        requires
            old(self).wf(),
            old(self).running(id),
        ensures
            final(self).wf(),
            final(self).queue() == old(self).queue(),
            final(self).slots() == old(self).slots().update(id as int, Some(future)),
            final(self).reusable() == old(self).reusable(),
    {
        let ghost before = *self;
        self.tasks[id] = Some(future);
        proof {
            assert forall|i: int| 0 <= i < self.free@.len() implies (#[trigger] self.free@[i])
                < self.tasks@.len() && self.tasks@[self.free@[i] as int] is None by {
                assert(before.free@[i] == self.free@[i]);
                assert(before.free@.contains(before.free@[i]));
            }
        }
    }

    /// Drops every task and forgets what was queued; gives the tasks, to be dropped one by one.
    pub fn shutdown(&mut self) -> (r: Vec<Option<F>>)
        requires
            old(self).wf(),
        ensures
            final(self).wf(),
            r@ == old(self).slots(),
            final(self).queue().len() == 0,
            final(self).slots().len() == 0,
            final(self).reusable().len() == 0,
    {
        let mut tasks: Vec<Option<F>> = Vec::new();
        std::mem::swap(&mut self.tasks, &mut tasks);
        self.free.clear();
        self.ready.clear();
        self.queued.clear();
        tasks
    }
}

/// The position of the first queued id that has a task.
pub open spec fn first_runnable<F>(queue: Seq<usize>, slots: Seq<Option<F>>) -> int
    decreases queue.len(),
{
    if queue.len() == 0 {
        0
    } else if queue[0] < slots.len() && slots[queue[0] as int] is Some {
        0
    } else {
        1 + first_runnable(queue.skip(1), slots)
    }
}

proof fn lemma_push_distinct(s: Seq<usize>, x: usize)
    requires
        s.no_duplicates(),
        !s.contains(x),
    ensures
        s.push(x).no_duplicates(),
        forall|y: usize| #[trigger] s.push(x).contains(y) <==> s.contains(y) || y == x,
{
    let t = s.push(x);
    assert forall|y: usize| #[trigger] t.contains(y) <==> s.contains(y) || y == x by {
        if s.contains(y) {
            let k = choose|k: int| 0 <= k < s.len() && s[k] == y;
            assert(t[k] == y);
        }
        if y == x {
            assert(t[s.len() as int] == x);
        }
        if t.contains(y) {
            let k = choose|k: int| 0 <= k < t.len() && t[k] == y;
            if k < s.len() {
                assert(s[k] == y);
            }
        }
    }
    assert forall|i: int, j: int| 0 <= i < t.len() && 0 <= j < t.len() && i != j implies t[i]
        != t[j] by {
        if i < s.len() && j < s.len() {
            assert(s[i] != s[j]);
        } else if i < s.len() {
            assert(s.contains(s[i]));
        } else {
            assert(s.contains(s[j]));
        }
    }
}

proof fn lemma_skip_distinct(s: Seq<usize>)
    requires
        s.no_duplicates(),
        s.len() > 0,
    ensures
        s.skip(1).no_duplicates(),
        !s.skip(1).contains(s[0]),
{
    let t = s.skip(1);
    assert forall|i: int, j: int| 0 <= i < t.len() && 0 <= j < t.len() && i != j implies t[i]
        != t[j] by {
        assert(s[i + 1] != s[j + 1]);
    }
    if t.contains(s[0]) {
        let k = choose|k: int| 0 <= k < t.len() && t[k] == s[0];
        assert(s[k + 1] != s[0]);
    }
}

proof fn lemma_skip_contains(s: Seq<usize>, x: usize)
    requires
        s.no_duplicates(),
        s.len() > 0,
    ensures
        s.skip(1).contains(x) <==> s.contains(x) && x != s[0],
{
    lemma_skip_distinct(s);
    let t = s.skip(1);
    if t.contains(x) {
        let k = choose|k: int| 0 <= k < t.len() && t[k] == x;
        assert(s[k + 1] == x);
    }
    if s.contains(x) && x != s[0] {
        let k = choose|k: int| 0 <= k < s.len() && s[k] == x;
        assert(t[k - 1] == x);
    }
}

// --------------------------------------------------------- driving to the end

/// What the driver of a root task does next, once no task can run.
#[derive(Clone, Copy, Debug, PartialEq, Eq, Structural)]
pub enum Drive {
    /// The root task has ended.
    Finished,
    /// Wait for a completion or a timer.
    Wait,
    /// The root task waits for nothing.
    Stalled,
}

/// What the driver of a root task does next.
pub fn drive_step(ended: bool, in_flight: usize, has_timers: bool) -> (r: Drive)
    ensures
        r == if ended {
            Drive::Finished
        } else if in_flight > 0 || has_timers {
            Drive::Wait
        } else {
            Drive::Stalled
        },
{
    if ended {
        Drive::Finished
    } else if in_flight > 0 || has_timers {
        Drive::Wait
    } else {
        Drive::Stalled
    }
}

/// A runtime on one thread: its tasks, its ring and its timers.
pub struct Runtime<F, K, W> {
    pub tasks: Scheduler<F>,
    pub ring: Ring<K, W>,
    pub timers: TimerWheel<W>,
}

impl<F, K, W> Runtime<F, K, W> {
    /// Each part is sound.
    pub open spec fn wf(&self) -> bool {
        self.tasks.wf() && self.ring.wf() && self.timers.wf()
    }

    /// A runtime on a ring that was just set up.
    pub fn new(ring: Ring<K, W>) -> (r: Runtime<F, K, W>)
        requires
            ring.wf(),
        ensures
            r.wf(),
            r.ring == ring,
            r.tasks.queue().len() == 0,
            r.tasks.slots().len() == 0,
            r.tasks.reusable().len() == 0,
            r.timers@.len() == 0,
            r.timers.next() == 1,
    {
        Runtime { tasks: Scheduler::new(), ring, timers: TimerWheel::new() }
    }

    /// How many operations are in flight.
    pub fn in_flight(&self) -> (n: usize)
        requires
            self.wf(),
        ensures
            n == self.ring@.dom().len(),
    {
        self.ring.in_flight()
    }

    /// What to do once no task can run: end, wait, or report that nothing is waited for.
    pub fn drive(&self, ended: bool) -> (r: Drive)
        requires
            self.wf(),
        ensures
            r == if ended {
                Drive::Finished
            } else if self.ring@.dom().len() > 0 || self.timers@.len() > 0 {
                Drive::Wait
            } else {
                Drive::Stalled
            },
    {
        drive_step(ended, self.ring.in_flight(), !self.timers.is_empty())
    }

    /// Takes in what a wait brought: the completions, and then the timers that are due. Gives
    /// those to be woken, in that order.
    pub fn reap(&mut self, cqes: &Vec<Cqe>, now: Instant) -> (r: Vec<W>)
        requires
            old(self).wf(),
        ensures
            final(self).wf(),
            final(self).tasks == old(self).tasks,
            same_setup(old(self).ring, final(self).ring),
            final(self).ring@ == after_cqes(old(self).ring@, cqes@),
            tables_follow(old(self).ring.table(), final(self).ring.table(), cqes@),
            final(self).timers.next() == old(self).timers.next(),
            final(self).timers@ == old(self).timers@.skip(due(old(self).timers@, now)),
            r@ == woken_by(old(self).ring@, cqes@) + old(self).timers@.take(
                due(old(self).timers@, now),
            ).map_values(|t: Timer<W>| t.waker),
    {
        let mut drained = self.ring.drain(cqes);
        let mut expired = self.timers.expire(now);
        drained.wakers.append(&mut expired);
        drained.wakers
    }
}

/// The place where a task leaves its result for the one who joins it.
pub struct JoinHandle<T, W> {
    pub result: Option<T>,
    pub waker: Option<W>,
    pub done: bool,
}

impl<T, W> JoinHandle<T, W> {
    /// A place for a result that is still to come.
    pub fn new() -> (r: JoinHandle<T, W>)
        ensures
            r == (JoinHandle { result: None::<T>, waker: None::<W>, done: false }),
    {
        JoinHandle { result: None, waker: None, done: false }
    }

    /// Leaves the result; gives the one to be woken.
    pub fn complete(&mut self, value: T) -> (r: Option<W>)
        ensures
            *final(self) == (JoinHandle { result: Some(value), waker: None::<W>, done: true }),
            r == old(self).waker,
    {
        self.result = Some(value);
        self.done = true;
        let mut waker: Option<W> = None;
        std::mem::swap(&mut self.waker, &mut waker);
        waker
    }

    /// The result, once it is there; else the one who asks is noted to be woken.
    pub fn poll(&mut self, waker: W) -> (r: Option<T>)
        requires
            old(self).done ==> old(self).result is Some,
        ensures
            old(self).done ==> r == old(self).result && *final(self) == (JoinHandle {
                result: None::<T>,
                ..*old(self)
            }),
            !old(self).done ==> r is None && *final(self) == (JoinHandle {
                waker: Some(waker),
                ..*old(self)
            }),
    {
        if self.done {
            let mut result: Option<T> = None;
            std::mem::swap(&mut self.result, &mut result);
            result
        } else {
            self.waker = Some(waker);
            None
        }
    }
}

/// The first queued task that is there runs first; queued ids without a task are passed over.
pub proof fn tasks_run_in_order<F>(queue: Seq<usize>, slots: Seq<Option<F>>, i: int)
    requires
        0 <= i <= queue.len(),
        forall|j: int|
            0 <= j < i ==> (#[trigger] queue[j]) >= slots.len() || slots[queue[j] as int] is None,
        i < queue.len() ==> queue[i] < slots.len() && slots[queue[i] as int] is Some,
    ensures
        first_runnable(queue, slots) == i,
    decreases i,
{
    if i > 0 {
        assert(queue[0] >= slots.len() || slots[queue[0] as int] is None);
        let t = queue.skip(1);
        assert forall|j: int| 0 <= j < i - 1 implies (#[trigger] t[j]) >= slots.len()
            || slots[t[j] as int] is None by {
            assert(t[j] == queue[j + 1]);
        }
        tasks_run_in_order(t, slots, i - 1);
    }
}

/// The driver ends with the root task, waits while something is in flight or a timer is armed,
/// and has nothing to wait for otherwise.
pub proof fn drivers_wait_for_something(
    ended: bool,
    in_flight: usize,
    has_timers: bool,
    r: Drive,
)
    requires
        call_ensures(drive_step, (ended, in_flight, has_timers), r),
    ensures
        ended <==> r == Drive::Finished,
        !ended && in_flight > 0 ==> r == Drive::Wait,
        !ended && has_timers ==> r == Drive::Wait,
        !ended && in_flight == 0 && !has_timers ==> r == Drive::Stalled,
{
}

/// A task that is woken runs after those that were woken before it, and once however often it is
/// woken.
pub proof fn woken_tasks_wait_their_turn<F>(s: &mut Scheduler<F>, id: usize)
    requires
        old(s).wf(),
        call_ensures(Scheduler::<F>::schedule, (s, id), ()),
    ensures
        old(s).queue().contains(id) ==> final(s).queue() == old(s).queue(),
        !old(s).queue().contains(id) ==> final(s).queue().len() == old(s).queue().len() + 1
            && final(s).queue().last() == id && final(s).queue().drop_last() == old(s).queue(),
        final(s).slots() == old(s).slots(),
{
    if !old(s).queue().contains(id) {
        assert(final(s).queue().drop_last() =~= old(s).queue());
    }
}

/// A task that has just been added is there and will run.
pub proof fn added_tasks_will_run<F>(s: &mut Scheduler<F>, future: F, id: usize)
    requires
        old(s).wf(),
        old(s).reusable().len() > 0 || old(s).slots().len() < usize::MAX,
        call_ensures(Scheduler::<F>::spawn, (s, future), id),
    ensures
        final(s).slots()[id as int] == Some(future),
        final(s).queue().contains(id),
{
    let q = old(s).queue();
    if !q.contains(id) {
        assert(q.push(id)[q.len() as int] == id);
    }
}

/// The result of a task goes once to who waits for it, and whoever waited is woken.
pub proof fn results_are_handed_over<T, W>(
    h: &mut JoinHandle<T, W>,
    value: T,
    woken: Option<W>,
    g: &mut JoinHandle<T, W>,
    waker: W,
    r: Option<T>,
)
    requires
        call_ensures(JoinHandle::<T, W>::complete, (h, value), woken),
        old(g).done ==> old(g).result is Some,
        call_ensures(JoinHandle::<T, W>::poll, (g, waker), r),
    ensures
        woken == old(h).waker,
        final(h).done,
        final(h).result == Some(value),
        final(h).waker is None,
        old(g).done ==> r == old(g).result && final(g).result is None,
        !old(g).done ==> r is None && final(g).waker == Some(waker) && final(g).result
            == old(g).result && !final(g).done,
{
}

/// The task that has waited longest runs next, out of its slot, and what stood before it in the
/// queue had ended.
pub proof fn the_longest_wait_ends_first<F>(s: &mut Scheduler<F>, r: Option<(usize, F)>, i: int)
    requires
        old(s).wf(),
        call_ensures(Scheduler::<F>::next_ready, (s,), r),
        0 <= i < old(s).queue().len(),
        forall|j: int|
            0 <= j < i ==> (#[trigger] old(s).queue()[j]) >= old(s).slots().len() || old(
                s,
            ).slots()[old(s).queue()[j] as int] is None,
        old(s).queue()[i] < old(s).slots().len(),
        old(s).slots()[old(s).queue()[i] as int] is Some,
    ensures
        r matches Some((id, future)) && {
            &&& id == old(s).queue()[i]
            &&& old(s).slots()[id as int] == Some(future)
            &&& final(s).slots()[id as int] is None
            &&& final(s).queue() == old(s).queue().skip(i + 1)
        },
{
    tasks_run_in_order(old(s).queue(), old(s).slots(), i);
}

/// A task that has ended leaves its slot for another, one that has not is put back, and a
/// shutdown hands all of them out.
pub proof fn tasks_end_or_go_back<F>(
    s: &mut Scheduler<F>,
    t: &mut Scheduler<F>,
    u: &mut Scheduler<F>,
    id: usize,
    future: F,
    all: Vec<Option<F>>,
)
    requires
        old(s).wf(),
        old(s).running(id),
        call_ensures(Scheduler::<F>::finish, (s, id), ()),
        old(t).wf(),
        old(t).running(id),
        call_ensures(Scheduler::<F>::park, (t, id, future), ()),
        old(u).wf(),
        call_ensures(Scheduler::<F>::shutdown, (u,), all),
    ensures
        final(s).reusable().last() == id,
        final(s).slots()[id as int] is None,
        final(s).queue() == old(s).queue(),
        final(t).slots()[id as int] == Some(future),
        final(t).reusable() == old(t).reusable(),
        final(t).queue() == old(t).queue(),
        all@ == old(u).slots(),
        final(u).slots().len() == 0,
        final(u).queue().len() == 0,
{
}

} // verus!
