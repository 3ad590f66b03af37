//! The bookkeeping of a ring: which operations are in flight, who waits for them, and which
//! memory the kernel may still touch.

use crate::runtime::caps::{errno_in, errno_of, KernelCaps, RingError};
use crate::runtime::op::{CqeResult, Op, OpState};
use crate::runtime::slab::{same_slots, OpKey, OpSlab};
use crate::time::Duration;
use vstd::prelude::*;

verus! {

/// A completion as the kernel reports it.
#[derive(Clone, Copy, Debug, PartialEq, Eq, Structural)]
pub struct Cqe {
    pub data: u64,
    pub res: i32,
    pub flags: u32,
}

/// What became of a completion.
pub enum Completion<W> {
    /// It is that of an operation that is not tracked.
    Untracked,
    /// Its operation is gone.
    Stale,
    /// Its operation was orphaned and is now gone, with its memory.
    Freed,
    /// Its operation is complete; this one is to be woken.
    Woken(Option<W>),
}

/// What to do when a future is dropped.
#[derive(Clone, Copy, Debug, PartialEq, Eq, Structural)]
pub enum OrphanAction {
    /// Nothing: the operation is gone.
    Nothing,
    /// Nothing more: the operation was complete and is now gone.
    Freed,
    /// Ask the kernel to cancel the operation.
    Cancel,
}

/// The operations of one ring.
pub struct Ring<K, W> {
    ops: OpSlab<Op<K, W>>,
    caps: KernelCaps,
    fixed_files: bool,
}

/// What a batch of completions led to.
pub struct Drained<W> {
    pub count: usize,
    /// Those to be woken, in order.
    pub wakers: Vec<W>,
}

// ------------------------------------------------------------------ transitions

/// The operation once the kernel is done with it.
pub open spec fn completed<K, W>(op: Op<K, W>, cqe: Cqe) -> Op<K, W> {
    Op {
        state: OpState::<W>::Complete(CqeResult { res: cqe.res, flags: cqe.flags }),
        ..op
    }
}

/// The one who waits for an operation.
pub open spec fn waiter<K, W>(op: Op<K, W>) -> Option<W> {
    match op.state {
        OpState::Waiting(w) => w,
        OpState::Complete(_) => None,
    }
}

/// The operations after a completion, and what became of it.
pub open spec fn after_cqe<K, W>(m: Map<OpKey, Op<K, W>>, cqe: Cqe) -> (
    Map<OpKey, Op<K, W>>,
    Completion<W>,
) {
    let key = OpKey::of_raw(cqe.data);
    if cqe.data == 0 {
        (m, Completion::Untracked)
    } else if !m.contains_key(key) {
        (m, Completion::Stale)
    } else if m[key].orphaned {
        (m.remove(key), Completion::Freed)
    } else {
        (m.insert(key, completed(m[key], cqe)), Completion::Woken(waiter(m[key])))
    }
}

/// What a completion does to the table: an orphaned operation frees its slot; any other is
/// changed where it is.
pub open spec fn table_follows<K, W>(
    before: OpSlab<Op<K, W>>,
    after: OpSlab<Op<K, W>>,
    cqe: Cqe,
) -> bool {
    let key = OpKey::of_raw(cqe.data);
    if cqe.data == 0 || !before@.contains_key(key) {
        after == before
    } else if before@[key].orphaned {
        OpSlab::taken(before, after, key)
    } else {
        OpSlab::changed(before, after, key, completed(before@[key], cqe))
    }
}

/// What a batch of completions does to the table, one by one.
pub open spec fn tables_follow<K, W>(
    before: OpSlab<Op<K, W>>,
    after: OpSlab<Op<K, W>>,
    cqes: Seq<Cqe>,
) -> bool
    decreases cqes.len(),
{
    if cqes.len() == 0 {
        after == before
    } else {
        exists|mid: OpSlab<Op<K, W>>|
            tables_follow(before, mid, cqes.drop_last()) && #[trigger] table_follows(
                mid,
                after,
                cqes.last(),
            )
    }
}

/// The operations after a batch of completions.
pub open spec fn after_cqes<K, W>(m: Map<OpKey, Op<K, W>>, cqes: Seq<Cqe>) -> Map<OpKey, Op<K, W>>
    decreases cqes.len(),
{
    if cqes.len() == 0 {
        m
    } else {
        after_cqe(after_cqes(m, cqes.drop_last()), cqes.last()).0
    }
}

/// Those whom a batch of completions wakes, in order.
pub open spec fn woken_by<K, W>(m: Map<OpKey, Op<K, W>>, cqes: Seq<Cqe>) -> Seq<W>
    decreases cqes.len(),
{
    if cqes.len() == 0 {
        Seq::empty()
    } else {
        let rest = woken_by(m, cqes.drop_last());
        match after_cqe(after_cqes(m, cqes.drop_last()), cqes.last()).1 {
            Completion::Woken(Some(w)) => rest.push(w),
            _ => rest,
        }
    }
}

/// The operations with every one orphaned.
pub open spec fn all_orphaned<K, W>(m: Map<OpKey, Op<K, W>>) -> Map<OpKey, Op<K, W>> {
    m.map_values(|op: Op<K, W>| Op { orphaned: true, ..op })
}

/// Whether the kernel may still touch the memory of the operation under the key.
pub open spec fn in_kernel<K, W>(m: Map<OpKey, Op<K, W>>, key: OpKey) -> bool {
    m.contains_key(key) && m[key].state is Waiting
}

/// Whether every operation that the kernel may still work on is still there with its memory,
/// but for the one under `reported`.
pub open spec fn memory_kept<K, W>(
    before: Map<OpKey, Op<K, W>>,
    after: Map<OpKey, Op<K, W>>,
    reported: Option<OpKey>,
) -> bool {
    forall|key: OpKey| #[trigger]
        in_kernel(before, key) && Some(key) != reported ==> in_kernel(after, key)
            && after[key].keepalive == before[key].keepalive
}

/// Whether an operation was stored and taken out again at once, so that only its slot's
/// generation has moved on.
pub open spec fn given_up<K, W>(
    before: OpSlab<Op<K, W>>,
    after: OpSlab<Op<K, W>>,
    op: Op<K, W>,
) -> bool {
    exists|mid: OpSlab<Op<K, W>>, key: OpKey| #[trigger]
        OpSlab::stored(before, mid, key, op) && OpSlab::taken(mid, after, key)
}

/// Whether a ring is still set up in the same way.
pub open spec fn same_setup<K, W>(before: Ring<K, W>, after: Ring<K, W>) -> bool {
    after.spec_caps() == before.spec_caps() && after.spec_fixed_files()
        == before.spec_fixed_files()
}

impl<K, W> Ring<K, W> {
    /// The table of operations.
    pub closed spec fn table(&self) -> OpSlab<Op<K, W>> {
        self.ops
    }

    /// The operations by key.
    pub open spec fn view(&self) -> Map<OpKey, Op<K, W>> {
        self.table()@
    }

    /// The table of operations is sound.
    pub open spec fn wf(&self) -> bool {
        self.table().wf()
    }

    /// Whether one more operation can be tracked.
    pub open spec fn room(&self) -> bool {
        self.table().room()
    }

    pub closed spec fn spec_caps(&self) -> KernelCaps {
        self.caps
    }

    pub closed spec fn spec_fixed_files(&self) -> bool {
        self.fixed_files
    }

    /// The bookkeeping of a ring that was just set up.
    pub fn new(caps: KernelCaps, fixed_files: bool) -> (r: Ring<K, W>)
        ensures
            r.wf(),
            r.table().fresh(),
            r@ == Map::<OpKey, Op<K, W>>::empty(),
            r.room(),
            r.spec_caps() == caps,
            r.spec_fixed_files() == (caps.sparse_files && fixed_files),
    {
        Ring {
            ops: OpSlab::with_capacity(256),
            caps,
            fixed_files: caps.sparse_files && fixed_files,
        }
    }

    /// What the kernel can do.
    pub fn caps(&self) -> (r: &KernelCaps)
        ensures
            *r == self.spec_caps(),
    {
        &self.caps
    }

    /// Whether direct descriptors are used.
    pub fn has_fixed_files(&self) -> (r: bool)
        ensures
            r == self.spec_fixed_files(),
    {
        self.fixed_files
    }

    /// How many operations are in flight.
    pub fn in_flight(&self) -> (n: usize)
        requires
            self.wf(),
        ensures
            n == self@.dom().len(),
    {
        self.ops.len()
    }

    /// Whether one more operation can be tracked.
    pub fn has_room(&self) -> (r: bool)
        requires
            self.wf(),
        ensures
            r == self.room(),
    {
        self.ops.has_room()
    }

    /// Tracks a new operation, where there was a place for it in the queue.
    ///
    /// `queued` says whether there was. Where there was none, nothing stays behind.
    pub fn submit_op(&mut self, keepalive: Option<K>, queued: Result<(), RingError>) -> (r: Result<
        OpKey,
        RingError,
    >)
        requires
            old(self).wf(),
            old(self).room(),
        ensures
            final(self).wf(),
            same_setup(*old(self), *final(self)),
            memory_kept(old(self)@, final(self)@, None),
            match queued {
                Ok(()) => r matches Ok(key) && OpSlab::stored(
                    old(self).table(),
                    final(self).table(),
                    key,
                    (Op { state: OpState::<W>::Waiting(None), orphaned: false, keepalive }),
                ) && final(self)@.dom().len() == old(self)@.dom().len() + 1,
                Err(e) => r == Err::<OpKey, RingError>(e) && final(self)@ == old(self)@ && given_up(
                    old(self).table(),
                    final(self).table(),
                    (Op { state: OpState::<W>::Waiting(None), orphaned: false, keepalive }),
                ),
            },
    {
        let ghost before = self@;
        let key = self.ops.insert(Op::waiting(keepalive));
        match queued {
            Ok(()) => Ok(key),
            Err(e) => {
                let ghost mid = self.ops;
                let _undone = self.ops.remove(key);
                proof {
                    assert(self@ =~= before);
                    assert(OpSlab::stored(
                        old(self).table(),
                        mid,
                        key,
                        (Op { state: OpState::<W>::Waiting(None), orphaned: false, keepalive }),
                    ));
                }
                Err(e)
            },
        }
    }

    /// The result of an operation that the kernel is done with, and the memory kept for it;
    /// else the one who asks is noted to be woken.
    pub fn poll_op(&mut self, key: OpKey, waker: W) -> (r: Option<(CqeResult, Option<K>)>)
        requires
            old(self).wf(),
        ensures
            final(self).wf(),
            same_setup(*old(self), *final(self)),
            memory_kept(old(self)@, final(self)@, None),
            if !old(self)@.contains_key(key) {
                r is None && final(self).table() == old(self).table()
            } else {
                match old(self)@[key].state {
                    OpState::Complete(result) => r == Some((result, old(self)@[key].keepalive))
                        && OpSlab::taken(old(self).table(), final(self).table(), key),
                    OpState::Waiting(_) => r is None && OpSlab::changed(
                        old(self).table(),
                        final(self).table(),
                        key,
                        (Op { state: OpState::Waiting(Some(waker)), ..old(self)@[key] }),
                    ),
                }
            },
    {
        let complete = match self.ops.get_mut(key) {
            None => {
                return None;
            },
            Some(op) => match &op.state {
                OpState::Complete(_) => true,
                OpState::Waiting(_) => {
                    op.state = OpState::Waiting(Some(waker));
                    false
                },
            },
        };
        if !complete {
            return None;
        }
        proof {
            assert(self@ =~= old(self)@);
        }
        match self.ops.remove(key) {
            Some(op) => match op.state {
                OpState::Complete(result) => Some((result, op.keepalive)),
                OpState::Waiting(_) => None,
            },
            None => None,
        }
    }

    /// Gives an operation that was just queued the memory to keep.
    pub fn attach_keepalive(&mut self, key: OpKey, keepalive: K)
        requires
            old(self).wf(),
        ensures
            final(self).wf(),
            same_setup(*old(self), *final(self)),
            memory_kept(old(self)@, final(self)@, Some(key)),
            if old(self)@.contains_key(key) {
                OpSlab::changed(
                    old(self).table(),
                    final(self).table(),
                    key,
                    (Op { keepalive: Some(keepalive), ..old(self)@[key] }),
                )
            } else {
                final(self).table() == old(self).table()
            },
    {
        if let Some(op) = self.ops.get_mut(key) {
            op.keepalive = Some(keepalive);
        }
    }

    /// The future that started the operation is dropped. An operation that the kernel is done
    /// with goes; any other is orphaned and keeps its memory.
    pub fn orphan(&mut self, key: OpKey) -> (r: OrphanAction)
        requires
            old(self).wf(),
        ensures
            final(self).wf(),
            same_setup(*old(self), *final(self)),
            memory_kept(old(self)@, final(self)@, None),
            if !old(self)@.contains_key(key) {
                r == OrphanAction::Nothing && final(self).table() == old(self).table()
            } else if old(self)@[key].state is Complete {
                r == OrphanAction::Freed && OpSlab::taken(
                    old(self).table(),
                    final(self).table(),
                    key,
                )
            } else {
                r == OrphanAction::Cancel && OpSlab::changed(
                    old(self).table(),
                    final(self).table(),
                    key,
                    (Op {
                        state: OpState::Waiting(None),
                        orphaned: true,
                        ..old(self)@[key]
                    }),
                )
            },
    {
        let complete = match self.ops.get_mut(key) {
            None => {
                return OrphanAction::Nothing;
            },
            Some(op) => match &op.state {
                OpState::Complete(_) => true,
                OpState::Waiting(_) => {
                    op.orphaned = true;
                    op.state = OpState::Waiting(None);
                    false
                },
            },
        };
        if complete {
            proof {
                assert(self@ =~= old(self)@);
            }
            let _gone = self.ops.remove(key);
            OrphanAction::Freed
        } else {
            OrphanAction::Cancel
        }
    }

    /// Takes in one completion.
    pub fn complete(&mut self, cqe: Cqe) -> (r: Completion<W>)
        requires
            old(self).wf(),
        ensures
            final(self).wf(),
            same_setup(*old(self), *final(self)),
            (final(self)@, r) == after_cqe(old(self)@, cqe),
            table_follows(old(self).table(), final(self).table(), cqe),
            memory_kept(old(self)@, final(self)@, Some(OpKey::of_raw(cqe.data))),
    {
        if cqe.data == 0 {
            return Completion::Untracked;
        }
        let key = OpKey::from_u64(cqe.data);
        let mut state = OpState::Complete(CqeResult { res: cqe.res, flags: cqe.flags });
        let orphaned = match self.ops.get_mut(key) {
            None => {
                return Completion::Stale;
            },
            Some(op) => if op.orphaned {
                true
            } else {
                std::mem::swap(&mut op.state, &mut state);
                false
            },
        };
        if orphaned {
            proof {
                assert(self@ =~= old(self)@);
            }
            let _gone = self.ops.remove(key);
            return Completion::Freed;
        }
        match state {
            OpState::Waiting(waker) => Completion::Woken(waker),
            OpState::Complete(_) => Completion::Woken(None),
        }
    }

    /// Takes in a batch of completions, in order.
    pub fn drain(&mut self, cqes: &Vec<Cqe>) -> (r: Drained<W>)
        requires
            old(self).wf(),
        ensures
            final(self).wf(),
            same_setup(*old(self), *final(self)),
            final(self)@ == after_cqes(old(self)@, cqes@),
            tables_follow(old(self).table(), final(self).table(), cqes@),
            r.count == cqes@.len(),
            r.wakers@ == woken_by(old(self)@, cqes@),
    {
        let ghost m = self@;
        let mut wakers: Vec<W> = Vec::new();
        let mut i: usize = 0;
        while i < cqes.len()
            invariant
                i <= cqes.len(),
                self.wf(),
                same_setup(*old(self), *self),
                self@ == after_cqes(m, cqes@.take(i as int)),
                tables_follow(old(self).table(), self.table(), cqes@.take(i as int)),
                wakers@ == woken_by(m, cqes@.take(i as int)),
            decreases cqes.len() - i,
        {
            let ghost mid = self.table();
            proof {
                assert(cqes@.take(i + 1).drop_last() =~= cqes@.take(i as int));
                assert(cqes@.take(i + 1).last() == cqes@[i as int]);
            }
            match self.complete(cqes[i]) {
                Completion::Woken(Some(w)) => wakers.push(w),
                _ => {},
            }
            proof {
                assert(tables_follow(old(self).table(), mid, cqes@.take(i + 1).drop_last()));
                assert(table_follows(mid, self.table(), cqes@.take(i + 1).last()));
            }
            i = i + 1;
        }
        proof {
            assert(cqes@.take(i as int) =~= cqes@);
        }
        Drained { count: i, wakers }
    }

    /// Marks every operation as orphaned, so that its completion frees it.
    pub fn orphan_all(&mut self)
        requires
            old(self).wf(),
        ensures
            final(self).wf(),
            same_setup(*old(self), *final(self)),
            final(self)@ == all_orphaned(old(self)@),
            same_slots(old(self).table(), final(self).table()),
            memory_kept(old(self)@, final(self)@, None),
    {
        let ghost m = self@;
        let keys = self.ops.live_keys();
        let mut i: usize = 0;
        while i < keys.len()
            invariant
                i <= keys.len(),
                self.wf(),
                same_setup(*old(self), *self),
                m == old(self)@,
                same_slots(old(self).table(), self.table()),
                forall|k: OpKey| #[trigger] keys@.contains(k) <==> m.contains_key(k),
                keys@.no_duplicates(),
                self@.dom() == m.dom(),
                forall|j: int|
                    0 <= j < i ==> self@[#[trigger] keys@[j]] == (Op {
                        orphaned: true,
                        ..m[keys@[j]]
                    }),
                forall|j: int| i <= j < keys@.len() ==> self@[#[trigger] keys@[j]] == m[keys@[j]],
            decreases keys.len() - i,
        {
            let key = keys[i];
            proof {
                assert(keys@.contains(keys@[i as int]));
                assert(self@.dom().contains(key));
            }
            if let Some(op) = self.ops.get_mut(key) {
                op.orphaned = true;
            }
            proof {
                assert(self@.dom() =~= m.dom());
            }
            i = i + 1;
        }
        proof {
            assert forall|k: OpKey| m.contains_key(k) implies self@[k] == all_orphaned(m)[k] by {
                assert(keys@.contains(k));
                let j = choose|j: int| 0 <= j < keys@.len() && keys@[j] == k;
                assert(self@[keys@[j]] == (Op { orphaned: true, ..m[keys@[j]] }));
            }
            assert(self@ =~= all_orphaned(m));
            assert forall|key: OpKey| #[trigger] in_kernel(m, key) implies in_kernel(self@, key)
                && self@[key].keepalive == m[key].keepalive by {}
        }
    }
}

// -------------------------------------------------------------- kernel results

/// What came of looking for a place in the submission queue: whether there was one at once;
/// what flushing the queue returned where there was none; whether there was one then.
pub open spec fn place_found(first: bool, flushed: i32, second: bool) -> Result<(), RingError> {
    if first {
        Ok(())
    } else if flushed < 0 {
        Err(RingError::Os(errno_in(flushed)))
    } else if second {
        Ok(())
    } else {
        Err(RingError::Exhausted)
    }
}

/// What came of looking for a place in the submission queue.
pub fn queue_place(first: bool, flushed: i32, second: bool) -> (r: Result<(), RingError>)
    ensures
        r == place_found(first, flushed, second),
{
    if first {
        return Ok(());
    }
    if flushed < 0 {
        return Err(RingError::Os(errno_of(flushed)));
    }
    if second {
        Ok(())
    } else {
        Err(RingError::Exhausted)
    }
}

/// The error numbers that a wait may return although nothing is wrong: it timed out, was
/// interrupted, or there was nothing to reap.
pub open spec fn benign(errno: int) -> bool {
    errno == 62 || errno == 4 || errno == 11 || errno == 16
}

/// What submitting and waiting came to.
pub fn wait_outcome(rc: i32) -> (r: Result<(), RingError>)
    ensures
        r == if rc >= 0 || benign(errno_in(rc) as int) {
            Ok::<(), RingError>(())
        } else {
            Err(RingError::Os(errno_in(rc)))
        },
{
    if rc >= 0 {
        return Ok(());
    }
    let errno: i32 = errno_of(rc);
    if errno == 62 || errno == 4 || errno == 11 || errno == 16 {
        Ok(())
    } else {
        Err(RingError::Os(errno))
    }
}

/// What flushing the queue came to.
pub fn flush_outcome(rc: i32) -> (r: Result<(), RingError>)
    ensures
        r == if rc >= 0 {
            Ok::<(), RingError>(())
        } else {
            Err(RingError::Os(errno_in(rc)))
        },
{
    if rc < 0 {
        Err(RingError::Os(errno_of(rc)))
    } else {
        Ok(())
    }
}

/// A span of time as seconds and nanoseconds.
pub fn timespec(dur: Duration) -> (r: (i64, i64))
    requires
        dur.nanos / 1_000_000_000 <= i64::MAX,
    ensures
        r.0 * 1_000_000_000 + r.1 == dur.nanos,
        0 <= r.1 < 1_000_000_000,
{
    (dur.as_secs() as i64, dur.subsec_nanos() as i64)
}

/// How many rounds a shutdown waits for completions before it gives up.
pub const SHUTDOWN_ROUNDS: u32 = 1000;

/// What a shutdown does next.
#[derive(Clone, Copy, Debug, PartialEq, Eq, Structural)]
pub enum ShutdownStep {
    /// Every operation is gone.
    Finished,
    /// Cancel all, wait for a completion, and take in what came.
    CancelAndWait,
    /// The kernel does not let go.
    GiveUp,
}

/// What a shutdown does after so many rounds.
pub fn shutdown_step(rounds: u32, empty: bool) -> (r: ShutdownStep)
    ensures
        r == if empty {
            ShutdownStep::Finished
        } else if rounds > SHUTDOWN_ROUNDS {
            ShutdownStep::GiveUp
        } else {
            ShutdownStep::CancelAndWait
        },
{
    if empty {
        ShutdownStep::Finished
    } else if rounds > SHUTDOWN_ROUNDS {
        ShutdownStep::GiveUp
    } else {
        ShutdownStep::CancelAndWait
    }
}

// ----------------------------------------------------------------------- laws

/// The memory of an operation is let go only once the kernel reported on it: a batch of
/// completions leaves every operation that it does not name as it was.
pub proof fn unreported_operations_stay<K, W>(
    m: Map<OpKey, Op<K, W>>,
    cqes: Seq<Cqe>,
    key: OpKey,
)
    requires
        m.contains_key(key),
        forall|i: int| 0 <= i < cqes.len() ==> OpKey::of_raw((#[trigger] cqes[i]).data) != key,
    ensures
        after_cqes(m, cqes).contains_key(key),
        after_cqes(m, cqes)[key] == m[key],
    decreases cqes.len(),
{
    if cqes.len() > 0 {
        assert forall|i: int| 0 <= i < cqes.drop_last().len() implies OpKey::of_raw(
            (#[trigger] cqes.drop_last()[i]).data,
        ) != key by {
            assert(cqes.drop_last()[i] == cqes[i]);
        }
        unreported_operations_stay(m, cqes.drop_last(), key);
        assert(OpKey::of_raw(cqes[cqes.len() - 1].data) != key);
    }
}

/// An orphaned operation is gone once the kernel reported on it.
pub proof fn reported_orphans_go<K, W>(m: Map<OpKey, Op<K, W>>, cqe: Cqe)
    requires
        cqe.data != 0,
        m.contains_key(OpKey::of_raw(cqe.data)),
        m[OpKey::of_raw(cqe.data)].orphaned,
    ensures
        after_cqe(m, cqe).0 == m.remove(OpKey::of_raw(cqe.data)),
        after_cqe(m, cqe).1 is Freed,
{
}

/// After every operation was orphaned, a batch of completions only ever frees operations, and
/// those that are left are still orphaned.
pub proof fn shutdown_only_frees<K, W>(m: Map<OpKey, Op<K, W>>, cqes: Seq<Cqe>)
    requires
        forall|k: OpKey| #[trigger] m.contains_key(k) ==> m[k].orphaned,
    ensures
        forall|k: OpKey| #[trigger]
            after_cqes(m, cqes).contains_key(k) ==> m.contains_key(k) && after_cqes(m, cqes)[k]
                == m[k],
        woken_by(m, cqes).len() == 0,
    decreases cqes.len(),
{
    if cqes.len() > 0 {
        shutdown_only_frees(m, cqes.drop_last());
        let rest = after_cqes(m, cqes.drop_last());
        let named = OpKey::of_raw(cqes.last().data);
        if rest.contains_key(named) {
            assert(m.contains_key(named));
            assert(rest[named].orphaned);
        }
        assert forall|k: OpKey| #[trigger] after_cqes(m, cqes).contains_key(k) implies m.contains_key(
            k,
        ) && after_cqes(m, cqes)[k] == m[k] by {
            assert(rest.contains_key(k));
        }
    }
}

// ------------------------------------------------------------------- in numbers

/// A completion ends just the operation that it names: the operation keeps its memory and holds
/// the kernel's result, the one who waits for it is woken, and every other stays as it is.
pub proof fn completions_end_their_operation<K, W>(
    m: Map<OpKey, Op<K, W>>,
    cqe: Cqe,
    key: OpKey,
    other: OpKey,
)
    requires
        cqe.data != 0,
        key == OpKey::of_raw(cqe.data),
        m.contains_key(key),
        !m[key].orphaned,
        other != key,
    ensures
        ({
            let (after, outcome) = after_cqe(m, cqe);
            &&& after.contains_key(key)
            &&& after[key].state == OpState::<W>::Complete(
                CqeResult { res: cqe.res, flags: cqe.flags },
            )
            &&& after[key].keepalive == m[key].keepalive
            &&& !after[key].orphaned
            &&& m[key].state matches OpState::Waiting(w) ==> outcome == Completion::Woken(w)
            &&& m.contains_key(other) <==> after.contains_key(other)
            &&& m.contains_key(other) ==> after[other] == m[other]
        }),
{
}

/// A completion of nothing that is tracked changes nothing and wakes nobody.
pub proof fn late_completions_change_nothing<K, W>(m: Map<OpKey, Op<K, W>>, cqe: Cqe)
    requires
        cqe.data == 0 || !m.contains_key(OpKey::of_raw(cqe.data)),
    ensures
        after_cqe(m, cqe).0 == m,
        !(after_cqe(m, cqe).1 is Woken),
        !(after_cqe(m, cqe).1 is Freed),
{
}

/// Completions are taken in one after the other, and those who are woken are woken in that
/// order.
pub proof fn completions_are_taken_in_order<K, W>(
    m: Map<OpKey, Op<K, W>>,
    cqes: Seq<Cqe>,
    cqe: Cqe,
)
    ensures
        after_cqes(m, Seq::empty()) == m,
        woken_by(m, Seq::empty()).len() == 0,
        after_cqes(m, cqes.push(cqe)) == after_cqe(after_cqes(m, cqes), cqe).0,
        after_cqe(after_cqes(m, cqes), cqe).1 matches Completion::Woken(Some(w)) ==> woken_by(
            m,
            cqes.push(cqe),
        ) == woken_by(m, cqes).push(w),
        !(after_cqe(after_cqes(m, cqes), cqe).1 matches Completion::Woken(Some(_))) ==> woken_by(
            m,
            cqes.push(cqe),
        ) == woken_by(m, cqes),
{
    assert(cqes.push(cqe).drop_last() =~= cqes);
}

/// Orphaning takes no operation away and touches no memory.
pub proof fn orphans_keep_their_memory<K, W>(m: Map<OpKey, Op<K, W>>, key: OpKey)
    requires
        m.contains_key(key),
    ensures
        all_orphaned(m).contains_key(key),
        all_orphaned(m)[key].orphaned,
        all_orphaned(m)[key].keepalive == m[key].keepalive,
        all_orphaned(m)[key].state == m[key].state,
{
}

/// A wait that was interrupted, timed out, or found the kernel busy is no failure; any other
/// error number is reported.
pub proof fn waits_may_end_early(rc: i32, r: Result<(), RingError>)
    requires
        call_ensures(wait_outcome, (rc,), r),
    ensures
        rc >= 0 ==> r is Ok,
        rc == -62 || rc == -4 || rc == -11 || rc == -16 ==> r is Ok,
        i32::MIN < rc < 0 && rc != -62 && rc != -4 && rc != -11 && rc != -16 ==> r == Err::<
            (),
            RingError,
        >(RingError::Os((-rc) as i32)),
{
}

/// A flush fails with the kernel's error number, and only then.
pub proof fn flushes_report_failures(rc: i32, r: Result<(), RingError>)
    requires
        call_ensures(flush_outcome, (rc,), r),
    ensures
        rc >= 0 ==> r is Ok,
        i32::MIN < rc < 0 ==> r == Err::<(), RingError>(RingError::Os((-rc) as i32)),
{
}

/// A full queue is flushed once, and given up where it stays full.
pub proof fn full_queues_are_flushed_once(first: bool, flushed: i32, second: bool)
    ensures
        first ==> place_found(first, flushed, second) is Ok,
        !first && i32::MIN < flushed < 0 ==> place_found(first, flushed, second) == Err::<
            (),
            RingError,
        >(RingError::Os((-flushed) as i32)),
        !first && flushed >= 0 && second ==> place_found(first, flushed, second) is Ok,
        !first && flushed >= 0 && !second ==> place_found(first, flushed, second) == Err::<
            (),
            RingError,
        >(RingError::Exhausted),
{
}

/// A shutdown waits until every operation is gone, and gives up after a thousand rounds.
pub proof fn shutdowns_wait_for_operations(rounds: u32, empty: bool, r: ShutdownStep)
    requires
        call_ensures(shutdown_step, (rounds, empty), r),
    ensures
        empty <==> r == ShutdownStep::Finished,
        !empty && rounds <= 1000 ==> r == ShutdownStep::CancelAndWait,
        !empty && rounds > 1000 ==> r == ShutdownStep::GiveUp,
{
}

/// A span is handed to the kernel in whole seconds and the nanoseconds that are over.
pub proof fn spans_are_handed_over(dur: Duration, r: (i64, i64))
    requires
        dur.nanos / 1_000_000_000 <= i64::MAX,
        call_ensures(timespec, (dur,), r),
    ensures
        r.0 == dur.nanos / 1_000_000_000,
        r.1 == dur.nanos % 1_000_000_000,
{
}

/// A place in a full queue is looked for once more, after one flush.
pub proof fn places_are_found(first: bool, flushed: i32, second: bool, r: Result<(), RingError>)
    requires
        flushed > i32::MIN,
        call_ensures(queue_place, (first, flushed, second), r),
    ensures
        first ==> r is Ok,
        !first && flushed >= 0 ==> (r is Ok <==> second),
        !first && flushed < 0 ==> r == Err::<(), RingError>(RingError::Os((-flushed) as i32)),
{
    full_queues_are_flushed_once(first, flushed, second);
}

/// An operation that was queued is waiting under a new key and keeps its memory; one that was not
/// leaves nothing behind.
pub proof fn queued_operations_wait<K, W>(
    ring: &mut Ring<K, W>,
    keepalive: Option<K>,
    queued: Result<(), RingError>,
    r: Result<OpKey, RingError>,
)
    requires
        old(ring).wf(),
        old(ring).room(),
        call_ensures(Ring::<K, W>::submit_op, (ring, keepalive, queued), r),
    ensures
        r is Ok <==> queued is Ok,
        r matches Ok(key) ==> {
            &&& !old(ring)@.contains_key(key)
            &&& final(ring)@.contains_key(key)
            &&& final(ring)@[key].keepalive == keepalive
            &&& final(ring)@[key].state is Waiting
            &&& !final(ring)@[key].orphaned
        },
        queued matches Err(e) ==> r == Err::<OpKey, RingError>(e) && final(ring)@ == old(ring)@,
{
}

/// The result of an operation is taken once, with its memory; until it is there whoever asked last
/// will be woken.
pub proof fn results_are_taken_once<K, W>(
    ring: &mut Ring<K, W>,
    key: OpKey,
    waker: W,
    r: Option<(CqeResult, Option<K>)>,
)
    requires
        old(ring).wf(),
        call_ensures(Ring::<K, W>::poll_op, (ring, key, waker), r),
    ensures
        !old(ring)@.contains_key(key) ==> r is None,
        r matches Some((result, kept)) ==> old(ring)@.contains_key(key) && old(ring)@[key].state
            == OpState::<W>::Complete(result) && kept == old(ring)@[key].keepalive
            && !final(ring)@.contains_key(key),
        old(ring)@.contains_key(key) && old(ring)@[key].state is Waiting ==> r is None && final(
            ring
        )@.contains_key(key) && final(ring)@[key].state == OpState::Waiting(Some(waker))
            && final(ring)@[key].keepalive == old(ring)@[key].keepalive,
{
}

/// An operation that nobody waits for any more is freed where it has completed; else it is to be
/// cancelled, and keeps its memory until it completes.
pub proof fn abandoned_operations_are_cancelled<K, W>(
    ring: &mut Ring<K, W>,
    key: OpKey,
    r: OrphanAction,
)
    requires
        old(ring).wf(),
        call_ensures(Ring::<K, W>::orphan, (ring, key), r),
    ensures
        r == OrphanAction::Nothing <==> !old(ring)@.contains_key(key),
        r == OrphanAction::Freed <==> old(ring)@.contains_key(key) && old(ring)@[key].state
            is Complete,
        r == OrphanAction::Freed ==> !final(ring)@.contains_key(key),
        r == OrphanAction::Cancel ==> final(ring)@.contains_key(key) && final(ring)@[key].orphaned
            && final(ring)@[key].keepalive == old(ring)@[key].keepalive,
{
}

/// What the kernel may still write to is kept, but for an operation that has just been reported.
pub proof fn memory_outlives_the_kernel<K, W>(
    before: Map<OpKey, Op<K, W>>,
    after: Map<OpKey, Op<K, W>>,
    reported: Option<OpKey>,
    key: OpKey,
)
    requires
        memory_kept(before, after, reported),
        before.contains_key(key),
        before[key].state is Waiting,
        reported != Some(key),
    ensures
        after.contains_key(key),
        after[key].state is Waiting,
        after[key].keepalive == before[key].keepalive,
{
    assert(in_kernel(before, key));
}

/// Without completions nothing changes, and the slots follow completions one after the other.
pub proof fn slots_follow_completions<K, W>(
    before: OpSlab<Op<K, W>>,
    mid: OpSlab<Op<K, W>>,
    after: OpSlab<Op<K, W>>,
    cqe: Cqe,
)
    ensures
        tables_follow(before, after, Seq::empty()) <==> after == before,
        tables_follow(before, mid, Seq::empty()) && table_follows(mid, after, cqe)
            ==> tables_follow(before, after, seq![cqe]),
        cqe.data == 0 && table_follows(before, after, cqe) ==> after == before,
{
    if tables_follow(before, mid, Seq::empty()) && table_follows(mid, after, cqe) {
        assert(seq![cqe].drop_last() =~= Seq::<Cqe>::empty());
        assert(tables_follow(before, mid, seq![cqe].drop_last()));
        assert(table_follows(mid, after, seq![cqe].last()));
    }
}

} // verus!
