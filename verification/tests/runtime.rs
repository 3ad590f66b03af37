use yxorp::addr::{IpAddr, SocketAddr};
use yxorp::runtime::buf::{IoBuf, IoBufMut, OwnedBuf};
use yxorp::runtime::bufring::{BufRing, BUF_RING_ENTRIES, BUF_SIZE};
use yxorp::runtime::caps::{
    is_runtime_available, probe_setups, setup_attempts, KernelCaps, OpcodeProbe, RegistrationProbe,
    RingError, SetupParams, SetupProbe, CQ_ENTRIES, SETUP_CQSIZE, SETUP_DEFER_TASKRUN,
    SETUP_NO_SQARRAY, SETUP_SINGLE_ISSUER, SETUP_SUBMIT_ALL, SETUP_TASKRUN_FLAG,
};
use yxorp::runtime::executor::{drive_step, Drive, JoinHandle, Runtime, Scheduler};
use yxorp::runtime::fut::{
    accept_outcome, connect_outcome, decode_result, AcceptError, BufFut, Dir, OpFuture, SendAll,
    SendStep,
};
use yxorp::runtime::net::{from_sockaddr, socket_family, to_sockaddr};
use yxorp::runtime::ring::{
    flush_outcome, queue_place, shutdown_step, timespec, wait_outcome, Completion, Cqe,
    OrphanAction, Ring, ShutdownStep,
};
use yxorp::runtime::shard::{num_cpus, plan_shards};
use yxorp::runtime::timer::{sleep, timeout_outcome, Elapsed, TimerWheel};
use yxorp::time::{Duration, Instant};

fn all_setups() -> SetupProbe {
    SetupProbe {
        base: true,
        single_issuer: true,
        submit_all: true,
        no_sqarray: true,
        cqsize: true,
        defer_taskrun: true,
        taskrun_flag: true,
    }
}

fn all_opcodes() -> OpcodeProbe {
    OpcodeProbe {
        accept: true,
        connect: true,
        recv: true,
        send: true,
        read: true,
        write: true,
        close: true,
        timeout: true,
        link_timeout: true,
        async_cancel: true,
        socket: true,
        msg_ring: true,
    }
}

fn full_caps() -> KernelCaps {
    let registration = RegistrationProbe { sparse_files: 0, ring_fd: 1 };
    KernelCaps::probe(all_setups(), Some(all_opcodes()), Some(registration)).unwrap()
}

fn ring<K>() -> Ring<K, u32> {
    Ring::new(full_caps(), true)
}

fn ms(n: u64) -> Duration {
    Duration::from_millis(n)
}

fn at(n: u64) -> Instant {
    Instant { nanos: n as u128 * 1_000_000 }
}

// Runs the tasks of a scheduler until none can run. A task says whether it has ended, and may
// ask to be run again.
type Task = Box<dyn FnMut(&mut Vec<usize>, usize) -> bool>;

fn run_ready(tasks: &mut Scheduler<Task>) {
    while let Some((id, mut task)) = tasks.next_ready() {
        let mut woken = Vec::new();
        let ended = task(&mut woken, id);
        if ended {
            tasks.finish(id);
        } else {
            tasks.park(id, task);
        }
        for w in woken {
            tasks.schedule(w);
        }
    }
}

#[test]
fn block_on_runs_a_plain_future() {
    let mut tasks: Scheduler<Task> = Scheduler::new();
    let out = std::rc::Rc::new(std::cell::Cell::new(None));
    let sink = out.clone();
    tasks.spawn(Box::new(move |_, _| {
        sink.set(Some(40 + 2));
        true
    }));
    run_ready(&mut tasks);
    assert_eq!(out.get(), Some(42));
    assert_eq!(drive_step(out.get().is_some(), 0, false), Drive::Finished);
}

#[test]
fn block_on_drives_cooperative_yields() {
    let mut tasks: Scheduler<Task> = Scheduler::new();
    let out = std::rc::Rc::new(std::cell::Cell::new(None));
    let sink = out.clone();
    let mut yields = 0;
    tasks.spawn(Box::new(move |woken, id| {
        if yields < 2 {
            yields += 1;
            woken.push(id);
            false
        } else {
            sink.set(Some(7));
            true
        }
    }));
    run_ready(&mut tasks);
    assert_eq!(out.get(), Some(7));
}

#[test]
fn spawn_local_join_returns_output() {
    let mut a: JoinHandle<i32, u32> = JoinHandle::new();
    let mut b: JoinHandle<i32, u32> = JoinHandle::new();
    assert_eq!(a.complete(20), None);
    assert_eq!(b.poll(5), None);
    assert_eq!(b.poll(6), None);
    assert_eq!(b.complete(22), Some(6));
    assert_eq!(a.poll(1).unwrap() + b.poll(1).unwrap(), 42);
}

#[test]
fn scheduler_queues_each_task_once_and_reuses_slots() {
    let mut tasks: Scheduler<&str> = Scheduler::new();
    let a = tasks.spawn("a");
    let b = tasks.spawn("b");
    tasks.schedule(a);
    tasks.schedule(77);
    assert_eq!(tasks.next_ready(), Some((a, "a")));
    // A task that is woken while it runs is run again.
    tasks.schedule(a);
    tasks.park(a, "a");
    assert_eq!(tasks.next_ready(), Some((b, "b")));
    tasks.finish(b);
    let c = tasks.spawn("c");
    assert_eq!(c, b);
    // An id without a task is passed over.
    assert_eq!(tasks.next_ready(), Some((a, "a")));
    tasks.park(a, "a");
    assert_eq!(tasks.next_ready(), Some((c, "c")));
    tasks.finish(c);
    assert_eq!(tasks.next_ready(), None);
    assert_eq!(tasks.shutdown(), vec![Some("a"), None]);
    assert_eq!(drive_step(false, 0, false), Drive::Stalled);
    assert_eq!(drive_step(false, 1, false), Drive::Wait);
    assert_eq!(drive_step(false, 0, true), Drive::Wait);
}

#[test]
fn sleep_elapses_approximately() {
    let mut wheel: TimerWheel<u32> = TimerWheel::new();
    let mut nap = sleep(at(100), ms(40));
    assert!(!nap.poll(at(100), &mut wheel, 1));
    assert_eq!(wheel.next_timeout(at(105)), Some(ms(35)));
    assert!(wheel.expire(at(139)).is_empty(), "slept too little");
    assert!(!nap.poll(at(139), &mut wheel, 2));
    assert_eq!(wheel.expire(at(140)), vec![2]);
    assert!(nap.poll(at(140), &mut wheel, 3));
    assert!(nap.done);
    assert!(wheel.is_empty());
}

#[test]
fn timeout_returns_value_when_fast() {
    assert_eq!(timeout_outcome(Some(99), false), Some(Ok(99)));
    assert_eq!(timeout_outcome(Some(99), true), Some(Ok(99)));
}

#[test]
fn timeout_elapses_on_slow_future() {
    let mut wheel: TimerWheel<u32> = TimerWheel::new();
    let mut slow = sleep(at(0), ms(10_000));
    let mut limit = sleep(at(0), ms(30));
    let out = |slow: bool, limit: bool| timeout_outcome(if slow { Some(()) } else { None }, limit);
    let s = slow.poll(at(0), &mut wheel, 1);
    let l = limit.poll(at(0), &mut wheel, 1);
    assert_eq!(out(s, l), None);
    assert_eq!(wheel.next_timeout(at(0)), Some(ms(30)));
    assert_eq!(wheel.expire(at(30)), vec![1]);
    let s = slow.poll(at(30), &mut wheel, 1);
    let l = limit.poll(at(30), &mut wheel, 1);
    assert_eq!(out(s, l), Some(Err(Elapsed)));
    assert_eq!(Elapsed.message(), "future timed out");
    slow.cancel(&mut wheel);
    assert!(wheel.is_empty());
}

#[test]
fn timers_fire_in_the_order_of_their_deadlines() {
    let mut wheel: TimerWheel<&str> = TimerWheel::new();
    assert_eq!(wheel.next_timeout(at(0)), None);
    let a = wheel.register(at(30), "a");
    let b = wheel.register(at(10), "b");
    let c = wheel.register(at(30), "c");
    let d = wheel.register(at(20), "d");
    assert_eq!((a, b, c, d), (1, 2, 3, 4));
    wheel.update_waker(c, "C");
    wheel.update_waker(99, "none");
    wheel.cancel(d);
    wheel.cancel(d);
    assert_eq!(wheel.next_timeout(at(40)), Some(Duration::zero()));
    assert_eq!(wheel.expire(at(30)), vec!["b", "a", "C"]);
    assert!(wheel.is_empty());
}

#[test]
fn dropped_inflight_recv_is_orphaned_then_reaped() {
    let mut ring: Ring<OwnedBuf, u32> = ring();
    let mut recv = BufFut::new(Dir::Recv, 0, OwnedBuf::with_capacity(1 << 20));
    assert_eq!(recv.span(), (0, 1 << 20));
    assert!(recv.poll(&mut ring, Ok(()), 1).is_none(), "recv unexpectedly completed");
    let key = recv.key.unwrap();
    assert_eq!(ring.in_flight(), 1);
    assert_eq!(recv.cancel(&mut ring), OrphanAction::Cancel);
    // The buffer stays until the kernel reports on it.
    assert_eq!(ring.in_flight(), 1);
    let stray = ring.drain(&vec![Cqe { data: 0, res: 0, flags: 0 }]);
    assert_eq!((stray.count, ring.in_flight()), (1, 1));
    assert!(matches!(
        ring.complete(Cqe { data: key.as_u64(), res: -125, flags: 0 }),
        Completion::Freed
    ));
    assert_eq!(ring.in_flight(), 0, "orphaned recv was not reaped after cancellation");
    assert!(matches!(
        ring.complete(Cqe { data: key.as_u64(), res: 0, flags: 0 }),
        Completion::Stale
    ));
}

#[test]
fn shutdown_reaps_inflight_ops() {
    let mut ring: Ring<u8, u32> = ring();
    let mut accept = OpFuture::new(Some(9u8));
    assert!(accept.poll(&mut ring, Ok(()), 1).is_none());
    let mut other = OpFuture::new(None);
    assert!(other.poll(&mut ring, Ok(()), 2).is_none());
    assert!(ring.in_flight() >= 1, "accept should be in flight before shutdown");
    ring.orphan_all();
    assert_eq!(shutdown_step(0, ring.in_flight() == 0), ShutdownStep::CancelAndWait);
    let cqes = vec![
        Cqe { data: accept.key.unwrap().as_u64(), res: -125, flags: 0 },
        Cqe { data: other.key.unwrap().as_u64(), res: -125, flags: 0 },
    ];
    let drained = ring.drain(&cqes);
    assert_eq!(drained.count, 2);
    assert!(drained.wakers.is_empty());
    assert_eq!(ring.in_flight(), 0);
    assert_eq!(shutdown_step(1, true), ShutdownStep::Finished);
    assert_eq!(shutdown_step(1001, false), ShutdownStep::GiveUp);
}

#[test]
fn large_payload_echo_preserves_bytes() {
    const N: usize = 4 << 20;
    let payload: Vec<u8> = (0..N).map(|i| (i % 251) as u8).collect();
    let mut ring: Ring<OwnedBuf, u32> = ring();
    let mut buf = OwnedBuf::filled(payload.clone());
    let mut got: Vec<u8> = Vec::with_capacity(N);
    let (mut all, mut step) = SendAll::start(buf.bytes_init());
    while let SendStep::SendFrom(off) = step {
        let mut send = BufFut::new(Dir::Send, off, buf);
        let (start, len) = send.span();
        assert_eq!((start, start + len), (off, N));
        assert!(send.poll(&mut ring, Ok(()), 1).is_none());
        // The kernel takes at most 100000 bytes at a time.
        let n = len.min(100_000);
        got.extend_from_slice(&payload[start..start + n]);
        let cqe = Cqe { data: send.key.unwrap().as_u64(), res: n as i32, flags: 0 };
        assert_eq!(ring.drain(&vec![cqe]).wakers, vec![1]);
        let (sent, returned) = send.poll(&mut ring, Ok(()), 1).unwrap();
        buf = returned;
        step = all.sent(sent.unwrap());
    }
    assert_eq!(step, SendStep::Done);
    assert_eq!(got.len(), N, "echoed byte count mismatch");
    assert!(got == payload, "echoed payload differs from source");
    assert_eq!(ring.in_flight(), 0);
}

#[test]
fn operations_hand_their_memory_back() {
    let mut ring: Ring<OwnedBuf, u32> = ring();
    let mut recv = BufFut::new(Dir::Recv, 0, OwnedBuf::with_capacity(16));
    assert!(recv.poll(&mut ring, Ok(()), 1).is_none());
    assert!(recv.poll(&mut ring, Ok(()), 2).is_none());
    let cqe = Cqe { data: recv.key.unwrap().as_u64(), res: 5, flags: 0 };
    assert_eq!(ring.drain(&vec![cqe]).wakers, vec![2]);
    let (n, buf) = recv.poll(&mut ring, Ok(()), 3).unwrap();
    assert_eq!((n, buf.bytes_init(), buf.bytes_total()), (Ok(5), 5, 16));

    let mut failed = BufFut::new(Dir::Send, 0, buf);
    let (n, buf) = failed.poll(&mut ring, Err(RingError::Exhausted), 1).unwrap();
    assert_eq!((n, buf.bytes_init()), (Err(RingError::Exhausted), 5));
    assert_eq!(ring.in_flight(), 0);

    let mut refused = BufFut::new(Dir::Recv, 0, buf);
    assert!(refused.poll(&mut ring, Ok(()), 1).is_none());
    let key = refused.key.unwrap();
    ring.complete(Cqe { data: key.as_u64(), res: -104, flags: 0 });
    let (n, buf) = refused.poll(&mut ring, Ok(()), 1).unwrap();
    assert_eq!((n, buf.bytes_init()), (Err(RingError::Os(104)), 5));

    let mut op: OpFuture<OwnedBuf> = OpFuture::new(None);
    assert_eq!(op.poll(&mut ring, Err(RingError::Os(11)), 1), Some(Err(RingError::Os(11))));
    let mut op: OpFuture<OwnedBuf> = OpFuture::new(None);
    assert_eq!(op.poll(&mut ring, Ok(()), 1), None);
    let key = op.key.unwrap();
    ring.complete(Cqe { data: key.as_u64(), res: 3, flags: 0 });
    assert_eq!(op.poll(&mut ring, Ok(()), 1), Some(Ok(3)));
    assert!(op.done);
    assert_eq!(op.cancel(&mut ring), OrphanAction::Nothing);

    let mut dropped: OpFuture<OwnedBuf> = OpFuture::new(None);
    dropped.poll(&mut ring, Ok(()), 1);
    ring.complete(Cqe { data: dropped.key.unwrap().as_u64(), res: 0, flags: 0 });
    assert_eq!(dropped.cancel(&mut ring), OrphanAction::Freed);
    assert_eq!(ring.in_flight(), 0);
}

#[test]
fn runtimes_reap_completions_before_timers() {
    let mut rt: Runtime<u8, u8, u32> = Runtime::new(ring());
    assert_eq!(rt.drive(false), Drive::Stalled);
    let mut op = OpFuture::new(None);
    op.poll(&mut rt.ring, Ok(()), 1);
    rt.timers.register(at(5), 2);
    rt.timers.register(at(50), 3);
    assert_eq!(rt.in_flight(), 1);
    assert_eq!(rt.drive(false), Drive::Wait);
    let cqe = Cqe { data: op.key.unwrap().as_u64(), res: 0, flags: 0 };
    assert_eq!(rt.reap(&vec![cqe], at(10)), vec![1, 2]);
    assert!(!rt.timers.is_empty());
    assert_eq!(rt.drive(true), Drive::Finished);
}

#[test]
fn kernel_results_are_told_apart() {
    assert_eq!(queue_place(true, -1, false), Ok(()));
    assert_eq!(queue_place(false, -5, true), Err(RingError::Os(5)));
    assert_eq!(queue_place(false, 3, true), Ok(()));
    assert_eq!(queue_place(false, 3, false), Err(RingError::Exhausted));
    for rc in [0, 3, -62, -4, -11, -16] {
        assert_eq!(wait_outcome(rc), Ok(()));
    }
    assert_eq!(wait_outcome(-9), Err(RingError::Os(9)));
    assert_eq!(flush_outcome(2), Ok(()));
    assert_eq!(flush_outcome(-11), Err(RingError::Os(11)));
    assert_eq!(timespec(ms(2_500)), (2, 500_000_000));
    assert_eq!(decode_result(-1), Err(RingError::Os(1)));
    assert_eq!(connect_outcome(-111), Err(RingError::Os(111)));
    assert_eq!(connect_outcome(0), Ok(()));
    assert_eq!(RingError::Exhausted.message(), Some("submission queue exhausted"));
    assert_eq!(RingError::Os(1).message(), None);
}

#[test]
fn addresses_survive_the_kernel() {
    let v4 = SocketAddr::new(IpAddr::v4(10, 1, 2, 3), 0x1f90);
    let raw = to_sockaddr(&v4);
    assert_eq!((raw.family, raw.port_high, raw.port_low, raw.len), (2, 0x1f, 0x90, 16));
    assert_eq!(from_sockaddr(&raw), Some(v4));
    let v6 = SocketAddr::V6 { ip: 7, port: 443, flowinfo: 8, scope_id: 9 };
    let mut raw = to_sockaddr(&v6);
    assert_eq!((raw.family, raw.len), (10, 28));
    assert_eq!(from_sockaddr(&raw), Some(v6));
    assert_eq!(socket_family(&v6), 10);
    assert_eq!(accept_outcome(4, &raw), Ok((4, v6)));
    assert_eq!(accept_outcome(-24, &raw), Err(AcceptError::Ring(RingError::Os(24))));
    raw.family = 1;
    assert_eq!(from_sockaddr(&raw), None);
    assert_eq!(accept_outcome(4, &raw), Err(AcceptError::UnknownFamily));
}

#[test]
fn probe_reports_caps_or_skips() {
    let caps = full_caps();
    assert!(caps.mandatory_opcodes_present(), "missing base opcodes: {}", caps.to_text());
    assert!(caps.direct_descriptors_supported());
    assert!(is_runtime_available(Some(caps)));
    assert!(!is_runtime_available(None));
    assert_eq!(
        caps.to_text(),
        "io_uring caps: setup[single_issuer=true defer_taskrun=true taskrun_flag=true submit_all=true cqsize=true no_sqarray=true] \
         ops[accept=true connect=true recv=true send=true read=true write=true close=true timeout=true link_timeout=true async_cancel=true socket=true msg_ring=true] \
         reg[sparse_files=true register_ring_fd=true]"
    );
    let none = SetupProbe { base: false, ..all_setups() };
    assert!(KernelCaps::probe(none, Some(all_opcodes()), None).is_none());
    let bare = KernelCaps::probe(all_setups(), None, None).unwrap();
    assert!(!bare.mandatory_opcodes_present());
    assert!(!bare.sparse_files);
    assert_eq!(probe_setups().len(), 7);
}

#[test]
fn rings_are_set_up_with_a_fallback() {
    let caps = full_caps();
    let preferred = SETUP_SINGLE_ISSUER
        | SETUP_DEFER_TASKRUN
        | SETUP_TASKRUN_FLAG
        | SETUP_SUBMIT_ALL
        | SETUP_NO_SQARRAY;
    assert_eq!(caps.preferred_setup_flags(), preferred);
    assert_eq!(
        setup_attempts(Some(caps)),
        Ok(vec![
            SetupParams { flags: preferred | SETUP_CQSIZE, cq_entries: CQ_ENTRIES },
            SetupParams { flags: SETUP_CQSIZE, cq_entries: CQ_ENTRIES },
        ])
    );
    let mut lone = caps;
    lone.single_issuer = false;
    assert_eq!(lone.preferred_setup_flags(), SETUP_SUBMIT_ALL | SETUP_NO_SQARRAY);
    let mut plain = lone;
    plain.submit_all = false;
    plain.no_sqarray = false;
    plain.cqsize = false;
    assert_eq!(setup_attempts(Some(plain)), Ok(vec![SetupParams { flags: 0, cq_entries: 0 }]));
    assert_eq!(setup_attempts(None), Err(RingError::Unavailable));
    plain.op_recv = false;
    assert_eq!(setup_attempts(Some(plain)), Err(RingError::MissingOpcode));
    let ring: Ring<u8, u8> = Ring::new(caps, false);
    assert!(!ring.has_fixed_files());
    assert_eq!(ring.caps(), &caps);
}

#[test]
fn provided_buffers_do_not_overlap() {
    let ring = BufRing::new(0, BUF_RING_ENTRIES, BUF_SIZE).unwrap();
    assert_eq!(ring.arena_len(), 16_777_216);
    assert_eq!(ring.mask(), 255);
    assert_eq!(ring.buffer_offset(3), 196_608);
    for bid in 1..256u16 {
        assert_eq!(ring.buffer_offset(bid) - ring.buffer_offset(bid - 1), BUF_SIZE);
    }
    assert!(BufRing::new(0, 0, 1).is_none());
    assert!(BufRing::new(0, 65_536, usize::MAX).is_none());
}

#[test]
fn shards_are_spread_over_processors() {
    let plan = plan_shards(3, true, 2);
    let cpus: Vec<Option<usize>> = plan.iter().map(|p| p.cpu).collect();
    assert_eq!(cpus, [Some(0), Some(1), Some(0)]);
    assert_eq!(plan[2].name, "shard-2");
    assert!(plan_shards(1, false, 2)[0].cpu.is_none());
    assert_eq!(num_cpus(None), 1);
    assert_eq!(num_cpus(Some(8)), 8);
}

#[test]
fn a_sleeper_keeps_one_timer_with_its_latest_waker() {
    let mut wheel: TimerWheel<u32> = TimerWheel::new();
    let start = Instant { nanos: 0 };
    let mut s = sleep(start, Duration::from_millis(5));
    let other = wheel.register(Instant { nanos: 1_000_000 }, 100);
    for i in 0..4u32 {
        assert!(!s.poll(Instant { nanos: u128::from(i) }, &mut wheel, i));
    }
    assert_eq!(wheel.expire(Instant { nanos: 2_000_000 }), vec![100]);
    wheel.cancel(other);
    wheel.update_waker(other, 101);
    assert!(!s.poll(Instant { nanos: 2_000_001 }, &mut wheel, 7));
    assert_eq!(wheel.expire(Instant { nanos: 9_000_000 }), vec![7]);
    assert!(wheel.is_empty());
    assert!(s.poll(Instant { nanos: 9_000_000 }, &mut wheel, 8));
    assert!(s.poll(Instant { nanos: 9_000_001 }, &mut wheel, 9));
    assert!(wheel.is_empty());
    assert_eq!(wheel.next_timeout(start), None);
    assert_eq!(wheel.register(start, 1), 3);
}

#[test]
fn no_capabilities_by_default() {
    let caps = KernelCaps::default();
    assert!(!caps.mandatory_opcodes_present());
    assert_eq!(caps.preferred_setup_flags(), 0);
}
