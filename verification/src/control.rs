//! The supervisor: reloading, draining and health checks.

use crate::config::routes::{replaced, RouteTable, UpstreamRef};
use crate::config::types::{ListenerConfig, ListenerProtocol, RuntimeConfig};
use crate::config::upstream::UpstreamState;
use crate::octets::push_text;
use crate::text::str_eq;
use crate::time::Duration;
use crate::uri::opt_text;
use vstd::prelude::*;
use vstd::slice::slice_subrange;
use vstd::string::*;
use vstd::utf8::{encode_utf8, is_ascii_chars_encode_utf8};

verus! {

// ------------------------------------------------------------------ listeners

/// Whether two listeners agree in every setting.
pub open spec fn same_listener(a: ListenerConfig, b: ListenerConfig) -> bool {
    &&& a.name@ == b.name@
    &&& a.bind == b.bind
    &&& a.protocols@ == b.protocols@
    &&& a.http1_engine == b.http1_engine
    &&& a.tls == b.tls
    &&& a.reuse_port == b.reuse_port
    &&& a.accept_workers == b.accept_workers
    &&& a.backlog == b.backlog
    &&& opt_text(a.interface) == opt_text(b.interface)
}

/// Whether two lists of listeners agree, one by one and in order.
pub open spec fn same_shape(a: Seq<ListenerConfig>, b: Seq<ListenerConfig>) -> bool {
    a.len() == b.len() && forall|i: int| 0 <= i < a.len() ==> same_listener(#[trigger] a[i], b[i])
}

fn same_protocols(a: &Vec<ListenerProtocol>, b: &Vec<ListenerProtocol>) -> (r: bool)
    ensures
        r == (a@ == b@),
{
    if a.len() != b.len() {
        return false;
    }
    let mut i: usize = 0;
    while i < a.len()
        invariant
            i <= a.len() == b.len(),
            forall|k: int| 0 <= k < i ==> a@[k] == b@[k],
        decreases a.len() - i,
    {
        if a[i] != b[i] {
            return false;
        }
        i = i + 1;
    }
    proof {
        assert(a@ =~= b@);
    }
    true
}

fn same_option(a: &Option<String>, b: &Option<String>) -> (r: bool)
    ensures
        r == (opt_text(*a) == opt_text(*b)),
{
    match (a, b) {
        (Some(x), Some(y)) => str_eq(x.as_str(), y.as_str()),
        (None, None) => true,
        _ => false,
    }
}

/// Whether two lists of listeners agree, so that the listeners can go on as they are.
pub fn same_listener_shape(a: &Vec<ListenerConfig>, b: &Vec<ListenerConfig>) -> (r: bool)
    ensures
        r == same_shape(a@, b@),
{
    if a.len() != b.len() {
        return false;
    }
    let mut i: usize = 0;
    while i < a.len()
        invariant
            i <= a.len() == b.len(),
            forall|k: int| 0 <= k < i ==> same_listener(#[trigger] a@[k], b@[k]),
        decreases a.len() - i,
    {
        let left = &a[i];
        let right = &b[i];
        let same = str_eq(left.name.as_str(), right.name.as_str()) && left.bind == right.bind
            && same_protocols(&left.protocols, &right.protocols) && left.http1_engine
            == right.http1_engine && left.tls == right.tls && left.reuse_port == right.reuse_port
            && left.accept_workers == right.accept_workers && left.backlog == right.backlog
            && same_option(&left.interface, &right.interface);
        if !same {
            proof {
                assert(!same_listener(a@[i as int], b@[i as int]));
            }
            return false;
        }
        i = i + 1;
    }
    true
}

// ------------------------------------------------------------------ reloading

/// How far a reload has come: what is done next.
#[derive(Clone, Copy, Debug, PartialEq, Eq, Structural)]
pub enum ReloadStage {
    /// Read and check the new configuration.
    Load,
    /// See whether its layer-4 services can be set up.
    Preflight,
    /// Set up its layer-4 services in place of the old ones.
    Apply,
    /// Make it the configuration in use.
    Commit,
    /// Start the listeners anew.
    RestartListeners,
    /// Start the health checks anew.
    RestartHealth,
    /// It is done.
    Done,
    /// It was given up.
    Failed,
}

/// The stage after one that went well or not.
pub open spec fn stage_after(stage: ReloadStage, ok: bool, listeners_changed: bool) -> ReloadStage {
    match stage {
        ReloadStage::Load => if ok {
            ReloadStage::Preflight
        } else {
            ReloadStage::Failed
        },
        ReloadStage::Preflight => if ok {
            ReloadStage::Apply
        } else {
            ReloadStage::Failed
        },
        ReloadStage::Apply => if ok {
            ReloadStage::Commit
        } else {
            ReloadStage::Failed
        },
        ReloadStage::Commit => if listeners_changed {
            ReloadStage::RestartListeners
        } else {
            ReloadStage::RestartHealth
        },
        ReloadStage::RestartListeners => ReloadStage::RestartHealth,
        ReloadStage::RestartHealth => ReloadStage::Done,
        ReloadStage::Done => ReloadStage::Done,
        ReloadStage::Failed => ReloadStage::Failed,
    }
}

/// The stage after one that went well or not.
pub fn next_stage(stage: ReloadStage, ok: bool, listeners_changed: bool) -> (r: ReloadStage)
    ensures
        r == stage_after(stage, ok, listeners_changed),
{
    match stage {
        ReloadStage::Load => if ok {
            ReloadStage::Preflight
        } else {
            ReloadStage::Failed
        },
        ReloadStage::Preflight => if ok {
            ReloadStage::Apply
        } else {
            ReloadStage::Failed
        },
        ReloadStage::Apply => if ok {
            ReloadStage::Commit
        } else {
            ReloadStage::Failed
        },
        ReloadStage::Commit => if listeners_changed {
            ReloadStage::RestartListeners
        } else {
            ReloadStage::RestartHealth
        },
        ReloadStage::RestartListeners => ReloadStage::RestartHealth,
        ReloadStage::RestartHealth => ReloadStage::Done,
        ReloadStage::Done => ReloadStage::Done,
        ReloadStage::Failed => ReloadStage::Failed,
    }
}

/// What a reload that is over is answered.
pub fn reload_reply(error: Option<String>) -> (r: Result<String, String>)
    ensures
        match error {
            None => r matches Ok(m) && m@ == "reloaded"@,
            Some(e) => r == Err::<String, String>(e),
        },
{
    match error {
        None => Ok("reloaded".to_owned()),
        Some(e) => Err(e),
    }
}

/// The stage of a reload after a run of stages that went well or not.
pub open spec fn stage_after_all(oks: Seq<bool>, listeners_changed: bool) -> ReloadStage
    decreases oks.len(),
{
    if oks.len() == 0 {
        ReloadStage::Load
    } else {
        stage_after(
            stage_after_all(oks.drop_last(), listeners_changed),
            oks.last(),
            listeners_changed,
        )
    }
}

/// The configuration in use is replaced only after the new one was read and checked and its
/// layer-4 services were set up.
pub proof fn failed_reloads_change_no_configuration(oks: Seq<bool>, listeners_changed: bool)
    requires
        stage_after_all(oks, listeners_changed) == ReloadStage::Commit,
    ensures
        oks == seq![true, true, true],
{
    lemma_stages(oks, listeners_changed);
}

proof fn lemma_stages(oks: Seq<bool>, changed: bool)
    ensures
        stage_after_all(oks, changed) == ReloadStage::Load ==> oks == Seq::<bool>::empty(),
        stage_after_all(oks, changed) == ReloadStage::Preflight ==> oks == seq![true],
        stage_after_all(oks, changed) == ReloadStage::Apply ==> oks == seq![true, true],
        stage_after_all(oks, changed) == ReloadStage::Commit ==> oks == seq![true, true, true],
    decreases oks.len(),
{
    if oks.len() > 0 {
        lemma_stages(oks.drop_last(), changed);
        assert(oks =~= oks.drop_last().push(oks.last()));
        if oks.drop_last() == Seq::<bool>::empty() {
            assert(oks =~= seq![oks.last()]);
        }
        if oks.drop_last() == seq![true] {
            assert(oks =~= seq![true, oks.last()]);
        }
        if oks.drop_last() == seq![true, true] {
            assert(oks =~= seq![true, true, oks.last()]);
        }
    } else {
        assert(oks =~= Seq::<bool>::empty());
    }
}

/// Listeners are started anew only where they changed.
pub proof fn unchanged_listeners_stay(stage: ReloadStage, ok: bool)
    ensures
        stage_after(stage, ok, false) != ReloadStage::RestartListeners,
{
}

// ----------------------------------------------------------------- supervising

/// What the supervisor hears.
#[derive(Clone, Copy, Debug, PartialEq, Eq, Structural)]
pub enum ControlEvent {
    /// The admin API asks for a reload.
    Reload,
    /// The admin API asks to drain.
    Drain,
    /// No more commands can come.
    CommandsClosed,
    /// The process is asked to end.
    Interrupted,
    /// Listening for that failed.
    SignalFailed,
}

/// What the supervisor does.
#[derive(Clone, Copy, Debug, PartialEq, Eq, Structural)]
pub enum ControlAction {
    /// Reload, answer, and go on.
    Reload,
    /// Shut down, answer where asked to, and end.
    ShutDown { answer: bool },
    /// End at once.
    End,
    /// End with the error.
    Fail,
}

/// What the supervisor does when it hears something.
pub fn on_event(event: ControlEvent) -> (r: ControlAction)
    ensures
        r == match event {
            ControlEvent::Reload => ControlAction::Reload,
            ControlEvent::Drain => ControlAction::ShutDown { answer: true },
            ControlEvent::CommandsClosed => ControlAction::End,
            ControlEvent::Interrupted => ControlAction::ShutDown { answer: false },
            ControlEvent::SignalFailed => ControlAction::Fail,
        },
{
    match event {
        ControlEvent::Reload => ControlAction::Reload,
        ControlEvent::Drain => ControlAction::ShutDown { answer: true },
        ControlEvent::CommandsClosed => ControlAction::End,
        ControlEvent::Interrupted => ControlAction::ShutDown { answer: false },
        ControlEvent::SignalFailed => ControlAction::Fail,
    }
}

/// The steps of a shutdown.
#[derive(Clone, Copy, Debug, PartialEq, Eq, Structural)]
pub enum ShutdownStep {
    /// Tell every task.
    Announce,
    /// Stop taking connections.
    StopListeners,
    /// Let open connections finish, for so long at most.
    WaitForDrain(Duration),
    /// Stop the health checks.
    StopHealthChecks,
    /// Take the layer-4 services out.
    RemoveL4Services,
    /// Answer `draining`.
    Answer,
}

/// The steps of a shutdown, in order.
pub open spec fn shutdown_order(drain: Duration, answer: bool) -> Seq<ShutdownStep> {
    let steps = seq![
        ShutdownStep::Announce,
        ShutdownStep::StopListeners,
        ShutdownStep::WaitForDrain(drain),
        ShutdownStep::StopHealthChecks,
        ShutdownStep::RemoveL4Services,
    ];
    if answer {
        steps.push(ShutdownStep::Answer)
    } else {
        steps
    }
}

/// The steps of a shutdown, in order.
pub fn shutdown_steps(runtime: &RuntimeConfig, answer: bool) -> (v: Vec<ShutdownStep>)
    ensures
        v@ == shutdown_order(
            (Duration { nanos: (runtime.drain_timeout_ms * 1_000_000) as u128 }),
            answer,
        ),
{
    let drain = runtime.drain_timeout();
    let mut v: Vec<ShutdownStep> = Vec::new();
    v.push(ShutdownStep::Announce);
    v.push(ShutdownStep::StopListeners);
    v.push(ShutdownStep::WaitForDrain(drain));
    v.push(ShutdownStep::StopHealthChecks);
    v.push(ShutdownStep::RemoveL4Services);
    if answer {
        v.push(ShutdownStep::Answer);
    }
    proof {
        assert(v@ =~= shutdown_order(drain, answer));
    }
    v
}

// ---------------------------------------------------------------- health checks

/// What came of a health check.
#[derive(Clone, Copy, Debug, PartialEq, Eq, Structural)]
pub enum CheckOutcome {
    /// It is switched off.
    Disabled,
    /// The upstream's name does not resolve.
    Unresolved,
    /// The upstream answered as it should.
    Passed,
    /// The upstream answered otherwise, or could not be asked.
    Failed,
    /// The upstream took too long.
    TimedOut,
}

/// The request of a health check.
pub open spec fn check_request(path: Seq<char>, authority: Seq<char>) -> Seq<u8> {
    encode_utf8("GET "@) + encode_utf8(path) + encode_utf8(" HTTP/1.1\r\nHost: "@) + encode_utf8(
        authority,
    ) + encode_utf8("\r\nConnection: close\r\n\r\n"@)
}

/// The request of a health check.
pub fn health_request(path: &str, authority: &str) -> (r: Vec<u8>)
    ensures
        r@ == check_request(path@, authority@),
{
    let mut out: Vec<u8> = Vec::new();
    push_text(&mut out, "GET ");
    push_text(&mut out, path);
    push_text(&mut out, " HTTP/1.1\r\nHost: ");
    push_text(&mut out, authority);
    push_text(&mut out, "\r\nConnection: close\r\n\r\n");
    proof {
        assert(out@ =~= check_request(path@, authority@));
    }
    out
}

/// Whether the first bytes of an answer are those of a good one.
pub open spec fn good_answer(bytes: Seq<u8>) -> bool {
    bytes.len() >= 12 && bytes.take(12) == encode_utf8("HTTP/1.1 200"@)
}

/// What the first bytes of an answer say.
pub fn health_verdict(bytes: &[u8]) -> (r: CheckOutcome)
    ensures
        r == if good_answer(bytes@) {
            CheckOutcome::Passed
        } else {
            CheckOutcome::Failed
        },
{
    if bytes.len() < 12 {
        return CheckOutcome::Failed;
    }
    let head = slice_subrange(bytes, 0, 12);
    proof {
        assert(head@ =~= bytes@.take(12));
    }
    if crate::octets::bytes_eq(head, "HTTP/1.1 200".as_bytes()) {
        CheckOutcome::Passed
    } else {
        CheckOutcome::Failed
    }
}

/// The upstream after a health check: one that passed is healthy and its failures are
/// forgotten; one that did not is not healthy.
pub open spec fn checked(u: UpstreamState, outcome: CheckOutcome) -> UpstreamState {
    match outcome {
        CheckOutcome::Disabled => u,
        CheckOutcome::Passed => UpstreamState { active_healthy: true, passive_failures: 0, ..u },
        _ => UpstreamState { active_healthy: false, ..u },
    }
}

/// Notes what came of a health check.
pub fn record_check(table: &mut RouteTable, at: UpstreamRef, outcome: CheckOutcome)
    requires
        old(table).wf(),
        old(table).has(at),
    ensures
        final(table).wf(),
        replaced(*old(table), *final(table), at, checked(old(table).at(at), outcome)),
{
    let ghost before = *table;
    let ghost us = table.pools@[at.pool as int].upstreams@;
    match outcome {
        CheckOutcome::Disabled => {
            proof {
                assert(us.update(at.index as int, us[at.index as int]) =~= us);
            }
        },
        CheckOutcome::Passed => {
            table.set_active_healthy(at, true);
            table.mark_success(at);
            proof {
                let u = checked(before.at(at), outcome);
                assert(table.pools@[at.pool as int].upstreams@ =~= us.update(at.index as int, u));
            }
        },
        _ => {
            table.set_active_healthy(at, false);
        },
    }
}

/// The upstreams among the first `n` of a list that are to be checked.
pub open spec fn to_check(t: RouteTable, all: Seq<UpstreamRef>, n: int) -> Seq<UpstreamRef>
    decreases n,
{
    if n <= 0 {
        Seq::empty()
    } else if t.at(all[n - 1]).config.health_check.enabled {
        to_check(t, all, n - 1).push(all[n - 1])
    } else {
        to_check(t, all, n - 1)
    }
}

/// The upstreams that are to be checked, out of all that some route leads to.
pub fn checked_upstreams(table: &RouteTable) -> (v: Vec<UpstreamRef>)
    requires
        table.wf(),
    ensures
        ({
            let all = table.members(table.pools@.len() as int);
            v@ == to_check(*table, all, all.len() as int)
        }),
{
    let all = table.all_upstreams();
    let pools: usize = table.pools.len();
    proof {
        lemma_members_exist(*table, pools as int);
    }
    let mut v: Vec<UpstreamRef> = Vec::new();
    let mut i: usize = 0;
    while i < all.len()
        invariant
            i <= all.len(),
            forall|k: int| 0 <= k < all@.len() ==> table.has(#[trigger] all@[k]),
            v@ == to_check(*table, all@, i as int),
        decreases all.len() - i,
    {
        let at = all[i];
        proof {
            assert(table.has(all@[i as int]));
        }
        if table.upstream(at).config.health_check.enabled {
            v.push(at);
        }
        i = i + 1;
    }
    v
}

proof fn lemma_members_exist(t: RouteTable, n: int)
    requires
        0 <= n <= t.pools@.len() <= usize::MAX,
    ensures
        forall|k: int| 0 <= k < t.members(n).len() ==> t.has(#[trigger] t.members(n)[k]),
    decreases n,
{
    if n > 0 {
        lemma_members_exist(t, n - 1);
        let head = t.members(n - 1);
        let all = t.members(n);
        assert forall|k: int| 0 <= k < all.len() implies t.has(#[trigger] all[k]) by {
            if k < head.len() {
                assert(all[k] == head[k]);
                assert(t.has(head[k]));
            } else {
                let len = t.pools@[n - 1].upstreams@.len();
                assert(all[k] == crate::config::routes::refs((n - 1) as usize, len)[k - head.len()]);
                assert(0 <= k - head.len() < len);
            }
        }
    }
}

/// A failed check takes an upstream out of the rotation, and a passed one brings it back.
pub proof fn checks_decide_availability(u: UpstreamState, threshold: u32)
    ensures
        !checked(u, CheckOutcome::Failed).available(threshold),
        !checked(u, CheckOutcome::TimedOut).available(threshold),
        !checked(u, CheckOutcome::Unresolved).available(threshold),
        threshold > 0 ==> checked(u, CheckOutcome::Passed).available(threshold),
{
}

// ------------------------------------------------------------- in numbers and words

/// Listeners go on as they are just where none was added, taken away or moved, and none changed
/// its name, address, protocols, engine, TLS, sharing, loops, queue or interface.
pub proof fn changed_listeners_are_noticed(
    a: Seq<ListenerConfig>,
    b: Seq<ListenerConfig>,
    i: int,
)
    requires
        0 <= i < a.len(),
        i < b.len(),
    ensures
        a.len() != b.len() ==> !same_shape(a, b),
        same_shape(a, b) ==> {
            &&& a[i].name@ == b[i].name@
            &&& a[i].bind == b[i].bind
            &&& a[i].protocols@ == b[i].protocols@
            &&& a[i].http1_engine == b[i].http1_engine
            &&& a[i].tls == b[i].tls
            &&& a[i].reuse_port == b[i].reuse_port
            &&& a[i].accept_workers == b[i].accept_workers
            &&& a[i].backlog == b[i].backlog
            &&& opt_text(a[i].interface) == opt_text(b[i].interface)
        },
        same_shape(a, a),
{
    if same_shape(a, b) {
        assert(same_listener(a[i], b[i]));
    }
}

/// A reload that goes well reads, tests, sets up, commits, restarts the listeners where they
/// changed, restarts the checks, and is done; one that fails before it commits is given up.
pub proof fn reloads_run_their_course(changed: bool, ok: bool)
    ensures
        stage_after(ReloadStage::Load, true, changed) == ReloadStage::Preflight,
        stage_after(ReloadStage::Preflight, true, changed) == ReloadStage::Apply,
        stage_after(ReloadStage::Apply, true, changed) == ReloadStage::Commit,
        stage_after(ReloadStage::Commit, ok, true) == ReloadStage::RestartListeners,
        stage_after(ReloadStage::Commit, ok, false) == ReloadStage::RestartHealth,
        stage_after(ReloadStage::RestartListeners, ok, changed) == ReloadStage::RestartHealth,
        stage_after(ReloadStage::RestartHealth, ok, changed) == ReloadStage::Done,
        stage_after(ReloadStage::Load, false, changed) == ReloadStage::Failed,
        stage_after(ReloadStage::Preflight, false, changed) == ReloadStage::Failed,
        stage_after(ReloadStage::Apply, false, changed) == ReloadStage::Failed,
        stage_after(ReloadStage::Failed, ok, changed) == ReloadStage::Failed,
{
}

/// A shutdown stops taking connections before it waits for those that are open, waits before it
/// takes the services out, and answers last, where it is asked to.
pub proof fn shutdowns_drain_first(drain: Duration)
    ensures
        shutdown_order(drain, false) == seq![
            ShutdownStep::Announce,
            ShutdownStep::StopListeners,
            ShutdownStep::WaitForDrain(drain),
            ShutdownStep::StopHealthChecks,
            ShutdownStep::RemoveL4Services,
        ],
        shutdown_order(drain, true) == shutdown_order(drain, false).push(ShutdownStep::Answer),
{
}

/// A reload and a drain are carried out on request, an interrupt drains too, and only a drain
/// that was asked for is answered.
pub proof fn events_are_heeded(event: ControlEvent, r: ControlAction)
    requires
        call_ensures(on_event, (event,), r),
    ensures
        event == ControlEvent::Reload ==> r == ControlAction::Reload,
        event == ControlEvent::Drain ==> r == (ControlAction::ShutDown { answer: true }),
        event == ControlEvent::Interrupted ==> r == (ControlAction::ShutDown { answer: false }),
        event == ControlEvent::CommandsClosed ==> r == ControlAction::End,
        event == ControlEvent::SignalFailed ==> r == ControlAction::Fail,
{
}

/// A reload is answered `reloaded`, or with what went wrong.
pub proof fn reloads_are_answered(error: Option<String>, r: Result<String, String>)
    requires
        call_ensures(reload_reply, (error,), r),
    ensures
        error is None ==> (r matches Ok(m) && m@ == "reloaded"@),
        error matches Some(e) ==> (r matches Err(m) && m == e),
{
}

/// A check asks for its path at the upstream, on a connection of its own.
pub proof fn checks_ask_for_their_path(path: Seq<char>, authority: Seq<char>)
    ensures
        check_request(path, authority) == encode_utf8("GET "@) + encode_utf8(path) + encode_utf8(
            " HTTP/1.1"@,
        ) + seq![13u8, 10u8] + encode_utf8("Host: "@) + encode_utf8(authority) + seq![13u8, 10u8]
            + encode_utf8("Connection: close"@) + seq![13u8, 10u8] + seq![13u8, 10u8],
{
    reveal_strlit(" HTTP/1.1\r\nHost: ");
    reveal_strlit(" HTTP/1.1");
    reveal_strlit("Host: ");
    reveal_strlit("\r\nConnection: close\r\n\r\n");
    reveal_strlit("Connection: close");
    is_ascii_chars_encode_utf8(" HTTP/1.1\r\nHost: "@);
    is_ascii_chars_encode_utf8(" HTTP/1.1"@);
    is_ascii_chars_encode_utf8("Host: "@);
    is_ascii_chars_encode_utf8("\r\nConnection: close\r\n\r\n"@);
    is_ascii_chars_encode_utf8("Connection: close"@);
    let crlf = seq![13u8, 10u8];
    assert(encode_utf8(" HTTP/1.1\r\nHost: "@) =~= encode_utf8(" HTTP/1.1"@) + crlf + encode_utf8(
        "Host: "@,
    ));
    assert(encode_utf8("\r\nConnection: close\r\n\r\n"@) =~= crlf + encode_utf8(
        "Connection: close"@,
    ) + crlf + crlf);
    assert(check_request(path, authority) =~= encode_utf8("GET "@) + encode_utf8(path)
        + encode_utf8(" HTTP/1.1"@) + crlf + encode_utf8("Host: "@) + encode_utf8(authority) + crlf
        + encode_utf8("Connection: close"@) + crlf + crlf);
}

/// An answer passes just where it begins with `HTTP/1.1 200`.
pub proof fn only_200_passes(rest: Seq<u8>, bytes: Seq<u8>)
    ensures
        good_answer(
            seq![72u8, 84u8, 84u8, 80u8, 47u8, 49u8, 46u8, 49u8, 32u8, 50u8, 48u8, 48u8] + rest,
        ),
        bytes.len() < 12 ==> !good_answer(bytes),
        bytes.len() >= 12 && bytes.take(12) != seq![
            72u8,
            84u8,
            84u8,
            80u8,
            47u8,
            49u8,
            46u8,
            49u8,
            32u8,
            50u8,
            48u8,
            48u8,
        ] ==> !good_answer(bytes),
{
    reveal_strlit("HTTP/1.1 200");
    is_ascii_chars_encode_utf8("HTTP/1.1 200"@);
    let good = seq![72u8, 84u8, 84u8, 80u8, 47u8, 49u8, 46u8, 49u8, 32u8, 50u8, 48u8, 48u8];
    assert(encode_utf8("HTTP/1.1 200"@) =~= good);
    assert((good + rest).take(12) =~= good);
}

/// A passed check forgets the failures of its upstream; any other leaves them as they are, and
/// a check that is switched off says nothing.
pub proof fn checks_note_health(u: UpstreamState)
    ensures
        checked(u, CheckOutcome::Passed).active_healthy,
        checked(u, CheckOutcome::Passed).passive_failures == 0,
        !checked(u, CheckOutcome::Failed).active_healthy,
        !checked(u, CheckOutcome::TimedOut).active_healthy,
        !checked(u, CheckOutcome::Unresolved).active_healthy,
        checked(u, CheckOutcome::Failed).passive_failures == u.passive_failures,
        checked(u, CheckOutcome::TimedOut).passive_failures == u.passive_failures,
        checked(u, CheckOutcome::Unresolved).passive_failures == u.passive_failures,
        checked(u, CheckOutcome::Disabled) == u,
{
}

/// Every upstream of the list whose check is switched on is checked, and no other.
pub proof fn enabled_checks_are_made(t: RouteTable, all: Seq<UpstreamRef>, n: int, at: UpstreamRef)
    requires
        0 <= n <= all.len(),
    ensures
        to_check(t, all, n).contains(at) <==> exists|i: int|
            0 <= i < n && (#[trigger] all[i]) == at && t.at(at).config.health_check.enabled,
    decreases n,
{
    if n > 0 {
        enabled_checks_are_made(t, all, n - 1, at);
        let before = to_check(t, all, n - 1);
        let list = to_check(t, all, n);
        if before.contains(at) {
            let k = choose|k: int| 0 <= k < before.len() && before[k] == at;
            assert(list[k] == at);
            let i = choose|i: int|
                0 <= i < n - 1 && (#[trigger] all[i]) == at
                    && t.at(at).config.health_check.enabled;
            assert(all[i] == at);
        }
        if all[n - 1] == at && t.at(at).config.health_check.enabled {
            assert(list[before.len() as int] == at);
        }
        if list.contains(at) {
            let k = choose|k: int| 0 <= k < list.len() && list[k] == at;
            if k < before.len() {
                assert(before[k] == at);
            } else {
                assert(all[n - 1] == at);
            }
        }
    }
}

/// A check that passes makes its upstream healthy and clears its failures, one that does not
/// makes it unhealthy, and one that is switched off does nothing. No other upstream is touched.
pub proof fn checks_are_recorded(
    table: &mut RouteTable,
    at: UpstreamRef,
    outcome: CheckOutcome,
    other: UpstreamRef,
)
    requires
        old(table).wf(),
        old(table).has(at),
        old(table).has(other),
        other != at,
        call_ensures(record_check, (table, at, outcome), ()),
    ensures
        outcome == CheckOutcome::Passed ==> final(table).at(at).active_healthy && final(table).at(
            at,
        ).passive_failures == 0,
        outcome == CheckOutcome::Failed || outcome == CheckOutcome::TimedOut || outcome
            == CheckOutcome::Unresolved ==> !final(table).at(at).active_healthy && final(table).at(
            at,
        ).passive_failures == old(table).at(at).passive_failures,
        outcome == CheckOutcome::Disabled ==> final(table).at(at) == old(table).at(at),
        final(table).at(other) == old(table).at(other),
        final(table).at(at).config == old(table).at(at).config,
{
    checks_note_health(old(table).at(at));
}

/// An answer passes just where it begins with `HTTP/1.1 200`.
pub proof fn answers_are_judged_by_their_status(bytes: &[u8], r: CheckOutcome)
    requires
        call_ensures(health_verdict, (bytes,), r),
    ensures
        r == CheckOutcome::Passed || r == CheckOutcome::Failed,
        r == CheckOutcome::Passed <==> bytes@.len() >= 12 && bytes@.take(12) == seq![
            72u8,
            84u8,
            84u8,
            80u8,
            47u8,
            49u8,
            46u8,
            49u8,
            32u8,
            50u8,
            48u8,
            48u8,
        ],
{
    only_200_passes(bytes@.skip(12), bytes@);
    if bytes@.len() >= 12 {
        assert(bytes@ =~= bytes@.take(12) + bytes@.skip(12));
    }
}

/// A check asks for its path on a connection of its own.
pub proof fn check_requests_are_whole(path: &str, authority: &str, r: Vec<u8>)
    requires
        call_ensures(health_request, (path, authority), r),
    ensures
        r@ == encode_utf8("GET "@) + encode_utf8(path@) + encode_utf8(" HTTP/1.1"@) + seq![
            13u8,
            10u8,
        ] + encode_utf8("Host: "@) + encode_utf8(authority@) + seq![13u8, 10u8] + encode_utf8(
            "Connection: close"@,
        ) + seq![13u8, 10u8] + seq![13u8, 10u8],
{
    checks_ask_for_their_path(path@, authority@);
}

/// A shutdown waits for as long as is configured, before its checks and services end.
pub proof fn shutdowns_wait_as_configured(
    runtime: RuntimeConfig,
    answer: bool,
    v: Vec<ShutdownStep>,
)
    requires
        call_ensures(shutdown_steps, (&runtime, answer), v),
    ensures
        v@.len() == if answer {
            6nat
        } else {
            5nat
        },
        v@[0] == ShutdownStep::Announce,
        v@[1] == ShutdownStep::StopListeners,
        v@[2] matches ShutdownStep::WaitForDrain(d) && d.nanos == runtime.drain_timeout_ms
            * 1_000_000,
        v@[3] == ShutdownStep::StopHealthChecks,
        v@[4] == ShutdownStep::RemoveL4Services,
        answer ==> v@[5] == ShutdownStep::Answer,
{
    shutdowns_drain_first(Duration { nanos: (runtime.drain_timeout_ms * 1_000_000) as u128 });
}

/// A reload goes on stage by stage, and a stage that fails ends it before anything is committed.
pub proof fn stages_follow_each_other(stage: ReloadStage, ok: bool, changed: bool, r: ReloadStage)
    requires
        call_ensures(next_stage, (stage, ok, changed), r),
    ensures
        stage == ReloadStage::Load ==> r == if ok {
            ReloadStage::Preflight
        } else {
            ReloadStage::Failed
        },
        stage == ReloadStage::Preflight ==> r == if ok {
            ReloadStage::Apply
        } else {
            ReloadStage::Failed
        },
        stage == ReloadStage::Apply ==> r == if ok {
            ReloadStage::Commit
        } else {
            ReloadStage::Failed
        },
        stage == ReloadStage::Commit ==> r == if changed {
            ReloadStage::RestartListeners
        } else {
            ReloadStage::RestartHealth
        },
        stage == ReloadStage::RestartListeners ==> r == ReloadStage::RestartHealth,
        stage == ReloadStage::RestartHealth ==> r == ReloadStage::Done,
{
    reloads_run_their_course(changed, ok);
}

/// Listeners stay as they are just where nothing of any of them has changed.
pub proof fn listeners_are_compared(
    a: &Vec<ListenerConfig>,
    b: &Vec<ListenerConfig>,
    r: bool,
)
    requires
        call_ensures(same_listener_shape, (a, b), r),
    ensures
        r <==> a@.len() == b@.len() && forall|i: int|
            0 <= i < a@.len() ==> (#[trigger] a@[i]).name@ == b@[i].name@ && a@[i].bind
                == b@[i].bind && a@[i].protocols@ == b@[i].protocols@ && a@[i].http1_engine
                == b@[i].http1_engine && a@[i].tls == b@[i].tls && a@[i].reuse_port
                == b@[i].reuse_port && a@[i].accept_workers == b@[i].accept_workers
                && a@[i].backlog == b@[i].backlog && opt_text(a@[i].interface) == opt_text(
                b@[i].interface,
            ),
{
    assert forall|i: int| 0 <= i < a@.len() && r implies (#[trigger] a@[i]).name@ == b@[i].name@
        && a@[i].bind == b@[i].bind && a@[i].protocols@ == b@[i].protocols@ && a@[i].http1_engine
        == b@[i].http1_engine && a@[i].tls == b@[i].tls && a@[i].reuse_port == b@[i].reuse_port
        && a@[i].accept_workers == b@[i].accept_workers && a@[i].backlog == b@[i].backlog
        && opt_text(a@[i].interface) == opt_text(b@[i].interface) by {
        changed_listeners_are_noticed(a@, b@, i);
    }
}

} // verus!
