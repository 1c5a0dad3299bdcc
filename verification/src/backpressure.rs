use vstd::prelude::*;

use crate::errors::TransportError;
use crate::text::{eq_ignore_ascii_case_seq, str_eq_ignore_ascii_case};
use crate::transport::gap_ms;

verus! {

/// The rule applied when the bounded queue is full at enqueue time.
#[derive(Clone, Copy, Debug, PartialEq, Eq, Structural)]
pub enum BackpressurePolicy {
    /// Evict the head, then enqueue the new message; always succeeds.
    DropOldest,
    /// Discard the incoming message silently; counted, not an error.
    DropNewest,
    /// Wait for space until a configured timeout, then fail with `Timeout`.
    Block,
    /// Fail immediately with `CapacityExceeded`.
    Error,
}

/// The policy named by a character sequence, compared without regard to ASCII
/// case; `None` for an unrecognized name.
pub open spec fn policy_of_name(s: Seq<char>) -> Option<BackpressurePolicy> {
    if eq_ignore_ascii_case_seq(s, "dropoldest"@) {
        Some(BackpressurePolicy::DropOldest)
    } else if eq_ignore_ascii_case_seq(s, "dropnewest"@) {
        Some(BackpressurePolicy::DropNewest)
    } else if eq_ignore_ascii_case_seq(s, "block"@) {
        Some(BackpressurePolicy::Block)
    } else if eq_ignore_ascii_case_seq(s, "error"@) {
        Some(BackpressurePolicy::Error)
    } else {
        None
    }
}

impl BackpressurePolicy {
    /// Resolves a policy name, in any ASCII capitalization; an absent name
    /// means `Error`. Fails with `InvalidArgument` on an unrecognized name.
    pub fn parse(value: Option<&str>) -> (r: Result<BackpressurePolicy, TransportError>)
        ensures
            value is None ==> r == Ok::<BackpressurePolicy, TransportError>(
                BackpressurePolicy::Error,
            ),
            value matches Some(s) ==> r == (match policy_of_name(s@) {
                Some(p) => Ok::<BackpressurePolicy, TransportError>(p),
                None => Err::<BackpressurePolicy, TransportError>(TransportError::InvalidArgument),
            }),
    {
        let s = match value {
            Some(s) => s,
            None => {
                return Ok(BackpressurePolicy::Error);
            },
        };
        if str_eq_ignore_ascii_case(s, "dropoldest") {
            Ok(BackpressurePolicy::DropOldest)
        } else if str_eq_ignore_ascii_case(s, "dropnewest") {
            Ok(BackpressurePolicy::DropNewest)
        } else if str_eq_ignore_ascii_case(s, "block") {
            Ok(BackpressurePolicy::Block)
        } else if str_eq_ignore_ascii_case(s, "error") {
            Ok(BackpressurePolicy::Error)
        } else {
            Err(TransportError::InvalidArgument)
        }
    }
}

/// A state-transition notification, recorded at the point of transition for
/// the embedder to hand to its registered listeners.
#[derive(Clone, Copy, Debug, PartialEq, Eq, Structural)]
pub enum RttEvent {
    SessionOpen,
    SessionClose,
    HeartbeatTimeout,
}

/// Counters kept for observability. They are read-only snapshots and never
/// affect control flow; each saturates at the integer bound.
#[derive(Clone, Copy, Debug, PartialEq, Eq, Structural)]
pub struct RttStats {
    /// Sends attempted while connected.
    pub attempted: usize,
    /// Messages that entered the queue.
    pub enqueued: usize,
    /// Head messages evicted under `DropOldest`.
    pub dropped_oldest: usize,
    /// Incoming messages discarded under `DropNewest`.
    pub dropped_newest: usize,
    /// Sends that hit a full queue under `Block`.
    pub blocked: usize,
    /// Sends that ended in an error.
    pub errors: usize,
    /// Sends that found the queue full.
    pub overflow_events: usize,
    /// High-water mark of the queue length.
    pub max_queue_len: usize,
}

/// All counters at zero.
pub open spec fn stats_zero() -> RttStats {
    RttStats {
        attempted: 0,
        enqueued: 0,
        dropped_oldest: 0,
        dropped_newest: 0,
        blocked: 0,
        errors: 0,
        overflow_events: 0,
        max_queue_len: 0,
    }
}

/// A counter increment, saturating at the integer bound.
pub open spec fn bump(x: usize) -> usize {
    if x == usize::MAX {
        x
    } else {
        (x + 1) as usize
    }
}

/// The larger of two lengths.
pub open spec fn max_usize(a: usize, b: usize) -> usize {
    if a >= b {
        a
    } else {
        b
    }
}

/// The mathematical image of the engine.
pub struct RttModel {
    pub connected: bool,
    pub queue: Seq<Seq<char>>,
    pub max_queue: usize,
    pub policy: BackpressurePolicy,
    pub block_timeout_ms: u64,
    pub session_id: u64,
    pub heartbeat_timeout_ms: u64,
    pub last_heartbeat_at: u64,
    pub events: Seq<RttEvent>,
    pub stats: RttStats,
}

impl RttModel {
    /// The engine invariant: capacity at least one, queue within capacity.
    pub open spec fn wf(self) -> bool {
        &&& self.max_queue >= 1
        &&& self.queue.len() <= self.max_queue
    }
}

/// The queue after a send, by policy. Only a connected engine with room, or
/// one evicting under `DropOldest`, changes it.
pub open spec fn send_queue(b: RttModel, m: Seq<char>) -> Seq<Seq<char>> {
    if !b.connected {
        b.queue
    } else if b.queue.len() < b.max_queue {
        b.queue.push(m)
    } else {
        match b.policy {
            BackpressurePolicy::DropOldest => b.queue.drop_first().push(m),
            BackpressurePolicy::DropNewest => b.queue,
            BackpressurePolicy::Block => b.queue,
            BackpressurePolicy::Error => b.queue,
        }
    }
}

/// The outcome of a send, by policy. Under `Block`, a caller holding the
/// engine exclusively can never see space free up, so a full queue ends in
/// `Timeout` once the wait budget is spent.
pub open spec fn send_result(b: RttModel, m: Seq<char>) -> Result<(), TransportError> {
    if !b.connected {
        Err(TransportError::Disconnected)
    } else if b.queue.len() < b.max_queue {
        Ok(())
    } else {
        match b.policy {
            BackpressurePolicy::DropOldest => Ok(()),
            BackpressurePolicy::DropNewest => Ok(()),
            BackpressurePolicy::Block => Err(TransportError::Timeout),
            BackpressurePolicy::Error => Err(TransportError::CapacityExceeded),
        }
    }
}

/// The counters after a send.
pub open spec fn send_stats(b: RttModel, m: Seq<char>) -> RttStats {
    if !b.connected {
        RttStats { errors: bump(b.stats.errors), ..b.stats }
    } else {
        let s1 = RttStats { attempted: bump(b.stats.attempted), ..b.stats };
        if b.queue.len() < b.max_queue {
            RttStats {
                enqueued: bump(s1.enqueued),
                max_queue_len: max_usize(s1.max_queue_len, (b.queue.len() + 1) as usize),
                ..s1
            }
        } else {
            let s2 = RttStats { overflow_events: bump(s1.overflow_events), ..s1 };
            match b.policy {
                BackpressurePolicy::DropOldest => RttStats {
                    enqueued: bump(s2.enqueued),
                    dropped_oldest: bump(s2.dropped_oldest),
                    max_queue_len: max_usize(s2.max_queue_len, b.queue.len() as usize),
                    ..s2
                },
                BackpressurePolicy::DropNewest => RttStats {
                    dropped_newest: bump(s2.dropped_newest),
                    ..s2
                },
                BackpressurePolicy::Block => RttStats {
                    blocked: bump(s2.blocked),
                    errors: bump(s2.errors),
                    ..s2
                },
                BackpressurePolicy::Error => RttStats { errors: bump(s2.errors), ..s2 },
            }
        }
    }
}

/// The whole engine after a send.
pub open spec fn send_model(b: RttModel, m: Seq<char>) -> RttModel {
    RttModel { queue: send_queue(b, m), stats: send_stats(b, m), ..b }
}

/// The engine after a receive: the head leaves the queue; a disconnected
/// engine or an empty queue changes nothing.
pub open spec fn receive_model(b: RttModel) -> RttModel {
    if !b.connected || b.queue.len() == 0 {
        b
    } else {
        RttModel { queue: b.queue.drop_first(), ..b }
    }
}

/// What a receive returns: the oldest message, or `None` when disconnected or
/// empty — never an error.
pub open spec fn receive_result(b: RttModel) -> Option<Seq<char>> {
    if !b.connected || b.queue.len() == 0 {
        None
    } else {
        Some(b.queue[0])
    }
}

/// The engine after a connect: refreshes the heartbeat and records a
/// session-open notification; connecting a connected engine is a no-op.
pub open spec fn connect_model(b: RttModel, now: u64) -> RttModel {
    if b.connected {
        b
    } else {
        RttModel {
            connected: true,
            last_heartbeat_at: now,
            events: b.events.push(RttEvent::SessionOpen),
            ..b
        }
    }
}

/// The engine after a disconnect: records a session-close notification;
/// disconnecting a disconnected engine is a no-op.
pub open spec fn disconnect_model(b: RttModel) -> RttModel {
    if !b.connected {
        b
    } else {
        RttModel { connected: false, events: b.events.push(RttEvent::SessionClose), ..b }
    }
}

/// The heartbeat gap at `now` has reached the engine's timeout.
pub open spec fn heartbeat_stale(b: RttModel, now: u64) -> bool {
    gap_ms(now, b.last_heartbeat_at) >= b.heartbeat_timeout_ms
}

/// The engine after a staleness check: a connected engine whose heartbeat gap
/// reached the timeout disconnects, recording a heartbeat-timeout and a
/// session-close notification.
pub open spec fn check_heartbeat_model(b: RttModel, now: u64) -> RttModel {
    if b.connected && heartbeat_stale(b, now) {
        RttModel {
            connected: false,
            events: b.events.push(RttEvent::HeartbeatTimeout).push(RttEvent::SessionClose),
            ..b
        }
    } else {
        b
    }
}

/// A standalone point-to-point link: one bounded FIFO queue of string
/// messages under a configurable overflow policy, with an explicit
/// connected/disconnected state, a heartbeat clock, and observability
/// counters.
///
/// State transitions record notifications instead of invoking callbacks; the
/// embedder drains them with `take_events` and calls its listeners, so no
/// listener ever re-enters the engine. Clock readings come in as plain
/// millisecond arguments.
pub struct Web4RttBinding {
    connected: bool,
    queue: Vec<String>,
    max_queue: usize,
    policy: BackpressurePolicy,
    block_timeout_ms: u64,
    session_id: u64,
    heartbeat_timeout_ms: u64,
    last_heartbeat_at: u64,
    events: Vec<RttEvent>,
    stats: RttStats,
}

impl View for Web4RttBinding {
    type V = RttModel;

    closed spec fn view(&self) -> RttModel {
        RttModel {
            connected: self.connected,
            queue: self.queue.deep_view(),
            max_queue: self.max_queue,
            policy: self.policy,
            block_timeout_ms: self.block_timeout_ms,
            session_id: self.session_id,
            heartbeat_timeout_ms: self.heartbeat_timeout_ms,
            last_heartbeat_at: self.last_heartbeat_at,
            events: self.events@,
            stats: self.stats,
        }
    }
}

impl Web4RttBinding {
    /// A fresh engine: connected, empty queue, zeroed counters. A capacity of
    /// zero is raised to one. Fails with `InvalidArgument` on an unrecognized
    /// policy name; an absent name means `Error`.
    pub fn new(
        max_queue: usize,
        backpressure_policy: Option<&str>,
        block_timeout_ms: u64,
        session_id: u64,
        heartbeat_timeout_ms: u64,
        now_ms: u64,
    ) -> (r: Result<Web4RttBinding, TransportError>)
        ensures
            (match backpressure_policy {
                Some(s) => policy_of_name(s@),
                None => Some(BackpressurePolicy::Error),
            }) matches Some(p) ==> (r matches Ok(b) && b@ == (RttModel {
                connected: true,
                queue: Seq::<Seq<char>>::empty(),
                max_queue: if max_queue == 0 {
                    1
                } else {
                    max_queue
                },
                policy: p,
                block_timeout_ms: block_timeout_ms,
                session_id: session_id,
                heartbeat_timeout_ms: heartbeat_timeout_ms,
                last_heartbeat_at: now_ms,
                events: Seq::<RttEvent>::empty(),
                stats: stats_zero(),
            }) && b@.wf()),
            (match backpressure_policy {
                Some(s) => policy_of_name(s@),
                None => Some(BackpressurePolicy::Error),
            }) is None ==> r == Err::<Web4RttBinding, TransportError>(
                TransportError::InvalidArgument,
            ),
    {
        let policy = match BackpressurePolicy::parse(backpressure_policy) {
            Ok(p) => p,
            Err(e) => {
                return Err(e);
            },
        };
        let b = Web4RttBinding {
            connected: true,
            queue: Vec::new(),
            max_queue: if max_queue == 0 {
                1
            } else {
                max_queue
            },
            policy,
            block_timeout_ms,
            session_id,
            heartbeat_timeout_ms,
            last_heartbeat_at: now_ms,
            events: Vec::new(),
            stats: RttStats {
                attempted: 0,
                enqueued: 0,
                dropped_oldest: 0,
                dropped_newest: 0,
                blocked: 0,
                errors: 0,
                overflow_events: 0,
                max_queue_len: 0,
            },
        };
        proof {
            assert(b@.queue =~= Seq::<Seq<char>>::empty());
            assert(b@.events =~= Seq::<RttEvent>::empty());
        }
        Ok(b)
    }

    /// Raises the queue-length high-water mark to the current length.
    fn update_max_queue_len(&mut self)
        ensures
            final(self)@ == (RttModel {
                stats: (RttStats {
                    max_queue_len: max_usize(
                        old(self)@.stats.max_queue_len,
                        old(self)@.queue.len() as usize,
                    ),
                    ..old(self)@.stats
                }),
                ..old(self)@
            }),
    {
        if self.queue.len() > self.stats.max_queue_len {
            self.stats.max_queue_len = self.queue.len();
        }
    }

    /// Admits a message under the configured policy.
    ///
    /// Fails with `Disconnected` while disconnected, `CapacityExceeded` on a
    /// full queue under `Error`, and `Timeout` on a full queue under `Block`:
    /// the caller holds the engine exclusively, so no space can free up during
    /// the call, and the wall-clock wait out to the deadline belongs to the
    /// embedder that runs the engine. The drop policies always succeed; what
    /// they discard is visible only in the counters.
    pub fn send(&mut self, message: String) -> (r: Result<(), TransportError>)
        requires
            old(self)@.wf(),
        ensures
            final(self)@.wf(),
            final(self)@ == send_model(old(self)@, message@),
            r == send_result(old(self)@, message@),
    {
        if !self.connected {
            self.stats.errors = self.stats.errors.saturating_add(1);
            return Err(TransportError::Disconnected);
        }
        self.stats.attempted = self.stats.attempted.saturating_add(1);
        if self.queue.len() >= self.max_queue {
            self.stats.overflow_events = self.stats.overflow_events.saturating_add(1);
            match self.policy {
                BackpressurePolicy::DropOldest => {
                    let ghost m_snap = message@;
                    self.queue.remove(0);
                    self.queue.push(message);
                    self.stats.enqueued = self.stats.enqueued.saturating_add(1);
                    self.stats.dropped_oldest = self.stats.dropped_oldest.saturating_add(1);
                    self.update_max_queue_len();
                    proof {
                        assert(self@.queue =~= old(self)@.queue.drop_first().push(m_snap));
                        assert(self@ == send_model(old(self)@, m_snap));
                    }
                    Ok(())
                },
                BackpressurePolicy::DropNewest => {
                    self.stats.dropped_newest = self.stats.dropped_newest.saturating_add(1);
                    Ok(())
                },
                BackpressurePolicy::Block => {
                    self.stats.blocked = self.stats.blocked.saturating_add(1);
                    self.stats.errors = self.stats.errors.saturating_add(1);
                    Err(TransportError::Timeout)
                },
                BackpressurePolicy::Error => {
                    self.stats.errors = self.stats.errors.saturating_add(1);
                    Err(TransportError::CapacityExceeded)
                },
            }
        } else {
            let ghost m_snap = message@;
            self.queue.push(message);
            self.stats.enqueued = self.stats.enqueued.saturating_add(1);
            self.update_max_queue_len();
            proof {
                assert(self@.queue =~= old(self)@.queue.push(m_snap));
                assert(self@ == send_model(old(self)@, m_snap));
            }
            Ok(())
        }
    }

    /// Removes and returns the oldest message; `None` while disconnected or
    /// when the queue is empty — never an error.
    pub fn receive(&mut self) -> (r: Option<String>)
        ensures
            final(self)@ == receive_model(old(self)@),
            r is Some <==> receive_result(old(self)@) is Some,
            r matches Some(s) ==> s@ == receive_result(old(self)@)->0,
    {
        if !self.connected {
            return None;
        }
        if self.queue.len() == 0 {
            return None;
        }
        let s = self.queue.remove(0);
        proof {
            assert(s.deep_view() == old(self)@.queue[0]);
            assert(s@ =~= s.deep_view());
            assert(self@.queue =~= old(self)@.queue.drop_first());
        }
        Some(s)
    }

    /// Whether the engine is connected.
    pub fn is_connected(&self) -> (r: bool)
        ensures
            r == self@.connected,
    {
        self.connected
    }

    /// The number of messages waiting in the queue.
    pub fn pending(&self) -> (r: usize)
        ensures
            r == self@.queue.len(),
    {
        self.queue.len()
    }

    /// Reconnects a disconnected engine: refreshes the heartbeat and records a
    /// session-open notification. Connecting a connected engine is a no-op.
    pub fn connect(&mut self, now_ms: u64)
        ensures
            final(self)@ == connect_model(old(self)@, now_ms),
    {
        if self.connected {
            return ;
        }
        self.connected = true;
        self.last_heartbeat_at = now_ms;
        self.events.push(RttEvent::SessionOpen);
        proof {
            assert(self@.events =~= old(self)@.events.push(RttEvent::SessionOpen));
        }
    }

    /// Disconnects the engine and records a session-close notification; the
    /// reason is the embedder's to hand to its listeners. Disconnecting a
    /// disconnected engine is a no-op.
    pub fn disconnect(&mut self, reason: Option<&str>)
        ensures
            final(self)@ == disconnect_model(old(self)@),
    {
        let _ = reason;
        if !self.connected {
            return ;
        }
        self.connected = false;
        self.events.push(RttEvent::SessionClose);
        proof {
            assert(self@.events =~= old(self)@.events.push(RttEvent::SessionClose));
        }
    }

    /// Refreshes the heartbeat clock.
    pub fn heartbeat(&mut self, now_ms: u64)
        ensures
            final(self)@ == (RttModel { last_heartbeat_at: now_ms, ..old(self)@ }),
    {
        self.last_heartbeat_at = now_ms;
    }

    /// Checks the heartbeat against the timeout: a connected engine whose gap
    /// at `now_ms` has reached `heartbeat_timeout_ms` disconnects, recording a
    /// heartbeat-timeout and a session-close notification, and the check
    /// reports `true`.
    pub fn check_heartbeat_timeout(&mut self, now_ms: u64) -> (r: bool)
        ensures
            final(self)@ == check_heartbeat_model(old(self)@, now_ms),
            r == (old(self)@.connected && heartbeat_stale(old(self)@, now_ms)),
    {
        if !self.connected {
            return false;
        }
        if now_ms.saturating_sub(self.last_heartbeat_at) < self.heartbeat_timeout_ms {
            return false;
        }
        self.connected = false;
        self.events.push(RttEvent::HeartbeatTimeout);
        self.events.push(RttEvent::SessionClose);
        proof {
            assert(self@.events =~= old(self)@.events.push(RttEvent::HeartbeatTimeout).push(
                RttEvent::SessionClose,
            ));
        }
        true
    }

    /// Hands the recorded notifications to the embedder, in the order the
    /// transitions fired, and clears the record.
    pub fn take_events(&mut self) -> (r: Vec<RttEvent>)
        ensures
            final(self)@ == (RttModel { events: Seq::<RttEvent>::empty(), ..old(self)@ }),
            r@ == old(self)@.events,
    {
        let out = self.events.split_off(0);
        proof {
            assert(self@.events =~= Seq::<RttEvent>::empty());
            assert(out@ =~= old(self)@.events);
        }
        out
    }

    /// A snapshot of the counters.
    pub fn stats(&self) -> (r: RttStats)
        ensures
            r == self@.stats,
    {
        self.stats
    }
}

/// The engine after a whole sequence of sends, in order.
pub open spec fn send_all(b: RttModel, msgs: Seq<Seq<char>>) -> RttModel
    decreases msgs.len(),
{
    if msgs.len() == 0 {
        b
    } else {
        send_model(send_all(b, msgs.drop_last()), msgs.last())
    }
}

/// Sends into a connected engine with room for all of them just append, in
/// order, and drop nothing.
pub proof fn lemma_send_all_no_overflow(b: RttModel, msgs: Seq<Seq<char>>)
    requires
        b.wf(),
        b.connected,
        b.queue.len() + msgs.len() <= b.max_queue,
    ensures
        send_all(b, msgs).queue == b.queue + msgs,
        send_all(b, msgs).connected == b.connected,
        send_all(b, msgs).max_queue == b.max_queue,
        send_all(b, msgs).policy == b.policy,
        send_all(b, msgs).stats.dropped_oldest == b.stats.dropped_oldest,
        send_all(b, msgs).stats.dropped_newest == b.stats.dropped_newest,
        send_all(b, msgs).wf(),
    decreases msgs.len(),
{
    if msgs.len() == 0 {
        assert(b.queue + msgs =~= b.queue);
    } else {
        let d = msgs.drop_last();
        lemma_send_all_no_overflow(b, d);
        let mid = send_all(b, d);
        assert(mid.queue.len() < mid.max_queue);
        assert(send_all(b, msgs).queue =~= b.queue + msgs);
    }
}

/// Law: under `DropOldest` with capacity N, sending N + 1 messages into an
/// empty, connected engine keeps exactly the last N, in order, and counts
/// exactly one dropped-oldest eviction. Draining then returns those N in that
/// order, by the receive contract.
pub proof fn lemma_drop_oldest_keeps_last(b: RttModel, msgs: Seq<Seq<char>>)
    requires
        b.wf(),
        b.connected,
        b.policy == BackpressurePolicy::DropOldest,
        b.queue.len() == 0,
        msgs.len() == b.max_queue + 1,
        b.stats.dropped_oldest < usize::MAX,
    ensures
        send_all(b, msgs).queue == msgs.drop_first(),
        send_all(b, msgs).stats.dropped_oldest == b.stats.dropped_oldest + 1,
{
    let d = msgs.drop_last();
    lemma_send_all_no_overflow(b, d);
    let mid = send_all(b, d);
    assert(mid.queue =~= d);
    assert(mid.queue.len() == mid.max_queue);
    assert(send_all(b, msgs).queue =~= msgs.drop_first());
}

/// Law: under `DropNewest` with capacity one, sending two messages into an
/// empty, connected engine leaves exactly the first receivable and counts
/// exactly one dropped-newest discard.
pub proof fn lemma_drop_newest_keeps_first(b: RttModel, m1: Seq<char>, m2: Seq<char>)
    requires
        b.wf(),
        b.connected,
        b.policy == BackpressurePolicy::DropNewest,
        b.queue.len() == 0,
        b.max_queue == 1,
        b.stats.dropped_newest < usize::MAX,
    ensures
        send_model(send_model(b, m1), m2).queue == seq![m1],
        send_model(send_model(b, m1), m2).stats.dropped_newest == b.stats.dropped_newest + 1,
        receive_result(send_model(send_model(b, m1), m2)) == Some(m1),
{
    let b1 = send_model(b, m1);
    assert(b1.queue =~= seq![m1]);
    let b2 = send_model(b1, m2);
    assert(b2.queue =~= seq![m1]);
}

/// Law: under `Block` with a full queue, a send on a connected engine fails
/// with `Timeout`, leaves the queue unchanged, and counts exactly one blocked
/// attempt. The configured wait out to the deadline is wall-clock time spent
/// by the embedder; no other outcome is possible while the caller holds the
/// engine exclusively.
pub proof fn lemma_block_full_times_out(b: RttModel, m: Seq<char>)
    requires
        b.wf(),
        b.connected,
        b.policy == BackpressurePolicy::Block,
        b.queue.len() == b.max_queue,
        b.stats.blocked < usize::MAX,
    ensures
        send_result(b, m) == Err::<(), TransportError>(TransportError::Timeout),
        send_model(b, m).queue == b.queue,
        send_model(b, m).stats.blocked == b.stats.blocked + 1,
{
}

} // verus!
