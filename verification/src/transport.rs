use vstd::pervasive::VecAdditionalExecFns;
use vstd::prelude::*;

use crate::config::TransportConfig;
use crate::errors::TransportError;
use crate::text::str_eq;

verus! {

/// What a channel carries: one of the three stream families a runtime
/// multiplexes over the transport.
#[derive(Clone, Copy, Debug, PartialEq, Eq, Structural)]
pub enum ChannelKind {
    State,
    Knowledge,
    Control,
}

/// The channel kind named by a character sequence, if any.
pub open spec fn kind_of_name(s: Seq<char>) -> Option<ChannelKind> {
    if s == "state"@ {
        Some(ChannelKind::State)
    } else if s == "knowledge"@ {
        Some(ChannelKind::Knowledge)
    } else if s == "control"@ {
        Some(ChannelKind::Control)
    } else {
        None
    }
}

impl ChannelKind {
    /// The canonical name of this kind.
    pub open spec fn name_seq(self) -> Seq<char> {
        match self {
            ChannelKind::State => "state"@,
            ChannelKind::Knowledge => "knowledge"@,
            ChannelKind::Control => "control"@,
        }
    }

    /// Resolves a kind name; `None` for an unrecognized name.
    pub fn parse(kind: &str) -> (r: Option<ChannelKind>)
        ensures
            r == kind_of_name(kind@),
    {
        if str_eq(kind, "state") {
            Some(ChannelKind::State)
        } else if str_eq(kind, "knowledge") {
            Some(ChannelKind::Knowledge)
        } else if str_eq(kind, "control") {
            Some(ChannelKind::Control)
        } else {
            None
        }
    }

    /// The canonical name of this kind.
    pub fn as_str(&self) -> (r: &'static str)
        ensures
            r@ == self.name_seq(),
    {
        match self {
            ChannelKind::State => "state",
            ChannelKind::Knowledge => "knowledge",
            ChannelKind::Control => "control",
        }
    }
}

/// A peer-liveness record tracked via heartbeats. Timestamps are caller-supplied
/// clock readings in milliseconds.
pub struct SessionRecord {
    pub id: u64,
    pub peer_id: String,
    pub created_at: u64,
    pub last_heartbeat: u64,
}

/// The mathematical image of a session record.
pub struct SessionSnap {
    pub id: u64,
    pub peer_id: Seq<char>,
    pub created_at: u64,
    pub last_heartbeat: u64,
}

impl View for SessionRecord {
    type V = SessionSnap;

    open spec fn view(&self) -> SessionSnap {
        SessionSnap {
            id: self.id,
            peer_id: self.peer_id@,
            created_at: self.created_at,
            last_heartbeat: self.last_heartbeat,
        }
    }
}

/// A channel record: one FIFO message lane with its kind, optional owning
/// session, and traffic counters.
#[derive(Clone, Copy, Debug)]
pub struct ChannelRecord {
    pub id: u64,
    pub kind: ChannelKind,
    pub session_id: Option<u64>,
    pub sent_count: u64,
    pub recv_count: u64,
    pub sent_bytes: u64,
    pub recv_bytes: u64,
}

/// The FIFO payload queue of one channel.
pub struct QueueRecord {
    pub id: u64,
    pub items: Vec<Vec<u8>>,
}

/// The mathematical image of a queue record.
pub struct QueueSnap {
    pub id: u64,
    pub items: Seq<Seq<u8>>,
}

impl View for QueueRecord {
    type V = QueueSnap;

    open spec fn view(&self) -> QueueSnap {
        QueueSnap { id: self.id, items: self.items.deep_view() }
    }
}

/// The mathematical image of the whole transport state.
pub struct TransportModel {
    pub config: TransportConfig,
    pub next_id: u64,
    pub sessions: Seq<SessionSnap>,
    pub channels: Seq<ChannelRecord>,
    pub queues: Seq<QueueSnap>,
}

impl TransportModel {
    /// A session with this id is registered.
    pub open spec fn has_session(self, id: u64) -> bool {
        exists|i: int| 0 <= i < self.sessions.len() && self.sessions[i].id == id
    }

    /// The position of the session with this id (meaningful when it exists).
    pub open spec fn session_i(self, id: u64) -> int {
        choose|i: int| 0 <= i < self.sessions.len() && self.sessions[i].id == id
    }

    /// The session registered under this id.
    pub open spec fn session_at(self, id: u64) -> SessionSnap {
        self.sessions[self.session_i(id)]
    }

    /// A channel with this id is registered.
    pub open spec fn has_channel(self, id: u64) -> bool {
        exists|i: int| 0 <= i < self.channels.len() && self.channels[i].id == id
    }

    /// The position of the channel with this id (meaningful when it exists).
    pub open spec fn chan_i(self, id: u64) -> int {
        choose|i: int| 0 <= i < self.channels.len() && self.channels[i].id == id
    }

    /// The channel registered under this id.
    pub open spec fn channel_at(self, id: u64) -> ChannelRecord {
        self.channels[self.chan_i(id)]
    }

    /// The queued payloads of the channel with this id, oldest first.
    pub open spec fn queue_of(self, id: u64) -> Seq<Seq<u8>> {
        self.queues[self.chan_i(id)].items
    }

    /// The global invariant: the channel and queue stores are in lock-step,
    /// ids are unique and below the allocation counter, and the configured
    /// capacity bounds hold.
    pub open spec fn wf(self) -> bool {
        &&& self.queues.len() == self.channels.len()
        &&& forall|i: int|
            0 <= i < self.channels.len() ==> (#[trigger] self.queues[i].id)
                == self.channels[i].id
        &&& forall|i: int, j: int|
            0 <= i < j < self.channels.len() ==> (#[trigger] self.channels[i].id)
                != (#[trigger] self.channels[j].id)
        &&& forall|i: int, j: int|
            0 <= i < j < self.sessions.len() ==> (#[trigger] self.sessions[i].id)
                != (#[trigger] self.sessions[j].id)
        &&& self.channels.len() <= self.config.max_channels
        &&& forall|i: int|
            0 <= i < self.channels.len() ==> 1 <= (#[trigger] self.channels[i].id) < self.next_id
        &&& forall|i: int|
            0 <= i < self.sessions.len() ==> 1 <= (#[trigger] self.sessions[i].id) < self.next_id
        &&& 1 <= self.next_id
        &&& forall|i: int|
            0 <= i < self.queues.len() ==> (#[trigger] self.queues[i].items).len()
                <= self.config.max_queue_depth
    }
}

/// In a well-formed model, a found channel position is the channel's only one.
pub proof fn lemma_chan_i_unique(m: TransportModel, id: u64, i: int)
    requires
        m.wf(),
        0 <= i < m.channels.len(),
        m.channels[i].id == id,
    ensures
        m.has_channel(id),
        m.chan_i(id) == i,
{
    assert(m.has_channel(id));
    let j = m.chan_i(id);
    if i < j {
        assert(m.channels[i].id != m.channels[j].id);
    } else if j < i {
        assert(m.channels[j].id != m.channels[i].id);
    }
}

/// In a well-formed model, a found session position is the session's only one.
pub proof fn lemma_session_i_unique(m: TransportModel, id: u64, i: int)
    requires
        m.wf(),
        0 <= i < m.sessions.len(),
        m.sessions[i].id == id,
    ensures
        m.has_session(id),
        m.session_i(id) == i,
{
    assert(m.has_session(id));
    let j = m.session_i(id);
    if i < j {
        assert(m.sessions[i].id != m.sessions[j].id);
    } else if j < i {
        assert(m.sessions[j].id != m.sessions[i].id);
    }
}

/// The elapsed time from `then` to `now` in milliseconds, clamped at zero for
/// a clock reading that went backwards.
pub open spec fn gap_ms(now: u64, then: u64) -> u64 {
    if now >= then {
        (now - then) as u64
    } else {
        0
    }
}

/// The staleness limit: twice the heartbeat interval, saturating.
pub open spec fn stale_after(heartbeat_ms: u64) -> u64 {
    if heartbeat_ms <= u64::MAX / 2 {
        (2 * heartbeat_ms) as u64
    } else {
        u64::MAX
    }
}

/// A session is live at `now` when the gap since its last heartbeat does not
/// exceed twice the heartbeat interval.
pub open spec fn session_live(s: SessionSnap, now: u64, heartbeat_ms: u64) -> bool {
    gap_ms(now, s.last_heartbeat) <= stale_after(heartbeat_ms)
}

/// Twice the heartbeat interval, saturating at the integer bound.
fn stale_limit(heartbeat_ms: u64) -> (r: u64)
    ensures
        r == stale_after(heartbeat_ms),
{
    if heartbeat_ms <= u64::MAX / 2 {
        2 * heartbeat_ms
    } else {
        u64::MAX
    }
}

/// An element-for-element copy of a byte payload.
fn copy_bytes(v: &Vec<u8>) -> (r: Vec<u8>)
    ensures
        r@ == v@,
{
    let mut out: Vec<u8> = Vec::new();
    let mut i: usize = 0;
    while i < v.len()
        invariant
            i <= v@.len(),
            out@ == v@.take(i as int),
        decreases v@.len() - i,
    {
        out.push(v[i]);
        proof {
            assert(out@ =~= v@.take(i as int + 1));
        }
        i = i + 1;
    }
    proof {
        assert(v@.take(v@.len() as int) =~= v@);
    }
    out
}

/// The sessions still live at `now`, in their original order.
pub open spec fn keep_live(s: Seq<SessionSnap>, now: u64, heartbeat_ms: u64) -> Seq<SessionSnap>
    decreases s.len(),
{
    if s.len() == 0 {
        Seq::empty()
    } else {
        let rest = keep_live(s.drop_last(), now, heartbeat_ms);
        if session_live(s.last(), now, heartbeat_ms) {
            rest.push(s.last())
        } else {
            rest
        }
    }
}

/// The channels not bound to session `sid`, in their original order.
pub open spec fn keep_unbound(ch: Seq<ChannelRecord>, sid: u64) -> Seq<ChannelRecord>
    decreases ch.len(),
{
    if ch.len() == 0 {
        Seq::empty()
    } else {
        let rest = keep_unbound(ch.drop_last(), sid);
        if ch.last().session_id == Some(sid) {
            rest
        } else {
            rest.push(ch.last())
        }
    }
}

/// The queues of the channels not bound to session `sid`, aligned with
/// `keep_unbound` position for position.
pub open spec fn keep_unbound_queues(ch: Seq<ChannelRecord>, qs: Seq<QueueSnap>, sid: u64) -> Seq<
    QueueSnap,
>
    decreases ch.len(),
{
    if ch.len() == 0 || qs.len() == 0 {
        Seq::empty()
    } else {
        let rest = keep_unbound_queues(ch.drop_last(), qs.drop_last(), sid);
        if ch.last().session_id == Some(sid) {
            rest
        } else {
            rest.push(qs.last())
        }
    }
}

/// What pruning guarantees: only live sessions remain, each a session that was
/// registered, every live session survives, and no session outlives its
/// staleness limit.
pub proof fn lemma_keep_live_props(s: Seq<SessionSnap>, now: u64, hb: u64)
    ensures
        keep_live(s, now, hb).len() <= s.len(),
        forall|l: int|
            0 <= l < keep_live(s, now, hb).len() ==> session_live(
                #[trigger] keep_live(s, now, hb)[l],
                now,
                hb,
            ),
        forall|l: int|
            0 <= l < keep_live(s, now, hb).len() ==> s.contains(#[trigger] keep_live(s, now, hb)[l]),
        forall|m: int|
            0 <= m < s.len() && session_live(#[trigger] s[m], now, hb) ==> keep_live(
                s,
                now,
                hb,
            ).contains(s[m]),
    decreases s.len(),
{
    if s.len() > 0 {
        let d = s.drop_last();
        lemma_keep_live_props(d, now, hb);
        let rest = keep_live(d, now, hb);
        let r = keep_live(s, now, hb);
        assert forall|l: int| 0 <= l < r.len() implies s.contains(#[trigger] r[l]) by {
            if l < rest.len() {
                assert(d.contains(rest[l]));
                let m = choose|m: int| 0 <= m < d.len() && d[m] == rest[l];
                assert(s[m] == rest[l]);
            } else {
                assert(r[l] == s.last());
                assert(s[s.len() - 1] == s.last());
            }
        }
        assert forall|m: int|
            0 <= m < s.len() && session_live(#[trigger] s[m], now, hb) implies r.contains(
            s[m],
        ) by {
            if m < s.len() - 1 {
                assert(d[m] == s[m]);
                assert(rest.contains(s[m]));
                let l = choose|l: int| 0 <= l < rest.len() && rest[l] == s[m];
                assert(r[l] == s[m]);
            } else {
                assert(session_live(s.last(), now, hb));
                assert(r[r.len() - 1] == s.last());
            }
        }
    }
}

/// Pruning keeps session ids pairwise distinct and within their bounds.
pub proof fn lemma_keep_live_distinct(s: Seq<SessionSnap>, now: u64, hb: u64, bound: u64)
    requires
        forall|a: int, b: int|
            0 <= a < b < s.len() ==> (#[trigger] s[a].id) != (#[trigger] s[b].id),
        forall|l: int| 0 <= l < s.len() ==> 1 <= (#[trigger] s[l].id) < bound,
    ensures
        forall|a: int, b: int|
            0 <= a < b < keep_live(s, now, hb).len() ==> (#[trigger] keep_live(s, now, hb)[a].id)
                != (#[trigger] keep_live(s, now, hb)[b].id),
        forall|l: int|
            0 <= l < keep_live(s, now, hb).len() ==> 1 <= (#[trigger] keep_live(
                s,
                now,
                hb,
            )[l].id) < bound,
    decreases s.len(),
{
    if s.len() > 0 {
        let d = s.drop_last();
        lemma_keep_live_distinct(d, now, hb, bound);
        lemma_keep_live_props(d, now, hb);
        let rest = keep_live(d, now, hb);
        let r = keep_live(s, now, hb);
        assert forall|a: int, b: int| 0 <= a < b < r.len() implies (#[trigger] r[a].id)
            != (#[trigger] r[b].id) by {
            if b < rest.len() {
                assert(rest[a].id != rest[b].id);
            } else {
                assert(r[b] == s.last());
                assert(d.contains(rest[a]));
                let m = choose|m: int| 0 <= m < d.len() && d[m] == rest[a];
                assert(s[m].id != s[s.len() - 1].id);
            }
        }
        assert forall|l: int| 0 <= l < r.len() implies 1 <= (#[trigger] r[l].id) < bound by {
            if l < rest.len() {
            } else {
                assert(r[l] == s.last());
                assert(1 <= s[s.len() - 1].id < bound);
            }
        }
    }
}

/// A session whose heartbeat gap is over the limit does not survive pruning.
pub proof fn lemma_prune_removes_stale(s: Seq<SessionSnap>, now: u64, hb: u64, id: u64)
    requires
        forall|a: int, b: int|
            0 <= a < b < s.len() ==> (#[trigger] s[a].id) != (#[trigger] s[b].id),
        exists|m: int|
            0 <= m < s.len() && (#[trigger] s[m].id) == id && !session_live(s[m], now, hb),
    ensures
        forall|l: int| 0 <= l < keep_live(s, now, hb).len() ==> (#[trigger] keep_live(
            s,
            now,
            hb,
        )[l].id) != id,
{
    lemma_keep_live_props(s, now, hb);
    let m = choose|m: int|
        0 <= m < s.len() && (#[trigger] s[m].id) == id && !session_live(s[m], now, hb);
    let r = keep_live(s, now, hb);
    assert forall|l: int| 0 <= l < r.len() implies (#[trigger] r[l].id) != id by {
        assert(s.contains(r[l]));
        let m2 = choose|m2: int| 0 <= m2 < s.len() && s[m2] == r[l];
        if r[l].id == id {
            if m2 < m {
                assert(s[m2].id != s[m].id);
            } else if m < m2 {
                assert(s[m].id != s[m2].id);
            }
            assert(m2 == m);
            assert(session_live(r[l], now, hb));
        }
    }
}

/// What the cascade of a session close guarantees: the surviving channels are
/// exactly the ones that were not bound to the session, in order, each keeping
/// its own queue beside it.
pub proof fn lemma_keep_unbound_props(ch: Seq<ChannelRecord>, qs: Seq<QueueSnap>, sid: u64)
    requires
        qs.len() == ch.len(),
    ensures
        keep_unbound(ch, sid).len() == keep_unbound_queues(ch, qs, sid).len(),
        keep_unbound(ch, sid).len() <= ch.len(),
        forall|l: int|
            0 <= l < keep_unbound(ch, sid).len() ==> (#[trigger] keep_unbound(
                ch,
                sid,
            )[l]).session_id != Some(sid),
        forall|l: int|
            0 <= l < keep_unbound(ch, sid).len() ==> exists|m: int|
                0 <= m < ch.len() && (#[trigger] keep_unbound(ch, sid)[l]) == ch[m]
                    && keep_unbound_queues(ch, qs, sid)[l] == qs[m],
        forall|m: int|
            0 <= m < ch.len() && (#[trigger] ch[m]).session_id != Some(sid) ==> exists|l: int|
                0 <= l < keep_unbound(ch, sid).len() && keep_unbound(ch, sid)[l] == ch[m]
                    && keep_unbound_queues(ch, qs, sid)[l] == qs[m],
    decreases ch.len(),
{
    if ch.len() > 0 {
        let dc = ch.drop_last();
        let dq = qs.drop_last();
        lemma_keep_unbound_props(dc, dq, sid);
        let rc = keep_unbound(ch, sid);
        let rq = keep_unbound_queues(ch, qs, sid);
        let restc = keep_unbound(dc, sid);
        let restq = keep_unbound_queues(dc, dq, sid);
        assert forall|l: int| 0 <= l < rc.len() implies exists|m: int|
            0 <= m < ch.len() && (#[trigger] rc[l]) == ch[m] && rq[l] == qs[m] by {
            if l < restc.len() {
                let m = choose|m: int| 0 <= m < dc.len() && restc[l] == dc[m] && restq[l] == dq[m];
                assert(rc[l] == ch[m] && rq[l] == qs[m]);
            } else {
                assert(rc[l] == ch[ch.len() - 1] && rq[l] == qs[qs.len() - 1]);
            }
        }
        assert forall|m: int|
            0 <= m < ch.len() && (#[trigger] ch[m]).session_id != Some(sid) implies exists|l: int|
            0 <= l < rc.len() && rc[l] == ch[m] && rq[l] == qs[m] by {
            if m < ch.len() - 1 {
                assert(dc[m] == ch[m] && dq[m] == qs[m]);
                assert(dc[m].session_id != Some(sid));
                let l = choose|l: int| 0 <= l < restc.len() && restc[l] == dc[m] && restq[l]
                    == dq[m];
                assert(rc[l] == ch[m] && rq[l] == qs[m]);
            } else {
                assert(ch.last().session_id != Some(sid));
                assert(rc[rc.len() - 1] == ch[m] && rq[rq.len() - 1] == qs[m]);
            }
        }
    }
}

/// Every channel the cascade keeps was registered before it.
pub proof fn lemma_keep_unbound_subset(ch: Seq<ChannelRecord>, sid: u64)
    ensures
        forall|x: ChannelRecord| #[trigger] keep_unbound(ch, sid).contains(x) ==> ch.contains(x),
    decreases ch.len(),
{
    if ch.len() > 0 {
        let dc = ch.drop_last();
        lemma_keep_unbound_subset(dc, sid);
        let rc = keep_unbound(ch, sid);
        assert forall|x: ChannelRecord| #[trigger] rc.contains(x) implies ch.contains(x) by {
            let l = choose|l: int| 0 <= l < rc.len() && rc[l] == x;
            if ch.last().session_id != Some(sid) && l == rc.len() - 1 {
                assert(ch[ch.len() - 1] == x);
            } else {
                assert(keep_unbound(dc, sid).contains(x));
                assert(dc.contains(x));
                let m = choose|m: int| 0 <= m < dc.len() && dc[m] == x;
                assert(ch[m] == x);
            }
        }
    }
}

/// The cascade keeps channel ids pairwise distinct and within their bounds.
pub proof fn lemma_keep_unbound_distinct(ch: Seq<ChannelRecord>, sid: u64, bound: u64)
    requires
        forall|a: int, b: int|
            0 <= a < b < ch.len() ==> (#[trigger] ch[a].id) != (#[trigger] ch[b].id),
        forall|l: int| 0 <= l < ch.len() ==> 1 <= (#[trigger] ch[l].id) < bound,
    ensures
        forall|a: int, b: int|
            0 <= a < b < keep_unbound(ch, sid).len() ==> (#[trigger] keep_unbound(ch, sid)[a].id)
                != (#[trigger] keep_unbound(ch, sid)[b].id),
        forall|l: int|
            0 <= l < keep_unbound(ch, sid).len() ==> 1 <= (#[trigger] keep_unbound(
                ch,
                sid,
            )[l].id) < bound,
    decreases ch.len(),
{
    if ch.len() > 0 {
        let dc = ch.drop_last();
        lemma_keep_unbound_distinct(dc, sid, bound);
        lemma_keep_unbound_subset(dc, sid);
        let rc = keep_unbound(ch, sid);
        let restc = keep_unbound(dc, sid);
        assert forall|a: int, b: int| 0 <= a < b < rc.len() implies (#[trigger] rc[a].id)
            != (#[trigger] rc[b].id) by {
            if b < restc.len() {
                assert(restc[a].id != restc[b].id);
            } else {
                assert(rc[b] == ch.last());
                assert(restc.contains(restc[a]));
                assert(dc.contains(restc[a]));
                let m = choose|m: int| 0 <= m < dc.len() && dc[m] == restc[a];
                assert(ch[m].id != ch[ch.len() - 1].id);
            }
        }
        assert forall|l: int| 0 <= l < rc.len() implies 1 <= (#[trigger] rc[l].id) < bound by {
            if l < restc.len() {
            } else {
                assert(rc[l] == ch.last());
                assert(1 <= ch[ch.len() - 1].id < bound);
            }
        }
    }
}

/// The session listing built so far matches the first `k` sessions pointwise.
spec fn r_matches_prefix(
    out: Seq<(u64, String, u64, u64)>,
    sessions: Seq<SessionSnap>,
    now: u64,
    k: int,
) -> bool {
    &&& out.len() == k
    &&& forall|j: int|
        0 <= j < k ==> {
            let s = sessions[j];
            &&& (#[trigger] out[j]).0 == s.id
            &&& out[j].1@ == s.peer_id
            &&& out[j].2 == gap_ms(now, s.created_at)
            &&& out[j].3 == gap_ms(now, s.last_heartbeat)
        }
}

/// How many payloads a drain removes: the caller's limit, capped by the queue
/// length; no limit means the whole queue.
pub open spec fn drain_count(qlen: nat, max_items: Option<usize>) -> nat {
    match max_items {
        Some(m) => if m < qlen {
            m as nat
        } else {
            qlen
        },
        None => qlen,
    }
}

/// The optional session reference of a new or rebound channel is acceptable:
/// either absent, or naming a registered session.
pub open spec fn session_ok(m: TransportModel, session_id: Option<u64>) -> bool {
    match session_id {
        Some(s) => m.has_session(s),
        None => true,
    }
}

/// The registry of sessions, channels, and queues under one operation surface.
///
/// Every operation validates ids and capacity before mutating state, and every
/// failure leaves the state exactly as it was. Clock readings come in as
/// plain millisecond arguments, so the whole surface is deterministic.
pub struct TransportHandle {
    config: TransportConfig,
    next_id: u64,
    sessions: Vec<SessionRecord>,
    channels: Vec<ChannelRecord>,
    queues: Vec<QueueRecord>,
}

impl View for TransportHandle {
    type V = TransportModel;

    closed spec fn view(&self) -> TransportModel {
        TransportModel {
            config: self.config,
            next_id: self.next_id,
            sessions: self.sessions@.map_values(|s: SessionRecord| s@),
            channels: self.channels@,
            queues: self.queues@.map_values(|q: QueueRecord| q@),
        }
    }
}

impl TransportHandle {
    /// A fresh handle: no sessions, no channels, id counter at one.
    pub fn new(config: TransportConfig) -> (r: TransportHandle)
        ensures
            r@.wf(),
            r@.config == config,
            r@.next_id == 1,
            r@.sessions == Seq::<SessionSnap>::empty(),
            r@.channels == Seq::<ChannelRecord>::empty(),
            r@.queues == Seq::<QueueSnap>::empty(),
    {
        let h = TransportHandle {
            config,
            next_id: 1,
            sessions: Vec::new(),
            channels: Vec::new(),
            queues: Vec::new(),
        };
        proof {
            assert(h@.sessions =~= Seq::<SessionSnap>::empty());
            assert(h@.channels =~= Seq::<ChannelRecord>::empty());
            assert(h@.queues =~= Seq::<QueueSnap>::empty());
        }
        h
    }

    /// The configured heartbeat interval in milliseconds.
    pub fn heartbeat_ms(&self) -> (r: u64)
        ensures
            r == self@.config.heartbeat_ms,
    {
        self.config.heartbeat_ms
    }

    /// The configured channel-count bound.
    pub fn max_channels(&self) -> (r: u64)
        ensures
            r == self@.config.max_channels,
    {
        self.config.max_channels
    }

    /// The configured per-channel queue-depth bound.
    pub fn max_queue_depth(&self) -> (r: usize)
        ensures
            r == self@.config.max_queue_depth,
    {
        self.config.max_queue_depth
    }

    /// The configured payload-size bound in bytes.
    pub fn max_payload_bytes(&self) -> (r: usize)
        ensures
            r == self@.config.max_payload_bytes,
    {
        self.config.max_payload_bytes
    }

    /// Whether the shared id counter has reached its machine limit, so that no
    /// further session or channel can be allocated. Ids are never reused.
    pub fn id_space_exhausted(&self) -> (r: bool)
        ensures
            r == (self@.next_id == u64::MAX),
    {
        self.next_id == u64::MAX
    }

    /// Linear scan for the channel with this id.
    fn find_channel(&self, id: u64) -> (r: Option<usize>)
        requires
            self@.wf(),
        ensures
            match r {
                Some(i) => {
                    &&& i < self@.channels.len()
                    &&& self@.channels[i as int].id == id
                    &&& self@.has_channel(id)
                    &&& self@.chan_i(id) == i as int
                },
                None => !self@.has_channel(id),
            },
    {
        let mut i: usize = 0;
        let n = self.channels.len();
        while i < n
            invariant
                i <= n,
                n == self@.channels.len(),
                self@.wf(),
                forall|j: int| 0 <= j < i ==> (#[trigger] self@.channels[j].id) != id,
            decreases n - i,
        {
            if self.channels[i].id == id {
                proof {
                    lemma_chan_i_unique(self@, id, i as int);
                }
                return Some(i);
            }
            i = i + 1;
        }
        None
    }

    /// Linear scan for the session with this id.
    fn find_session(&self, id: u64) -> (r: Option<usize>)
        requires
            self@.wf(),
        ensures
            match r {
                Some(i) => {
                    &&& i < self@.sessions.len()
                    &&& self@.sessions[i as int].id == id
                    &&& self@.has_session(id)
                    &&& self@.session_i(id) == i as int
                },
                None => !self@.has_session(id),
            },
    {
        let mut i: usize = 0;
        let n = self.sessions.len();
        while i < n
            invariant
                i <= n,
                n == self@.sessions.len(),
                self@.wf(),
                forall|j: int| 0 <= j < i ==> (#[trigger] self@.sessions[j].id) != id,
            decreases n - i,
        {
            if self.sessions[i].id == id {
                proof {
                    lemma_session_i_unique(self@, id, i as int);
                }
                return Some(i);
            }
            i = i + 1;
        }
        None
    }

    /// Registers a new session for a peer and returns its fresh id.
    ///
    /// Never fails; the id-space bound is the one machine limit a caller must
    /// respect.
    pub fn create_session(&mut self, peer_id: &str, now_ms: u64) -> (r: u64)
        requires
            old(self)@.wf(),
            old(self)@.next_id < u64::MAX,
        ensures
            final(self)@.wf(),
            final(self)@.config == old(self)@.config,
            final(self)@.channels == old(self)@.channels,
            final(self)@.queues == old(self)@.queues,
            r == old(self)@.next_id,
            final(self)@.next_id == old(self)@.next_id + 1,
            final(self)@.sessions == old(self)@.sessions.push(
                (SessionSnap {
                    id: r,
                    peer_id: peer_id@,
                    created_at: now_ms,
                    last_heartbeat: now_ms,
                }),
            ),
    {
        let id = self.next_id;
        self.next_id = self.next_id + 1;
        let rec = SessionRecord {
            id,
            peer_id: peer_id.to_owned(),
            created_at: now_ms,
            last_heartbeat: now_ms,
        };
        self.sessions.push(rec);
        proof {
            assert(self@.sessions =~= old(self)@.sessions.push(
                (SessionSnap {
                    id: id,
                    peer_id: peer_id@,
                    created_at: now_ms,
                    last_heartbeat: now_ms,
                }),
            ));
        }
        id
    }

    /// Opens a channel of the named kind, optionally bound to an existing
    /// session, and returns its fresh id with an empty queue beside it.
    ///
    /// Fails with `InvalidArgument` on an unknown kind name, `NotFound` on an
    /// unknown session id, and `CapacityExceeded` once `max_channels` channels
    /// are open; a failed call leaves the registries untouched.
    pub fn open_channel(&mut self, kind: &str, session_id: Option<u64>) -> (r: Result<
        u64,
        TransportError,
    >)
        requires
            old(self)@.wf(),
            old(self)@.next_id < u64::MAX,
        ensures
            final(self)@.wf(),
            final(self)@.config == old(self)@.config,
            final(self)@.sessions == old(self)@.sessions,
            r is Err ==> final(self)@ == old(self)@,
            kind_of_name(kind@) is None ==> r == Err::<u64, TransportError>(
                TransportError::InvalidArgument,
            ),
            (kind_of_name(kind@) is Some && !session_ok(old(self)@, session_id)) ==> r == Err::<
                u64,
                TransportError,
            >(TransportError::NotFound),
            (kind_of_name(kind@) is Some && session_ok(old(self)@, session_id)
                && old(self)@.channels.len() >= old(self)@.config.max_channels) ==> r == Err::<
                u64,
                TransportError,
            >(TransportError::CapacityExceeded),
            (kind_of_name(kind@) is Some && session_ok(old(self)@, session_id)
                && old(self)@.channels.len() < old(self)@.config.max_channels) ==> ({
                &&& r == Ok::<u64, TransportError>(old(self)@.next_id)
                &&& final(self)@.next_id == old(self)@.next_id + 1
                &&& final(self)@.channels == old(self)@.channels.push(
                    (ChannelRecord {
                        id: old(self)@.next_id,
                        kind: kind_of_name(kind@)->0,
                        session_id: session_id,
                        sent_count: 0,
                        recv_count: 0,
                        sent_bytes: 0,
                        recv_bytes: 0,
                    }),
                )
                &&& final(self)@.queues == old(self)@.queues.push(
                    (QueueSnap { id: old(self)@.next_id, items: Seq::<Seq<u8>>::empty() }),
                )
            }),
    {
        let k = match ChannelKind::parse(kind) {
            Some(k) => k,
            None => {
                return Err(TransportError::InvalidArgument);
            },
        };
        if let Some(sid) = session_id {
            if self.find_session(sid).is_none() {
                return Err(TransportError::NotFound);
            }
        }
        if self.channels.len() as u64 >= self.config.max_channels {
            return Err(TransportError::CapacityExceeded);
        }
        let id = self.next_id;
        self.next_id = self.next_id + 1;
        self.channels.push(
            ChannelRecord {
                id,
                kind: k,
                session_id,
                sent_count: 0,
                recv_count: 0,
                sent_bytes: 0,
                recv_bytes: 0,
            },
        );
        let q = QueueRecord { id, items: Vec::new() };
        proof {
            assert(q@.items =~= Seq::<Seq<u8>>::empty());
        }
        self.queues.push(q);
        proof {
            assert(self@.queues =~= old(self)@.queues.push(
                (QueueSnap { id: id, items: Seq::<Seq<u8>>::empty() }),
            ));
        }
        Ok(id)
    }

    /// Rebinds an existing channel to an existing session.
    ///
    /// Fails with `NotFound` when either id is unknown (the session is checked
    /// first), leaving the registries untouched.
    pub fn bind_channel(&mut self, channel: u64, session_id: u64) -> (r: Result<
        (),
        TransportError,
    >)
        requires
            old(self)@.wf(),
        ensures
            final(self)@.wf(),
            final(self)@.config == old(self)@.config,
            final(self)@.next_id == old(self)@.next_id,
            final(self)@.sessions == old(self)@.sessions,
            final(self)@.queues == old(self)@.queues,
            r is Err ==> final(self)@ == old(self)@ && r == Err::<(), TransportError>(
                TransportError::NotFound,
            ),
            r is Ok <==> old(self)@.has_session(session_id) && old(self)@.has_channel(channel),
            r is Ok ==> final(self)@.channels == old(self)@.channels.update(
                old(self)@.chan_i(channel),
                (ChannelRecord { session_id: Some(session_id), ..old(self)@.channel_at(channel) }),
            ),
    {
        if self.find_session(session_id).is_none() {
            return Err(TransportError::NotFound);
        }
        let i = match self.find_channel(channel) {
            Some(i) => i,
            None => {
                return Err(TransportError::NotFound);
            },
        };
        let mut rec = self.channels[i];
        rec.session_id = Some(session_id);
        self.channels.set(i, rec);
        Ok(())
    }

    /// Placeholder authentication: echoes the challenge back and refreshes the
    /// session's heartbeat.
    ///
    /// Fails with `NotFound` on an unknown session id, leaving state untouched.
    pub fn handshake(&mut self, session_id: u64, challenge: &Vec<u8>, now_ms: u64) -> (r: Result<
        Vec<u8>,
        TransportError,
    >)
        requires
            old(self)@.wf(),
        ensures
            final(self)@.wf(),
            final(self)@.config == old(self)@.config,
            final(self)@.next_id == old(self)@.next_id,
            final(self)@.channels == old(self)@.channels,
            final(self)@.queues == old(self)@.queues,
            r is Ok <==> old(self)@.has_session(session_id),
            r is Err ==> final(self)@ == old(self)@ && r == Err::<Vec<u8>, TransportError>(
                TransportError::NotFound,
            ),
            r is Ok ==> (r->Ok_0)@ == challenge@ && final(self)@.sessions
                == old(self)@.sessions.update(
                old(self)@.session_i(session_id),
                (SessionSnap { last_heartbeat: now_ms, ..old(self)@.session_at(session_id) }),
            ),
    {
        let i = match self.find_session(session_id) {
            Some(i) => i,
            None => {
                return Err(TransportError::NotFound);
            },
        };
        let s = vstd::std_specs::vec::vec_index_mut(&mut self.sessions, i);
        s.last_heartbeat = now_ms;
        proof {
            assert(self@.sessions =~= old(self)@.sessions.update(
                i as int,
                (SessionSnap { last_heartbeat: now_ms, ..old(self)@.session_at(session_id) }),
            ));
        }
        Ok(copy_bytes(challenge))
    }

    /// Reports whether the session was still live at `now_ms` (its heartbeat
    /// gap within twice the configured interval), then refreshes its heartbeat.
    ///
    /// Fails with `NotFound` on an unknown session id, leaving state untouched.
    pub fn heartbeat(&mut self, session_id: u64, now_ms: u64) -> (r: Result<bool, TransportError>)
        requires
            old(self)@.wf(),
        ensures
            final(self)@.wf(),
            final(self)@.config == old(self)@.config,
            final(self)@.next_id == old(self)@.next_id,
            final(self)@.channels == old(self)@.channels,
            final(self)@.queues == old(self)@.queues,
            r is Ok <==> old(self)@.has_session(session_id),
            r is Err ==> final(self)@ == old(self)@ && r == Err::<bool, TransportError>(
                TransportError::NotFound,
            ),
            r is Ok ==> r->Ok_0 == session_live(
                old(self)@.session_at(session_id),
                now_ms,
                old(self)@.config.heartbeat_ms,
            ) && final(self)@.sessions == old(self)@.sessions.update(
                old(self)@.session_i(session_id),
                (SessionSnap { last_heartbeat: now_ms, ..old(self)@.session_at(session_id) }),
            ),
    {
        let i = match self.find_session(session_id) {
            Some(i) => i,
            None => {
                return Err(TransportError::NotFound);
            },
        };
        let limit = stale_limit(self.config.heartbeat_ms);
        let last = self.sessions[i].last_heartbeat;
        let alive = now_ms.saturating_sub(last) <= limit;
        let s = vstd::std_specs::vec::vec_index_mut(&mut self.sessions, i);
        s.last_heartbeat = now_ms;
        proof {
            assert(self@.sessions =~= old(self)@.sessions.update(
                i as int,
                (SessionSnap { last_heartbeat: now_ms, ..old(self)@.session_at(session_id) }),
            ));
        }
        Ok(alive)
    }

    /// A snapshot of one session: peer id, age, and time since last heartbeat,
    /// both in milliseconds relative to `now_ms`.
    ///
    /// Fails with `NotFound` on an unknown session id.
    pub fn session_info(&self, session_id: u64, now_ms: u64) -> (r: Result<
        (String, u64, u64),
        TransportError,
    >)
        requires
            self@.wf(),
        ensures
            r is Ok <==> self@.has_session(session_id),
            r is Err ==> r == Err::<(String, u64, u64), TransportError>(TransportError::NotFound),
            r is Ok ==> ({
                let s = self@.session_at(session_id);
                &&& (r->Ok_0).0@ == s.peer_id
                &&& (r->Ok_0).1 == gap_ms(now_ms, s.created_at)
                &&& (r->Ok_0).2 == gap_ms(now_ms, s.last_heartbeat)
            }),
    {
        let i = match self.find_session(session_id) {
            Some(i) => i,
            None => {
                return Err(TransportError::NotFound);
            },
        };
        let peer = self.sessions[i].peer_id.clone();
        let age = now_ms.saturating_sub(self.sessions[i].created_at);
        let hb_gap = now_ms.saturating_sub(self.sessions[i].last_heartbeat);
        Ok((peer, age, hb_gap))
    }

    /// A snapshot of every session, in registration order: id, peer id, age,
    /// and time since last heartbeat, relative to `now_ms`.
    pub fn list_sessions(&self, now_ms: u64) -> (r: Vec<(u64, String, u64, u64)>)
        requires
            self@.wf(),
        ensures
            r@.len() == self@.sessions.len(),
            forall|i: int|
                0 <= i < r@.len() ==> {
                    let s = self@.sessions[i];
                    &&& (#[trigger] r@[i]).0 == s.id
                    &&& r@[i].1@ == s.peer_id
                    &&& r@[i].2 == gap_ms(now_ms, s.created_at)
                    &&& r@[i].3 == gap_ms(now_ms, s.last_heartbeat)
                },
    {
        let mut out: Vec<(u64, String, u64, u64)> = Vec::new();
        let mut i: usize = 0;
        let n = self.sessions.len();
        while i < n
            invariant
                i <= n,
                n == self@.sessions.len(),
                r_matches_prefix(out@, self@.sessions, now_ms, i as int),
            decreases n - i,
        {
            let s = &self.sessions[i];
            out.push((s.id, s.peer_id.clone(), now_ms.saturating_sub(s.created_at),
                now_ms.saturating_sub(s.last_heartbeat)));
            i = i + 1;
        }
        out
    }

    /// Appends a payload to the back of the channel's queue.
    ///
    /// Fails with `CapacityExceeded` when the payload is over the size bound or
    /// the queue already holds `max_queue_depth` payloads, `NotFound` on an
    /// unknown channel, and `Disconnected` when the channel's bound session is
    /// gone; a failed call leaves the registries untouched. On success the
    /// channel's sent counters grow, saturating at the integer bound.
    pub fn send(&mut self, channel: u64, payload: &Vec<u8>) -> (r: Result<(), TransportError>)
        requires
            old(self)@.wf(),
        ensures
            final(self)@.wf(),
            final(self)@.config == old(self)@.config,
            final(self)@.next_id == old(self)@.next_id,
            final(self)@.sessions == old(self)@.sessions,
            r is Err ==> final(self)@ == old(self)@,
            payload@.len() > old(self)@.config.max_payload_bytes ==> r == Err::<
                (),
                TransportError,
            >(TransportError::CapacityExceeded),
            (payload@.len() <= old(self)@.config.max_payload_bytes && !old(self)@.has_channel(
                channel,
            )) ==> r == Err::<(), TransportError>(TransportError::NotFound),
            (payload@.len() <= old(self)@.config.max_payload_bytes && old(self)@.has_channel(
                channel,
            ) && !session_ok(old(self)@, old(self)@.channel_at(channel).session_id)) ==> r
                == Err::<(), TransportError>(TransportError::Disconnected),
            (payload@.len() <= old(self)@.config.max_payload_bytes && old(self)@.has_channel(
                channel,
            ) && session_ok(old(self)@, old(self)@.channel_at(channel).session_id)
                && old(self)@.queue_of(channel).len() >= old(self)@.config.max_queue_depth) ==> r
                == Err::<(), TransportError>(TransportError::CapacityExceeded),
            (payload@.len() <= old(self)@.config.max_payload_bytes && old(self)@.has_channel(
                channel,
            ) && session_ok(old(self)@, old(self)@.channel_at(channel).session_id)
                && old(self)@.queue_of(channel).len() < old(self)@.config.max_queue_depth) ==> ({
                &&& r is Ok
                &&& final(self)@.queues == old(self)@.queues.update(
                    old(self)@.chan_i(channel),
                    (QueueSnap {
                        id: channel,
                        items: old(self)@.queue_of(channel).push(payload@),
                    }),
                )
                &&& final(self)@.channels == old(self)@.channels.update(
                    old(self)@.chan_i(channel),
                    (ChannelRecord {
                        sent_count: old(self)@.channel_at(channel).sent_count.saturating_add(1),
                        sent_bytes: old(self)@.channel_at(channel).sent_bytes.saturating_add(
                            payload@.len() as u64,
                        ),
                        ..old(self)@.channel_at(channel)
                    }),
                )
            }),
    {
        if payload.len() > self.config.max_payload_bytes {
            return Err(TransportError::CapacityExceeded);
        }
        let i = match self.find_channel(channel) {
            Some(i) => i,
            None => {
                return Err(TransportError::NotFound);
            },
        };
        if let Some(sid) = self.channels[i].session_id {
            if self.find_session(sid).is_none() {
                return Err(TransportError::Disconnected);
            }
        }
        if self.queues[i].items.len() >= self.config.max_queue_depth {
            return Err(TransportError::CapacityExceeded);
        }
        let p = copy_bytes(payload);
        proof {
            assert(p.deep_view() =~= payload@);
        }
        let q = vstd::std_specs::vec::vec_index_mut(&mut self.queues, i);
        q.items.push(p);
        proof {
            assert(q.items.deep_view() =~= old(self)@.queue_of(channel).push(payload@));
        }
        proof {
            assert(self.queues@ == old(self).queues@.update(
                i as int,
                self.queues@[i as int],
            ));
            assert(old(self)@.queues[i as int].id == channel);
            assert(old(self)@.queues[i as int] == old(self).queues@[i as int]@);
            assert(old(self).queues@[i as int].id == channel);
            assert(self.queues@[i as int].id == channel);
            assert(self.queues@[i as int].items.deep_view() == old(self)@.queue_of(channel).push(
                payload@,
            ));
            assert(self@.queues[i as int] == (QueueSnap {
                id: channel,
                items: old(self)@.queue_of(channel).push(payload@),
            }));
            assert(self@.queues =~= old(self)@.queues.update(
                i as int,
                (QueueSnap { id: channel, items: old(self)@.queue_of(channel).push(payload@) }),
            ));
        }
        let mut rec = self.channels[i];
        rec.sent_count = rec.sent_count.saturating_add(1);
        rec.sent_bytes = rec.sent_bytes.saturating_add(payload.len() as u64);
        self.channels.set(i, rec);
        Ok(())
    }

    /// Removes and returns the oldest queued payload; `Ok(None)` reports an
    /// empty queue, so an explicitly empty payload stays distinguishable from
    /// "no message". A removal grows the receive counters, saturating.
    ///
    /// Fails with `NotFound` on an unknown channel and `Disconnected` when the
    /// channel's bound session is gone; a failed call leaves state untouched.
    pub fn receive(&mut self, channel: u64) -> (r: Result<Option<Vec<u8>>, TransportError>)
        requires
            old(self)@.wf(),
        ensures
            final(self)@.wf(),
            final(self)@.config == old(self)@.config,
            final(self)@.next_id == old(self)@.next_id,
            final(self)@.sessions == old(self)@.sessions,
            r is Err ==> final(self)@ == old(self)@,
            !old(self)@.has_channel(channel) ==> r == Err::<Option<Vec<u8>>, TransportError>(
                TransportError::NotFound,
            ),
            (old(self)@.has_channel(channel) && !session_ok(
                old(self)@,
                old(self)@.channel_at(channel).session_id,
            )) ==> r == Err::<Option<Vec<u8>>, TransportError>(TransportError::Disconnected),
            (old(self)@.has_channel(channel) && session_ok(
                old(self)@,
                old(self)@.channel_at(channel).session_id,
            ) && old(self)@.queue_of(channel).len() == 0) ==> (r matches Ok(p) && p is None)
                && final(self)@ == old(self)@,
            (old(self)@.has_channel(channel) && session_ok(
                old(self)@,
                old(self)@.channel_at(channel).session_id,
            ) && old(self)@.queue_of(channel).len() > 0) ==> ({
                &&& r is Ok
                &&& (r->Ok_0) is Some
                &&& ((r->Ok_0)->0)@ == old(self)@.queue_of(channel)[0]
                &&& final(self)@.queues == old(self)@.queues.update(
                    old(self)@.chan_i(channel),
                    (QueueSnap { id: channel, items: old(self)@.queue_of(channel).drop_first() }),
                )
                &&& final(self)@.channels == old(self)@.channels.update(
                    old(self)@.chan_i(channel),
                    (ChannelRecord {
                        recv_count: old(self)@.channel_at(channel).recv_count.saturating_add(1),
                        recv_bytes: old(self)@.channel_at(channel).recv_bytes.saturating_add(
                            old(self)@.queue_of(channel)[0].len() as u64,
                        ),
                        ..old(self)@.channel_at(channel)
                    }),
                )
            }),
    {
        let i = match self.find_channel(channel) {
            Some(i) => i,
            None => {
                return Err(TransportError::NotFound);
            },
        };
        if let Some(sid) = self.channels[i].session_id {
            if self.find_session(sid).is_none() {
                return Err(TransportError::Disconnected);
            }
        }
        if self.queues[i].items.len() == 0 {
            return Ok(None);
        }
        let ghost pre_rec = self.queues@[i as int];
        let q = vstd::std_specs::vec::vec_index_mut(&mut self.queues, i);
        proof {
            assert(old(self)@.queues[i as int] == pre_rec@);
            assert(pre_rec.items.deep_view() == old(self)@.queue_of(channel));
        }
        let p = q.items.remove(0);
        proof {
            assert(p.deep_view() == pre_rec.items.deep_view()[0]);
            assert(p@ =~= p.deep_view());
            assert(q.items.deep_view() =~= old(self)@.queue_of(channel).drop_first());
        }
        proof {
            assert(self.queues@ == old(self).queues@.update(i as int, self.queues@[i as int]));
            assert(old(self)@.queues[i as int].id == channel);
            assert(old(self).queues@[i as int].id == channel);
            assert(self.queues@[i as int].id == channel);
            assert(self.queues@[i as int].items.deep_view() == old(self)@.queue_of(
                channel,
            ).drop_first());
            assert(self@.queues[i as int] == (QueueSnap {
                id: channel,
                items: old(self)@.queue_of(channel).drop_first(),
            }));
            assert(self@.queues =~= old(self)@.queues.update(
                i as int,
                (QueueSnap { id: channel, items: old(self)@.queue_of(channel).drop_first() }),
            ));
        }
        let mut rec = self.channels[i];
        rec.recv_count = rec.recv_count.saturating_add(1);
        rec.recv_bytes = rec.recv_bytes.saturating_add(p.len() as u64);
        self.channels.set(i, rec);
        Ok(Some(p))
    }

    /// The number of payloads waiting on the channel.
    ///
    /// Fails with `NotFound` on an unknown channel.
    pub fn queue_len(&self, channel: u64) -> (r: Result<usize, TransportError>)
        requires
            self@.wf(),
        ensures
            r is Ok <==> self@.has_channel(channel),
            r is Err ==> r == Err::<usize, TransportError>(TransportError::NotFound),
            r is Ok ==> r->Ok_0 == self@.queue_of(channel).len(),
    {
        let i = match self.find_channel(channel) {
            Some(i) => i,
            None => {
                return Err(TransportError::NotFound);
            },
        };
        Ok(self.queues[i].items.len())
    }

    /// Removes up to `max_items` payloads (the whole queue by default) and
    /// returns them oldest first. Draining leaves the receive counters alone.
    ///
    /// Fails with `NotFound` on an unknown channel, leaving state untouched.
    pub fn drain(&mut self, channel: u64, max_items: Option<usize>) -> (r: Result<
        Vec<Vec<u8>>,
        TransportError,
    >)
        requires
            old(self)@.wf(),
        ensures
            final(self)@.wf(),
            final(self)@.config == old(self)@.config,
            final(self)@.next_id == old(self)@.next_id,
            final(self)@.sessions == old(self)@.sessions,
            final(self)@.channels == old(self)@.channels,
            r is Err ==> final(self)@ == old(self)@ && r == Err::<Vec<Vec<u8>>, TransportError>(
                TransportError::NotFound,
            ),
            r is Ok <==> old(self)@.has_channel(channel),
            r is Ok ==> ({
                let q = old(self)@.queue_of(channel);
                let k = drain_count(q.len(), max_items);
                &&& (r->Ok_0).deep_view() == q.take(k as int)
                &&& final(self)@.queues == old(self)@.queues.update(
                    old(self)@.chan_i(channel),
                    (QueueSnap { id: channel, items: q.skip(k as int) }),
                )
            }),
    {
        let i = match self.find_channel(channel) {
            Some(i) => i,
            None => {
                return Err(TransportError::NotFound);
            },
        };
        let qlen = self.queues[i].items.len();
        let limit = match max_items {
            Some(m) => m,
            None => qlen,
        };
        let k = if limit < qlen {
            limit
        } else {
            qlen
        };
        let ghost orig = old(self)@.queue_of(channel);
        let mut out: Vec<Vec<u8>> = Vec::new();
        let mut j: usize = 0;
        proof {
            assert(old(self)@.queues[i as int].id == channel);
            assert(old(self)@.queues[i as int] == self.queues@[i as int]@);
            assert(orig.skip(0) =~= orig);
        }
        while j < k
            invariant
                j <= k,
                k == drain_count(orig.len(), max_items),
                k <= orig.len(),
                i < self.queues@.len(),
                out@.len() == j,
                forall|l: int| 0 <= l < j ==> (#[trigger] out@[l])@ == orig[l],
                self.queues@.len() == old(self).queues@.len(),
                forall|l: int|
                    0 <= l < self.queues@.len() && l != i as int ==> self.queues@[l]
                        == old(self).queues@[l],
                self.queues@[i as int].id == channel,
                self.queues@[i as int].items.deep_view() == orig.skip(j as int),
                self.channels@ == old(self).channels@,
                self.sessions@ == old(self).sessions@,
                self.config == old(self).config,
                self.next_id == old(self).next_id,
                old(self)@.wf(),
                old(self)@.has_channel(channel),
                old(self)@.chan_i(channel) == i as int,
                orig == old(self)@.queue_of(channel),
            decreases k - j,
        {
            let ghost pre_rec = self.queues@[i as int];
            let q = vstd::std_specs::vec::vec_index_mut(&mut self.queues, i);
            proof {
                assert(pre_rec.items.deep_view() == orig.skip(j as int));
                assert(q.items@.len() == orig.skip(j as int).len());
            }
            let p = q.items.remove(0);
            proof {
                assert(p.deep_view() == pre_rec.items.deep_view()[0]);
                assert(p.deep_view() == orig[j as int]);
                assert(p@ =~= p.deep_view());
                assert(q.items@ =~= pre_rec.items@.drop_first());
                assert forall|l: int| 0 <= l < q.items@.len() implies q.items@[l].deep_view()
                    == orig.skip(j as int + 1)[l] by {
                    assert(q.items@[l] == pre_rec.items@[l + 1]);
                    assert(pre_rec.items.deep_view()[l + 1] == orig.skip(j as int)[l + 1]);
                }
                assert(q.items.deep_view() =~= orig.skip(j as int + 1));
            }
            out.push(p);
            j = j + 1;
        }
        proof {
            assert forall|l: int| 0 <= l < k implies out.deep_view()[l] == orig.take(k as int)[l]
            by {
                assert(out@[l]@ == orig[l]);
                assert(out@[l].deep_view() =~= out@[l]@);
            }
            assert(out.deep_view() =~= orig.take(k as int));
            assert(self@.queues[i as int] == (QueueSnap {
                id: channel,
                items: orig.skip(k as int),
            }));
            assert(self@.queues =~= old(self)@.queues.update(
                i as int,
                (QueueSnap { id: channel, items: orig.skip(k as int) }),
            ));
            assert(self@.channels =~= old(self)@.channels);
            assert(self@.sessions =~= old(self)@.sessions);
        }
        Ok(out)
    }

    /// Empties the channel's queue and reports how many payloads were removed.
    ///
    /// Fails with `NotFound` on an unknown channel, leaving state untouched.
    pub fn clear_channel(&mut self, channel: u64) -> (r: Result<usize, TransportError>)
        requires
            old(self)@.wf(),
        ensures
            final(self)@.wf(),
            final(self)@.config == old(self)@.config,
            final(self)@.next_id == old(self)@.next_id,
            final(self)@.sessions == old(self)@.sessions,
            final(self)@.channels == old(self)@.channels,
            r is Err ==> final(self)@ == old(self)@ && r == Err::<usize, TransportError>(
                TransportError::NotFound,
            ),
            r is Ok <==> old(self)@.has_channel(channel),
            r is Ok ==> r->Ok_0 == old(self)@.queue_of(channel).len() && final(self)@.queues
                == old(self)@.queues.update(
                old(self)@.chan_i(channel),
                (QueueSnap { id: channel, items: Seq::<Seq<u8>>::empty() }),
            ),
    {
        let i = match self.find_channel(channel) {
            Some(i) => i,
            None => {
                return Err(TransportError::NotFound);
            },
        };
        let ghost pre_rec = self.queues@[i as int];
        let q = vstd::std_specs::vec::vec_index_mut(&mut self.queues, i);
        proof {
            assert(old(self)@.queues[i as int] == pre_rec@);
        }
        let n = q.items.len();
        q.items.clear();
        proof {
            assert(n == pre_rec.items.deep_view().len());
            assert(q.items.deep_view() =~= Seq::<Seq<u8>>::empty());
        }
        proof {
            assert(self.queues@ == old(self).queues@.update(i as int, self.queues@[i as int]));
            assert(old(self)@.queues[i as int].id == channel);
            assert(old(self).queues@[i as int].id == channel);
            assert(self.queues@[i as int].id == channel);
            assert(self@.queues[i as int] == (QueueSnap {
                id: channel,
                items: Seq::<Seq<u8>>::empty(),
            }));
            assert(self@.queues =~= old(self)@.queues.update(
                i as int,
                (QueueSnap { id: channel, items: Seq::<Seq<u8>>::empty() }),
            ));
            assert(self@.sessions == old(self)@.sessions);
            assert(self@.channels == old(self)@.channels);
            assert(self@.next_id == old(self)@.next_id);
            assert(self@.wf());
        }
        Ok(n)
    }

    /// Removes the channel and its queue together, atomically with respect to
    /// the lock-step invariant. Removing an unknown channel is a no-op: the
    /// operation is idempotent and never fails.
    pub fn close_channel(&mut self, channel: u64) -> (r: Result<(), TransportError>)
        requires
            old(self)@.wf(),
        ensures
            final(self)@.wf(),
            r == Ok::<(), TransportError>(()),
            final(self)@.config == old(self)@.config,
            final(self)@.next_id == old(self)@.next_id,
            final(self)@.sessions == old(self)@.sessions,
            old(self)@.has_channel(channel) ==> final(self)@.channels == old(self)@.channels.remove(
                old(self)@.chan_i(channel),
            ) && final(self)@.queues == old(self)@.queues.remove(old(self)@.chan_i(channel)),
            !old(self)@.has_channel(channel) ==> final(self)@ == old(self)@,
            !final(self)@.has_channel(channel),
    {
        let i = match self.find_channel(channel) {
            Some(i) => i,
            None => {
                return Ok(());
            },
        };
        self.channels.remove(i);
        self.queues.remove(i);
        proof {
            let ghost m0 = old(self)@;
            let ghost ii = i as int;
            assert(self@.channels =~= m0.channels.remove(ii));
            assert(self@.queues =~= m0.queues.remove(ii));
            let ghost mc = self@.channels;
            assert forall|l: int| 0 <= l < mc.len() implies (#[trigger] mc[l]) == (if l < ii {
                m0.channels[l]
            } else {
                m0.channels[l + 1]
            }) by {}
            assert forall|l: int| 0 <= l < mc.len() implies (#[trigger] mc[l].id) != channel by {
                if l < ii {
                    assert(m0.channels[l].id != m0.channels[ii].id);
                } else {
                    assert(m0.channels[ii].id != m0.channels[l + 1].id);
                }
            }
            assert(!self@.has_channel(channel));
            assert forall|a: int, b: int| 0 <= a < b < mc.len() implies mc[a].id != mc[b].id by {
                if b < ii {
                    assert(m0.channels[a].id != m0.channels[b].id);
                } else if a < ii {
                    assert(m0.channels[a].id != m0.channels[b + 1].id);
                } else {
                    assert(m0.channels[a + 1].id != m0.channels[b + 1].id);
                }
            }
            let ghost mq = self@.queues;
            assert forall|l: int| 0 <= l < mq.len() implies (#[trigger] mq[l]) == (if l < ii {
                m0.queues[l]
            } else {
                m0.queues[l + 1]
            }) by {}
            assert forall|l: int| 0 <= l < mq.len() implies (#[trigger] mq[l].id) == mc[l].id by {
                if l < ii {
                    assert(m0.queues[l].id == m0.channels[l].id);
                } else {
                    assert(m0.queues[l + 1].id == m0.channels[l + 1].id);
                }
            }
            assert forall|l: int|
                0 <= l < mq.len() implies (#[trigger] mq[l].items).len()
                    <= m0.config.max_queue_depth by {
                if l < ii {
                    assert(m0.queues[l].items.len() <= m0.config.max_queue_depth);
                } else {
                    assert(m0.queues[l + 1].items.len() <= m0.config.max_queue_depth);
                }
            }
            assert forall|l: int|
                0 <= l < mc.len() implies 1 <= (#[trigger] mc[l].id) < m0.next_id by {
                if l < ii {
                    assert(1 <= m0.channels[l].id < m0.next_id);
                } else {
                    assert(1 <= m0.channels[l + 1].id < m0.next_id);
                }
            }
            assert(self@.queues.len() == self@.channels.len());
            assert(self@.channels.len() <= self@.config.max_channels);
            assert(self@.next_id >= 1);
            assert(self@.sessions == m0.sessions);
            assert(forall|a: int, b: int|
                0 <= a < b < self@.sessions.len() ==> (#[trigger] self@.sessions[a].id)
                    != (#[trigger] self@.sessions[b].id));
            assert(forall|l: int|
                0 <= l < self@.sessions.len() ==> 1 <= (#[trigger] self@.sessions[l].id)
                    < self@.next_id);
            assert(self@.wf());
        }
        Ok(())
    }

    /// The channel's kind name and bound session, if any.
    ///
    /// Fails with `NotFound` on an unknown channel. The record stays readable
    /// even while its bound session is gone, until `close_channel` runs.
    pub fn channel_info(&self, channel: u64) -> (r: Result<
        (String, Option<u64>),
        TransportError,
    >)
        requires
            self@.wf(),
        ensures
            r is Ok <==> self@.has_channel(channel),
            r is Err ==> r == Err::<(String, Option<u64>), TransportError>(TransportError::NotFound),
            r is Ok ==> (r->Ok_0).0@ == self@.channel_at(channel).kind.name_seq() && (r->Ok_0).1
                == self@.channel_at(channel).session_id,
    {
        let i = match self.find_channel(channel) {
            Some(i) => i,
            None => {
                return Err(TransportError::NotFound);
            },
        };
        let rec = self.channels[i];
        Ok((rec.kind.as_str().to_owned(), rec.session_id))
    }

    /// A snapshot of one channel's counters: kind name, bound session, queue
    /// length, sent/received message counts, and sent/received byte counts.
    ///
    /// Fails with `NotFound` on an unknown channel.
    pub fn channel_stats(&self, channel: u64) -> (r: Result<
        (String, Option<u64>, usize, u64, u64, u64, u64),
        TransportError,
    >)
        requires
            self@.wf(),
        ensures
            r is Ok <==> self@.has_channel(channel),
            r is Err ==> r == Err::<(String, Option<u64>, usize, u64, u64, u64, u64),
                TransportError,
            >(TransportError::NotFound),
            r is Ok ==> ({
                let c = self@.channel_at(channel);
                &&& (r->Ok_0).0@ == c.kind.name_seq()
                &&& (r->Ok_0).1 == c.session_id
                &&& (r->Ok_0).2 == self@.queue_of(channel).len()
                &&& (r->Ok_0).3 == c.sent_count
                &&& (r->Ok_0).4 == c.recv_count
                &&& (r->Ok_0).5 == c.sent_bytes
                &&& (r->Ok_0).6 == c.recv_bytes
            }),
    {
        let i = match self.find_channel(channel) {
            Some(i) => i,
            None => {
                return Err(TransportError::NotFound);
            },
        };
        let rec = self.channels[i];
        let qlen = self.queues[i].items.len();
        Ok((rec.kind.as_str().to_owned(), rec.session_id, qlen, rec.sent_count, rec.recv_count,
            rec.sent_bytes, rec.recv_bytes))
    }

    /// A snapshot of every channel, in registration order: id, kind name, and
    /// bound session.
    pub fn list_channels(&self) -> (r: Vec<(u64, String, Option<u64>)>)
        requires
            self@.wf(),
        ensures
            r@.len() == self@.channels.len(),
            forall|l: int|
                0 <= l < r@.len() ==> {
                    let c = self@.channels[l];
                    &&& (#[trigger] r@[l]).0 == c.id
                    &&& r@[l].1@ == c.kind.name_seq()
                    &&& r@[l].2 == c.session_id
                },
    {
        let mut out: Vec<(u64, String, Option<u64>)> = Vec::new();
        let mut i: usize = 0;
        let n = self.channels.len();
        while i < n
            invariant
                i <= n,
                n == self@.channels.len(),
                self@.wf(),
                out@.len() == i,
                forall|l: int|
                    0 <= l < i ==> {
                        let c = self@.channels[l];
                        &&& (#[trigger] out@[l]).0 == c.id
                        &&& out@[l].1@ == c.kind.name_seq()
                        &&& out@[l].2 == c.session_id
                    },
            decreases n - i,
        {
            let rec = self.channels[i];
            out.push((rec.id, rec.kind.as_str().to_owned(), rec.session_id));
            i = i + 1;
        }
        out
    }

    /// A snapshot of every channel with its counters, in registration order:
    /// id, kind name, bound session, queue length, sent/received message
    /// counts, and sent/received byte counts.
    pub fn list_channel_stats(&self) -> (r: Vec<
        (u64, String, Option<u64>, usize, u64, u64, u64, u64),
    >)
        requires
            self@.wf(),
        ensures
            r@.len() == self@.channels.len(),
            forall|l: int|
                0 <= l < r@.len() ==> {
                    let c = self@.channels[l];
                    &&& (#[trigger] r@[l]).0 == c.id
                    &&& r@[l].1@ == c.kind.name_seq()
                    &&& r@[l].2 == c.session_id
                    &&& r@[l].3 == self@.queues[l].items.len()
                    &&& r@[l].4 == c.sent_count
                    &&& r@[l].5 == c.recv_count
                    &&& r@[l].6 == c.sent_bytes
                    &&& r@[l].7 == c.recv_bytes
                },
    {
        let mut out: Vec<(u64, String, Option<u64>, usize, u64, u64, u64, u64)> = Vec::new();
        let mut i: usize = 0;
        let n = self.channels.len();
        while i < n
            invariant
                i <= n,
                n == self@.channels.len(),
                self@.wf(),
                out@.len() == i,
                forall|l: int|
                    0 <= l < i ==> {
                        let c = self@.channels[l];
                        &&& (#[trigger] out@[l]).0 == c.id
                        &&& out@[l].1@ == c.kind.name_seq()
                        &&& out@[l].2 == c.session_id
                        &&& out@[l].3 == self@.queues[l].items.len()
                        &&& out@[l].4 == c.sent_count
                        &&& out@[l].5 == c.recv_count
                        &&& out@[l].6 == c.sent_bytes
                        &&& out@[l].7 == c.recv_bytes
                    },
            decreases n - i,
        {
            let rec = self.channels[i];
            let qlen = self.queues[i].items.len();
            proof {
                assert(self@.queues[i as int].items.len() == self.queues@[i as int].items@.len());
            }
            out.push((rec.id, rec.kind.as_str().to_owned(), rec.session_id, qlen, rec.sent_count,
                rec.recv_count, rec.sent_bytes, rec.recv_bytes));
            i = i + 1;
        }
        out
    }

    /// Removes every session whose heartbeat gap at `now_ms` exceeds twice the
    /// heartbeat interval, and reports how many were removed. Channels bound
    /// to a pruned session stay registered (and fail send/receive) until
    /// `close_channel` or `close_session` runs.
    pub fn prune_sessions(&mut self, now_ms: u64) -> (r: usize)
        requires
            old(self)@.wf(),
        ensures
            final(self)@.wf(),
            final(self)@.config == old(self)@.config,
            final(self)@.next_id == old(self)@.next_id,
            final(self)@.channels == old(self)@.channels,
            final(self)@.queues == old(self)@.queues,
            final(self)@.sessions == keep_live(
                old(self)@.sessions,
                now_ms,
                old(self)@.config.heartbeat_ms,
            ),
            r == old(self)@.sessions.len() - final(self)@.sessions.len(),
    {
        let limit = stale_limit(self.config.heartbeat_ms);
        let before = self.sessions.len();
        let mut rest = self.sessions.split_off(0);
        let ghost orig = old(self)@.sessions;
        let ghost hb = old(self)@.config.heartbeat_ms;
        proof {
            assert(self@.sessions =~= Seq::<SessionSnap>::empty());
            assert(rest@.map_values(|s: SessionRecord| s@) =~= orig);
            assert(orig.take(0) =~= Seq::<SessionSnap>::empty());
        }
        let mut p: usize = 0;
        while rest.len() > 0
            invariant
                p <= orig.len(),
                rest@.len() == orig.len() - p,
                forall|l: int| 0 <= l < rest@.len() ==> (#[trigger] rest@[l])@ == orig[p + l],
                self@.sessions == keep_live(orig.take(p as int), now_ms, hb),
                self@.sessions.len() <= p,
                self.channels@ == old(self).channels@,
                self.queues@ == old(self).queues@,
                self.config == old(self).config,
                self.next_id == old(self).next_id,
                limit == stale_after(hb),
                hb == old(self)@.config.heartbeat_ms,
                orig == old(self)@.sessions,
                before == orig.len(),
            decreases rest@.len(),
        {
            let s = rest.remove(0);
            proof {
                assert(s@ == orig[p as int]);
                assert(orig.take(p as int + 1).drop_last() =~= orig.take(p as int));
                assert(orig.take(p as int + 1).last() == orig[p as int]);
            }
            let live = now_ms.saturating_sub(s.last_heartbeat) <= limit;
            if live {
                self.sessions.push(s);
                proof {
                    assert(session_live(orig[p as int], now_ms, hb));
                    assert(self@.sessions =~= keep_live(orig.take(p as int), now_ms, hb).push(
                        orig[p as int],
                    ));
                    assert(self@.sessions == keep_live(orig.take(p as int + 1), now_ms, hb));
                }
            } else {
                proof {
                    assert(!session_live(orig[p as int], now_ms, hb));
                    assert(self@.sessions == keep_live(orig.take(p as int + 1), now_ms, hb));
                }
            }
            p = p + 1;
        }
        proof {
            assert(orig.take(orig.len() as int) =~= orig);
            lemma_keep_live_props(orig, now_ms, hb);
            lemma_keep_live_distinct(orig, now_ms, hb, old(self)@.next_id);
            assert(self@.channels =~= old(self)@.channels);
            assert(self@.queues =~= old(self)@.queues);
            assert(self@.wf());
        }
        before - self.sessions.len()
    }

    /// The cascade of a session close: removes, in one pass, every channel
    /// bound to the session together with its queue.
    #[verifier::rlimit(50)]
    #[verifier::spinoff_prover]
    fn sweep_bound_channels(&mut self, session_id: u64)
        requires
            old(self)@.wf(),
        ensures
            final(self)@.wf(),
            final(self)@.config == old(self)@.config,
            final(self)@.next_id == old(self)@.next_id,
            final(self)@.sessions == old(self)@.sessions,
            final(self)@.channels == keep_unbound(old(self)@.channels, session_id),
            final(self)@.queues == keep_unbound_queues(
                old(self)@.channels,
                old(self)@.queues,
                session_id,
            ),
    {
        let ghost mid_sessions = self@.sessions;
        let ghost origc = old(self)@.channels;
        let ghost origq = old(self)@.queues;
        let total = self.channels.len();
        let mut rest_ch = self.channels.split_off(0);
        let mut rest_q = self.queues.split_off(0);
        proof {
            assert(self@.channels =~= Seq::<ChannelRecord>::empty());
            assert(self@.queues =~= Seq::<QueueSnap>::empty());
            assert(rest_q@.map_values(|q: QueueRecord| q@) =~= origq);
            assert(origc.take(0) =~= Seq::<ChannelRecord>::empty());
            assert(origq.take(0) =~= Seq::<QueueSnap>::empty());
        }
        let mut p: usize = 0;
        while rest_ch.len() > 0
            invariant
                p <= origc.len(),
                origq.len() == origc.len(),
                rest_ch@.len() == origc.len() - p,
                rest_q@.len() == rest_ch@.len(),
                forall|l: int| 0 <= l < rest_ch@.len() ==> (#[trigger] rest_ch@[l]) == origc[p + l],
                forall|l: int| 0 <= l < rest_q@.len() ==> (#[trigger] rest_q@[l])@ == origq[p + l],
                self@.channels == keep_unbound(origc.take(p as int), session_id),
                self@.queues == keep_unbound_queues(
                    origc.take(p as int),
                    origq.take(p as int),
                    session_id,
                ),
                self@.queues.len() == self@.channels.len(),
                self@.channels.len() <= p,
                self@.sessions == mid_sessions,
                self.config == old(self).config,
                self.next_id == old(self).next_id,
                origc == old(self)@.channels,
                origq == old(self)@.queues,
                total == origc.len(),
            decreases rest_ch@.len(),
        {
            let c = rest_ch.remove(0);
            let q = rest_q.remove(0);
            proof {
                assert(c == origc[p as int]);
                assert(q@ == origq[p as int]);
                assert(origc.take(p as int + 1).drop_last() =~= origc.take(p as int));
                assert(origq.take(p as int + 1).drop_last() =~= origq.take(p as int));
                assert(origc.take(p as int + 1).last() == origc[p as int]);
                assert(origq.take(p as int + 1).last() == origq[p as int]);
            }
            let keep = match c.session_id {
                Some(s) => s != session_id,
                None => true,
            };
            if keep {
                self.channels.push(c);
                self.queues.push(q);
                proof {
                    assert(origc[p as int].session_id != Some(session_id));
                    assert(self@.channels =~= keep_unbound(
                        origc.take(p as int),
                        session_id,
                    ).push(origc[p as int]));
                    assert(self@.channels == keep_unbound(origc.take(p as int + 1), session_id));
                    assert(self@.queues =~= keep_unbound_queues(
                        origc.take(p as int),
                        origq.take(p as int),
                        session_id,
                    ).push(origq[p as int]));
                    assert(self@.queues == keep_unbound_queues(
                        origc.take(p as int + 1),
                        origq.take(p as int + 1),
                        session_id,
                    ));
                }
            } else {
                proof {
                    assert(origc[p as int].session_id == Some(session_id));
                    assert(self@.channels == keep_unbound(origc.take(p as int + 1), session_id));
                    assert(self@.queues == keep_unbound_queues(
                        origc.take(p as int + 1),
                        origq.take(p as int + 1),
                        session_id,
                    ));
                }
            }
            p = p + 1;
        }
        proof {
            assert(origc.take(origc.len() as int) =~= origc);
            assert(origq.take(origq.len() as int) =~= origq);
            lemma_sweep_wf(old(self)@, self@, session_id);
        }
    }

    /// Closes the session and cascades: every channel bound to it is removed
    /// together with its queue, atomically with respect to the lock-step
    /// invariant. Idempotent, and never fails: closing an unknown session still
    /// sweeps out any channels left bound to that id.
    pub fn close_session(&mut self, session_id: u64) -> (r: Result<(), TransportError>)
        requires
            old(self)@.wf(),
        ensures
            final(self)@.wf(),
            r == Ok::<(), TransportError>(()),
            final(self)@.config == old(self)@.config,
            final(self)@.next_id == old(self)@.next_id,
            old(self)@.has_session(session_id) ==> final(self)@.sessions
                == old(self)@.sessions.remove(old(self)@.session_i(session_id)),
            !old(self)@.has_session(session_id) ==> final(self)@.sessions == old(self)@.sessions,
            !final(self)@.has_session(session_id),
            final(self)@.channels == keep_unbound(old(self)@.channels, session_id),
            final(self)@.queues == keep_unbound_queues(
                old(self)@.channels,
                old(self)@.queues,
                session_id,
            ),
    {
        if let Some(i) = self.find_session(session_id) {
            self.sessions.remove(i);
            proof {
                let ghost m0 = old(self)@;
                let ghost ii = i as int;
                assert(self@.sessions =~= m0.sessions.remove(ii));
                let ghost ms = self@.sessions;
                assert forall|l: int| 0 <= l < ms.len() implies (#[trigger] ms[l]) == (if l < ii {
                    m0.sessions[l]
                } else {
                    m0.sessions[l + 1]
                }) by {}
                assert forall|l: int| 0 <= l < ms.len() implies (#[trigger] ms[l].id)
                    != session_id by {
                    if l < ii {
                        assert(m0.sessions[l].id != m0.sessions[ii].id);
                    } else {
                        assert(m0.sessions[ii].id != m0.sessions[l + 1].id);
                    }
                }
                assert forall|a: int, b: int| 0 <= a < b < ms.len() implies ms[a].id != ms[b].id by {
                    if b < ii {
                        assert(m0.sessions[a].id != m0.sessions[b].id);
                    } else if a < ii {
                        assert(m0.sessions[a].id != m0.sessions[b + 1].id);
                    } else {
                        assert(m0.sessions[a + 1].id != m0.sessions[b + 1].id);
                    }
                }
                assert forall|l: int|
                    0 <= l < ms.len() implies 1 <= (#[trigger] ms[l].id) < m0.next_id by {
                    if l < ii {
                        assert(1 <= m0.sessions[l].id < m0.next_id);
                    } else {
                        assert(1 <= m0.sessions[l + 1].id < m0.next_id);
                    }
                }
            }
        }
        let ghost mid_sessions = self@.sessions;
        proof {
            assert forall|l: int|
                0 <= l < mid_sessions.len() implies (#[trigger] mid_sessions[l].id)
                    != session_id by {
                if mid_sessions[l].id == session_id {
                    assert(self@.has_session(session_id));
                }
            }
            assert(self@.wf());
        }
        self.sweep_bound_channels(session_id);
        proof {
            assert(!self@.has_session(session_id));
        }
        Ok(())
    }
}

/// The model left by the cascade of a session close is well-formed.
proof fn lemma_sweep_wf(m0: TransportModel, m1: TransportModel, sid: u64)
    requires
        m0.wf(),
        m1.config == m0.config,
        m1.next_id == m0.next_id,
        m1.sessions == m0.sessions,
        m1.channels == keep_unbound(m0.channels, sid),
        m1.queues == keep_unbound_queues(m0.channels, m0.queues, sid),
    ensures
        m1.wf(),
{
    lemma_keep_unbound_props(m0.channels, m0.queues, sid);
    lemma_keep_unbound_distinct(m0.channels, sid, m0.next_id);
    let rc = m1.channels;
    let rq = m1.queues;
    assert forall|l: int| 0 <= l < rq.len() implies (#[trigger] rq[l].id) == rc[l].id by {
        let m = choose|m: int|
            0 <= m < m0.channels.len() && rc[l] == m0.channels[m] && #[trigger] keep_unbound_queues(
                m0.channels,
                m0.queues,
                sid,
            )[l] == m0.queues[m];
        assert(m0.queues[m].id == m0.channels[m].id);
    }
    assert forall|l: int| 0 <= l < rq.len() implies (#[trigger] rq[l].items).len()
        <= m0.config.max_queue_depth by {
        let m = choose|m: int|
            0 <= m < m0.channels.len() && rc[l] == m0.channels[m] && #[trigger] keep_unbound_queues(
                m0.channels,
                m0.queues,
                sid,
            )[l] == m0.queues[m];
        assert(m0.queues[m].items.len() <= m0.config.max_queue_depth);
    }
    assert(forall|l: int|
        0 <= l < m1.channels.len() ==> (#[trigger] m1.queues[l].id) == m1.channels[l].id);
    assert(forall|l: int|
        0 <= l < m1.queues.len() ==> (#[trigger] m1.queues[l].items).len()
            <= m1.config.max_queue_depth);
}

/// A channel queue after a whole sequence of sends/// A channel queue after a whole sequence of sends, in order, with no
/// intervening overflow: each accepted payload joins the back, exactly as the
/// send contract appends it.
pub open spec fn enqueue_all(q: Seq<Seq<u8>>, ps: Seq<Seq<u8>>) -> Seq<Seq<u8>>
    decreases ps.len(),
{
    if ps.len() == 0 {
        q
    } else {
        enqueue_all(q, ps.drop_last()).push(ps.last())
    }
}

/// Law: strict FIFO per channel. A queue that accepted a sequence of payloads
/// holds them after its earlier contents, in exactly the order sent; since
/// `receive` returns the head and `drain` returns a prefix in order, payloads
/// come back in the order `send` accepted them.
pub proof fn lemma_fifo_order(q: Seq<Seq<u8>>, ps: Seq<Seq<u8>>)
    ensures
        enqueue_all(q, ps) == q + ps,
    decreases ps.len(),
{
    if ps.len() == 0 {
        assert(q + ps =~= q);
    } else {
        lemma_fifo_order(q, ps.drop_last());
        assert(enqueue_all(q, ps) =~= q + ps);
    }
}

/// The cascade keeps no channel bound to the closed session.
pub proof fn lemma_keep_unbound_no_bound(ch: Seq<ChannelRecord>, sid: u64)
    ensures
        forall|l: int|
            0 <= l < keep_unbound(ch, sid).len() ==> (#[trigger] keep_unbound(
                ch,
                sid,
            )[l]).session_id != Some(sid),
    decreases ch.len(),
{
    if ch.len() > 0 {
        lemma_keep_unbound_no_bound(ch.drop_last(), sid);
    }
}

/// Law: closing a session removes every channel bound to it. No surviving
/// channel carries the closed channel's id, so a later `send` or `receive` on
/// that id fails with `NotFound` by their contracts.
pub proof fn lemma_close_session_removes_bound(m: TransportModel, sid: u64, c: u64)
    requires
        m.wf(),
        m.has_channel(c),
        m.channel_at(c).session_id == Some(sid),
    ensures
        forall|l: int|
            0 <= l < keep_unbound(m.channels, sid).len() ==> (#[trigger] keep_unbound(
                m.channels,
                sid,
            )[l].id) != c,
{
    lemma_keep_unbound_subset(m.channels, sid);
    let rc = keep_unbound(m.channels, sid);
    lemma_keep_unbound_no_bound(m.channels, sid);
    assert forall|l: int| 0 <= l < rc.len() implies (#[trigger] rc[l].id) != c by {
        if rc[l].id == c {
            assert(rc.contains(rc[l]));
            assert(m.channels.contains(rc[l]));
            let i = choose|i: int| 0 <= i < m.channels.len() && m.channels[i] == rc[l];
            lemma_chan_i_unique(m, c, i);
            assert(m.channels[i].session_id == Some(sid));
            assert(rc[l].session_id != Some(sid));
        }
    }
}

} // verus!
