//! Per-peer connection lifecycle and the registry that owns every live
//! connection: the handshake state machine, the two named data channels with
//! their bounded send queues, clipboard broadcast routing, and the
//! symmetric-discovery tie-break.

use vstd::prelude::*;
use vstd::string::StrSliceExecFns;

verus! {

/// The lifecycle of one negotiated transport session.
#[derive(Clone, Copy, Debug, PartialEq, Eq, Structural)]
pub enum ConnectionState {
    New,
    Offering,
    Answering,
    Negotiating,
    Connected,
    Closed,
    Failed,
}

/// What the handshake, the transport, or the caller reports about one
/// connection.
#[derive(Clone, Copy, Debug, PartialEq, Eq, Structural)]
pub enum ConnectionEvent {
    OfferSent,
    OfferReceived,
    AnswerSent,
    AnswerReceived,
    CandidateReceived,
    TransportConnected,
    CloseRequested,
    RemoteDisconnected,
    TransportFailed,
}

/// A state no event leaves again.
pub open spec fn spec_terminal(s: ConnectionState) -> bool {
    s is Closed || s is Failed
}

/// The transition table of the connection state machine. Candidates may
/// arrive at any point of the handshake and never move the state; stale or
/// out-of-place events are ignored rather than faulted.
pub open spec fn spec_step(s: ConnectionState, e: ConnectionEvent) -> ConnectionState {
    if spec_terminal(s) {
        s
    } else if e is TransportFailed {
        ConnectionState::Failed
    } else if e is CloseRequested {
        ConnectionState::Closed
    } else {
        match s {
            ConnectionState::New => match e {
                ConnectionEvent::OfferSent => ConnectionState::Offering,
                ConnectionEvent::OfferReceived => ConnectionState::Answering,
                _ => s,
            },
            ConnectionState::Offering => match e {
                ConnectionEvent::AnswerReceived => ConnectionState::Negotiating,
                _ => s,
            },
            ConnectionState::Answering => match e {
                ConnectionEvent::AnswerSent => ConnectionState::Negotiating,
                _ => s,
            },
            ConnectionState::Negotiating => match e {
                ConnectionEvent::TransportConnected => ConnectionState::Connected,
                _ => s,
            },
            ConnectionState::Connected => match e {
                ConnectionEvent::RemoteDisconnected => ConnectionState::Closed,
                _ => s,
            },
            _ => s,
        }
    }
}

/// Closed and Failed absorb every event.
pub proof fn lemma_terminal_absorbs(s: ConnectionState, e: ConnectionEvent)
    requires
        spec_terminal(s),
    ensures
        spec_step(s, e) == s,
{
}

/// Connected is entered only from Negotiating, and only when the transport
/// reports it: the one point at which data channels become usable.
pub proof fn lemma_connected_entry(s: ConnectionState, e: ConnectionEvent)
    requires
        spec_step(s, e) is Connected,
    ensures
        s is Connected || (s is Negotiating && e is TransportConnected),
{
}

/// Steps the connection state machine, exactly as `spec_step` says.
pub fn step(s: ConnectionState, e: ConnectionEvent) -> (r: ConnectionState)
    ensures
        r == spec_step(s, e),
{
    match s {
        ConnectionState::Closed => s,
        ConnectionState::Failed => s,
        _ => match e {
            ConnectionEvent::TransportFailed => ConnectionState::Failed,
            ConnectionEvent::CloseRequested => ConnectionState::Closed,
            _ => match (s, e) {
                (ConnectionState::New, ConnectionEvent::OfferSent) => ConnectionState::Offering,
                (ConnectionState::New, ConnectionEvent::OfferReceived) => ConnectionState::Answering,
                (ConnectionState::Offering, ConnectionEvent::AnswerReceived) => ConnectionState::Negotiating,
                (ConnectionState::Answering, ConnectionEvent::AnswerSent) => ConnectionState::Negotiating,
                (ConnectionState::Negotiating, ConnectionEvent::TransportConnected) => ConnectionState::Connected,
                (ConnectionState::Connected, ConnectionEvent::RemoteDisconnected) => ConnectionState::Closed,
                _ => s,
            },
        },
    }
}

/// One named data channel of a connection, with its bounded outbound queue.
#[derive(Clone, Copy, Debug)]
pub struct ChannelState {
    pub open: bool,
    pub queue_depth: usize,
    pub queue_bound: usize,
    pub last_activity: u64,
}

impl ChannelState {
    pub open spec fn wf(&self) -> bool {
        &&& self.queue_bound > 0
        &&& self.queue_depth <= self.queue_bound
    }

    /// A channel as it starts out and as it ends up: closed and idle.
    pub open spec fn spec_closed(bound: usize, last_activity: u64) -> ChannelState {
        ChannelState { open: false, queue_depth: 0, queue_bound: bound, last_activity }
    }
}

/// One peer connection: the handshake session it came from, its state, and
/// its two data channels.
pub struct PeerConnection {
    pub peer_id: String,
    pub session_id: u64,
    pub state: ConnectionState,
    pub clipboard_channel: ChannelState,
    pub file_channel: ChannelState,
}

/// A connection that still counts against the one-per-peer rule.
pub open spec fn spec_live(c: PeerConnection) -> bool {
    !spec_terminal(c.state)
}

impl PeerConnection {
    pub open spec fn wf(&self) -> bool {
        &&& self.clipboard_channel.wf()
        &&& self.file_channel.wf()
        &&& (self.clipboard_channel.open || self.file_channel.open) ==> self.state is Connected
    }

    /// A fresh connection for one handshake attempt: nothing negotiated,
    /// both channels closed.
    pub fn new(peer_id: String, session_id: u64, queue_bound: usize) -> (c: PeerConnection)
        requires
            queue_bound > 0,
        ensures
            c.wf(),
            c.peer_id@ == peer_id@,
            c.session_id == session_id,
            c.state is New,
            c.clipboard_channel == ChannelState::spec_closed(queue_bound, 0),
            c.file_channel == ChannelState::spec_closed(queue_bound, 0),
    {
        PeerConnection {
            peer_id,
            session_id,
            state: ConnectionState::New,
            clipboard_channel: ChannelState { open: false, queue_depth: 0, queue_bound, last_activity: 0 },
            file_channel: ChannelState { open: false, queue_depth: 0, queue_bound, last_activity: 0 },
        }
    }

    /// Steps the state machine. Reaching Closed or Failed cancels whatever
    /// was queued and closes both channels; any other step leaves the
    /// channels alone.
    pub fn apply_event(&mut self, e: ConnectionEvent)
        requires
            old(self).wf(),
        ensures
            final(self).wf(),
            final(self).state == spec_step(old(self).state, e),
            final(self).peer_id == old(self).peer_id,
            final(self).session_id == old(self).session_id,
            spec_terminal(final(self).state) ==> final(self).clipboard_channel
                == ChannelState::spec_closed(
                old(self).clipboard_channel.queue_bound,
                old(self).clipboard_channel.last_activity,
            ) && final(self).file_channel == ChannelState::spec_closed(
                old(self).file_channel.queue_bound,
                old(self).file_channel.last_activity,
            ),
            !spec_terminal(final(self).state) ==> final(self).clipboard_channel == old(
                self,
            ).clipboard_channel && final(self).file_channel == old(self).file_channel,
    {
        let next = step(self.state, e);
        self.state = next;
        if matches!(next, ConnectionState::Closed) || matches!(next, ConnectionState::Failed) {
            self.clipboard_channel.open = false;
            self.clipboard_channel.queue_depth = 0;
            self.file_channel.open = false;
            self.file_channel.queue_depth = 0;
        }
    }

    /// The transport reports a channel's open completion; only a Connected
    /// connection gets one.
    pub fn on_clipboard_open(&mut self, now: u64)
        requires
            old(self).wf(),
            old(self).state is Connected,
        ensures
            final(self).wf(),
            *final(self) == (PeerConnection {
                clipboard_channel: ChannelState {
                    open: true,
                    last_activity: now,
                    ..old(self).clipboard_channel
                },
                ..*old(self)
            }),
    {
        self.clipboard_channel.open = true;
        self.clipboard_channel.last_activity = now;
    }

    /// The transport reports the file channel's open completion.
    pub fn on_file_open(&mut self, now: u64)
        requires
            old(self).wf(),
            old(self).state is Connected,
        ensures
            final(self).wf(),
            *final(self) == (PeerConnection {
                file_channel: ChannelState {
                    open: true,
                    last_activity: now,
                    ..old(self).file_channel
                },
                ..*old(self)
            }),
    {
        self.file_channel.open = true;
        self.file_channel.last_activity = now;
    }

    /// Whether a clipboard broadcast to this peer would be accepted right
    /// now: connected, channel open, and room in the bounded queue.
    pub open spec fn spec_accepts_clipboard(&self) -> bool {
        &&& self.state is Connected
        &&& self.clipboard_channel.open
        &&& self.clipboard_channel.queue_depth < self.clipboard_channel.queue_bound
    }

    /// The connection after one clipboard broadcast: the queue grows by one
    /// when there is room, and the broadcast is dropped (nothing changes)
    /// when there is none — clipboard is a latest-wins signal.
    pub open spec fn spec_after_clipboard(c: PeerConnection, now: u64) -> PeerConnection {
        if c.spec_accepts_clipboard() {
            PeerConnection {
                clipboard_channel: ChannelState {
                    queue_depth: (c.clipboard_channel.queue_depth + 1) as usize,
                    last_activity: now,
                    ..c.clipboard_channel
                },
                ..c
            }
        } else {
            c
        }
    }

    /// Queues one clipboard broadcast, dropping it when the bounded queue is
    /// full. The queue never outgrows its bound.
    pub fn enqueue_clipboard(&mut self, now: u64) -> (accepted: bool)
        requires
            old(self).wf(),
        ensures
            final(self).wf(),
            accepted == old(self).spec_accepts_clipboard(),
            *final(self) == PeerConnection::spec_after_clipboard(*old(self), now),
    {
        if matches!(self.state, ConnectionState::Connected) && self.clipboard_channel.open
            && self.clipboard_channel.queue_depth < self.clipboard_channel.queue_bound {
            self.clipboard_channel.queue_depth = self.clipboard_channel.queue_depth + 1;
            self.clipboard_channel.last_activity = now;
            true
        } else {
            false
        }
    }

    /// Whether a file chunk can be queued right now.
    pub open spec fn spec_accepts_file(&self) -> bool {
        &&& self.state is Connected
        &&& self.file_channel.open
        &&& self.file_channel.queue_depth < self.file_channel.queue_bound
    }

    /// Queues one file chunk. Unlike a clipboard broadcast, a refusal drops
    /// nothing: the chunk stays with the caller, which must retry once the
    /// queue has drained, so a transfer loses no data under backpressure.
    pub fn enqueue_file_chunk(&mut self, now: u64) -> (accepted: bool)
        requires
            old(self).wf(),
        ensures
            final(self).wf(),
            accepted == old(self).spec_accepts_file(),
            accepted ==> *final(self) == (PeerConnection {
                file_channel: ChannelState {
                    queue_depth: (old(self).file_channel.queue_depth + 1) as usize,
                    last_activity: now,
                    ..old(self).file_channel
                },
                ..*old(self)
            }),
            !accepted ==> *final(self) == *old(self),
    {
        if matches!(self.state, ConnectionState::Connected) && self.file_channel.open
            && self.file_channel.queue_depth < self.file_channel.queue_bound {
            self.file_channel.queue_depth = self.file_channel.queue_depth + 1;
            self.file_channel.last_activity = now;
            true
        } else {
            false
        }
    }

    /// The transport finished sending one queued clipboard message.
    pub fn clipboard_sent(&mut self)
        requires
            old(self).wf(),
            old(self).clipboard_channel.queue_depth > 0,
        ensures
            final(self).wf(),
            *final(self) == (PeerConnection {
                clipboard_channel: ChannelState {
                    queue_depth: (old(self).clipboard_channel.queue_depth - 1) as usize,
                    ..old(self).clipboard_channel
                },
                ..*old(self)
            }),
    {
        self.clipboard_channel.queue_depth = self.clipboard_channel.queue_depth - 1;
    }

    /// The transport finished sending one queued file chunk.
    pub fn file_sent(&mut self)
        requires
            old(self).wf(),
            old(self).file_channel.queue_depth > 0,
        ensures
            final(self).wf(),
            *final(self) == (PeerConnection {
                file_channel: ChannelState {
                    queue_depth: (old(self).file_channel.queue_depth - 1) as usize,
                    ..old(self).file_channel
                },
                ..*old(self)
            }),
    {
        self.file_channel.queue_depth = self.file_channel.queue_depth - 1;
    }
}

/// A connection whose handshake is still in progress: the only window in
/// which signaling messages for its session are accepted.
pub open spec fn spec_handshaking(c: PeerConnection) -> bool {
    c.state is New || c.state is Offering || c.state is Answering || c.state is Negotiating
}

/// A connection as `register` leaves a superseded one: closed, queues
/// cancelled.
pub open spec fn spec_close(c: PeerConnection) -> PeerConnection {
    PeerConnection {
        state: spec_step(c.state, ConnectionEvent::CloseRequested),
        clipboard_channel: ChannelState::spec_closed(
            c.clipboard_channel.queue_bound,
            c.clipboard_channel.last_activity,
        ),
        file_channel: ChannelState::spec_closed(
            c.file_channel.queue_bound,
            c.file_channel.last_activity,
        ),
        ..c
    }
}

/// Why a file-send request was refused.
#[derive(Clone, Copy, Debug, PartialEq, Eq, Structural)]
pub enum SendFileError {
    UnknownPeer,
    NotConnected,
}

/// The number of connections among the first `k` that would accept a
/// clipboard broadcast.
pub open spec fn spec_count_delivered(s: Seq<PeerConnection>, k: int) -> int
    decreases k,
{
    if k <= 0 {
        0
    } else {
        spec_count_delivered(s, k - 1) + if s[k - 1].spec_accepts_clipboard() {
            1int
        } else {
            0int
        }
    }
}

/// An open clipboard channel whose bounded queue is already full: the
/// broadcast to it is dropped.
pub open spec fn spec_clipboard_full(c: PeerConnection) -> bool {
    c.state is Connected && c.clipboard_channel.open && c.clipboard_channel.queue_depth
        >= c.clipboard_channel.queue_bound
}

/// The number of connections among the first `k` whose full queue drops the
/// broadcast.
pub open spec fn spec_count_dropped(s: Seq<PeerConnection>, k: int) -> int
    decreases k,
{
    if k <= 0 {
        0
    } else {
        spec_count_dropped(s, k - 1) + if spec_clipboard_full(s[k - 1]) {
            1int
        } else {
            0int
        }
    }
}

/// Owns every PeerConnection. At most one live (neither Closed nor Failed)
/// connection exists per peer id at any time.
pub struct ConnectionRegistry {
    pub conns: Vec<PeerConnection>,
}

impl ConnectionRegistry {
    pub open spec fn wf(&self) -> bool {
        &&& forall|i: int| 0 <= i < self.conns@.len() ==> self.conns@[i].wf()
        &&& forall|i: int, j: int|
            0 <= i < j < self.conns@.len() && spec_live(self.conns@[i]) && spec_live(
                self.conns@[j],
            ) ==> self.conns@[i].peer_id@ != self.conns@[j].peer_id@
    }

    pub fn new() -> (r: ConnectionRegistry)
        ensures
            r.wf(),
            r.conns@.len() == 0,
    {
        ConnectionRegistry { conns: Vec::new() }
    }

    /// Never two live connections to the same peer: in a well-formed
    /// registry, a peer id picks out at most one connection that is neither
    /// Closed nor Failed.
    pub proof fn lemma_one_live_per_peer(&self, i: int, j: int)
        requires
            self.wf(),
            0 <= i < self.conns@.len(),
            0 <= j < self.conns@.len(),
            spec_live(self.conns@[i]),
            spec_live(self.conns@[j]),
            self.conns@[i].peer_id@ == self.conns@[j].peer_id@,
        ensures
            i == j,
    {
    }

    /// The index of the live connection for this peer, if one exists.
    fn find_live(&self, peer_id: &String) -> (r: Option<usize>)
        ensures
            r is Some ==> 0 <= r->0 < self.conns@.len() && spec_live(self.conns@[r->0 as int])
                && self.conns@[r->0 as int].peer_id@ == peer_id@,
            r is None ==> forall|i: int|
                0 <= i < self.conns@.len() && spec_live(self.conns@[i]) ==> self.conns@[i].peer_id@
                    != peer_id@,
    {
        let mut i: usize = 0;
        while i < self.conns.len()
            invariant
                i <= self.conns@.len(),
                forall|k: int|
                    0 <= k < i && spec_live(self.conns@[k]) ==> self.conns@[k].peer_id@ != peer_id@,
            decreases self.conns@.len() - i,
        {
            let c = &self.conns[i];
            let live = !matches!(c.state, ConnectionState::Closed) && !matches!(
                c.state,
                ConnectionState::Failed,
            );
            if live && c.peer_id.eq(peer_id) {
                return Some(i);
            }
            i += 1;
        }
        None
    }

    /// Registers a connection for its peer. If a live connection to the same
    /// peer already exists, it is superseded — explicitly closed, its queued
    /// sends cancelled — so the peer never has two live connections.
    pub fn register(&mut self, conn: PeerConnection) -> (superseded: bool)
        requires
            old(self).wf(),
            conn.wf(),
            spec_live(conn),
        ensures
            final(self).wf(),
            superseded ==> exists|i: int|
                0 <= i < old(self).conns@.len() && spec_live(old(self).conns@[i])
                    && old(self).conns@[i].peer_id@ == conn.peer_id@
                    && final(self).conns@ == old(self).conns@.update(
                    i,
                    spec_close(old(self).conns@[i]),
                ).push(conn),
            !superseded ==> final(self).conns@ == old(self).conns@.push(conn) && (forall|i: int|
                0 <= i < old(self).conns@.len() && spec_live(old(self).conns@[i]) ==> old(
                    self,
                ).conns@[i].peer_id@ != conn.peer_id@),
    {
        match self.find_live(&conn.peer_id) {
            Some(i) => {
                let ghost orig = self.conns@;
                let mut c = self.conns.remove(i);
                c.apply_event(ConnectionEvent::CloseRequested);
                proof {
                    assert(c == spec_close(orig[i as int]));
                }
                self.conns.insert(i, c);
                proof {
                    assert(self.conns@ =~= orig.update(i as int, spec_close(orig[i as int])));
                }
                self.conns.push(conn);
                proof {
                    let after = orig.update(i as int, spec_close(orig[i as int])).push(conn);
                    assert(self.conns@ =~= after);
                    assert forall|p: int, q: int|
                        0 <= p < q < after.len() && spec_live(after[p]) && spec_live(
                            after[q],
                        ) implies after[p].peer_id@ != after[q].peer_id@ by {
                        if q == after.len() - 1 {
                            if p != i {
                                assert(after[p] == orig[p]);
                            }
                        }
                    }
                }
                true
            },
            None => {
                self.conns.push(conn);
                proof {
                    assert forall|p: int, q: int|
                        0 <= p < q < self.conns@.len() && spec_live(self.conns@[p]) && spec_live(
                            self.conns@[q],
                        ) implies self.conns@[p].peer_id@ != self.conns@[q].peer_id@ by {
                        if q == self.conns@.len() - 1 {
                            assert(self.conns@[p] == old(self).conns@[p]);
                        }
                    }
                }
                false
            },
        }
    }

    /// Takes the live connection for this peer out of the set, reporting
    /// whether there was one.
    pub fn unregister(&mut self, peer_id: &String) -> (found: bool)
        requires
            old(self).wf(),
        ensures
            final(self).wf(),
            found ==> exists|i: int|
                0 <= i < old(self).conns@.len() && spec_live(old(self).conns@[i])
                    && old(self).conns@[i].peer_id@ == peer_id@
                    && final(self).conns@ == old(self).conns@.remove(i),
            !found ==> final(self).conns@ == old(self).conns@ && (forall|i: int|
                0 <= i < old(self).conns@.len() && spec_live(old(self).conns@[i]) ==> old(
                    self,
                ).conns@[i].peer_id@ != peer_id@),
    {
        match self.find_live(peer_id) {
            Some(i) => {
                let ghost orig = self.conns@;
                self.conns.remove(i);
                proof {
                    assert forall|k: int| 0 <= k < self.conns@.len() implies self.conns@[k].wf() by {
                        if k < i {
                            assert(self.conns@[k] == orig[k]);
                        } else {
                            assert(self.conns@[k] == orig[k + 1]);
                        }
                    }
                    assert forall|p: int, q: int|
                        0 <= p < q < self.conns@.len() && spec_live(self.conns@[p]) && spec_live(
                            self.conns@[q],
                        ) implies self.conns@[p].peer_id@ != self.conns@[q].peer_id@ by {
                        let p0: int = if p < i { p } else { p + 1 };
                        let q0: int = if q < i { q } else { q + 1 };
                        assert(self.conns@[p] == orig[p0]);
                        assert(self.conns@[q] == orig[q0]);
                    }
                }
                true
            },
            None => false,
        }
    }

    /// Drops every Closed and Failed connection, keeping the live ones in
    /// order.
    pub fn prune_closed(&mut self)
        requires
            old(self).wf(),
        ensures
            final(self).wf(),
            final(self).conns@ == old(self).conns@.filter(|c: PeerConnection| spec_live(c)),
            forall|i: int| 0 <= i < final(self).conns@.len() ==> spec_live(final(self).conns@[i]),
    {
        let ghost orig = self.conns@;
        let ghost pred = |c: PeerConnection| spec_live(c);
        let mut kept: Vec<PeerConnection> = Vec::new();
        let ghost mut i: int = 0;
        proof {
            assert(orig.subrange(0, 0).filter(pred) =~= Seq::<PeerConnection>::empty());
        }
        while self.conns.len() > 0
            invariant
                old(self).wf(),
                orig == old(self).conns@,
                0 <= i <= orig.len(),
                self.conns@ == orig.subrange(i, orig.len() as int),
                kept@ == orig.subrange(0, i).filter(pred),
                pred == (|c: PeerConnection| spec_live(c)),
                forall|k: int| 0 <= k < kept@.len() ==> kept@[k].wf() && spec_live(kept@[k]),
                forall|p: int, q: int|
                    0 <= p < q < kept@.len() ==> kept@[p].peer_id@ != kept@[q].peer_id@,
                forall|k: int, m: int|
                    #![trigger kept@[k].peer_id@, orig[m].peer_id@]
                    0 <= k < kept@.len() && i <= m < orig.len() && spec_live(orig[m])
                        ==> kept@[k].peer_id@ != orig[m].peer_id@,
            decreases self.conns@.len(),
        {
            let c = self.conns.remove(0);
            proof {
                assert(c == orig[i]);
                assert(orig[i].wf());
                assert(self.conns@ =~= orig.subrange(i + 1, orig.len() as int));
                assert(orig.subrange(0, i + 1) =~= orig.subrange(0, i) + seq![c]);
                Seq::<PeerConnection>::filter_distributes_over_add(
                    orig.subrange(0, i),
                    seq![c],
                    pred,
                );
                reveal_with_fuel(Seq::filter, 2);
                assert(seq![c].drop_last() =~= Seq::<PeerConnection>::empty());
                if pred(c) {
                    assert(seq![c].filter(pred) =~= seq![c]);
                } else {
                    assert(seq![c].filter(pred) =~= Seq::<PeerConnection>::empty());
                }
            }
            let live = !matches!(c.state, ConnectionState::Closed) && !matches!(
                c.state,
                ConnectionState::Failed,
            );
            if live {
                let ghost kept_before = kept@;
                proof {
                    assert forall|k: int| 0 <= k < kept_before.len() implies kept_before[k].peer_id@
                        != c.peer_id@ by {
                        assert(kept_before[k].peer_id@ != orig[i].peer_id@);
                    }
                }
                kept.push(c);
                proof {
                    assert(kept@ =~= orig.subrange(0, i).filter(pred) + seq![c]);
                    assert(kept@ =~= orig.subrange(0, i + 1).filter(pred));
                    assert forall|k: int, m: int|
                        #![trigger kept@[k].peer_id@, orig[m].peer_id@]
                        0 <= k < kept@.len() && i + 1 <= m < orig.len() && spec_live(
                            orig[m],
                        ) implies kept@[k].peer_id@ != orig[m].peer_id@ by {
                        if k == kept@.len() - 1 {
                            assert(kept@[k] == orig[i]);
                            assert(orig[i].peer_id@ != orig[m].peer_id@);
                        } else {
                            assert(kept@[k] == kept_before[k]);
                        }
                    }
                }
            } else {
                proof {
                    assert(kept@ =~= orig.subrange(0, i + 1).filter(pred));
                }
            }
            proof {
                i = i + 1;
            }
        }
        proof {
            assert(orig.subrange(i, orig.len() as int).len() == 0);
            assert(i == orig.len());
            assert(orig.subrange(0, orig.len() as int) =~= orig);
        }
        self.conns = kept;
    }

    /// Routes one clipboard broadcast to every peer: each open, connected
    /// clipboard channel with room queues it; a full queue drops it — one
    /// slow peer never blocks the rest. Returns how many deliveries were
    /// queued and how many were dropped.
    pub fn broadcast_clipboard(&mut self, now: u64) -> (counts: (usize, usize))
        requires
            old(self).wf(),
        ensures
            final(self).wf(),
            final(self).conns@.len() == old(self).conns@.len(),
            forall|i: int|
                0 <= i < old(self).conns@.len() ==> final(self).conns@[i]
                    == PeerConnection::spec_after_clipboard(old(self).conns@[i], now),
            counts.0 == spec_count_delivered(old(self).conns@, old(self).conns@.len() as int),
            counts.1 == spec_count_dropped(old(self).conns@, old(self).conns@.len() as int),
    {
        let ghost orig = self.conns@;
        let mut delivered: usize = 0;
        let mut dropped: usize = 0;
        let mut i: usize = 0;
        while i < self.conns.len()
            invariant
                old(self).wf(),
                orig == old(self).conns@,
                i <= orig.len(),
                self.conns@.len() == orig.len(),
                forall|k: int|
                    0 <= k < i ==> self.conns@[k] == PeerConnection::spec_after_clipboard(
                        orig[k],
                        now,
                    ),
                forall|k: int| i <= k < orig.len() ==> self.conns@[k] == orig[k],
                delivered == spec_count_delivered(orig, i as int),
                dropped == spec_count_dropped(orig, i as int),
                delivered <= i,
                dropped <= i,
            decreases orig.len() - i,
        {
            let ghost before = self.conns@;
            let mut c = self.conns.remove(i);
            proof {
                assert(c == orig[i as int]);
                assert(orig[i as int].wf());
            }
            let accepted = c.enqueue_clipboard(now);
            if accepted {
                delivered += 1;
            } else {
                let full = matches!(c.state, ConnectionState::Connected) && c.clipboard_channel.open;
                if full {
                    dropped += 1;
                }
            }
            self.conns.insert(i, c);
            proof {
                assert(self.conns@ =~= before.update(
                    i as int,
                    PeerConnection::spec_after_clipboard(orig[i as int], now),
                ));
            }
            i += 1;
        }
        proof {
            assert forall|p: int, q: int|
                0 <= p < q < self.conns@.len() && spec_live(self.conns@[p]) && spec_live(
                    self.conns@[q],
                ) implies self.conns@[p].peer_id@ != self.conns@[q].peer_id@ by {
                assert(self.conns@[p].peer_id@ == orig[p].peer_id@);
                assert(self.conns@[q].peer_id@ == orig[q].peer_id@);
                assert(spec_live(orig[p]) && spec_live(orig[q]));
            }
        }
        (delivered, dropped)
    }

    /// Where a file-send request must go: the live connection for the peer,
    /// which must be Connected. An unknown or dead peer is an error result,
    /// not a fault.
    pub fn send_file_target(&self, peer_id: &String) -> (r: Result<usize, SendFileError>)
        requires
            self.wf(),
        ensures
            (r matches Ok(i) ==> i < self.conns@.len() && spec_live(self.conns@[i as int])
                && self.conns@[i as int].peer_id@ == peer_id@ && self.conns@[i as int].state
                is Connected),
            r == Err::<usize, SendFileError>(SendFileError::UnknownPeer) <==> (forall|i: int|
                0 <= i < self.conns@.len() && spec_live(self.conns@[i]) ==> self.conns@[i].peer_id@
                    != peer_id@),
            r matches Err(e) && e is NotConnected ==> exists|i: int|
                0 <= i < self.conns@.len() && spec_live(self.conns@[i]) && self.conns@[i].peer_id@
                    == peer_id@ && !(self.conns@[i].state is Connected),
    {
        match self.find_live(peer_id) {
            Some(i) => {
                if matches!(self.conns[i].state, ConnectionState::Connected) {
                    Ok(i)
                } else {
                    Err(SendFileError::NotConnected)
                }
            },
            None => Err(SendFileError::UnknownPeer),
        }
    }

    /// Whether a signaling message carrying this session id belongs to a
    /// handshake still in progress; anything else is stale and discarded.
    pub fn accepts_session(&self, session_id: u64) -> (r: bool)
        ensures
            r == exists|i: int|
                0 <= i < self.conns@.len() && spec_handshaking(self.conns@[i])
                    && self.conns@[i].session_id == session_id,
    {
        let mut i: usize = 0;
        while i < self.conns.len()
            invariant
                i <= self.conns@.len(),
                forall|k: int|
                    0 <= k < i ==> !(spec_handshaking(self.conns@[k]) && self.conns@[k].session_id
                        == session_id),
            decreases self.conns@.len() - i,
        {
            let c = &self.conns[i];
            let handshaking = matches!(c.state, ConnectionState::New) || matches!(
                c.state,
                ConnectionState::Offering,
            ) || matches!(c.state, ConnectionState::Answering) || matches!(
                c.state,
                ConnectionState::Negotiating,
            );
            if handshaking && c.session_id == session_id {
                return true;
            }
            i += 1;
        }
        false
    }
}

/// Strict lexicographic order on character sequences, by code point.
pub open spec fn spec_lex_lt(a: Seq<char>, b: Seq<char>) -> bool
    decreases a.len(),
{
    if b.len() == 0 {
        false
    } else if a.len() == 0 {
        true
    } else if a[0] < b[0] {
        true
    } else if a[0] > b[0] {
        false
    } else {
        spec_lex_lt(a.drop_first(), b.drop_first())
    }
}

/// When two peers discover each other simultaneously, exactly one of them —
/// the one whose id orders first — sends the offer; the other waits. Two
/// distinct ids never pick two offerers or none.
pub proof fn lemma_tie_break_asymmetry(a: Seq<char>, b: Seq<char>)
    requires
        a != b,
    ensures
        spec_lex_lt(a, b) != spec_lex_lt(b, a),
    decreases a.len(),
{
    if a.len() == 0 && b.len() == 0 {
        assert(a =~= b);
    } else if b.len() == 0 || a.len() == 0 {
    } else if a[0] != b[0] {
    } else {
        assert(a.drop_first() != b.drop_first()) by {
            if a.drop_first() == b.drop_first() {
                assert(a.drop_first().len() == b.drop_first().len());
                assert(a.len() == b.len());
                assert forall|i: int| 0 <= i < a.len() implies a[i] == b[i] by {
                    if i > 0 {
                        assert(a.drop_first()[i - 1] == b.drop_first()[i - 1]);
                        assert(a.drop_first()[i - 1] == a[i]);
                        assert(b.drop_first()[i - 1] == b[i]);
                    } else {
                        assert(a[0] == b[0]);
                    }
                }
                assert(a =~= b);
                assert(false);
            }
        }
        lemma_tie_break_asymmetry(a.drop_first(), b.drop_first());
    }
}

/// Whether this instance is the offerer toward the given peer: true exactly
/// when its own id is lexicographically smaller.
pub fn is_offerer(my_id: &str, peer_id: &str) -> (r: bool)
    ensures
        r == spec_lex_lt(my_id@, peer_id@),
{
    let n = my_id.unicode_len();
    let m = peer_id.unicode_len();
    let mut i: usize = 0;
    proof {
        assert(my_id@.skip(0) =~= my_id@);
        assert(peer_id@.skip(0) =~= peer_id@);
    }
    loop
        invariant
            i <= n,
            i <= m,
            n == my_id@.len(),
            m == peer_id@.len(),
            spec_lex_lt(my_id@, peer_id@) == spec_lex_lt(
                my_id@.skip(i as int),
                peer_id@.skip(i as int),
            ),
        decreases n - i,
    {
        if i == m {
            return false;
        }
        if i == n {
            return true;
        }
        let ca = my_id.get_char(i);
        let cb = peer_id.get_char(i);
        if ca < cb {
            return true;
        }
        if ca > cb {
            return false;
        }
        proof {
            assert(my_id@.skip(i as int).drop_first() =~= my_id@.skip(i + 1));
            assert(peer_id@.skip(i as int).drop_first() =~= peer_id@.skip(i + 1));
        }
        i += 1;
    }
}

} // verus!
