//! What a device does as time goes by.
use crate::desk::{Desk, DeskView, LinkView};
use crate::engine::{Engine, EngineView};
use crate::event::{Event, EventView};
use crate::outside;
use crate::outside::Reply;
use crate::protocol::{Mode, Payload, PayloadView, Phase};
use crate::session::{Session, SessionView};
use crate::stable;
use crate::steps;
use crate::steps::Turn;
use crate::text;
use crate::trust;
use crate::trust::TrustView;
use vstd::prelude::*;

verus! {

/// How long a connection may take to say who is at its other end, in nanoseconds.
pub const MAX_UNKNOWN: u64 = 10000000000;

/// How long a connection to a device that is not paired may last, in nanoseconds.
pub const MAX_UNPAIRED: u64 = 60000000000;

/// How long a connection may be silent, in nanoseconds.
pub const MAX_SILENCE: u64 = 45000000000;

/// How long until devices are greeted again, in nanoseconds.
pub const HEARTBEAT: u64 = 10000000000;

/// How long until the source of a session hears again that its controller is there, in
/// nanoseconds.
pub const KEEPALIVE: u64 = 750000000;

/// Whether more than a span of time has gone by since a time.
pub open spec fn past(since: u64, span: u64, now: u64) -> bool {
    now - since > span
}

/// Whether more than a span of time has gone by since a time.
fn is_past(since: u64, span: u64, now: u64) -> (r: bool)
    ensures
        r == past(since, span, now),
{
    now >= since && now - since > span
}

/// Whether a connection has outlived its use.
pub open spec fn is_stale(l: LinkView, paired: Seq<TrustView>, now: u64) -> bool {
    ||| l.channel.peer is None && past(l.channel.created, MAX_UNKNOWN, now)
    ||| l.channel.peer is Some && !trust::is_paired(paired, l.channel.peer->0) && past(
        l.channel.created,
        MAX_UNPAIRED,
        now,
    )
    ||| past(l.channel.last_rx, MAX_SILENCE, now)
}

/// The names of the connections that have outlived their use.
pub open spec fn stale(links: Seq<LinkView>, paired: Seq<TrustView>, now: u64) -> Seq<Seq<char>>
    decreases links.len(),
{
    if links.len() == 0 {
        seq![]
    } else if is_stale(links.last(), paired, now) {
        stale(links.drop_last(), paired, now).push(links.last().id)
    } else {
        stale(links.drop_last(), paired, now)
    }
}

/// The devices of a list are greeted, those that can be.
pub open spec fn greeted(d: DeskView, peers: Seq<TrustView>, log: Seq<Reply>) -> DeskView
    decreases peers.len(),
{
    if peers.len() == 0 {
        d
    } else {
        greeted(
            d.send(peers[0].peer_id, PayloadView::Hello { device_id: d.id, name: d.name }, log).desk,
            peers.drop_first(),
            log,
        )
    }
}

/// What time does to a session. The source stops when the session has lasted too long
/// or its controller is silent, and is given up when it does not stop in time; a target
/// that controls the session says that it is there while the key is held.
#[verifier::opaque]
pub open spec fn aged(d: DeskView, s: SessionView, now: u64, log: Seq<Reply>) -> Turn<()> {
    if s.binding.source_device_id == d.id {
        let t = if !s.stopped && !s.stop_requested && (past(s.started, d.max_session, now) || (
        s.binding.controller_device_id != d.id && past(s.lease, d.lease, now))) {
            steps::request_stop(d, s, now, log)
        } else {
            Turn { desk: d, session: s, result: Ok(()) }
        };
        match t.session.finalizing {
            Some(since) => if past(since, d.finalizing, now) {
                let given_up = SessionView {
                    finalizing: None,
                    phase: if t.session.binding.input_mode == Mode::DoubaoIme {
                        Phase::StopFailed
                    } else if t.session.cancelled {
                        Phase::Cancelled
                    } else {
                        Phase::AwaitingConfirmation
                    },
                    ..t.session
                };
                Turn {
                    desk: t.desk.emit(EventView::AbortInput { session_id: s.binding.session_id }).snapshot(given_up),
                    session: given_up,
                    result: Ok(()),
                }
            } else {
                t
            },
            None => t,
        }
    } else if s.held && s.binding.controller_device_id == d.id && (s.phase == Phase::Preparing || s.phase
        == Phase::Ready || s.phase == Phase::Listening) && past(s.keepalive_sent, KEEPALIVE, now) {
        Turn {
            desk: d.send(
                s.binding.source_device_id,
                PayloadView::SessionKeepalive { session_id: s.binding.session_id },
                log,
            ).desk,
            session: SessionView { keepalive_sent: now, ..s },
            result: Ok(()),
        }
    } else {
        Turn { desk: d, session: s, result: Ok(()) }
    }
}

impl EngineView {
    /// Connections are closed, one after the other.
    pub open spec fn close_all(self, connections: Seq<Seq<char>>, now: u64, log: Seq<Reply>) -> EngineView
        decreases connections.len(),
    {
        if connections.len() == 0 {
            self
        } else {
            self.close(connections[0], now, log).close_all(connections.drop_first(), now, log)
        }
    }

    /// Time goes by for the sessions from an index on.
    pub open spec fn age_from(self, i: nat, now: u64, log: Seq<Reply>) -> EngineView
        decreases self.sessions.len() - i,
    {
        if i >= self.sessions.len() {
            self
        } else {
            self.landed(i as int, aged(self.desk, self.sessions[i as int], now, log)).engine.age_from(
                i + 1,
                now,
                log,
            )
        }
    }

    /// The paired devices are greeted, if it is time.
    pub open spec fn beat(self, now: u64, log: Seq<Reply>) -> EngineView {
        if past(self.desk.heartbeat, HEARTBEAT, now) {
            self.at(greeted(DeskView { heartbeat: now, ..self.desk }, self.desk.trust, log))
        } else {
            self
        }
    }

    /// Time goes by: stale connections are closed, the paired devices are greeted, and
    /// sessions age.
    #[verifier::opaque]
    pub open spec fn tick(self, now: u64, log: Seq<Reply>) -> EngineView {
        self.close_all(stale(self.desk.links, self.desk.trust, now), now, log).beat(now, log).age_from(0, now, log)
    }
}

impl Engine {
    /// Closes what has outlived its use, greets the paired devices, and lets sessions
    /// age.
    pub fn tick(&mut self, now: u64)
        requires
            old(self).wf(),
        ensures
            final(self).wf(),
            outside::continues(final(self).desk.history.replies(), old(self).desk.history.replies()),
            forall|log: Seq<Reply>| #[trigger]
                outside::continues(log, final(self).desk.history.replies()) ==> old(self)@.tick(now, log) == final(self)@,
    {
        broadcast use outside::group_continues;

        reveal(EngineView::tick);
        let connections = self.desk.stale_links(now);
        self.close_all(connections, now);
        self.beat(now);
        self.age(now);
    }

    /// Closes connections, one after the other.
    fn close_all(&mut self, connections: Vec<String>, now: u64)
        requires
            old(self).wf(),
        ensures
            final(self).wf(),
            outside::continues(final(self).desk.history.replies(), old(self).desk.history.replies()),
            forall|log: Seq<Reply>| #[trigger]
                outside::continues(log, final(self).desk.history.replies()) ==> old(self)@.close_all(
                    stable::texts_view(connections@),
                    now,
                    log,
                ) == final(self)@,
    {
        broadcast use outside::group_continues;

        assert(outside::continues(self.desk.history.replies(), self.desk.history.replies()));
        let ghost all = stable::texts_view(connections@);
        let ghost begun = self@;
        let ghost replies = self.desk.history.replies();
        let mut i: usize = 0;
        assert(all.skip(0) =~= all);
        while i < connections.len()
            invariant
                self.wf(),
                begun == old(self)@,
                replies == old(self).desk.history.replies(),
                all == stable::texts_view(connections@),
                i <= connections@.len(),
                outside::continues(self.desk.history.replies(), replies),
                forall|log: Seq<Reply>| #[trigger]
                    outside::continues(log, self.desk.history.replies()) ==> begun.close_all(all, now, log) == self@.close_all(
                        all.skip(i as int),
                        now,
                        log,
                    ),
            decreases connections.len() - i,
        {
            broadcast use outside::group_continues;

            assert(all.skip(i as int)[0] == connections@[i as int]@);
            assert(all.skip(i as int).drop_first() =~= all.skip(i + 1));
            self.close(connections[i].as_str(), now);
            i = i + 1;
        }
    }

    /// Greets the paired devices, if it is time.
    fn beat(&mut self, now: u64)
        requires
            old(self).wf(),
        ensures
            final(self).wf(),
            outside::continues(final(self).desk.history.replies(), old(self).desk.history.replies()),
            forall|log: Seq<Reply>| #[trigger]
                outside::continues(log, final(self).desk.history.replies()) ==> old(self)@.beat(now, log) == final(self)@,
    {
        broadcast use outside::group_continues;

        assert(outside::continues(self.desk.history.replies(), self.desk.history.replies()));
        if is_past(self.desk.heartbeat, HEARTBEAT, now) {
            self.desk.heartbeat = now;
            self.desk.greet();
        }
    }

    /// Lets sessions age.
    fn age(&mut self, now: u64)
        requires
            old(self).wf(),
        ensures
            final(self).wf(),
            outside::continues(final(self).desk.history.replies(), old(self).desk.history.replies()),
            forall|log: Seq<Reply>| #[trigger]
                outside::continues(log, final(self).desk.history.replies()) ==> old(self)@.age_from(0, now, log)
                    == final(self)@,
    {
        broadcast use outside::group_continues;

        assert(outside::continues(self.desk.history.replies(), self.desk.history.replies()));
        let ghost begun = self@;
        let ghost replies = self.desk.history.replies();
        let mut i: usize = 0;
        while i < self.sessions.len()
            invariant
                self.wf(),
                begun == old(self)@,
                replies == old(self).desk.history.replies(),
                i <= self.sessions@.len(),
                outside::continues(self.desk.history.replies(), replies),
                forall|log: Seq<Reply>| #[trigger]
                    outside::continues(log, self.desk.history.replies()) ==> begun.age_from(0, now, log) == self@.age_from(
                        i as nat,
                        now,
                        log,
                    ),
            decreases self.sessions.len() - i,
        {
            broadcast use outside::group_continues;

            let ghost before = self@;
            assert(before.sessions[i as int] == self.sessions@[i as int]@);
            let id = self.sessions[i].binding.session_id;
            self.desk.age(&mut self.sessions[i], now);
            assert(self@.sessions =~= before.sessions.update(i as int, self.sessions@[i as int]@));
            self.land(i, id);
            i = i + 1;
        }
    }
}

impl Desk {
    /// The names of the connections that have outlived their use.
    fn stale_links(&self, now: u64) -> (r: Vec<String>)
        ensures
            stable::texts_view(r@) == stale(self@.links, self@.trust, now),
    {
        let ghost all = self@.links;
        let mut r: Vec<String> = Vec::new();
        let mut i: usize = 0;
        assert(stable::texts_view(r@) =~= stale(all.take(0), self@.trust, now));
        while i < self.links.len()
            invariant
                all == self@.links,
                i <= self.links@.len(),
                stable::texts_view(r@) == stale(all.take(i as int), self@.trust, now),
            decreases self.links.len() - i,
        {
            assert(all.take(i + 1).drop_last() =~= all.take(i as int));
            assert(all.take(i + 1).last() == self.links@[i as int]@);
            let ghost so_far = stable::texts_view(r@);
            let timed_out = match &self.links[i].channel.peer {
                None => is_past(self.links[i].channel.created, MAX_UNKNOWN, now),
                Some(p) => !trust::contains(&self.trust, p.as_str()) && is_past(
                    self.links[i].channel.created,
                    MAX_UNPAIRED,
                    now,
                ),
            };
            if timed_out || is_past(self.links[i].channel.last_rx, MAX_SILENCE, now) {
                r.push(text::copy(&self.links[i].id));
                assert(stable::texts_view(r@) =~= so_far.push(self.links@[i as int].id@));
            }
            i = i + 1;
        }
        assert(all.take(i as int) =~= all);
        r
    }

    /// Greets the paired devices, those that can be.
    fn greet(&mut self)
        requires
            old(self).wf(),
        ensures
            final(self).wf(),
            outside::continues(final(self).history.replies(), old(self).history.replies()),
            forall|log: Seq<Reply>| #[trigger]
                outside::continues(log, final(self).history.replies()) ==> greeted(old(self)@, old(self)@.trust, log)
                    == final(self)@,
    {
        broadcast use outside::group_continues;

        assert(outside::continues(self.history.replies(), self.history.replies()));
        let peers = trust::copy(&self.trust);
        let ghost all = trust::trusts_view(peers@);
        let ghost begun = self@;
        let ghost replies = self.history.replies();
        let mut i: usize = 0;
        assert(all.skip(0) =~= all);
        while i < peers.len()
            invariant
                self.wf(),
                begun == old(self)@,
                replies == old(self).history.replies(),
                all == trust::trusts_view(peers@),
                i <= peers@.len(),
                outside::continues(self.history.replies(), replies),
                forall|log: Seq<Reply>| #[trigger]
                    outside::continues(log, self.history.replies()) ==> greeted(begun, all, log) == greeted(
                        self@,
                        all.skip(i as int),
                        log,
                    ),
            decreases peers.len() - i,
        {
            broadcast use outside::group_continues;

            assert(all.skip(i as int)[0] == peers@[i as int]@);
            assert(all.skip(i as int).drop_first() =~= all.skip(i + 1));
            let hello = Payload::Hello { device_id: text::copy(&self.id), name: text::copy(&self.name) };
            let _ = self.send(peers[i].peer_id.as_str(), hello);
            i = i + 1;
        }
    }

    /// Lets a session age.
    fn age(&mut self, s: &mut Session, now: u64)
        requires
            old(self).wf(),
            old(s)@.wf(),
        ensures
            final(self).wf(),
            final(s)@.wf(),
            final(s)@.binding.session_id == old(s)@.binding.session_id,
            outside::continues(final(self).history.replies(), old(self).history.replies()),
            forall|log: Seq<Reply>| #[trigger]
                outside::continues(log, final(self).history.replies()) ==> aged(old(self)@, old(s)@, now, log) == (Turn {
                    desk: final(self)@,
                    session: final(s)@,
                    result: Ok(()),
                }),
    {
        broadcast use outside::group_continues;

        reveal(aged);
        assert(outside::continues(self.history.replies(), self.history.replies()));
        let session_id = s.binding.session_id;
        let finalizing = self.finalizing;
        if text::same(s.binding.source_device_id.as_str(), self.id.as_str()) {
            if !s.stopped && !s.stop_requested && (is_past(s.started, self.max_session, now) || (!text::same(
                s.binding.controller_device_id.as_str(),
                self.id.as_str(),
            ) && is_past(s.lease, self.lease, now))) {
                self.request_stop(s, now);
            }
            let late = match s.finalizing {
                Some(since) => is_past(since, finalizing, now),
                None => false,
            };
            if late {
                s.finalizing = None;
                s.phase = if s.binding.input_mode == Mode::DoubaoIme {
                    Phase::StopFailed
                } else if s.cancelled {
                    Phase::Cancelled
                } else {
                    Phase::AwaitingConfirmation
                };
                self.emit(Event::AbortInput { session_id });
                self.snapshot(s);
            }
        } else if s.held && text::same(s.binding.controller_device_id.as_str(), self.id.as_str()) && matches!(
            s.phase,
            Phase::Preparing | Phase::Ready | Phase::Listening
        ) && is_past(s.keepalive_sent, KEEPALIVE, now) {
            s.keepalive_sent = now;
            let source = text::copy(&s.binding.source_device_id);
            let _ = self.send(source.as_str(), Payload::SessionKeepalive { session_id });
        }
    }
}

} // verus!
