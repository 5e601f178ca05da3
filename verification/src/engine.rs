//! The device: its sessions, and what it makes of connections and messages.
use crate::desk;
use crate::desk::{Desk, DeskView};
use crate::event::{Event, EventView};
use crate::inbound;
use crate::outside;
use crate::outside::Reply;
use crate::protocol;
use crate::protocol::{Binding, BindingView, Phase};
use crate::session;
use crate::session::{Session, SessionView};
use crate::steps;
use crate::steps::Turn;
use crate::text;
use crate::{fail, CoreError};
use vstd::prelude::*;

verus! {

/// How many sessions a device keeps at most.
pub const MAX_SESSIONS: usize = 64;

/// How many requests a device remembers.
pub const MAX_SEEN: usize = 2048;

/// A device.
pub struct Engine {
    pub desk: Desk,
    pub sessions: Vec<Session>,
    pub active_source: Option<u128>,
    pub active_target: Option<u128>,
}

/// A device, by its contents: what its sessions share, the sessions, and which of them
/// has the microphone and which the keyboard.
pub struct EngineView {
    pub desk: DeskView,
    pub sessions: Seq<SessionView>,
    pub active_source: Option<u128>,
    pub active_target: Option<u128>,
}

/// What sessions hold.
pub open spec fn sessions_view(v: Seq<Session>) -> Seq<SessionView> {
    Seq::new(v.len(), |i: int| v[i]@)
}

impl View for Engine {
    type V = EngineView;

    open spec fn view(&self) -> EngineView {
        EngineView {
            desk: self.desk@,
            sessions: sessions_view(self.sessions@),
            active_source: self.active_source,
            active_target: self.active_target,
        }
    }
}

/// What was done to a device.
pub struct Move<T> {
    pub engine: EngineView,
    pub result: Result<T, Seq<char>>,
}

/// The index of the first session with an identifier, or their number if there is none.
pub open spec fn session_at(sessions: Seq<SessionView>, id: u128) -> nat
    decreases sessions.len(),
{
    if sessions.len() == 0 || sessions[0].binding.session_id == id {
        0
    } else {
        1 + session_at(sessions.drop_first(), id)
    }
}

/// Whether there is a session with an identifier.
pub open spec fn known(sessions: Seq<SessionView>, id: u128) -> bool {
    session_at(sessions, id) < sessions.len()
}

/// Whether no two sessions have the same identifier.
pub open spec fn apart(sessions: Seq<SessionView>) -> bool {
    forall|i: int, j: int|
        0 <= i < j < sessions.len() ==> (#[trigger] sessions[i]).binding.session_id != (
        #[trigger] sessions[j]).binding.session_id
}

/// The sessions before an index have other identifiers, and the one there has it.
pub proof fn lemma_session_at(sessions: Seq<SessionView>, id: u128)
    ensures
        session_at(sessions, id) <= sessions.len(),
        known(sessions, id) ==> sessions[session_at(sessions, id) as int].binding.session_id == id,
        forall|i: int| 0 <= i < session_at(sessions, id) ==> (#[trigger] sessions[i]).binding.session_id != id,
    decreases sessions.len(),
{
    if sessions.len() > 0 && sessions[0].binding.session_id != id {
        lemma_session_at(sessions.drop_first(), id);
        assert forall|i: int| 0 <= i < session_at(sessions, id) implies (#[trigger] sessions[i]).binding.session_id
            != id by {
            if i > 0 {
                assert(sessions.drop_first()[i - 1] == sessions[i]);
            }
        }
    }
}

/// What losing the connection to its other device does to a session.
#[verifier::opaque]
pub open spec fn lost(d: DeskView, s: SessionView, now: u64, log: Seq<Reply>) -> Turn<()> {
    let t = if s.binding.source_device_id == d.id {
        let stopping = steps::request_stop(d, s, now, log);
        Turn {
            session: SessionView {
                chunks: session::doubted(stopping.session.chunks),
                ..stopping.session
            },
            ..stopping
        }
    } else {
        steps::pause_receiver(d, s, log)
    };
    match t.result {
        Err(_) => t,
        Ok(_) => inbound::told(
            t.desk,
            SessionView {
                phase: if session::any_unknown(t.session.chunks) {
                    Phase::Unknown
                } else {
                    Phase::Paused
                },
                ..t.session
            },
        ),
    }
}

impl EngineView {
    /// A session after a step on it. One that is over frees the microphone once the
    /// source has stopped, and the keyboard once nothing is under way.
    pub open spec fn landed<T>(self, i: int, t: Turn<T>) -> Move<T> {
        let id = self.sessions[i].binding.session_id;
        let over = t.session.phase.spec_terminal();
        Move {
            engine: EngineView {
                desk: t.desk,
                sessions: self.sessions.update(i, t.session),
                active_source: if over && self.active_source == Some(id) && t.session.stopped {
                    None
                } else {
                    self.active_source
                },
                active_target: if over && self.active_target == Some(id) && t.session.inflight is None {
                    None
                } else {
                    self.active_target
                },
            },
            result: t.result,
        }
    }

    /// Something else that sessions share.
    pub open spec fn at(self, d: DeskView) -> EngineView {
        EngineView { desk: d, ..self }
    }

    /// Something was done that leaves the sessions alone.
    pub open spec fn moved<T>(self, d: desk::Did<T>) -> Move<T> {
        Move { engine: self.at(d.desk), result: d.result }
    }

    /// Something was refused.
    pub open spec fn refused<T>(self, code: Seq<char>) -> Move<T> {
        Move { engine: self, result: Err(code) }
    }

    /// Nothing was done, and that is well.
    pub open spec fn kept(self) -> Move<()> {
        Move { engine: self, result: Ok(()) }
    }

    /// What becomes of a new session once the journal has answered: one that is noted is
    /// kept and told of, and has the microphone or the keyboard.
    pub open spec fn added(self, noted: Result<(), Seq<char>>, b: BindingView, source: bool, now: u64) -> Move<u128> {
        match noted {
            Err(e) => self.refused(e),
            Ok(_) => {
                let s = SessionView::fresh(b, now);
                Move {
                    engine: EngineView {
                        desk: self.desk.snapshot(s),
                        sessions: if known(self.sessions, b.session_id) {
                            self.sessions.update(session_at(self.sessions, b.session_id) as int, s)
                        } else {
                            self.sessions.push(s)
                        },
                        active_source: if source {
                            Some(b.session_id)
                        } else {
                            self.active_source
                        },
                        active_target: if source {
                            self.active_target
                        } else {
                            Some(b.session_id)
                        },
                    },
                    result: Ok(b.session_id),
                }
            },
        }
    }

    /// A new session, on the source or on the target.
    #[verifier::opaque]
    pub open spec fn add_session(self, b: BindingView, source: bool, now: u64, wall: u64, log: Seq<Reply>) -> Move<
        u128,
    > {
        if !protocol::binding_ok(b, wall) {
            self.refused("invalid_binding"@)
        } else if self.sessions.len() >= MAX_SESSIONS || (source && self.active_source is Some) || (!source
            && self.active_target is Some) {
            self.refused("busy"@)
        } else {
            let noted = self.desk.note(
                b.session_id,
                if source {
                    b.target_device_id
                } else {
                    b.source_device_id
                },
                wall,
                log,
            );
            self.at(noted.desk).added(noted.result, b, source, now)
        }
    }

    /// The sessions with a device, from an index on, lose the connection to it.
    pub open spec fn lose_from(self, peer: Seq<char>, i: nat, now: u64, log: Seq<Reply>) -> EngineView
        decreases self.sessions.len() - i,
    {
        if i >= self.sessions.len() {
            self
        } else {
            let s = self.sessions[i as int];
            if !s.phase.spec_terminal() && s.other(self.desk.id) == peer {
                self.landed(i as int, lost(self.desk, s, now, log)).engine.lose_from(peer, i + 1, now, log)
            } else {
                self.lose_from(peer, i + 1, now, log)
            }
        }
    }

    /// A connection is closed.
    #[verifier::opaque]
    pub open spec fn close(self, connection: Seq<char>, now: u64, log: Seq<Reply>) -> EngineView {
        let i = desk::link_at(self.desk.links, connection) as int;
        let closed = EventView::SocketClose { connection_id: connection };
        if i >= self.desk.links.len() {
            self.at(self.desk.emit(closed))
        } else {
            let d = (DeskView { links: self.desk.links.remove(i), ..self.desk }).emit(closed);
            match self.desk.links[i].channel.peer {
                None => self.at(d),
                Some(peer) => self.at(d.peer_event(peer, false)).lose_from(peer, 0, now, log),
            }
        }
    }
}

impl Engine {
    /// What holds of a device at all times.
    pub open spec fn wf(&self) -> bool {
        &&& self.desk.wf()
        &&& apart(self@.sessions)
        &&& forall|i: int| 0 <= i < self.sessions@.len() ==> (#[trigger] self.sessions@[i])@.wf()
    }

    /// The index of a session.
    pub fn find(&self, id: u128) -> (r: Option<usize>)
        ensures
            match r {
                Some(i) => i == session_at(self@.sessions, id) && i < self.sessions@.len()
                    && self@.sessions[i as int].binding.session_id == id,
                None => !known(self@.sessions, id),
            },
    {
        let ghost all = self@.sessions;
        let mut i: usize = 0;
        assert(all.skip(0) =~= all);
        while i < self.sessions.len()
            invariant
                all == self@.sessions,
                i <= self.sessions@.len(),
                session_at(all, id) == i + session_at(all.skip(i as int), id),
            decreases self.sessions.len() - i,
        {
            assert(all.skip(i as int)[0] == all[i as int]);
            if self.sessions[i].binding.session_id == id {
                return Some(i);
            }
            assert(all.skip(i as int).drop_first() =~= all.skip(i + 1));
            i = i + 1;
        }
        None
    }

    /// Frees the microphone or the keyboard of a session that is over.
    pub fn land(&mut self, i: usize, id: u128)
        requires
            i < old(self).sessions@.len(),
        ensures
            *final(self) == (Engine {
                active_source: final(self).active_source,
                active_target: final(self).active_target,
                ..*old(self)
            }),
            final(self).active_source == (if old(self)@.sessions[i as int].phase.spec_terminal()
                && old(self).active_source == Some(id) && old(self)@.sessions[i as int].stopped {
                None
            } else {
                old(self).active_source
            }),
            final(self).active_target == (if old(self)@.sessions[i as int].phase.spec_terminal()
                && old(self).active_target == Some(id) && old(self)@.sessions[i as int].inflight is None {
                None
            } else {
                old(self).active_target
            }),
    {
        if self.sessions[i].phase.terminal() {
            let source = match self.active_source {
                Some(a) => a == id,
                None => false,
            };
            if source && self.sessions[i].stopped {
                self.active_source = None;
            }
            let target = match self.active_target {
                Some(a) => a == id,
                None => false,
            };
            if target && self.sessions[i].inflight.is_none() {
                self.active_target = None;
            }
        }
    }

    /// A new session, on the source or on the target.
    pub fn add_session(&mut self, b: Binding, source: bool, now: u64, wall: u64) -> (r: Result<u128, CoreError>)
        requires
            old(self).wf(),
        ensures
            final(self).wf(),
            outside::continues(final(self).desk.history.replies(), old(self).desk.history.replies()),
            forall|log: Seq<Reply>| #[trigger]
                outside::continues(log, final(self).desk.history.replies()) ==> old(self)@.add_session(
                    b@,
                    source,
                    now,
                    wall,
                    log,
                ) == (Move { engine: final(self)@, result: crate::outcome(r) }),
    {
        broadcast use outside::group_continues;

        reveal(EngineView::add_session);
        assert(outside::continues(self.desk.history.replies(), self.desk.history.replies()));
        match b.validate(wall) {
            Ok(_) => {},
            Err(e) => return Err(e),
        }
        if self.sessions.len() >= MAX_SESSIONS || (source && self.active_source.is_some()) || (!source
            && self.active_target.is_some()) {
            return fail("busy");
        }
        let other = if source {
            text::copy(&b.target_device_id)
        } else {
            text::copy(&b.source_device_id)
        };
        let noted = self.desk.note(b.session_id, other.as_str(), wall);
        self.added(noted, b, source, now)
    }

    /// Keeps a new session that the journal has noted, and gives it the microphone or the
    /// keyboard. One that it has not noted is refused.
    pub fn added(&mut self, noted: Result<(), CoreError>, b: Binding, source: bool, now: u64) -> (r: Result<
        u128,
        CoreError,
    >)
        requires
            old(self).wf(),
        ensures
            final(self).wf(),
            final(self).desk.history.replies() == old(self).desk.history.replies(),
            old(self)@.added(crate::outcome(noted), b@, source, now) == (Move {
                engine: final(self)@,
                result: crate::outcome(r),
            }),
    {
        match noted {
            Ok(_) => {},
            Err(e) => return Err(e),
        }
        let id = b.session_id;
        let s = Session::new(b, now);
        if source {
            self.active_source = Some(id);
        } else {
            self.active_target = Some(id);
        }
        self.desk.snapshot(&s);
        let ghost before = self@.sessions;
        proof {
            lemma_session_at(before, id);
        }
        match self.find(id) {
            Some(i) => {
                self.sessions[i] = s;
                assert(self@.sessions =~= before.update(i as int, s@));
            },
            None => {
                self.sessions.push(s);
                assert(self@.sessions =~= before.push(s@));
            },
        }
        Ok(id)
    }

    /// Closes a connection. The sessions with the device at its other end pause.
    pub fn close(&mut self, connection: &str, now: u64)
        requires
            old(self).wf(),
        ensures
            final(self).wf(),
            outside::continues(final(self).desk.history.replies(), old(self).desk.history.replies()),
            forall|log: Seq<Reply>| #[trigger]
                outside::continues(log, final(self).desk.history.replies()) ==> old(self)@.close(connection@, now, log)
                    == final(self)@,
    {
        broadcast use outside::group_continues;

        reveal(EngineView::close);
        assert(outside::continues(self.desk.history.replies(), self.desk.history.replies()));
        let ghost links = self@.desk.links;
        let peer = match self.desk.find_link(connection) {
            Some(i) => {
                let link = self.desk.links.remove(i);
                assert(self@.desk.links =~= links.remove(i as int));
                link.channel.peer
            },
            None => None,
        };
        self.desk.emit(Event::SocketClose { connection_id: connection.to_owned() });
        match peer {
            Some(p) => {
                self.desk.peer_event(p.as_str(), false);
                self.lose_peer(p.as_str(), now);
            },
            None => {},
        }
    }

    /// The sessions with a device lose the connection to it.
    fn lose_peer(&mut self, peer: &str, now: u64)
        requires
            old(self).wf(),
        ensures
            final(self).wf(),
            outside::continues(final(self).desk.history.replies(), old(self).desk.history.replies()),
            forall|log: Seq<Reply>| #[trigger]
                outside::continues(log, final(self).desk.history.replies()) ==> old(self)@.lose_from(peer@, 0, now, log)
                    == final(self)@,
    {
        broadcast use outside::group_continues;

        assert(outside::continues(self.desk.history.replies(), self.desk.history.replies()));
        let ghost begun = self@;
        let ghost replies = self.desk.history.replies();
        let mut i: usize = 0;
        while i < self.sessions.len()
            invariant
                self.wf(),
                begun == old(self)@,
                replies == old(self).desk.history.replies(),
                i <= self.sessions@.len(),
                outside::continues(self.desk.history.replies(), replies),
                forall|log: Seq<Reply>| #[trigger]
                    outside::continues(log, self.desk.history.replies()) ==> begun.lose_from(peer@, 0, now, log)
                        == self@.lose_from(peer@, i as nat, now, log),
            decreases self.sessions.len() - i,
        {
            broadcast use outside::group_continues;

            let ghost before = self@;
            assert(before.sessions[i as int] == self.sessions@[i as int]@);
            let id = self.sessions[i].binding.session_id;
            let other = self.sessions[i].other(self.desk.id.as_str());
            if !self.sessions[i].phase.terminal() && text::same(other.as_str(), peer) {
                let _ = self.desk.lose(&mut self.sessions[i], now);
                let ghost s = self.sessions@[i as int]@;
                assert(self@.sessions =~= before.sessions.update(i as int, s));
                self.land(i, id);
            }
            i = i + 1;
        }
    }
}

impl Desk {
    /// What losing the connection to its other device does to a session.
    fn lose(&mut self, s: &mut Session, now: u64) -> (r: Result<(), CoreError>)
        requires
            old(self).wf(),
            old(s)@.wf(),
        ensures
            final(self).wf(),
            final(s)@.wf(),
            final(s)@.binding.session_id == old(s)@.binding.session_id,
            outside::continues(final(self).history.replies(), old(self).history.replies()),
            forall|log: Seq<Reply>| #[trigger]
                outside::continues(log, final(self).history.replies()) ==> lost(old(self)@, old(s)@, now, log) == (Turn {
                    desk: final(self)@,
                    session: final(s)@,
                    result: crate::outcome(r),
                }),
    {
        broadcast use outside::group_continues;

        reveal(lost);
        if text::same(s.binding.source_device_id.as_str(), self.id.as_str()) {
            self.request_stop(s, now);
            s.doubt();
        } else {
            match self.pause_receiver(s) {
                Ok(_) => {},
                Err(e) => return Err(e),
            }
        }
        s.phase = if s.has_unknown() {
            Phase::Unknown
        } else {
            Phase::Paused
        };
        self.snapshot(s);
        Ok(())
    }
}

} // verus!
