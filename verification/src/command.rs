//! What a device makes of a command from the program around the library.
use crate::crypto;
use crate::desk;
use crate::desk::{Desk, DeskView, Link, LinkView};
use crate::engine;
use crate::engine::{Engine, EngineView, Move};
use crate::event::{Event, EventView};
use crate::ids;
use crate::inbound;
use crate::json;
use crate::json::{Json, JsonView};
use crate::orders;
use crate::orders::Answer;
use crate::outside;
use crate::outside::{Ask, Reply};
use crate::protocol;
use crate::protocol::{Binding, BindingView, Payload, PayloadView};
use crate::session::{Session, SessionView};
use crate::steps;
use crate::steps::Turn;
use crate::text;
use crate::transport::{Channel, ChannelView};
use crate::trust;
use crate::trust::TrustView;
use crate::{fail, CoreError};
use vstd::prelude::*;

verus! {

/// How many connections a device has at most.
pub const MAX_LINKS: usize = 8;

/// What was done, with an answer.
pub open spec fn answered(m: Move<()>) -> Move<Answer> {
    Move {
        engine: m.engine,
        result: match m.result {
            Ok(_) => Ok(Answer::Done),
            Err(e) => Err(e),
        },
    }
}

/// A session is cancelled because a device lost its leave: it is the one that controls
/// the session or, where it is not paired any more, the one at the other end.
#[verifier::opaque]
pub open spec fn disallowed(
    d: DeskView,
    s: SessionView,
    peer: Seq<char>,
    revoked: bool,
    now: u64,
    log: Seq<Reply>,
) -> Turn<()> {
    if s.binding.controller_device_id == peer || (revoked && s.other(d.id) == peer) {
        steps::cancel(d, s, true, now, log)
    } else {
        Turn { desk: d, session: s, result: Ok(()) }
    }
}

/// The events of a device that lost events: every connection is closed, the microphone
/// is let go, and nothing works any more.
pub open spec fn last_events(links: Seq<LinkView>, active_source: Option<u128>) -> Seq<EventView> {
    Seq::new(links.len(), |i: int| EventView::SocketClose { connection_id: links[i].id }) + (match active_source {
        Some(id) => seq![EventView::CancelInput { session_id: id }],
        None => seq![],
    }) + seq![EventView::Fatal { code: "event_overflow_restart_required"@ }]
}

impl EngineView {
    /// A connection is opened.
    #[verifier::opaque]
    pub open spec fn open(self, v: JsonView, now: u64, wall: u64, log: Seq<Reply>) -> Move<()> {
        match orders::text_of(v, "connection_id"@) {
            Err(e) => self.refused(e),
            Ok(connection) => {
                let expected = v.text_at("expected_peer"@);
                if self.desk.links.len() >= MAX_LINKS || desk::link_at(self.desk.links, connection)
                    < self.desk.links.len() {
                    self.refused("connection_limit"@)
                } else if expected is Some && !protocol::is_valid_id(expected->0) {
                    self.refused("invalid_peer_identity"@)
                } else {
                    let heard = ChannelView::open(
                        self.desk.private,
                        v.flag_at("initiator"@),
                        expected,
                        now,
                        outside::wrote_in(self.desk.next(log)),
                    );
                    let shaken = self.desk.asking(Ask::Shake);
                    match heard.result {
                        Err(e) => self.at(shaken).refused(e),
                        Ok(events) => self.at(
                            DeskView {
                                links: self.desk.links.push(LinkView { id: connection, channel: heard.channel }),
                                ..shaken
                            },
                        ).on_channel_events(connection, events, now, wall, log),
                    }
                }
            },
        }
    }

    /// Bytes came over a connection. Where they make no sense, it is closed.
    #[verifier::opaque]
    pub open spec fn bytes(self, v: JsonView, now: u64, wall: u64, log: Seq<Reply>) -> Move<()> {
        match (orders::text_of(v, "connection_id"@), orders::text_of(v, "data"@)) {
            (Err(e), _) => self.refused(e),
            (Ok(_), Err(e)) => self.refused(e),
            (Ok(connection), Ok(data)) => {
                let i = desk::link_at(self.desk.links, connection) as int;
                match crypto::b64_bytes(data) {
                    None => self.refused("invalid_frame"@),
                    Some(bytes) => if i >= self.desk.links.len() {
                        self.refused("target_offline"@)
                    } else {
                        let heard = self.desk.links[i].channel.receive(
                            bytes,
                            now,
                            outside::wrote_in(self.desk.next(log)),
                        );
                        let e = self.at(self.desk.asking(Ask::Shake).with_channel(i, heard.channel));
                        let m = match heard.result {
                            Err(code) => e.refused(code),
                            Ok(events) => e.on_channel_events(connection, events, now, wall, log),
                        };
                        match m.result {
                            Err(code) => m.engine.close(connection, now, log).refused(code),
                            Ok(_) => m,
                        }
                    },
                }
            },
        }
    }

    /// A connection is gone.
    pub open spec fn closed(self, v: JsonView, now: u64, log: Seq<Reply>) -> Move<()> {
        match orders::text_of(v, "connection_id"@) {
            Err(e) => self.refused(e),
            Ok(connection) => self.close(connection, now, log).kept(),
        }
    }

    /// A person confirms that the device pairs with another.
    #[verifier::opaque]
    pub open spec fn pair(self, v: JsonView, log: Seq<Reply>) -> Move<()> {
        match orders::text_of(v, "peer_id"@) {
            Err(e) => self.refused(e),
            Ok(peer) => {
                let i = desk::link_to(self.desk.links, peer) as int;
                if i >= self.desk.links.len() {
                    self.refused("target_offline"@)
                } else {
                    let link = self.desk.links[i];
                    let sent = self.desk.with_channel(
                        i,
                        ChannelView { local_confirmed: true, ..link.channel },
                    ).send_on(link.id, PayloadView::PairConfirm, log);
                    match sent.result {
                        Err(_) => self.moved(sent),
                        Ok(_) => self.moved(sent.desk.maybe_pair(peer)),
                    }
                }
            },
        }
    }

    /// A session that listens for a device that lost its leave is cancelled.
    pub open spec fn disallow(self, peer: Seq<char>, revoked: bool, now: u64, log: Seq<Reply>) -> EngineView {
        match self.active_source {
            None => self,
            Some(id) => {
                let i = engine::session_at(self.sessions, id) as int;
                if i >= self.sessions.len() {
                    self
                } else {
                    self.landed(i, disallowed(self.desk, self.sessions[i], peer, revoked, now, log)).engine
                }
            },
        }
    }

    /// A device is not paired any more.
    #[verifier::opaque]
    pub open spec fn revoke(self, v: JsonView, now: u64, log: Seq<Reply>) -> Move<()> {
        match orders::text_of(v, "peer_id"@) {
            Err(e) => self.refused(e),
            Ok(peer) => {
                let revoked = self.at(
                    DeskView { trust: trust::without_peer(self.desk.trust, peer), ..self.desk }.save_trust(),
                ).disallow(peer, true, now, log);
                let i = desk::link_to(revoked.desk.links, peer) as int;
                let cut = if i < revoked.desk.links.len() {
                    revoked.close(revoked.desk.links[i].id, now, log)
                } else {
                    revoked
                };
                cut.at(cut.desk.peer_event(peer, cut.desk.connected(peer))).kept()
            },
        }
    }

    /// A device may start sessions from now on, or not.
    #[verifier::opaque]
    pub open spec fn remote_permission(self, v: JsonView, now: u64, log: Seq<Reply>) -> Move<()> {
        match orders::text_of(v, "peer_id"@) {
            Err(e) => self.refused(e),
            Ok(peer) => if !self.desk.paired(peer) {
                self.refused("unpaired_device"@)
            } else {
                let allowed = v.flag_at("allowed"@);
                let i = trust::spot(self.desk.trust, peer) as int;
                let changed = self.at(
                    DeskView {
                        trust: self.desk.trust.update(
                            i,
                            TrustView { allow_remote: allowed, ..self.desk.trust[i] },
                        ),
                        ..self.desk
                    }.save_trust(),
                );
                let after = if allowed {
                    changed
                } else {
                    changed.disallow(peer, false, now, log)
                };
                after.at(after.desk.peer_event(peer, after.desk.connected(peer))).kept()
            },
        }
    }

    /// A session is begun, here or, if `remote`, on another device.
    #[verifier::opaque]
    pub open spec fn begin(self, v: JsonView, now: u64, wall: u64, log: Seq<Reply>) -> Move<Answer> {
        match orders::text_of(v, "peer_id"@) {
            Err(e) => self.refused(e),
            Ok(peer) => if !self.desk.paired(peer) {
                self.refused("unpaired_device"@)
            } else if !self.desk.connected(peer) {
                self.refused("target_offline"@)
            } else {
                match orders::mode_of(v) {
                    None => self.refused("invalid_input_mode"@),
                    Some(mode) => {
                        let remote = v.flag_at("remote"@);
                        let id = outside::id_in(self.desk.next(log));
                        let drawn = self.at(self.desk.asking(Ask::Fresh));
                        let token = if remote {
                            orders::text_of(v, "context_token"@)
                        } else {
                            Ok(seq![])
                        };
                        match token {
                            Err(e) => drawn.refused(e),
                            Ok(context_token) => if remote && !inbound::is_context(context_token) {
                                drawn.refused("invalid_context"@)
                            } else {
                                let b = BindingView {
                                    session_id: id,
                                    source_device_id: if remote {
                                        peer
                                    } else {
                                        self.desk.id
                                    },
                                    target_device_id: if remote {
                                        self.desk.id
                                    } else {
                                        peer
                                    },
                                    controller_device_id: self.desk.id,
                                    input_mode: mode,
                                    context_token,
                                    target_app: match v.text_at("target_app"@) {
                                        Some(app) => app,
                                        None => seq![],
                                    },
                                    created_ms: wall,
                                };
                                let added = drawn.add_session(b, !remote, now, wall, log);
                                match added.result {
                                    Err(e) => added.engine.refused(e),
                                    Ok(_) => {
                                        let sent = added.engine.desk.send(
                                            peer,
                                            if remote {
                                                PayloadView::SessionStart { binding: b }
                                            } else {
                                                PayloadView::BindRequest { binding: b }
                                            },
                                            log,
                                        );
                                        Move {
                                            engine: added.engine.at(sent.desk),
                                            result: match sent.result {
                                                Ok(_) => Ok(Answer::Begun(id)),
                                                Err(e) => Err(e),
                                            },
                                        }
                                    },
                                }
                            },
                        }
                    },
                }
            },
        }
    }

    /// A session is forgotten, if it has neither the microphone nor the keyboard.
    pub open spec fn forget_recovery(self, v: JsonView) -> Move<()> {
        match orders::session_of(v) {
            Err(e) => self.refused(e),
            Ok(id) => if self.active_source == Some(id) || self.active_target == Some(id) {
                self.refused("session_still_active"@)
            } else {
                EngineView {
                    desk: self.desk.emit(EventView::RecoveryCleared { session_id: id }),
                    sessions: if engine::known(self.sessions, id) {
                        self.sessions.remove(engine::session_at(self.sessions, id) as int)
                    } else {
                        self.sessions
                    },
                    ..self
                }.kept()
            },
        }
    }

    /// A session is given a command.
    pub open spec fn order(self, op: Seq<char>, v: JsonView, now: u64, log: Seq<Reply>) -> Move<Answer> {
        match orders::session_of(v) {
            Err(e) => self.refused(e),
            Ok(id) => {
                let i = engine::session_at(self.sessions, id) as int;
                if i >= self.sessions.len() {
                    self.refused("unknown_session"@)
                } else {
                    self.landed(i, orders::obey(self.desk, self.sessions[i], op, v, now, log))
                }
            },
        }
    }

    /// The device is given a command.
    #[verifier::opaque]
    pub open spec fn command(self, v: JsonView, now: u64, wall: u64, log: Seq<Reply>) -> Move<Answer> {
        if self.desk.faulted {
            self.refused("core_restart_required"@)
        } else {
            match orders::text_of(v, "op"@) {
                Err(e) => self.refused(e),
                Ok(op) => if op == "open"@ {
                    answered(self.open(v, now, wall, log))
                } else if op == "bytes"@ {
                    answered(self.bytes(v, now, wall, log))
                } else if op == "closed"@ {
                    answered(self.closed(v, now, log))
                } else if op == "pair"@ {
                    answered(self.pair(v, log))
                } else if op == "revoke"@ {
                    answered(self.revoke(v, now, log))
                } else if op == "remote_permission"@ {
                    answered(self.remote_permission(v, now, log))
                } else if op == "begin"@ {
                    self.begin(v, now, wall, log)
                } else if op == "tick"@ {
                    answered(self.tick(now, log).kept())
                } else if op == "forget_recovery"@ {
                    answered(self.forget_recovery(v))
                } else {
                    self.order(op, v, now, log)
                },
            }
        }
    }

    /// A device that lost events is done for.
    pub open spec fn enforce_event_limit(self) -> EngineView {
        if self.desk.faulted {
            self.at(
                DeskView {
                    events: last_events(self.desk.links, self.active_source),
                    links: seq![],
                    ..self.desk
                },
            )
        } else {
            self
        }
    }
}

/// The JSON of an answer.
pub open spec fn answer_json(a: Answer) -> JsonView {
    match a {
        Answer::Done => json::record(seq!["ok"@], seq![JsonView::Bool(true)]),
        Answer::Begun(id) => json::record(seq!["session_id"@], seq![JsonView::Text(ids::id_text(id))]),
        Answer::Allowed(b) => json::record(seq!["allowed"@], seq![JsonView::Bool(b)]),
    }
}

impl Answer {
    /// The JSON of the answer.
    pub fn to_json(&self) -> (j: Json)
        ensures
            j@ == answer_json(*self),
            json::canonical(j@, 1),
    {
        let (name, value) = match self {
            Answer::Done => ("ok", Json::Bool(true)),
            Answer::Begun(id) => ("session_id", Json::Text(ids::show_id(*id))),
            Answer::Allowed(b) => ("allowed", Json::Bool(*b)),
        };
        let names = vec![name];
        let values = vec![value];
        proof {
            assert(json::names_view(names@) =~= seq![name@]);
            assert(json::items_view(values@) =~= seq![value@]);
            json::lemma_record_canonical(seq![name@], seq![value@], 0);
        }
        json::make_record(names, values)
    }
}

impl Engine {
    /// Opens a connection.
    fn open(&mut self, v: &Json, now: u64, wall: u64) -> (r: Result<(), CoreError>)
        requires
            old(self).wf(),
        ensures
            final(self).wf(),
            outside::continues(final(self).desk.history.replies(), old(self).desk.history.replies()),
            forall|log: Seq<Reply>| #[trigger]
                outside::continues(log, final(self).desk.history.replies()) ==> old(self)@.open(v@, now, wall, log) == (Move {
                    engine: final(self)@,
                    result: crate::outcome(r),
                }),
    {
        broadcast use outside::group_continues;

        reveal(EngineView::open);
        assert(outside::continues(self.desk.history.replies(), self.desk.history.replies()));
        let connection = match orders::string(v, "connection_id") {
            Ok(x) => x,
            Err(e) => return Err(e),
        };
        if self.desk.links.len() >= MAX_LINKS || self.desk.find_link(connection.as_str()).is_some() {
            return fail("connection_limit");
        }
        let expected = v.text_at("expected_peer");
        match &expected {
            Some(id) => {
                if !protocol::valid_id(id.as_str()) {
                    return fail("invalid_peer_identity");
                }
            },
            None => {},
        }
        let ghost links = self@.desk.links;
        let (c, events) = match Channel::new(self.desk.private.as_slice(), v.flag_at("initiator"), expected, now) {
            Ok(x) => x,
            Err(e) => return Err(e),
        };
        self.desk.history.shook(&c);
        assert(outside::continues(self.desk.history.replies(), self.desk.history.replies()));
        proof {
            desk::lemma_link_at(links, connection@);
        }
        self.desk.links.push(Link { id: text::copy(&connection), channel: c });
        assert(self@.desk.links =~= links.push(LinkView { id: connection@, channel: c@ }));
        self.channel_events(connection.as_str(), events, now, wall)
    }

    /// Takes in bytes that came over a connection.
    fn bytes(&mut self, v: &Json, now: u64, wall: u64) -> (r: Result<(), CoreError>)
        requires
            old(self).wf(),
        ensures
            final(self).wf(),
            outside::continues(final(self).desk.history.replies(), old(self).desk.history.replies()),
            forall|log: Seq<Reply>| #[trigger]
                outside::continues(log, final(self).desk.history.replies()) ==> old(self)@.bytes(v@, now, wall, log) == (Move {
                    engine: final(self)@,
                    result: crate::outcome(r),
                }),
    {
        broadcast use outside::group_continues;

        reveal(EngineView::bytes);
        assert(outside::continues(self.desk.history.replies(), self.desk.history.replies()));
        let connection = match orders::string(v, "connection_id") {
            Ok(x) => x,
            Err(e) => return Err(e),
        };
        let text = match orders::string(v, "data") {
            Ok(x) => x,
            Err(e) => return Err(e),
        };
        let data = match crypto::decode64(text.as_str()) {
            Some(d) => d,
            None => return fail("invalid_frame"),
        };
        let i = match self.desk.find_link(connection.as_str()) {
            Some(i) => i,
            None => return fail("target_offline"),
        };
        let ghost before = self@.desk;
        let heard = self.desk.links[i].channel.receive(data.as_slice(), now);
        proof {
            let c = self.desk.links@[i as int].channel;
            assert(self@.desk.links =~= before.with_channel(i as int, c@).links);
        }
        self.desk.history.shook(&self.desk.links[i].channel);
        assert(outside::continues(self.desk.history.replies(), self.desk.history.replies()));
        let r = match heard {
            Ok(events) => self.channel_events(connection.as_str(), events, now, wall),
            Err(e) => Err(e),
        };
        match r {
            Ok(_) => Ok(()),
            Err(e) => {
                self.close(connection.as_str(), now);
                Err(e)
            },
        }
    }

    /// Confirms that the device pairs with another.
    fn pair(&mut self, v: &Json) -> (r: Result<(), CoreError>)
        requires
            old(self).wf(),
        ensures
            final(self).wf(),
            outside::continues(final(self).desk.history.replies(), old(self).desk.history.replies()),
            forall|log: Seq<Reply>| #[trigger]
                outside::continues(log, final(self).desk.history.replies()) ==> old(self)@.pair(v@, log) == (Move {
                    engine: final(self)@,
                    result: crate::outcome(r),
                }),
    {
        broadcast use outside::group_continues;

        reveal(EngineView::pair);
        assert(outside::continues(self.desk.history.replies(), self.desk.history.replies()));
        let peer = match orders::string(v, "peer_id") {
            Ok(x) => x,
            Err(e) => return Err(e),
        };
        let i = match self.desk.find_peer(peer.as_str()) {
            Some(i) => i,
            None => return fail("target_offline"),
        };
        let connection = text::copy(&self.desk.links[i].id);
        let ghost d = self.desk@;
        self.desk.links[i].channel.local_confirmed = true;
        assert(self.desk@.links =~= d.with_channel(
            i as int,
            ChannelView { local_confirmed: true, ..d.links[i as int].channel },
        ).links);
        match self.desk.send_on(connection.as_str(), Payload::PairConfirm) {
            Ok(_) => {},
            Err(e) => return Err(e),
        }
        self.desk.maybe_pair(peer.as_str())
    }

    /// Cancels a session that listens for a device that lost its leave.
    fn disallow(&mut self, peer: &str, revoked: bool, now: u64)
        requires
            old(self).wf(),
        ensures
            final(self).wf(),
            outside::continues(final(self).desk.history.replies(), old(self).desk.history.replies()),
            forall|log: Seq<Reply>| #[trigger]
                outside::continues(log, final(self).desk.history.replies()) ==> old(self)@.disallow(peer@, revoked, now, log)
                    == final(self)@,
    {
        broadcast use outside::group_continues;

        assert(outside::continues(self.desk.history.replies(), self.desk.history.replies()));
        match self.active_source {
            Some(id) => match self.find(id) {
                Some(i) => {
                    let ghost before = self@;
                    let _ = self.desk.disallow(&mut self.sessions[i], peer, revoked, now);
                    assert(self@.sessions =~= before.sessions.update(i as int, self.sessions@[i as int]@));
                    self.land(i, id);
                },
                None => {},
            },
            None => {},
        }
    }

    /// Ends the pairing with a device.
    fn revoke(&mut self, v: &Json, now: u64) -> (r: Result<(), CoreError>)
        requires
            old(self).wf(),
        ensures
            final(self).wf(),
            outside::continues(final(self).desk.history.replies(), old(self).desk.history.replies()),
            forall|log: Seq<Reply>| #[trigger]
                outside::continues(log, final(self).desk.history.replies()) ==> old(self)@.revoke(v@, now, log) == (Move {
                    engine: final(self)@,
                    result: crate::outcome(r),
                }),
    {
        broadcast use outside::group_continues;

        reveal(EngineView::revoke);
        assert(outside::continues(self.desk.history.replies(), self.desk.history.replies()));
        let peer = match orders::string(v, "peer_id") {
            Ok(x) => x,
            Err(e) => return Err(e),
        };
        trust::take(&mut self.desk.trust, peer.as_str());
        self.desk.save_trust();
        self.disallow(peer.as_str(), true, now);
        match self.desk.find_peer(peer.as_str()) {
            Some(i) => {
                let connection = text::copy(&self.desk.links[i].id);
                self.close(connection.as_str(), now);
            },
            None => {},
        }
        let online = self.desk.find_peer(peer.as_str()).is_some();
        self.desk.peer_event(peer.as_str(), online);
        Ok(())
    }

    /// Lets a device start sessions from now on, or not.
    fn remote_permission(&mut self, v: &Json, now: u64) -> (r: Result<(), CoreError>)
        requires
            old(self).wf(),
        ensures
            final(self).wf(),
            outside::continues(final(self).desk.history.replies(), old(self).desk.history.replies()),
            forall|log: Seq<Reply>| #[trigger]
                outside::continues(log, final(self).desk.history.replies()) ==> old(self)@.remote_permission(v@, now, log) == (Move {
                    engine: final(self)@,
                    result: crate::outcome(r),
                }),
    {
        broadcast use outside::group_continues;

        reveal(EngineView::remote_permission);
        assert(outside::continues(self.desk.history.replies(), self.desk.history.replies()));
        let peer = match orders::string(v, "peer_id") {
            Ok(x) => x,
            Err(e) => return Err(e),
        };
        let i = match trust::find(&self.desk.trust, peer.as_str()) {
            Some(i) => i,
            None => return fail("unpaired_device"),
        };
        let allowed = v.flag_at("allowed");
        let ghost list = self@.desk.trust;
        self.desk.trust[i].allow_remote = allowed;
        assert(self@.desk.trust =~= list.update(
            i as int,
            TrustView { allow_remote: allowed, ..list[i as int] },
        ));
        self.desk.save_trust();
        if !allowed {
            self.disallow(peer.as_str(), false, now);
        }
        let online = self.desk.find_peer(peer.as_str()).is_some();
        self.desk.peer_event(peer.as_str(), online);
        Ok(())
    }

    /// Begins a session.
    fn begin(&mut self, v: &Json, now: u64, wall: u64) -> (r: Result<Answer, CoreError>)
        requires
            old(self).wf(),
        ensures
            final(self).wf(),
            outside::continues(final(self).desk.history.replies(), old(self).desk.history.replies()),
            forall|log: Seq<Reply>| #[trigger]
                outside::continues(log, final(self).desk.history.replies()) ==> old(self)@.begin(v@, now, wall, log) == (Move {
                    engine: final(self)@,
                    result: crate::outcome(r),
                }),
    {
        broadcast use outside::group_continues;

        reveal(EngineView::begin);
        assert(outside::continues(self.desk.history.replies(), self.desk.history.replies()));
        let peer = match orders::string(v, "peer_id") {
            Ok(x) => x,
            Err(e) => return Err(e),
        };
        if !trust::contains(&self.desk.trust, peer.as_str()) {
            return fail("unpaired_device");
        }
        if self.desk.find_peer(peer.as_str()).is_none() {
            return fail("target_offline");
        }
        let input_mode = match orders::mode_in(v) {
            Some(m) => m,
            None => return fail("invalid_input_mode"),
        };
        let remote = v.flag_at("remote");
        let id = self.desk.fresh();
        assert(outside::continues(self.desk.history.replies(), self.desk.history.replies()));
        let none = String::new();
        assert(none@ =~= seq![]);
        let context_token = if remote {
            match orders::string(v, "context_token") {
                Ok(t) => t,
                Err(e) => return Err(e),
            }
        } else {
            text::copy(&none)
        };
        if remote && !inbound::valid_context(context_token.as_str()) {
            return fail("invalid_context");
        }
        let me = text::copy(&self.desk.id);
        let b = Binding {
            session_id: id,
            source_device_id: if remote {
                text::copy(&peer)
            } else {
                text::copy(&me)
            },
            target_device_id: if remote {
                text::copy(&me)
            } else {
                text::copy(&peer)
            },
            controller_device_id: me,
            input_mode,
            context_token,
            target_app: match v.text_at("target_app") {
                Some(app) => app,
                None => none,
            },
            created_ms: wall,
        };
        let binding = b.clone();
        match self.add_session(b, !remote, now, wall) {
            Ok(_) => {},
            Err(e) => return Err(e),
        }
        let message = if remote {
            Payload::SessionStart { binding }
        } else {
            Payload::BindRequest { binding }
        };
        match self.desk.send(peer.as_str(), message) {
            Ok(_) => Ok(Answer::Begun(id)),
            Err(e) => Err(e),
        }
    }

    /// Forgets a session.
    fn forget_recovery(&mut self, v: &Json) -> (r: Result<(), CoreError>)
        requires
            old(self).wf(),
        ensures
            final(self).wf(),
            outside::continues(final(self).desk.history.replies(), old(self).desk.history.replies()),
            forall|log: Seq<Reply>| #[trigger]
                outside::continues(log, final(self).desk.history.replies()) ==> old(self)@.forget_recovery(v@) == (Move {
                    engine: final(self)@,
                    result: crate::outcome(r),
                }),
    {
        broadcast use outside::group_continues;

        assert(outside::continues(self.desk.history.replies(), self.desk.history.replies()));
        let id = match orders::sid(v) {
            Ok(x) => x,
            Err(e) => return Err(e),
        };
        let active = match (self.active_source, self.active_target) {
            (Some(a), Some(b)) => a == id || b == id,
            (Some(a), None) => a == id,
            (None, Some(b)) => b == id,
            (None, None) => false,
        };
        if active {
            return fail("session_still_active");
        }
        let ghost before = self@.sessions;
        match self.find(id) {
            Some(i) => {
                self.sessions.remove(i);
                assert(self@.sessions =~= before.remove(i as int));
            },
            None => {},
        }
        self.desk.emit(Event::RecoveryCleared { session_id: id });
        Ok(())
    }

    /// Carries out a command on a session.
    fn order(&mut self, op: &str, v: &Json, now: u64) -> (r: Result<Answer, CoreError>)
        requires
            old(self).wf(),
        ensures
            final(self).wf(),
            outside::continues(final(self).desk.history.replies(), old(self).desk.history.replies()),
            forall|log: Seq<Reply>| #[trigger]
                outside::continues(log, final(self).desk.history.replies()) ==> old(self)@.order(op@, v@, now, log) == (Move {
                    engine: final(self)@,
                    result: crate::outcome(r),
                }),
    {
        broadcast use outside::group_continues;

        assert(outside::continues(self.desk.history.replies(), self.desk.history.replies()));
        let id = match orders::sid(v) {
            Ok(x) => x,
            Err(e) => return Err(e),
        };
        let i = match self.find(id) {
            Some(i) => i,
            None => return fail("unknown_session"),
        };
        let ghost before = self@;
        let r = self.desk.obey(&mut self.sessions[i], op, v, now);
        assert(self@.sessions =~= before.sessions.update(i as int, self.sessions@[i as int]@));
        self.land(i, id);
        r
    }

    /// Carries out a command, at the given times: nanoseconds on the clock that only moves
    /// forward, and milliseconds on the calendar.
    pub fn command(&mut self, v: &Json, now: u64, wall: u64) -> (r: Result<Answer, CoreError>)
        requires
            old(self).wf(),
        ensures
            final(self).wf(),
            outside::continues(final(self).desk.history.replies(), old(self).desk.history.replies()),
            forall|log: Seq<Reply>| #[trigger]
                outside::continues(log, final(self).desk.history.replies()) ==> old(self)@.command(v@, now, wall, log) == (Move {
                    engine: final(self)@,
                    result: crate::outcome(r),
                }),
    {
        broadcast use outside::group_continues;

        reveal(EngineView::command);
        assert(outside::continues(self.desk.history.replies(), self.desk.history.replies()));
        if self.desk.faulted {
            return fail("core_restart_required");
        }
        let name = match orders::string(v, "op") {
            Ok(x) => x,
            Err(e) => return Err(e),
        };
        let op = name.as_str();
        let r = if text::same(op, "open") {
            self.open(v, now, wall)
        } else if text::same(op, "bytes") {
            self.bytes(v, now, wall)
        } else if text::same(op, "closed") {
            let connection = match orders::string(v, "connection_id") {
                Ok(c) => c,
                Err(e) => return Err(e),
            };
            self.close(connection.as_str(), now);
            Ok(())
        } else if text::same(op, "pair") {
            self.pair(v)
        } else if text::same(op, "revoke") {
            self.revoke(v, now)
        } else if text::same(op, "remote_permission") {
            self.remote_permission(v, now)
        } else if text::same(op, "begin") {
            return self.begin(v, now, wall);
        } else if text::same(op, "tick") {
            self.tick(now);
            Ok(())
        } else if text::same(op, "forget_recovery") {
            self.forget_recovery(v)
        } else {
            return self.order(op, v, now);
        };
        match r {
            Ok(_) => Ok(Answer::Done),
            Err(e) => Err(e),
        }
    }

    /// Is done for, if events were lost.
    pub fn enforce_event_limit(&mut self)
        requires
            old(self).wf(),
        ensures
            final(self).wf(),
            final(self)@ == old(self)@.enforce_event_limit(),
            final(self).desk.history.replies() == old(self).desk.history.replies(),
    {
        if !self.desk.faulted {
            return ;
        }
        let ghost links = self@.desk.links;
        let mut events: Vec<Event> = Vec::new();
        let mut i: usize = 0;
        while i < self.desk.links.len()
            invariant
                *self == *old(self),
                links == self@.desk.links,
                i <= self.desk.links@.len(),
                events@.len() == i,
                forall|k: int|
                    0 <= k < i ==> (#[trigger] events@[k])@ == (EventView::SocketClose { connection_id: links[k].id }),
            decreases self.desk.links.len() - i,
        {
            events.push(Event::SocketClose { connection_id: text::copy(&self.desk.links[i].id) });
            i = i + 1;
        }
        self.desk.links = Vec::new();
        match self.active_source {
            Some(id) => events.push(Event::CancelInput { session_id: id }),
            None => {},
        }
        events.push(Event::Fatal { code: "event_overflow_restart_required".to_owned() });
        self.desk.events = events;
        proof {
            assert(self@.desk.events =~= last_events(links, self.active_source));
            assert(self@.desk.links =~= seq![]);
        }
    }
}

impl Desk {
    /// Cancels a session because a device lost its leave.
    fn disallow(&mut self, s: &mut Session, peer: &str, revoked: bool, now: u64) -> (r: Result<(), CoreError>)
        requires
            old(self).wf(),
            old(s)@.wf(),
        ensures
            final(self).wf(),
            final(s)@.wf(),
            final(s)@.binding.session_id == old(s)@.binding.session_id,
            outside::continues(final(self).history.replies(), old(self).history.replies()),
            forall|log: Seq<Reply>| #[trigger]
                outside::continues(log, final(self).history.replies()) ==> disallowed(
                    old(self)@,
                    old(s)@,
                    peer@,
                    revoked,
                    now,
                    log,
                ) == (Turn { desk: final(self)@, session: final(s)@, result: crate::outcome(r) }),
    {
        broadcast use outside::group_continues;

        reveal(disallowed);
        assert(outside::continues(self.history.replies(), self.history.replies()));
        let other = s.other(self.id.as_str());
        if text::same(s.binding.controller_device_id.as_str(), peer) || (revoked && text::same(
            other.as_str(),
            peer,
        )) {
            return self.cancel(s, true, now);
        }
        Ok(())
    }
}

} // verus!
