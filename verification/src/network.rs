//! What a device makes of what comes over its connections.
use crate::crypto;
use crate::desk;
use crate::desk::{Desk, DeskView, LinkView, Seen, SeenView};
use crate::engine;
use crate::engine::{Engine, EngineView, Move, MAX_SEEN};
use crate::event::{Event, EventView};
use crate::inbound;
use crate::outside;
use crate::outside::Reply;
use crate::protocol;
use crate::protocol::{Binding, BindingView, Payload, PayloadView, Wire};
use crate::text;
use crate::transport;
use crate::transport::{ChannelEvent, ChannelEventView, ChannelView};
use crate::trust;
use crate::wire;
use crate::{fail, CoreError};
use vstd::prelude::*;
use vstd::utf8::*;

verus! {

/// Whether a byte can stand in the code of an error.
pub open spec fn code_byte(b: u8) -> bool {
    97 <= b <= 122 || b == 95
}

/// Whether a string can be the code of an error: a few lower-case letters and
/// underscores.
pub open spec fn is_code(code: Seq<char>) -> bool {
    &&& text::size(code) <= 64
    &&& forall|i: int| 0 <= i < text::size(code) ==> code_byte(#[trigger] encode_utf8(code)[i])
}

/// Whether a string can be the code of an error.
fn valid_code(code: &str) -> (r: bool)
    ensures
        r == is_code(code@),
{
    let b = code.as_bytes();
    if b.len() > 64 {
        return false;
    }
    let mut i: usize = 0;
    while i < b.len()
        invariant
            i <= b@.len(),
            b@ == encode_utf8(code@),
            forall|k: int| 0 <= k < i ==> code_byte(#[trigger] encode_utf8(code@)[k]),
        decreases b.len() - i,
    {
        let c = b[i];
        if !((97 <= c && c <= 122) || c == 95) {
            assert(!code_byte(encode_utf8(code@)[i as int]));
            return false;
        }
        i = i + 1;
    }
    true
}

/// Whether a request came before from the same device under the same identifier, with
/// another content.
pub open spec fn conflicts(seen: Seq<SeenView>, peer: Seq<char>, request_id: u128, digest: Seq<u8>) -> bool {
    exists|i: int|
        0 <= i < seen.len() && (#[trigger] seen[i]).peer == peer && seen[i].request_id == request_id && seen[i].digest
            != digest
}

/// The requests with one more; the oldest makes room for it.
pub open spec fn remembered(seen: Seq<SeenView>, s: SeenView) -> Seq<SeenView> {
    if seen.len() >= MAX_SEEN {
        seen.drop_first().push(s)
    } else {
        seen.push(s)
    }
}

/// Whether another connection than the given one is to a device.
pub open spec fn elsewhere(links: Seq<LinkView>, connection: Seq<char>, peer: Seq<char>) -> bool {
    exists|i: int|
        0 <= i < links.len() && (#[trigger] links[i]).id != connection && links[i].channel.peer == Some(peer)
}

impl EngineView {
    /// A device says who it is.
    pub open spec fn on_hello(self, peer: Seq<char>, connection: Seq<char>, device_id: Seq<char>, name: Seq<char>) -> Move<
        (),
    > {
        let i = desk::link_at(self.desk.links, connection) as int;
        if device_id != peer || text::size(name) > 128 || protocol::has_control(name) {
            self.refused("invalid_peer_identity"@)
        } else if i >= self.desk.links.len() {
            self.refused("target_offline"@)
        } else {
            self.at(
                self.desk.with_channel(i, ChannelView { name, ..self.desk.links[i].channel }).peer_event(peer, true),
            ).kept()
        }
    }

    /// A device confirms that it pairs.
    pub open spec fn on_pair_confirm(self, peer: Seq<char>, connection: Seq<char>) -> Move<()> {
        let i = desk::link_at(self.desk.links, connection) as int;
        if i >= self.desk.links.len() {
            self.refused("target_offline"@)
        } else {
            let c = self.desk.links[i].channel;
            let confirmed = self.desk.with_channel(i, ChannelView { remote_confirmed: true, ..c });
            let asked = if self.desk.paired(peer) {
                confirmed
            } else {
                confirmed.emit(EventView::PairRequested { peer_id: peer, code: c.code, name: c.name })
            };
            self.moved(asked.maybe_pair(peer))
        }
    }

    /// A device wants to dictate into this one.
    pub open spec fn on_bind_request(
        self,
        peer: Seq<char>,
        b: BindingView,
        now: u64,
        wall: u64,
        log: Seq<Reply>,
    ) -> Move<()> {
        let i = engine::session_at(self.sessions, b.session_id) as int;
        if b.source_device_id != peer || b.target_device_id != self.desk.id || b.controller_device_id != peer
            || b.context_token.len() != 0 {
            self.refused("invalid_binding"@)
        } else if i < self.sessions.len() {
            if self.sessions[i].binding.source_device_id != peer {
                self.refused("session_conflict"@)
            } else {
                self.kept()
            }
        } else {
            let added = self.add_session(b, false, now, wall, log);
            match added.result {
                Err(e) => Move { engine: added.engine, result: Err(e) },
                Ok(id) => added.engine.at(
                    added.engine.desk.emit(EventView::BindTarget { session_id: id }),
                ).kept(),
            }
        }
    }

    /// The target of a session has a place for the text.
    pub open spec fn on_session_bound(self, peer: Seq<char>, b: BindingView, wall: u64) -> Move<()> {
        let i = engine::session_at(self.sessions, b.session_id) as int;
        if !protocol::binding_ok(b, wall) {
            self.refused("invalid_binding"@)
        } else if i >= self.sessions.len() {
            self.refused("unknown_session"@)
        } else {
            self.landed(i, inbound::on_bound(self.desk, self.sessions[i], peer, b))
        }
    }

    /// A device wants this one to dictate into it. It must have been allowed to.
    #[verifier::opaque]
    pub open spec fn on_session_start(
        self,
        peer: Seq<char>,
        b: BindingView,
        now: u64,
        wall: u64,
        log: Seq<Reply>,
    ) -> Move<()> {
        let i = engine::session_at(self.sessions, b.session_id) as int;
        if !trust::may_start(self.desk.trust, peer) {
            self.moved(
                self.desk.send(
                    peer,
                    PayloadView::Error { session_id: Some(b.session_id), code: "remote_not_authorized"@ },
                    log,
                ),
            )
        } else if b.source_device_id != self.desk.id || b.target_device_id != peer || b.controller_device_id != peer
            || !inbound::is_context(b.context_token) {
            self.refused("invalid_binding"@)
        } else if i < self.sessions.len() {
            let s = self.sessions[i];
            if s.binding.controller_device_id != peer || s.binding.context_token != b.context_token
                || s.binding.input_mode != b.input_mode {
                self.refused("session_conflict"@)
            } else {
                self.moved(
                    self.desk.send(
                        peer,
                        PayloadView::SessionState { session_id: b.session_id, phase: s.phase },
                        log,
                    ),
                )
            }
        } else {
            let added = self.add_session(b, true, now, wall, log);
            match added.result {
                Err(_) => added.engine.moved(
                    added.engine.desk.send(
                        peer,
                        PayloadView::Error { session_id: None, code: "busy_or_expired_session"@ },
                        log,
                    ),
                ),
                Ok(_) => added.engine.at(added.engine.desk.emit(EventView::PrepareInput { binding: b })).kept(),
            }
        }
    }

    /// A device asks what became of a piece that it sent.
    #[verifier::opaque]
    pub open spec fn on_query(
        self,
        peer: Seq<char>,
        session_id: u128,
        sequence: u64,
        wall: u64,
        log: Seq<Reply>,
    ) -> Move<()> {
        let authorized = self.desk.authorize(session_id, peer, wall, log);
        match authorized.result {
            Err(_) => self.moved(authorized),
            Ok(_) => {
                let told = authorized.desk.tell(session_id, sequence, log);
                match told.result {
                    Err(e) => Move { engine: self.at(told.desk), result: Err(e) },
                    Ok(status) => self.moved(
                        told.desk.send(
                            peer,
                            PayloadView::ChunkAck { session_id, sequence, ack_status: status },
                            log,
                        ),
                    ),
                }
            },
        }
    }

    /// Something failed on another device.
    #[verifier::opaque]
    pub open spec fn on_error_message(
        self,
        peer: Seq<char>,
        session_id: Option<u128>,
        code: Seq<char>,
        now: u64,
        log: Seq<Reply>,
    ) -> Move<()> {
        if !is_code(code) {
            self.refused("invalid_error_code"@)
        } else {
            let e = self.at(self.desk.emit(EventView::Error { session_id, code }));
            match session_id {
                None => e.kept(),
                Some(id) => {
                    let i = engine::session_at(self.sessions, id) as int;
                    if i >= self.sessions.len() {
                        e.kept()
                    } else {
                        e.landed(i, inbound::on_error(e.desk, self.sessions[i], peer, now, log)).engine.kept()
                    }
                },
            }
        }
    }

    /// A message that is about a session. The journal must know the session, and the
    /// device as its other end.
    #[verifier::opaque]
    pub open spec fn on_session_message(
        self,
        peer: Seq<char>,
        id: u128,
        payload: PayloadView,
        now: u64,
        wall: u64,
        log: Seq<Reply>,
    ) -> Move<()> {
        let authorized = self.desk.authorize(id, peer, wall, log);
        let i = engine::session_at(self.sessions, id) as int;
        match authorized.result {
            Err(_) => self.moved(authorized),
            Ok(_) => if i >= self.sessions.len() {
                self.at(authorized.desk).refused("unknown_session"@)
            } else {
                self.landed(
                    i,
                    inbound::on_message(authorized.desk, self.sessions[i], peer, payload, now, log),
                )
            },
        }
    }

    /// A message comes from a device. Of one that is not paired, only who it is and that
    /// it pairs is heard.
    #[verifier::opaque]
    pub open spec fn receive(
        self,
        peer: Seq<char>,
        connection: Seq<char>,
        payload: PayloadView,
        now: u64,
        wall: u64,
        log: Seq<Reply>,
    ) -> Move<()> {
        match payload {
            PayloadView::Hello { device_id, name } => self.on_hello(peer, connection, device_id, name),
            PayloadView::PairConfirm => self.on_pair_confirm(peer, connection),
            _ => if !self.desk.paired(peer) {
                self.refused("unpaired_device"@)
            } else {
                match payload {
                    PayloadView::BindRequest { binding } => self.on_bind_request(peer, binding, now, wall, log),
                    PayloadView::SessionBound { binding } => self.on_session_bound(peer, binding, wall),
                    PayloadView::SessionStart { binding } => self.on_session_start(peer, binding, now, wall, log),
                    PayloadView::ChunkQuery { session_id, sequence } => self.on_query(
                        peer,
                        session_id,
                        sequence,
                        wall,
                        log,
                    ),
                    PayloadView::Error { session_id, code } => self.on_error_message(
                        peer,
                        session_id,
                        code,
                        now,
                        log,
                    ),
                    _ => match inbound::about(payload) {
                        Some(id) => self.on_session_message(peer, id, payload, now, wall, log),
                        None => self.refused("invalid_message"@),
                    },
                }
            },
        }
    }

    /// A text came over a connection.
    #[verifier::opaque]
    pub open spec fn on_plain(self, connection: Seq<char>, bytes: Seq<u8>, now: u64, wall: u64, log: Seq<Reply>) -> Move<
        (),
    > {
        let i = desk::link_at(self.desk.links, connection) as int;
        match wire::wire_decoded(bytes) {
            Err(e) => self.refused(e),
            Ok(w) => if i >= self.desk.links.len() || self.desk.links[i].channel.peer is None {
                self.refused("unpaired_device"@)
            } else {
                let peer = self.desk.links[i].channel.peer->0;
                let digest = crypto::sha256_of(bytes);
                if conflicts(self.desk.seen, peer, w.request_id, digest) {
                    self.refused("request_content_conflict"@)
                } else {
                    self.at(
                        DeskView {
                            seen: remembered(
                                self.desk.seen,
                                SeenView { peer, request_id: w.request_id, digest },
                            ),
                            ..self.desk
                        },
                    ).receive(peer, connection, w.payload, now, wall, log)
                }
            },
        }
    }

    /// A channel says something for itself.
    pub open spec fn on_channel_event(
        self,
        connection: Seq<char>,
        e: ChannelEventView,
        now: u64,
        wall: u64,
        log: Seq<Reply>,
    ) -> Move<()> {
        match e {
            ChannelEventView::Write(data) => self.at(
                self.desk.emit(EventView::SocketSend { connection_id: connection, data }),
            ).kept(),
            ChannelEventView::Authenticated { peer, code } => if peer == self.desk.id || elsewhere(
                self.desk.links,
                connection,
                peer,
            ) {
                self.refused("duplicate_connection"@)
            } else {
                let sent = self.desk.send_on(
                    connection,
                    PayloadView::Hello { device_id: self.desk.id, name: self.desk.name },
                    log,
                );
                match sent.result {
                    Err(_) => self.moved(sent),
                    Ok(_) => self.at(
                        sent.desk.emit(EventView::SecureChannel { peer_id: peer, code }),
                    ).kept(),
                }
            },
            ChannelEventView::Plain(bytes) => self.on_plain(connection, bytes, now, wall, log),
        }
    }

    /// A channel says several things for itself, until one of them fails.
    pub open spec fn on_channel_events(
        self,
        connection: Seq<char>,
        events: Seq<ChannelEventView>,
        now: u64,
        wall: u64,
        log: Seq<Reply>,
    ) -> Move<()>
        decreases events.len(),
    {
        if events.len() == 0 {
            self.kept()
        } else {
            let first = self.on_channel_event(connection, events[0], now, wall, log);
            match first.result {
                Err(_) => first,
                Ok(_) => first.engine.on_channel_events(connection, events.drop_first(), now, wall, log),
            }
        }
    }
}

impl Engine {
    /// Takes in who a device is.
    fn on_hello(&mut self, peer: &str, connection: &str, device_id: String, name: String) -> (r: Result<(), CoreError>)
        requires
            old(self).wf(),
        ensures
            final(self).wf(),
            final(self).desk.history.replies() == old(self).desk.history.replies(),
            old(self)@.on_hello(peer@, connection@, device_id@, name@) == (Move {
                engine: final(self)@,
                result: crate::outcome(r),
            }),
    {
        if !text::same(device_id.as_str(), peer) || text::byte_len(name.as_str()) > 128 || protocol::any_control(
            name.as_str(),
        ) {
            return fail("invalid_peer_identity");
        }
        let i = match self.desk.find_link(connection) {
            Some(i) => i,
            None => return fail("target_offline"),
        };
        let ghost d = self.desk@;
        self.desk.links[i].channel.name = name;
        assert(self.desk@.links =~= d.with_channel(
            i as int,
            ChannelView { name: name@, ..d.links[i as int].channel },
        ).links);
        self.desk.peer_event(peer, true);
        Ok(())
    }

    /// Takes in that a device confirms that it pairs.
    fn on_pair_confirm(&mut self, peer: &str, connection: &str) -> (r: Result<(), CoreError>)
        requires
            old(self).wf(),
        ensures
            final(self).wf(),
            final(self).desk.history.replies() == old(self).desk.history.replies(),
            old(self)@.on_pair_confirm(peer@, connection@) == (Move {
                engine: final(self)@,
                result: crate::outcome(r),
            }),
    {
        let i = match self.desk.find_link(connection) {
            Some(i) => i,
            None => return fail("target_offline"),
        };
        let ghost d = self.desk@;
        self.desk.links[i].channel.remote_confirmed = true;
        assert(self.desk@.links =~= d.with_channel(
            i as int,
            ChannelView { remote_confirmed: true, ..d.links[i as int].channel },
        ).links);
        if !trust::contains(&self.desk.trust, peer) {
            let code = text::copy(&self.desk.links[i].channel.code);
            let name = text::copy(&self.desk.links[i].channel.name);
            self.desk.emit(Event::PairRequested { peer_id: peer.to_owned(), code, name });
        }
        self.desk.maybe_pair(peer)
    }

    /// Takes in that a device wants to dictate into this one.
    fn on_bind_request(&mut self, peer: &str, b: Binding, now: u64, wall: u64) -> (r: Result<(), CoreError>)
        requires
            old(self).wf(),
        ensures
            final(self).wf(),
            outside::continues(final(self).desk.history.replies(), old(self).desk.history.replies()),
            forall|log: Seq<Reply>| #[trigger]
                outside::continues(log, final(self).desk.history.replies()) ==> old(self)@.on_bind_request(
                    peer@,
                    b@,
                    now,
                    wall,
                    log,
                ) == (Move { engine: final(self)@, result: crate::outcome(r) }),
    {
        broadcast use outside::group_continues;

        assert(outside::continues(self.desk.history.replies(), self.desk.history.replies()));
        if !text::same(b.source_device_id.as_str(), peer) || !text::same(
            b.target_device_id.as_str(),
            self.desk.id.as_str(),
        ) || !text::same(b.controller_device_id.as_str(), peer) || !b.context_token.as_str().is_empty() {
            return fail("invalid_binding");
        }
        match self.find(b.session_id) {
            Some(i) => {
                if !text::same(self.sessions[i].binding.source_device_id.as_str(), peer) {
                    return fail("session_conflict");
                }
                return Ok(());
            },
            None => {},
        }
        let id = match self.add_session(b, false, now, wall) {
            Ok(id) => id,
            Err(e) => return Err(e),
        };
        self.desk.emit(Event::BindTarget { session_id: id });
        Ok(())
    }

    /// Takes in that the target of a session has a place for the text.
    fn on_session_bound(&mut self, peer: &str, b: Binding, wall: u64) -> (r: Result<(), CoreError>)
        requires
            old(self).wf(),
        ensures
            final(self).wf(),
            final(self).desk.history.replies() == old(self).desk.history.replies(),
            old(self)@.on_session_bound(peer@, b@, wall) == (Move {
                engine: final(self)@,
                result: crate::outcome(r),
            }),
    {
        match b.validate(wall) {
            Ok(_) => {},
            Err(e) => return Err(e),
        }
        let id = b.session_id;
        let i = match self.find(id) {
            Some(i) => i,
            None => return fail("unknown_session"),
        };
        let ghost before = self@;
        let r = self.desk.on_bound(&mut self.sessions[i], peer, b);
        assert(self@.sessions =~= before.sessions.update(i as int, self.sessions@[i as int]@));
        self.land(i, id);
        r
    }

    /// Takes in that a device wants this one to dictate into it.
    fn on_session_start(&mut self, peer: &str, b: Binding, now: u64, wall: u64) -> (r: Result<(), CoreError>)
        requires
            old(self).wf(),
        ensures
            final(self).wf(),
            outside::continues(final(self).desk.history.replies(), old(self).desk.history.replies()),
            forall|log: Seq<Reply>| #[trigger]
                outside::continues(log, final(self).desk.history.replies()) ==> old(self)@.on_session_start(
                    peer@,
                    b@,
                    now,
                    wall,
                    log,
                ) == (Move { engine: final(self)@, result: crate::outcome(r) }),
    {
        broadcast use outside::group_continues;

        reveal(EngineView::on_session_start);
        assert(outside::continues(self.desk.history.replies(), self.desk.history.replies()));
        if !trust::allows(&self.desk.trust, peer) {
            return self.desk.send(
                peer,
                Payload::Error { session_id: Some(b.session_id), code: "remote_not_authorized".to_owned() },
            );
        }
        if !text::same(b.source_device_id.as_str(), self.desk.id.as_str()) || !text::same(
            b.target_device_id.as_str(),
            peer,
        ) || !text::same(b.controller_device_id.as_str(), peer) || !inbound::valid_context(
            b.context_token.as_str(),
        ) {
            return fail("invalid_binding");
        }
        match self.find(b.session_id) {
            Some(i) => {
                if !text::same(self.sessions[i].binding.controller_device_id.as_str(), peer) || !text::same(
                    self.sessions[i].binding.context_token.as_str(),
                    b.context_token.as_str(),
                ) || self.sessions[i].binding.input_mode != b.input_mode {
                    return fail("session_conflict");
                }
                let phase = self.sessions[i].phase;
                return self.desk.send(peer, Payload::SessionState { session_id: b.session_id, phase });
            },
            None => {},
        }
        let binding = b.clone();
        match self.add_session(b, true, now, wall) {
            Ok(_) => {
                self.desk.emit(Event::PrepareInput { binding });
                Ok(())
            },
            Err(_) => self.desk.send(
                peer,
                Payload::Error { session_id: None, code: "busy_or_expired_session".to_owned() },
            ),
        }
    }

    /// Tells a device what became of a piece that it sent.
    fn on_query(&mut self, peer: &str, session_id: u128, sequence: u64, wall: u64) -> (r: Result<(), CoreError>)
        requires
            old(self).wf(),
        ensures
            final(self).wf(),
            outside::continues(final(self).desk.history.replies(), old(self).desk.history.replies()),
            forall|log: Seq<Reply>| #[trigger]
                outside::continues(log, final(self).desk.history.replies()) ==> old(self)@.on_query(
                    peer@,
                    session_id,
                    sequence,
                    wall,
                    log,
                ) == (Move { engine: final(self)@, result: crate::outcome(r) }),
    {
        broadcast use outside::group_continues;

        reveal(EngineView::on_query);
        match self.desk.authorize(session_id, peer, wall) {
            Ok(_) => {},
            Err(e) => return Err(e),
        }
        let status = match self.desk.tell(session_id, sequence) {
            Ok(status) => status,
            Err(e) => return Err(e),
        };
        self.desk.send(peer, Payload::ChunkAck { session_id, sequence, ack_status: status })
    }

    /// Takes in that something failed on another device.
    fn on_error_message(&mut self, peer: &str, session_id: Option<u128>, code: String, now: u64) -> (r: Result<
        (),
        CoreError,
    >)
        requires
            old(self).wf(),
        ensures
            final(self).wf(),
            outside::continues(final(self).desk.history.replies(), old(self).desk.history.replies()),
            forall|log: Seq<Reply>| #[trigger]
                outside::continues(log, final(self).desk.history.replies()) ==> old(self)@.on_error_message(
                    peer@,
                    session_id,
                    code@,
                    now,
                    log,
                ) == (Move { engine: final(self)@, result: crate::outcome(r) }),
    {
        broadcast use outside::group_continues;

        reveal(EngineView::on_error_message);
        assert(outside::continues(self.desk.history.replies(), self.desk.history.replies()));
        if !valid_code(code.as_str()) {
            return fail("invalid_error_code");
        }
        self.desk.emit(Event::Error { session_id, code });
        match session_id {
            Some(id) => match self.find(id) {
                Some(i) => {
                    let ghost before = self@;
                    let _ = self.desk.on_error(&mut self.sessions[i], peer, now);
                    assert(self@.sessions =~= before.sessions.update(i as int, self.sessions@[i as int]@));
                    self.land(i, id);
                },
                None => {},
            },
            None => {},
        }
        Ok(())
    }

    /// Takes in a message that is about a session.
    fn on_session_message(&mut self, peer: &str, id: u128, payload: Payload, now: u64, wall: u64) -> (r: Result<
        (),
        CoreError,
    >)
        requires
            old(self).wf(),
        ensures
            final(self).wf(),
            outside::continues(final(self).desk.history.replies(), old(self).desk.history.replies()),
            forall|log: Seq<Reply>| #[trigger]
                outside::continues(log, final(self).desk.history.replies()) ==> old(self)@.on_session_message(
                    peer@,
                    id,
                    payload@,
                    now,
                    wall,
                    log,
                ) == (Move { engine: final(self)@, result: crate::outcome(r) }),
    {
        broadcast use outside::group_continues;

        reveal(EngineView::on_session_message);
        match self.desk.authorize(id, peer, wall) {
            Ok(_) => {},
            Err(e) => return Err(e),
        }
        let i = match self.find(id) {
            Some(i) => i,
            None => return fail("unknown_session"),
        };
        let ghost before = self@;
        let r = self.desk.on_message(&mut self.sessions[i], peer, payload, now);
        assert(self@.sessions =~= before.sessions.update(i as int, self.sessions@[i as int]@));
        self.land(i, id);
        r
    }

    /// Takes in a message from a device.
    pub fn receive(&mut self, peer: &str, connection: &str, payload: Payload, now: u64, wall: u64) -> (r: Result<
        (),
        CoreError,
    >)
        requires
            old(self).wf(),
        ensures
            final(self).wf(),
            outside::continues(final(self).desk.history.replies(), old(self).desk.history.replies()),
            forall|log: Seq<Reply>| #[trigger]
                outside::continues(log, final(self).desk.history.replies()) ==> old(self)@.receive(
                    peer@,
                    connection@,
                    payload@,
                    now,
                    wall,
                    log,
                ) == (Move { engine: final(self)@, result: crate::outcome(r) }),
    {
        broadcast use outside::group_continues;

        reveal(EngineView::receive);
        assert(outside::continues(self.desk.history.replies(), self.desk.history.replies()));
        let paired = trust::contains(&self.desk.trust, peer);
        match payload {
            Payload::Hello { device_id, name } => return self.on_hello(peer, connection, device_id, name),
            Payload::PairConfirm => return self.on_pair_confirm(peer, connection),
            other => {
                if !paired {
                    return fail("unpaired_device");
                }
                match other {
                    Payload::BindRequest { binding } => self.on_bind_request(peer, binding, now, wall),
                    Payload::SessionBound { binding } => self.on_session_bound(peer, binding, wall),
                    Payload::SessionStart { binding } => self.on_session_start(peer, binding, now, wall),
                    Payload::ChunkQuery { session_id, sequence } => self.on_query(peer, session_id, sequence, wall),
                    Payload::Error { session_id, code } => self.on_error_message(peer, session_id, code, now),
                    message => {
                        let about = match &message {
                            Payload::SessionReady { session_id } => Some(*session_id),
                            Payload::SessionState { session_id, .. } => Some(*session_id),
                            Payload::SessionKeepalive { session_id } => Some(*session_id),
                            Payload::SessionStop { session_id } => Some(*session_id),
                            Payload::SessionCancel { session_id } => Some(*session_id),
                            Payload::TextChunk { session_id, .. } => Some(*session_id),
                            Payload::ChunkAck { session_id, .. } => Some(*session_id),
                            Payload::SessionEnd { session_id, .. } => Some(*session_id),
                            Payload::SessionPause { session_id } => Some(*session_id),
                            Payload::SessionResume { session_id, .. } => Some(*session_id),
                            _ => None,
                        };
                        match about {
                            Some(id) => self.on_session_message(peer, id, message, now, wall),
                            None => fail("invalid_message"),
                        }
                    },
                }
            },
        }
    }

    /// Takes in a text that came over a connection.
    fn on_plain(&mut self, connection: &str, bytes: Vec<u8>, now: u64, wall: u64) -> (r: Result<(), CoreError>)
        requires
            old(self).wf(),
        ensures
            final(self).wf(),
            outside::continues(final(self).desk.history.replies(), old(self).desk.history.replies()),
            forall|log: Seq<Reply>| #[trigger]
                outside::continues(log, final(self).desk.history.replies()) ==> old(self)@.on_plain(
                    connection@,
                    bytes@,
                    now,
                    wall,
                    log,
                ) == (Move { engine: final(self)@, result: crate::outcome(r) }),
    {
        broadcast use outside::group_continues;

        reveal(EngineView::on_plain);
        assert(outside::continues(self.desk.history.replies(), self.desk.history.replies()));
        let wire = match Wire::decode(bytes.as_slice()) {
            Ok(w) => w,
            Err(e) => return Err(e),
        };
        let peer = match self.desk.find_link(connection) {
            Some(i) => match &self.desk.links[i].channel.peer {
                Some(p) => text::copy(p),
                None => return fail("unpaired_device"),
            },
            None => return fail("unpaired_device"),
        };
        let digest = crypto::sha256(bytes.as_slice());
        if self.desk.has_conflict(peer.as_str(), wire.request_id, &digest) {
            return fail("request_content_conflict");
        }
        self.desk.remember(Seen { peer: text::copy(&peer), request_id: wire.request_id, digest });
        self.receive(peer.as_str(), connection, wire.payload, now, wall)
    }

    /// Takes in what a channel says for itself.
    fn on_channel_event(&mut self, connection: &str, e: ChannelEvent, now: u64, wall: u64) -> (r: Result<(), CoreError>)
        requires
            old(self).wf(),
        ensures
            final(self).wf(),
            outside::continues(final(self).desk.history.replies(), old(self).desk.history.replies()),
            forall|log: Seq<Reply>| #[trigger]
                outside::continues(log, final(self).desk.history.replies()) ==> old(self)@.on_channel_event(
                    connection@,
                    e@,
                    now,
                    wall,
                    log,
                ) == (Move { engine: final(self)@, result: crate::outcome(r) }),
    {
        broadcast use outside::group_continues;

        assert(outside::continues(self.desk.history.replies(), self.desk.history.replies()));
        match e {
            ChannelEvent::Write(data) => {
                self.desk.emit(Event::SocketSend { connection_id: connection.to_owned(), data });
                Ok(())
            },
            ChannelEvent::Authenticated { peer, code } => {
                if text::same(peer.as_str(), self.desk.id.as_str()) || self.desk.is_elsewhere(
                    connection,
                    peer.as_str(),
                ) {
                    return fail("duplicate_connection");
                }
                let hello = Payload::Hello {
                    device_id: text::copy(&self.desk.id),
                    name: text::copy(&self.desk.name),
                };
                match self.desk.send_on(connection, hello) {
                    Ok(_) => {},
                    Err(e) => return Err(e),
                }
                self.desk.emit(Event::SecureChannel { peer_id: peer, code });
                Ok(())
            },
            ChannelEvent::Plain(bytes) => self.on_plain(connection, bytes, now, wall),
        }
    }

    /// Takes in several things that a channel says for itself, until one of them fails.
    pub fn channel_events(&mut self, connection: &str, events: Vec<ChannelEvent>, now: u64, wall: u64) -> (r: Result<
        (),
        CoreError,
    >)
        requires
            old(self).wf(),
        ensures
            final(self).wf(),
            outside::continues(final(self).desk.history.replies(), old(self).desk.history.replies()),
            forall|log: Seq<Reply>| #[trigger]
                outside::continues(log, final(self).desk.history.replies()) ==> old(self)@.on_channel_events(
                    connection@,
                    transport::channel_events_view(events@),
                    now,
                    wall,
                    log,
                ) == (Move { engine: final(self)@, result: crate::outcome(r) }),
    {
        broadcast use outside::group_continues;

        assert(outside::continues(self.desk.history.replies(), self.desk.history.replies()));
        let ghost all = transport::channel_events_view(events@);
        let ghost begun = self@;
        let ghost replies = self.desk.history.replies();
        let mut left = events;
        while left.len() > 0
            invariant
                self.wf(),
                begun == old(self)@,
                replies == old(self).desk.history.replies(),
                all == transport::channel_events_view(events@),
                outside::continues(self.desk.history.replies(), replies),
                forall|log: Seq<Reply>| #[trigger]
                    outside::continues(log, self.desk.history.replies()) ==> begun.on_channel_events(
                        connection@,
                        all,
                        now,
                        wall,
                        log,
                    ) == self@.on_channel_events(
                        connection@,
                        transport::channel_events_view(left@),
                        now,
                        wall,
                        log,
                    ),
            decreases left@.len(),
        {
            broadcast use outside::group_continues;

            let ghost before = transport::channel_events_view(left@);
            let e = left.remove(0);
            assert(before[0] == e@);
            assert(before.drop_first() =~= transport::channel_events_view(left@));
            match self.on_channel_event(connection, e, now, wall) {
                Ok(_) => {},
                Err(e) => return Err(e),
            }
        }
        Ok(())
    }
}

impl Desk {
    /// Whether a request came before with another content.
    fn has_conflict(&self, peer: &str, request_id: u128, digest: &Vec<u8>) -> (r: bool)
        ensures
            r == conflicts(self@.seen, peer@, request_id, digest@),
    {
        let mut i: usize = 0;
        while i < self.seen.len()
            invariant
                i <= self.seen@.len(),
                forall|k: int|
                    0 <= k < i ==> !((#[trigger] self@.seen[k]).peer == peer@ && self@.seen[k].request_id
                        == request_id && self@.seen[k].digest != digest@),
            decreases self.seen.len() - i,
        {
            if self.seen[i].request_id == request_id && text::same(self.seen[i].peer.as_str(), peer)
                && !text::same_bytes(self.seen[i].digest.as_slice(), digest.as_slice()) {
                assert(self@.seen[i as int].peer == peer@);
                return true;
            }
            i = i + 1;
        }
        false
    }

    /// Remembers a request; the oldest makes room for it.
    fn remember(&mut self, s: Seen)
        requires
            old(self).wf(),
        ensures
            final(self).wf(),
            final(self)@ == (DeskView { seen: remembered(old(self)@.seen, s@), ..old(self)@ }),
            final(self).history.replies() == old(self).history.replies(),
    {
        let ghost seen = self@.seen;
        if self.seen.len() >= MAX_SEEN {
            self.seen.remove(0);
        }
        self.seen.push(s);
        assert(self@.seen =~= remembered(seen, s@));
    }

    /// Whether another connection than the given one is to a device.
    fn is_elsewhere(&self, connection: &str, peer: &str) -> (r: bool)
        ensures
            r == elsewhere(self@.links, connection@, peer@),
    {
        let mut i: usize = 0;
        while i < self.links.len()
            invariant
                i <= self.links@.len(),
                forall|k: int|
                    0 <= k < i ==> !((#[trigger] self@.links[k]).id != connection@ && self@.links[k].channel.peer
                        == Some(peer@)),
            decreases self.links.len() - i,
        {
            if !text::same(self.links[i].id.as_str(), connection) && text::is_some_text(
                &self.links[i].channel.peer,
                peer,
            ) {
                assert(self@.links[i as int].channel.peer == Some(peer@));
                return true;
            }
            i = i + 1;
        }
        false
    }
}

} // verus!
