//! What a session makes of a message from its other device.
use crate::desk::{Desk, DeskView};
use crate::event::{Event, EventView};
use crate::ids;
use crate::outside;
use crate::outside::Reply;
use crate::protocol;
use crate::protocol::{Ack, Binding, BindingView, Payload, PayloadView, Phase, MAX_QUEUE};
use crate::session;
use crate::session::{Chunk, ChunkView, Session, SessionView, MAX_SEQUENCE, MAX_SESSION_TEXT};
use crate::steps;
use crate::steps::Turn;
use crate::text;
use crate::{fail, CoreError};
use vstd::prelude::*;

verus! {

/// Whether a token names a place for text.
pub open spec fn is_context(token: Seq<char>) -> bool {
    ids::id_parsed(token) is Some && ids::id_parsed(token) != Some(0u128)
}

/// Whether a token names a place for text.
pub fn valid_context(token: &str) -> (r: bool)
    ensures
        r == is_context(token@),
{
    match ids::parse_id(token) {
        Some(id) => id != 0,
        None => false,
    }
}

/// A step that is refused and changes nothing.
pub open spec fn refused<T>(d: DeskView, s: SessionView, code: Seq<char>) -> Turn<T> {
    Turn { desk: d, session: s, result: Err(code) }
}

/// A step that ends with telling of the session.
pub open spec fn told(d: DeskView, s: SessionView) -> Turn<()> {
    Turn { desk: d.snapshot(s), session: s, result: Ok(()) }
}

// ---------------------------------------------------------------- the target hears

/// The source is ready.
pub open spec fn on_ready(d: DeskView, s: SessionView, peer: Seq<char>) -> Turn<()> {
    if peer != s.binding.source_device_id {
        refused(d, s, "unauthorized_session"@)
    } else {
        told(
            d,
            SessionView {
                phase: if s.phase == Phase::Preparing {
                    Phase::Ready
                } else {
                    s.phase
                },
                ..s
            },
        )
    }
}

/// The source stands somewhere else. The target follows, unless it waits for something
/// else or is done.
pub open spec fn on_state(d: DeskView, s: SessionView, peer: Seq<char>, phase: Phase) -> Turn<()> {
    if peer != s.binding.source_device_id {
        refused(d, s, "unauthorized_session"@)
    } else {
        told(
            d,
            SessionView {
                phase: match s.phase {
                    Phase::Paused | Phase::Unknown | Phase::Cancelled | Phase::Done => s.phase,
                    _ => if phase.spec_terminal() {
                        s.phase
                    } else {
                        phase
                    },
                },
                ..s
            },
        )
    }
}

/// Whether a piece can be typed in its turn: it is for the place where text goes, text
/// may be typed, its turn is not over and not too far off, and it fits.
pub open spec fn is_safe(s: SessionView, sequence: u64, context_token: Seq<char>, said: Seq<char>) -> bool {
    &&& context_token == s.binding.context_token
    &&& s.can_inject()
    &&& s.next_receive <= sequence < s.next_receive + MAX_QUEUE
    &&& session::total(s.chunks) + text::size(said) <= MAX_SESSION_TEXT
}

/// A piece is kept, to be typed in its turn or not at all, once the journal has answered.
#[verifier::opaque]
pub open spec fn keep_piece(
    d: DeskView,
    s: SessionView,
    peer: Seq<char>,
    sequence: u64,
    said: Seq<char>,
    is_final: bool,
    status: Ack,
    recorded: Result<(), Seq<char>>,
    log: Seq<Reply>,
) -> Turn<()> {
    if recorded is Err {
        Turn { desk: d, session: s, result: recorded }
    } else {
        let taken = if s.chunks.len() < MAX_SEQUENCE {
            SessionView {
                chunks: session::placed(s.chunks, ChunkView { sequence, text: said, status, is_final }),
                ..s
            }
        } else {
            s
        };
        let sent = d.send(
            peer,
            PayloadView::ChunkAck { session_id: s.binding.session_id, sequence, ack_status: status },
            log,
        );
        match sent.result {
            Err(_) => Turn { desk: sent.desk, session: taken, result: sent.result },
            Ok(_) => steps::pump(sent.desk.snapshot(taken), taken),
        }
    }
}

/// A registered piece is taken in: to be typed in its turn, or not at all.
#[verifier::opaque]
pub open spec fn take_piece(
    d: DeskView,
    s: SessionView,
    peer: Seq<char>,
    sequence: u64,
    context_token: Seq<char>,
    said: Seq<char>,
    is_final: bool,
    log: Seq<Reply>,
) -> Turn<()> {
    if is_safe(s, sequence, context_token, said) {
        keep_piece(d, s, peer, sequence, said, is_final, Ack::Received, Ok(()), log)
    } else {
        let recorded = d.record(s.binding.session_id, sequence, Ack::NotApplied, log);
        keep_piece(recorded.desk, s, peer, sequence, said, is_final, Ack::NotApplied, recorded.result, log)
    }
}

/// A piece comes that was registered before. It is taken in again only if it was not
/// typed, may come again, and is for the place where text goes now.
#[verifier::opaque]
pub open spec fn take_again(
    d: DeskView,
    s: SessionView,
    peer: Seq<char>,
    sequence: u64,
    context_token: Seq<char>,
    said: Seq<char>,
    is_final: bool,
    status: Ack,
    log: Seq<Reply>,
) -> Turn<()> {
    let used = if status == Ack::NotApplied {
        SessionView { retry_allowed: s.retry_allowed.remove(sequence), ..s }
    } else {
        s
    };
    if status != Ack::NotApplied || !s.retry_allowed.contains(sequence) || context_token != s.binding.context_token {
        let sent = d.send(
            peer,
            PayloadView::ChunkAck { session_id: s.binding.session_id, sequence, ack_status: status },
            log,
        );
        Turn { desk: sent.desk, session: used, result: sent.result }
    } else {
        let recorded = d.record(s.binding.session_id, sequence, Ack::Received, log);
        match recorded.result {
            Err(_) => Turn { desk: recorded.desk, session: used, result: recorded.result },
            Ok(_) => take_piece(recorded.desk, used, peer, sequence, context_token, said, is_final, log),
        }
    }
}

/// What becomes of a piece of text once the journal has answered: one that is new is taken in,
/// and of one that came before it depends on what is known of it.
#[verifier::opaque]
pub open spec fn registered(
    d: DeskView,
    s: SessionView,
    peer: Seq<char>,
    sequence: u64,
    context_token: Seq<char>,
    said: Seq<char>,
    is_final: bool,
    known: Result<Option<Ack>, Seq<char>>,
    log: Seq<Reply>,
) -> Turn<()> {
    match known {
        Err(e) => refused(d, s, e),
        Ok(None) => take_piece(d, s, peer, sequence, context_token, said, is_final, log),
        Ok(Some(status)) => take_again(d, s, peer, sequence, context_token, said, is_final, status, log),
    }
}

/// A piece of text comes. It is registered in the journal before anything else.
#[verifier::opaque]
pub open spec fn on_chunk(
    d: DeskView,
    s: SessionView,
    peer: Seq<char>,
    sequence: u64,
    context_token: Seq<char>,
    said: Seq<char>,
    is_final: bool,
    log: Seq<Reply>,
) -> Turn<()> {
    if peer != s.binding.source_device_id || sequence == 0 || sequence > MAX_SEQUENCE {
        refused(d, s, "unauthorized_chunk"@)
    } else {
        match protocol::text_error(said) {
            Some(e) => refused(d, s, e),
            None => {
                let answer = d.register(s.binding.session_id, sequence, said, log);
                registered(answer.desk, s, peer, sequence, context_token, said, is_final, answer.result, log)
            },
        }
    }
}

/// No piece comes after the last one.
pub open spec fn on_end(d: DeskView, s: SessionView, peer: Seq<char>, last_sequence: u64) -> Turn<()> {
    if peer != s.binding.source_device_id || last_sequence > MAX_SEQUENCE || exists|i: int|
        0 <= i < s.chunks.len() && (#[trigger] s.chunks[i]).sequence > last_sequence {
        refused(d, s, "invalid_session_end"@)
    } else {
        told(d, steps::finish_receiver(SessionView { last_sequence: Some(last_sequence), ..s }))
    }
}

// ---------------------------------------------------------------- the source hears

/// The target has a place for the text.
pub open spec fn on_bound(d: DeskView, s: SessionView, peer: Seq<char>, b: BindingView) -> Turn<()> {
    if s.binding.source_device_id != d.id || s.binding.target_device_id != peer || b.source_device_id != d.id
        || b.target_device_id != peer || b.controller_device_id != s.binding.controller_device_id || b.input_mode
        != s.binding.input_mode || !is_context(b.context_token) {
        refused(d, s, "invalid_binding"@)
    } else if s.phase != Phase::Preparing || s.stop_requested {
        Turn { desk: d, session: s, result: Ok(()) }
    } else {
        told(d.emit(EventView::PrepareInput { binding: b }), SessionView { binding: b, ..s })
    }
}

/// The device that controls the session is still there.
pub open spec fn on_keepalive(d: DeskView, s: SessionView, peer: Seq<char>, now: u64) -> Turn<()> {
    if peer != s.binding.controller_device_id || s.binding.source_device_id != d.id || s.stop_requested || !(s.phase
        == Phase::Preparing || s.phase == Phase::Ready || s.phase == Phase::Listening) {
        Turn { desk: d, session: s, result: Ok(()) }
    } else {
        Turn { desk: d, session: SessionView { lease: now, ..s }, result: Ok(()) }
    }
}

/// The device that controls the session wants the source to stop.
pub open spec fn on_stop(d: DeskView, s: SessionView, peer: Seq<char>, now: u64, log: Seq<Reply>) -> Turn<()> {
    if peer != s.binding.controller_device_id || s.binding.source_device_id != d.id {
        refused(d, s, "unauthorized_session"@)
    } else {
        steps::request_stop(d, s, now, log)
    }
}

/// What is known of a piece after an acknowledgement: one that is late takes nothing
/// back, and what was typed stays typed.
pub open spec fn acknowledged(known: Ack, ack: Ack) -> Ack {
    if known == Ack::Applied || (ack == Ack::Received && known != Ack::Received) {
        known
    } else {
        ack
    }
}

/// The target says what became of a piece.
#[verifier::opaque]
pub open spec fn on_ack(
    d: DeskView,
    s: SessionView,
    peer: Seq<char>,
    sequence: u64,
    ack: Ack,
    now: u64,
    log: Seq<Reply>,
) -> Turn<()> {
    if peer != s.binding.target_device_id {
        refused(d, s, "unauthorized_ack"@)
    } else if !session::holds(s.chunks, sequence) {
        refused(d, s, "unknown_chunk"@)
    } else {
        let status = acknowledged(session::piece(s.chunks, sequence).status, ack);
        let known = SessionView {
            chunks: session::marked(s.chunks, session::slot(s.chunks, sequence) as int, status),
            ..s
        };
        let t = if s.cancelled {
            Turn { desk: d, session: known, result: Ok(()) }
        } else if status == Ack::Unknown {
            steps::request_stop(d, SessionView { phase: Phase::Unknown, ..known }, now, log)
        } else if status == Ack::NotApplied {
            steps::request_stop(d, SessionView { phase: Phase::Paused, ..known }, now, log)
        } else if s.stopped && s.last_sequence is Some && session::all_applied(known.chunks) {
            Turn { desk: d, session: SessionView { phase: Phase::Done, ..known }, result: Ok(()) }
        } else {
            Turn { desk: d, session: known, result: Ok(()) }
        };
        told(t.desk, t.session)
    }
}

/// The pieces from an index on that were not typed are sent again, until one cannot be.
pub open spec fn resend_from(d: DeskView, s: SessionView, peer: Seq<char>, i: nat, log: Seq<Reply>) -> Turn<()>
    decreases s.chunks.len() - i,
{
    if i >= s.chunks.len() {
        Turn { desk: d, session: s, result: Ok(()) }
    } else {
        let c = s.chunks[i as int];
        if c.status == Ack::NotApplied {
            let sent = d.send(
                peer,
                PayloadView::TextChunk {
                    session_id: s.binding.session_id,
                    sequence: c.sequence,
                    context_token: s.binding.context_token,
                    text: c.text,
                    is_final: c.is_final,
                },
                log,
            );
            match sent.result {
                Err(_) => Turn { desk: sent.desk, session: s, result: sent.result },
                Ok(_) => resend_from(
                    sent.desk,
                    SessionView { chunks: session::marked(s.chunks, i as int, Ack::Received), ..s },
                    peer,
                    i + 1,
                    log,
                ),
            }
        } else {
            resend_from(d, s, peer, i + 1, log)
        }
    }
}

/// The target has a new place for the text: what was not typed goes there.
#[verifier::opaque]
pub open spec fn on_resume(
    d: DeskView,
    s: SessionView,
    peer: Seq<char>,
    context_token: Seq<char>,
    target_app: Seq<char>,
    log: Seq<Reply>,
) -> Turn<()> {
    if peer != s.binding.target_device_id || !is_context(context_token) || s.cancelled || session::any_unknown(
        s.chunks,
    ) {
        refused(d, s, "unsafe_resume"@)
    } else {
        let resumed = SessionView {
            binding: BindingView { context_token, target_app, ..s.binding },
            phase: Phase::Committing,
            ..s
        };
        let t = resend_from(d, resumed, peer, 0, log);
        match (t.result, s.last_sequence) {
            (Err(_), _) => t,
            (Ok(_), None) => told(t.desk, t.session),
            (Ok(_), Some(last_sequence)) => {
                let sent = t.desk.send(
                    peer,
                    PayloadView::SessionEnd { session_id: s.binding.session_id, last_sequence },
                    log,
                );
                match sent.result {
                    Err(_) => Turn { desk: sent.desk, session: t.session, result: sent.result },
                    Ok(_) => told(sent.desk, t.session),
                }
            },
        }
    }
}

// ---------------------------------------------------------------- either hears

/// The other side has stopped for now.
#[verifier::opaque]
pub open spec fn on_pause(d: DeskView, s: SessionView, now: u64, log: Seq<Reply>) -> Turn<()> {
    let paused = SessionView { phase: Phase::Paused, ..s };
    let t = if s.binding.source_device_id == d.id {
        steps::request_stop(d, paused, now, log)
    } else {
        steps::pause_receiver(d, paused, log)
    };
    match t.result {
        Err(_) => t,
        Ok(_) => told(t.desk, t.session),
    }
}

/// Something failed on the other side.
#[verifier::opaque]
pub open spec fn on_error(d: DeskView, s: SessionView, peer: Seq<char>, now: u64, log: Seq<Reply>) -> Turn<()> {
    if s.other(d.id) != peer {
        refused(d, s, "unauthorized_session"@)
    } else {
        let t = if s.binding.source_device_id == d.id {
            steps::request_stop(d, s, now, log)
        } else {
            steps::pause_receiver(d, s, log)
        };
        match t.result {
            Err(_) => t,
            Ok(_) => told(t.desk, SessionView { phase: Phase::Paused, held: false, ..t.session }),
        }
    }
}

/// The session that a message is about, if it is one that any device of a session sends
/// the other.
pub open spec fn about(payload: PayloadView) -> Option<u128> {
    match payload {
        PayloadView::SessionReady { session_id } => Some(session_id),
        PayloadView::SessionState { session_id, .. } => Some(session_id),
        PayloadView::SessionKeepalive { session_id } => Some(session_id),
        PayloadView::SessionStop { session_id } => Some(session_id),
        PayloadView::SessionCancel { session_id } => Some(session_id),
        PayloadView::TextChunk { session_id, .. } => Some(session_id),
        PayloadView::ChunkAck { session_id, .. } => Some(session_id),
        PayloadView::SessionEnd { session_id, .. } => Some(session_id),
        PayloadView::SessionPause { session_id } => Some(session_id),
        PayloadView::SessionResume { session_id, .. } => Some(session_id),
        _ => None,
    }
}

/// A session hears a message that is about it.
#[verifier::opaque]
pub open spec fn on_message(
    d: DeskView,
    s: SessionView,
    peer: Seq<char>,
    payload: PayloadView,
    now: u64,
    log: Seq<Reply>,
) -> Turn<()> {
    if s.other(d.id) != peer {
        refused(d, s, "unauthorized_session"@)
    } else {
        match payload {
            PayloadView::SessionReady { .. } => on_ready(d, s, peer),
            PayloadView::SessionState { phase, .. } => on_state(d, s, peer, phase),
            PayloadView::SessionKeepalive { .. } => on_keepalive(d, s, peer, now),
            PayloadView::SessionStop { .. } => on_stop(d, s, peer, now, log),
            PayloadView::SessionCancel { .. } => steps::cancel(d, s, false, now, log),
            PayloadView::TextChunk { sequence, context_token, text, is_final, .. } => on_chunk(
                d,
                s,
                peer,
                sequence,
                context_token,
                text,
                is_final,
                log,
            ),
            PayloadView::ChunkAck { sequence, ack_status, .. } => on_ack(
                d,
                s,
                peer,
                sequence,
                ack_status,
                now,
                log,
            ),
            PayloadView::SessionEnd { last_sequence, .. } => on_end(d, s, peer, last_sequence),
            PayloadView::SessionPause { .. } => on_pause(d, s, now, log),
            PayloadView::SessionResume { context_token, target_app, .. } => on_resume(
                d,
                s,
                peer,
                context_token,
                target_app,
                log,
            ),
            _ => refused(d, s, "invalid_message"@),
        }
    }
}

// ---------------------------------------------------------------- hearing

impl Desk {
    /// Keeps a piece, to be typed in its turn or not at all, once the journal has answered.
    pub fn keep_piece(
        &mut self,
        s: &mut Session,
        peer: &str,
        sequence: u64,
        said: String,
        is_final: bool,
        status: Ack,
        recorded: Result<(), CoreError>,
    ) -> (r: Result<(), CoreError>)
        requires
            old(self).wf(),
            old(s)@.wf(),
            1 <= sequence <= MAX_SEQUENCE,
            protocol::text_error(said@) is None,
            status == Ack::Received || status == Ack::NotApplied,
        ensures
            final(self).wf(),
            final(s)@.wf(),
            final(s)@.binding.session_id == old(s)@.binding.session_id,
            outside::continues(final(self).history.replies(), old(self).history.replies()),
            forall|log: Seq<Reply>| #[trigger]
                outside::continues(log, final(self).history.replies()) ==> keep_piece(
                    old(self)@,
                    old(s)@,
                    peer@,
                    sequence,
                    said@,
                    is_final,
                    status,
                    crate::outcome(recorded),
                    log,
                ) == (Turn { desk: final(self)@, session: final(s)@, result: crate::outcome(r) }),
    {
        broadcast use outside::group_continues;

        reveal(keep_piece);
        assert(outside::continues(self.history.replies(), self.history.replies()));
        match recorded {
            Ok(_) => {},
            Err(e) => return Err(e),
        }
        let session_id = s.binding.session_id;
        if s.chunks.len() < MAX_SEQUENCE as usize {
            s.place(Chunk { sequence, text: said, status, is_final });
        }
        match self.send(peer, Payload::ChunkAck { session_id, sequence, ack_status: status }) {
            Ok(_) => {},
            Err(e) => return Err(e),
        }
        self.snapshot(s);
        self.pump(s);
        Ok(())
    }

    /// Takes in a registered piece.
    fn take_piece(
        &mut self,
        s: &mut Session,
        peer: &str,
        sequence: u64,
        context_token: &str,
        said: String,
        is_final: bool,
    ) -> (r: Result<(), CoreError>)
        requires
            old(self).wf(),
            old(s)@.wf(),
            1 <= sequence <= MAX_SEQUENCE,
            protocol::text_error(said@) is None,
        ensures
            final(self).wf(),
            final(s)@.wf(),
            final(s)@.binding.session_id == old(s)@.binding.session_id,
            outside::continues(final(self).history.replies(), old(self).history.replies()),
            forall|log: Seq<Reply>| #[trigger]
                outside::continues(log, final(self).history.replies()) ==> take_piece(
                    old(self)@,
                    old(s)@,
                    peer@,
                    sequence,
                    context_token@,
                    said@,
                    is_final,
                    log,
                ) == (Turn { desk: final(self)@, session: final(s)@, result: crate::outcome(r) }),
    {
        broadcast use outside::group_continues;

        reveal(take_piece);
        assert(outside::continues(self.history.replies(), self.history.replies()));
        let session_id = s.binding.session_id;
        let safe = text::same(context_token, s.binding.context_token.as_str()) && s.can_inject() && sequence
            >= s.next_receive && sequence < s.next_receive + MAX_QUEUE as u64 && s.total() + text::byte_len(
            said.as_str(),
        ) as u64 <= MAX_SESSION_TEXT;
        if safe {
            self.keep_piece(s, peer, sequence, said, is_final, Ack::Received, Ok(()))
        } else {
            let recorded = self.record(session_id, sequence, Ack::NotApplied);
            self.keep_piece(s, peer, sequence, said, is_final, Ack::NotApplied, recorded)
        }
    }

    /// Takes in a piece of text, once it is registered in the journal.
    fn on_chunk(
        &mut self,
        s: &mut Session,
        peer: &str,
        sequence: u64,
        context_token: &str,
        said: String,
        is_final: bool,
    ) -> (r: Result<(), CoreError>)
        requires
            old(self).wf(),
            old(s)@.wf(),
        ensures
            final(self).wf(),
            final(s)@.wf(),
            final(s)@.binding.session_id == old(s)@.binding.session_id,
            outside::continues(final(self).history.replies(), old(self).history.replies()),
            forall|log: Seq<Reply>| #[trigger]
                outside::continues(log, final(self).history.replies()) ==> on_chunk(
                    old(self)@,
                    old(s)@,
                    peer@,
                    sequence,
                    context_token@,
                    said@,
                    is_final,
                    log,
                ) == (Turn { desk: final(self)@, session: final(s)@, result: crate::outcome(r) }),
    {
        broadcast use outside::group_continues;

        reveal(on_chunk);
        assert(outside::continues(self.history.replies(), self.history.replies()));
        let session_id = s.binding.session_id;
        if !text::same(peer, s.binding.source_device_id.as_str()) || sequence == 0 || sequence > MAX_SEQUENCE {
            return fail("unauthorized_chunk");
        }
        match protocol::validate_text(said.as_str()) {
            Ok(_) => {},
            Err(e) => return Err(e),
        }
        let known = self.register(session_id, sequence, said.as_str());
        self.registered(s, peer, sequence, context_token, said, is_final, known)
    }

    /// Takes in a piece of text once the journal has answered: one that is new, or one that may
    /// come again. Of any other it says what became of it.
    pub fn registered(
        &mut self,
        s: &mut Session,
        peer: &str,
        sequence: u64,
        context_token: &str,
        said: String,
        is_final: bool,
        known: Result<Option<Ack>, CoreError>,
    ) -> (r: Result<(), CoreError>)
        requires
            old(self).wf(),
            old(s)@.wf(),
            1 <= sequence <= MAX_SEQUENCE,
            protocol::text_error(said@) is None,
        ensures
            final(self).wf(),
            final(s)@.wf(),
            final(s)@.binding.session_id == old(s)@.binding.session_id,
            outside::continues(final(self).history.replies(), old(self).history.replies()),
            forall|log: Seq<Reply>| #[trigger]
                outside::continues(log, final(self).history.replies()) ==> registered(
                    old(self)@,
                    old(s)@,
                    peer@,
                    sequence,
                    context_token@,
                    said@,
                    is_final,
                    crate::outcome(known),
                    log,
                ) == (Turn { desk: final(self)@, session: final(s)@, result: crate::outcome(r) }),
    {
        broadcast use outside::group_continues;

        reveal(registered);
        reveal(take_again);
        assert(outside::continues(self.history.replies(), self.history.replies()));
        let session_id = s.binding.session_id;
        match known {
            Err(e) => return Err(e),
            Ok(None) => {},
            Ok(Some(status)) => {
                if status != Ack::NotApplied || !s.use_retry(sequence) || !text::same(
                    context_token,
                    s.binding.context_token.as_str(),
                ) {
                    return self.send(peer, Payload::ChunkAck { session_id, sequence, ack_status: status });
                }
                match self.record(session_id, sequence, Ack::Received) {
                    Ok(_) => {},
                    Err(e) => return Err(e),
                }
            },
        }
        self.take_piece(s, peer, sequence, context_token, said, is_final)
    }

    /// Takes in that no piece comes after the last one.
    fn on_end(&mut self, s: &mut Session, peer: &str, last_sequence: u64) -> (r: Result<(), CoreError>)
        requires
            old(self).wf(),
            old(s)@.wf(),
        ensures
            final(self).wf(),
            final(s)@.wf(),
            final(s)@.binding.session_id == old(s)@.binding.session_id,
            final(self).history.replies() == old(self).history.replies(),
            on_end(old(self)@, old(s)@, peer@, last_sequence) == (Turn {
                desk: final(self)@,
                session: final(s)@,
                result: crate::outcome(r),
            }),
    {
        if !text::same(peer, s.binding.source_device_id.as_str()) || last_sequence > MAX_SEQUENCE {
            return fail("invalid_session_end");
        }
        let mut i: usize = 0;
        while i < s.chunks.len()
            invariant
                *s == *old(s),
                *self == *old(self),
                self.wf(),
                s@.wf(),
                peer@ == s@.binding.source_device_id,
                last_sequence <= MAX_SEQUENCE,
                i <= s.chunks@.len(),
                forall|k: int| 0 <= k < i ==> (#[trigger] s@.chunks[k]).sequence <= last_sequence,
            decreases s.chunks.len() - i,
        {
            if s.chunks[i].sequence > last_sequence {
                assert(s@.chunks[i as int].sequence > last_sequence);
                return fail("invalid_session_end");
            }
            i = i + 1;
        }
        s.last_sequence = Some(last_sequence);
        s.finish_receiver();
        self.snapshot(s);
        Ok(())
    }

    /// Takes in what became of a piece.
    fn on_ack(&mut self, s: &mut Session, peer: &str, sequence: u64, ack: Ack, now: u64) -> (r: Result<(), CoreError>)
        requires
            old(self).wf(),
            old(s)@.wf(),
        ensures
            final(self).wf(),
            final(s)@.wf(),
            final(s)@.binding.session_id == old(s)@.binding.session_id,
            outside::continues(final(self).history.replies(), old(self).history.replies()),
            forall|log: Seq<Reply>| #[trigger]
                outside::continues(log, final(self).history.replies()) ==> on_ack(
                    old(self)@,
                    old(s)@,
                    peer@,
                    sequence,
                    ack,
                    now,
                    log,
                ) == (Turn { desk: final(self)@, session: final(s)@, result: crate::outcome(r) }),
    {
        broadcast use outside::group_continues;

        reveal(on_ack);
        assert(outside::continues(self.history.replies(), self.history.replies()));
        if !text::same(peer, s.binding.target_device_id.as_str()) {
            return fail("unauthorized_ack");
        }
        let i = match s.find(sequence) {
            Some(i) => i,
            None => return fail("unknown_chunk"),
        };
        let known = s.chunks[i].status;
        let status = if known == Ack::Applied || (ack == Ack::Received && known != Ack::Received) {
            known
        } else {
            ack
        };
        s.mark(i, status);
        if !s.cancelled {
            if status == Ack::Unknown {
                s.phase = Phase::Unknown;
                self.request_stop(s, now);
            } else if status == Ack::NotApplied {
                s.phase = Phase::Paused;
                self.request_stop(s, now);
            } else if s.stopped && s.last_sequence.is_some() && s.all_applied() {
                s.phase = Phase::Done;
            }
        }
        self.snapshot(s);
        Ok(())
    }

    /// Sends again, for a new place, what was not typed.
    fn on_resume(&mut self, s: &mut Session, peer: &str, context_token: String, target_app: String) -> (r: Result<
        (),
        CoreError,
    >)
        requires
            old(self).wf(),
            old(s)@.wf(),
        ensures
            final(self).wf(),
            final(s)@.wf(),
            final(s)@.binding.session_id == old(s)@.binding.session_id,
            outside::continues(final(self).history.replies(), old(self).history.replies()),
            forall|log: Seq<Reply>| #[trigger]
                outside::continues(log, final(self).history.replies()) ==> on_resume(
                    old(self)@,
                    old(s)@,
                    peer@,
                    context_token@,
                    target_app@,
                    log,
                ) == (Turn { desk: final(self)@, session: final(s)@, result: crate::outcome(r) }),
    {
        broadcast use outside::group_continues;

        reveal(on_resume);
        assert(outside::continues(self.history.replies(), self.history.replies()));
        if !text::same(peer, s.binding.target_device_id.as_str()) || !valid_context(context_token.as_str())
            || s.cancelled || s.has_unknown() {
            return fail("unsafe_resume");
        }
        let session_id = s.binding.session_id;
        let ghost last = s@.last_sequence;
        s.binding.context_token = context_token;
        s.binding.target_app = target_app;
        s.phase = Phase::Committing;
        let ghost begun = self@;
        let ghost resumed = s@;
        let ghost replies = self.history.replies();
        let mut i: usize = 0;
        while i < s.chunks.len()
            invariant
                begun == old(self)@,
                replies == old(self).history.replies(),
                peer@ == old(s)@.binding.target_device_id,
                is_context(context_token@),
                !old(s)@.cancelled,
                !session::any_unknown(old(s)@.chunks),
                resumed == (SessionView {
                    binding: BindingView {
                        context_token: context_token@,
                        target_app: target_app@,
                        ..old(s)@.binding
                    },
                    phase: Phase::Committing,
                    ..old(s)@
                }),
                session_id == resumed.binding.session_id,
                i <= s.chunks@.len(),
                s.chunks@.len() == resumed.chunks.len(),
                s@ == (SessionView { chunks: s@.chunks, ..resumed }),
                s@.wf(),
                self.wf(),
                outside::continues(self.history.replies(), replies),
                forall|log: Seq<Reply>| #[trigger]
                    outside::continues(log, self.history.replies()) ==> resend_from(begun, resumed, peer@, 0, log)
                        == resend_from(self@, s@, peer@, i as nat, log),
            decreases s.chunks.len() - i,
        {
            broadcast use outside::group_continues;

            let ghost held = s@;
            assert(held.chunks[i as int] == s.chunks@[i as int]@);
            if s.chunks[i].status == Ack::NotApplied {
                let again = Payload::TextChunk {
                    session_id,
                    sequence: s.chunks[i].sequence,
                    context_token: text::copy(&s.binding.context_token),
                    text: text::copy(&s.chunks[i].text),
                    is_final: s.chunks[i].is_final,
                };
                match self.send(peer, again) {
                    Ok(_) => {},
                    Err(e) => {
                        reveal(on_resume);
                        return Err(e);
                    },
                }
                s.mark(i, Ack::Received);
            }
            i = i + 1;
        }
        match s.last_sequence {
            Some(last_sequence) => match self.send(peer, Payload::SessionEnd { session_id, last_sequence }) {
                Ok(_) => {},
                Err(e) => return Err(e),
            },
            None => {},
        }
        self.snapshot(s);
        Ok(())
    }

    /// Takes in that the other side has stopped for now.
    fn on_pause(&mut self, s: &mut Session, now: u64) -> (r: Result<(), CoreError>)
        requires
            old(self).wf(),
            old(s)@.wf(),
        ensures
            final(self).wf(),
            final(s)@.wf(),
            final(s)@.binding.session_id == old(s)@.binding.session_id,
            outside::continues(final(self).history.replies(), old(self).history.replies()),
            forall|log: Seq<Reply>| #[trigger]
                outside::continues(log, final(self).history.replies()) ==> on_pause(old(self)@, old(s)@, now, log) == (Turn {
                    desk: final(self)@,
                    session: final(s)@,
                    result: crate::outcome(r),
                }),
    {
        broadcast use outside::group_continues;

        reveal(on_pause);
        s.phase = Phase::Paused;
        if text::same(s.binding.source_device_id.as_str(), self.id.as_str()) {
            self.request_stop(s, now);
        } else {
            match self.pause_receiver(s) {
                Ok(_) => {},
                Err(e) => return Err(e),
            }
        }
        self.snapshot(s);
        Ok(())
    }

    /// Takes in that something failed on the other side.
    pub fn on_error(&mut self, s: &mut Session, peer: &str, now: u64) -> (r: Result<(), CoreError>)
        requires
            old(self).wf(),
            old(s)@.wf(),
        ensures
            final(self).wf(),
            final(s)@.wf(),
            final(s)@.binding.session_id == old(s)@.binding.session_id,
            outside::continues(final(self).history.replies(), old(self).history.replies()),
            forall|log: Seq<Reply>| #[trigger]
                outside::continues(log, final(self).history.replies()) ==> on_error(old(self)@, old(s)@, peer@, now, log) == (
                Turn { desk: final(self)@, session: final(s)@, result: crate::outcome(r) }),
    {
        broadcast use outside::group_continues;

        reveal(on_error);
        assert(outside::continues(self.history.replies(), self.history.replies()));
        let other = s.other(self.id.as_str());
        if !text::same(other.as_str(), peer) {
            return fail("unauthorized_session");
        }
        if text::same(s.binding.source_device_id.as_str(), self.id.as_str()) {
            self.request_stop(s, now);
        } else {
            match self.pause_receiver(s) {
                Ok(_) => {},
                Err(e) => return Err(e),
            }
        }
        s.phase = Phase::Paused;
        s.held = false;
        self.snapshot(s);
        Ok(())
    }

    /// Takes in that the target has a place for the text.
    pub fn on_bound(&mut self, s: &mut Session, peer: &str, b: Binding) -> (r: Result<(), CoreError>)
        requires
            old(self).wf(),
            old(s)@.wf(),
        ensures
            final(self).wf(),
            final(s)@.wf(),
            b@.session_id == old(s)@.binding.session_id ==> final(s)@.binding.session_id == b@.session_id,
            final(self).history.replies() == old(self).history.replies(),
            on_bound(old(self)@, old(s)@, peer@, b@) == (Turn {
                desk: final(self)@,
                session: final(s)@,
                result: crate::outcome(r),
            }),
    {
        if !text::same(s.binding.source_device_id.as_str(), self.id.as_str()) || !text::same(
            s.binding.target_device_id.as_str(),
            peer,
        ) || !text::same(b.source_device_id.as_str(), self.id.as_str()) || !text::same(
            b.target_device_id.as_str(),
            peer,
        ) || !text::same(b.controller_device_id.as_str(), s.binding.controller_device_id.as_str()) || b.input_mode
            != s.binding.input_mode || !valid_context(b.context_token.as_str()) {
            return fail("invalid_binding");
        }
        if s.phase != Phase::Preparing || s.stop_requested {
            return Ok(());
        }
        s.binding = b;
        self.emit(Event::PrepareInput { binding: s.binding.clone() });
        self.snapshot(s);
        Ok(())
    }

    /// Takes in a message that is about a session.
    #[verifier::rlimit(40)]
    pub fn on_message(&mut self, s: &mut Session, peer: &str, payload: Payload, now: u64) -> (r: Result<
        (),
        CoreError,
    >)
        requires
            old(self).wf(),
            old(s)@.wf(),
        ensures
            final(self).wf(),
            final(s)@.wf(),
            final(s)@.binding.session_id == old(s)@.binding.session_id,
            outside::continues(final(self).history.replies(), old(self).history.replies()),
            forall|log: Seq<Reply>| #[trigger]
                outside::continues(log, final(self).history.replies()) ==> on_message(
                    old(self)@,
                    old(s)@,
                    peer@,
                    payload@,
                    now,
                    log,
                ) == (Turn { desk: final(self)@, session: final(s)@, result: crate::outcome(r) }),
    {
        broadcast use outside::group_continues;

        reveal(on_message);
        assert(outside::continues(self.history.replies(), self.history.replies()));
        let other = s.other(self.id.as_str());
        if !text::same(other.as_str(), peer) {
            return fail("unauthorized_session");
        }
        match payload {
            Payload::SessionReady { .. } => {
                if !text::same(peer, s.binding.source_device_id.as_str()) {
                    return fail("unauthorized_session");
                }
                if s.phase == Phase::Preparing {
                    s.phase = Phase::Ready;
                }
                self.snapshot(s);
                Ok(())
            },
            Payload::SessionState { phase, .. } => {
                if !text::same(peer, s.binding.source_device_id.as_str()) {
                    return fail("unauthorized_session");
                }
                let waits = matches!(s.phase, Phase::Paused | Phase::Unknown | Phase::Cancelled | Phase::Done);
                if !waits && !phase.terminal() {
                    s.phase = phase;
                }
                self.snapshot(s);
                Ok(())
            },
            Payload::SessionKeepalive { .. } => {
                if !text::same(peer, s.binding.controller_device_id.as_str()) || !text::same(
                    s.binding.source_device_id.as_str(),
                    self.id.as_str(),
                ) || s.stop_requested || !matches!(s.phase, Phase::Preparing | Phase::Ready | Phase::Listening) {
                    return Ok(());
                }
                s.lease = now;
                Ok(())
            },
            Payload::SessionStop { .. } => {
                if !text::same(peer, s.binding.controller_device_id.as_str()) || !text::same(
                    s.binding.source_device_id.as_str(),
                    self.id.as_str(),
                ) {
                    return fail("unauthorized_session");
                }
                self.request_stop(s, now);
                Ok(())
            },
            Payload::SessionCancel { .. } => self.cancel(s, false, now),
            Payload::TextChunk { sequence, context_token, text, is_final, .. } => self.on_chunk(
                s,
                peer,
                sequence,
                context_token.as_str(),
                text,
                is_final,
            ),
            Payload::ChunkAck { sequence, ack_status, .. } => self.on_ack(s, peer, sequence, ack_status, now),
            Payload::SessionEnd { last_sequence, .. } => self.on_end(s, peer, last_sequence),
            Payload::SessionPause { .. } => self.on_pause(s, now),
            Payload::SessionResume { context_token, target_app, .. } => self.on_resume(
                s,
                peer,
                context_token,
                target_app,
            ),
            _ => fail("invalid_message"),
        }
    }
}

} // verus!
