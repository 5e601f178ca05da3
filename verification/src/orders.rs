//! What a session makes of a command from the program around the library.
use crate::desk::{Desk, DeskView};
use crate::event::{Event, EventView};
use crate::ids;
use crate::inbound;
use crate::json::{Json, JsonView};
use crate::outside;
use crate::outside::Reply;
use crate::protocol;
use crate::protocol::{Ack, BindingView, Mode, Payload, PayloadView, Phase, MAX_TEXT};
use crate::session;
use crate::session::{Session, SessionView};
use crate::stable;
use crate::steps;
use crate::steps::Turn;
use crate::text;
use crate::wire;
use crate::{fail, CoreError};
use vstd::prelude::*;

verus! {

// ---------------------------------------------------------------- what a command holds

/// The string under a key, which must be there.
pub open spec fn text_of(v: JsonView, key: Seq<char>) -> Result<Seq<char>, Seq<char>> {
    match v.text_at(key) {
        Some(s) => Ok(s),
        None => Err("invalid_command"@),
    }
}

/// The number under a key, which must be there.
pub open spec fn number_of(v: JsonView, key: Seq<char>) -> Result<u64, Seq<char>> {
    match v.number_at(key) {
        Some(n) => Ok(n),
        None => Err("invalid_command"@),
    }
}

/// The session that a command is about.
pub open spec fn session_of(v: JsonView) -> Result<u128, Seq<char>> {
    match text_of(v, "session_id"@) {
        Err(e) => Err(e),
        Ok(s) => match ids::id_parsed(s) {
            Some(id) => Ok(id),
            None => Err("invalid_session_id"@),
        },
    }
}

/// The name under a key.
pub open spec fn name_of(v: JsonView, key: Seq<char>) -> Option<Seq<char>> {
    match v.member(key) {
        Some(j) => wire::name_given(j, false),
        None => None,
    }
}

/// What is said of a piece in a command.
pub open spec fn status_of(v: JsonView) -> Option<Ack> {
    match name_of(v, "status"@) {
        Some(s) => protocol::ack_named(s),
        None => None,
    }
}

/// The mode in a command.
pub open spec fn mode_of(v: JsonView) -> Option<Mode> {
    match name_of(v, "mode"@) {
        Some(s) => protocol::mode_named(s),
        None => None,
    }
}

/// The string under a key, which must be there.
pub fn string(v: &Json, key: &str) -> (r: Result<String, CoreError>)
    ensures
        match r {
            Ok(s) => text_of(v@, key@) == Ok::<Seq<char>, Seq<char>>(s@),
            Err(e) => text_of(v@, key@) == Err::<Seq<char>, Seq<char>>(e.spec_code()),
        },
{
    match v.text_at(key) {
        Some(s) => Ok(s),
        None => fail("invalid_command"),
    }
}

/// The number under a key, which must be there.
pub fn number(v: &Json, key: &str) -> (r: Result<u64, CoreError>)
    ensures
        crate::outcome(r) == number_of(v@, key@),
{
    match v.number_at(key) {
        Some(n) => Ok(n),
        None => fail("invalid_command"),
    }
}

/// The session that a command is about.
pub fn sid(v: &Json) -> (r: Result<u128, CoreError>)
    ensures
        crate::outcome(r) == session_of(v@),
{
    match string(v, "session_id") {
        Err(e) => Err(e),
        Ok(s) => match ids::parse_id(s.as_str()) {
            Some(id) => Ok(id),
            None => fail("invalid_session_id"),
        },
    }
}

/// What is said of a piece in a command.
fn status_in(v: &Json) -> (r: Option<Ack>)
    ensures
        r == status_of(v@),
{
    match v.get("status") {
        Some(j) => match wire::read_name(j, false) {
            Some(s) => Ack::named(s.as_str()),
            None => None,
        },
        None => None,
    }
}

/// The mode in a command.
pub fn mode_in(v: &Json) -> (r: Option<Mode>)
    ensures
        r == mode_of(v@),
{
    match v.get("mode") {
        Some(j) => match wire::read_name(j, false) {
            Some(s) => Mode::named(s.as_str()),
            None => None,
        },
        None => None,
    }
}

/// What a command that is carried out is answered.
#[derive(Clone, Copy, Debug, PartialEq, Eq, Structural)]
pub enum Answer {
    /// It was done.
    Done,
    /// A session was begun.
    Begun(u128),
    /// Whether a piece may be typed now.
    Allowed(bool),
}

/// A step that was done.
pub open spec fn done(t: Turn<()>) -> Turn<Answer> {
    Turn {
        desk: t.desk,
        session: t.session,
        result: match t.result {
            Ok(_) => Ok(Answer::Done),
            Err(e) => Err(e),
        },
    }
}

// ---------------------------------------------------------------- commands

/// The program has a place for the text.
#[verifier::opaque]
pub open spec fn bound(d: DeskView, s: SessionView, v: JsonView, log: Seq<Reply>) -> Turn<()> {
    if s.binding.source_device_id == d.id || s.phase != Phase::Preparing {
        inbound::refused(d, s, "invalid_state"@)
    } else {
        match text_of(v, "context_token"@) {
            Err(e) => inbound::refused(d, s, e),
            Ok(token) => if !inbound::is_context(token) {
                inbound::refused(d, s, "invalid_context"@)
            } else {
                let placed = SessionView { binding: BindingView { context_token: token, ..s.binding }, ..s };
                match text_of(v, "target_app"@) {
                    Err(e) => inbound::refused(d, placed, e),
                    Ok(app) => {
                        let bound = SessionView {
                            binding: BindingView { target_app: app, ..placed.binding },
                            ..placed
                        };
                        let sent = d.send(
                            s.binding.source_device_id,
                            PayloadView::SessionBound { binding: bound.binding },
                            log,
                        );
                        match sent.result {
                            Err(e) => inbound::refused(sent.desk, bound, e),
                            Ok(_) => inbound::told(sent.desk, bound),
                        }
                    },
                }
            },
        }
    }
}

/// The source is ready to listen.
#[verifier::opaque]
pub open spec fn ready(d: DeskView, s: SessionView, log: Seq<Reply>) -> Turn<()> {
    if s.binding.source_device_id != d.id || s.stop_requested || s.cancelled {
        inbound::refused(d, s, "source_not_ready"@)
    } else if s.phase != Phase::Preparing {
        inbound::refused(d, s, "invalid_state"@)
    } else {
        let ready = SessionView { phase: Phase::Ready, ..s };
        let sent = d.send(
            s.binding.target_device_id,
            PayloadView::SessionReady { session_id: s.binding.session_id },
            log,
        );
        match sent.result {
            Err(e) => inbound::refused(sent.desk, ready, e),
            Ok(_) => inbound::told(sent.desk, ready),
        }
    }
}

/// The source listens.
#[verifier::opaque]
pub open spec fn listening(d: DeskView, s: SessionView, log: Seq<Reply>) -> Turn<()> {
    if s.binding.source_device_id != d.id || s.stop_requested || s.cancelled {
        inbound::refused(d, s, "source_not_ready"@)
    } else if s.phase != Phase::Ready {
        inbound::refused(d, s, "invalid_state"@)
    } else {
        let listening = SessionView { phase: Phase::Listening, ..s };
        let sent = d.send(
            s.binding.target_device_id,
            PayloadView::SessionState { session_id: s.binding.session_id, phase: Phase::Listening },
            log,
        );
        match sent.result {
            Err(e) => inbound::refused(sent.desk, listening, e),
            Ok(_) => inbound::told(sent.desk, listening),
        }
    }
}

/// The source has another draft.
pub open spec fn draft(d: DeskView, s: SessionView, v: JsonView) -> Turn<()> {
    if s.binding.source_device_id != d.id || s.cancelled || s.frozen || s.phase.spec_terminal() {
        inbound::refused(d, s, "stale_input_callback"@)
    } else {
        match text_of(v, "text"@) {
            Err(e) => inbound::refused(d, s, e),
            Ok(said) => if text::size(said) > MAX_TEXT {
                inbound::refused(d, s, "draft_limit"@)
            } else {
                inbound::told(d, SessionView { draft: said, ..s })
            },
        }
    }
}

/// Texts are sent, one after the other, until one cannot be.
pub open spec fn freeze_all(d: DeskView, s: SessionView, said: Seq<Seq<char>>, now: u64, log: Seq<Reply>) -> Turn<()>
    decreases said.len(),
{
    if said.len() == 0 {
        Turn { desk: d, session: s, result: Ok(()) }
    } else {
        let t = steps::freeze(d, s, said[0], false, now, log);
        match t.result {
            Err(_) => t,
            Ok(_) => freeze_all(t.desk, t.session, said.drop_first(), now, log),
        }
    }
}

/// The recognizer heard something: what is final is sent, the rest is the draft.
#[verifier::opaque]
pub open spec fn apple_result(d: DeskView, s: SessionView, v: JsonView, now: u64, log: Seq<Reply>) -> Turn<()> {
    if s.binding.source_device_id != d.id || s.binding.input_mode != Mode::AppleLocal || !s.phase.spec_accepts_text()
        || s.cancelled || s.stopped {
        inbound::refused(d, s, "stale_input_callback"@)
    } else {
        match (number_of(v, "start"@), number_of(v, "end"@), number_of(v, "finalized_until"@), text_of(v, "text"@)) {
            (Ok(start), Ok(end), Ok(until), Ok(said)) => {
                let heard = s.stable.observe(
                    (start as i64) as int,
                    (end as i64) as int,
                    (until as i64) as int,
                    said,
                );
                let after = SessionView { stable: heard.state, ..s };
                match heard.ready {
                    Err(e) => inbound::refused(d, after, e),
                    Ok(final_texts) => {
                        let t = freeze_all(
                            d,
                            SessionView { draft: heard.state.draft(), ..after },
                            final_texts,
                            now,
                            log,
                        );
                        match t.result {
                            Err(_) => t,
                            Ok(_) => inbound::told(t.desk, t.session),
                        }
                    },
                }
            },
            _ => inbound::refused(d, s, "invalid_command"@),
        }
    }
}

/// The source has stopped, or could not. What is left to confirm waits; else the session
/// ends.
#[verifier::opaque]
pub open spec fn source_stopped(d: DeskView, s: SessionView, verified: bool, log: Seq<Reply>) -> Turn<()> {
    if s.binding.source_device_id != d.id {
        inbound::refused(d, s, "invalid_role"@)
    } else {
        let stopped = SessionView { stopped: verified, finalizing: None, ..s };
        let t = if !verified {
            Turn { desk: d, session: SessionView { phase: Phase::StopFailed, ..stopped }, result: Ok(()) }
        } else if s.cancelled {
            Turn { desk: d, session: SessionView { phase: Phase::Cancelled, ..stopped }, result: Ok(()) }
        } else if s.phase == Phase::Paused || s.phase == Phase::Unknown {
            Turn { desk: d, session: stopped, result: Ok(()) }
        } else if s.binding.input_mode == Mode::DoubaoIme || s.draft.len() != 0 {
            Turn {
                desk: d,
                session: SessionView { phase: Phase::AwaitingConfirmation, ..stopped },
                result: Ok(()),
            }
        } else {
            steps::end_source(d, stopped, log)
        };
        let sent = t.desk.send(
            s.other(d.id),
            PayloadView::SessionState { session_id: s.binding.session_id, phase: t.session.phase },
            log,
        );
        inbound::told(sent.desk, t.session)
    }
}

/// The program failed: the session pauses, and the other side is told.
#[verifier::opaque]
pub open spec fn source_failed(d: DeskView, s: SessionView, v: JsonView, now: u64, log: Seq<Reply>) -> Turn<()> {
    let t = if s.binding.source_device_id == d.id {
        steps::request_stop(d, s, now, log)
    } else {
        steps::pause_receiver(d, s, log)
    };
    match t.result {
        Err(_) => t,
        Ok(_) => {
            let paused = SessionView { phase: Phase::Paused, held: false, ..t.session };
            match text_of(v, "code"@) {
                Err(e) => inbound::refused(t.desk, paused, e),
                Ok(code) => {
                    let sent = t.desk.emit(
                        EventView::Error { session_id: Some(s.binding.session_id), code },
                    ).send(
                        s.other(d.id),
                        PayloadView::SessionPause { session_id: s.binding.session_id },
                        log,
                    );
                    inbound::told(sent.desk, paused)
                },
            }
        },
    }
}

/// A person says that the source has stopped.
pub open spec fn confirm_stopped(d: DeskView, s: SessionView) -> Turn<()> {
    if s.binding.source_device_id != d.id {
        inbound::refused(d, s, "invalid_role"@)
    } else {
        inbound::told(
            d,
            SessionView {
                stopped: true,
                finalizing: None,
                phase: if s.cancelled {
                    Phase::Cancelled
                } else {
                    Phase::AwaitingConfirmation
                },
                ..s
            },
        )
    }
}

/// A person confirms the last text, once: it is sent, and the session ends.
#[verifier::opaque]
pub open spec fn confirm(d: DeskView, s: SessionView, v: JsonView, now: u64, log: Seq<Reply>) -> Turn<()> {
    if s.binding.source_device_id != d.id || s.cancelled || s.frozen || !s.stopped || session::any_unknown(s.chunks)
        || !(s.phase == Phase::AwaitingConfirmation || s.phase == Phase::Paused) {
        inbound::refused(d, s, "unsafe_confirmation"@)
    } else {
        match text_of(v, "text"@) {
            Err(e) => inbound::refused(d, s, e),
            Ok(said) => if said.len() != 0 && protocol::text_error(said) is Some {
                inbound::refused(d, s, protocol::text_error(said)->0)
            } else {
                let confirmed = SessionView { frozen: true, phase: Phase::Committing, draft: seq![], ..s };
                let t = if said.len() == 0 {
                    Turn { desk: d, session: confirmed, result: Ok(()) }
                } else {
                    steps::freeze(d, confirmed, said, true, now, log)
                };
                if t.result is Err || t.session.phase == Phase::Paused {
                    t
                } else {
                    steps::end_source(t.desk, t.session, log)
                }
            },
        }
    }
}

/// The key was let go.
#[verifier::opaque]
pub open spec fn stop(d: DeskView, s: SessionView, now: u64, log: Seq<Reply>) -> Turn<()> {
    let let_go = SessionView { held: false, ..s };
    if s.binding.source_device_id == d.id {
        steps::request_stop(d, let_go, now, log)
    } else {
        let sent = d.send(
            s.binding.source_device_id,
            PayloadView::SessionStop { session_id: s.binding.session_id },
            log,
        );
        match sent.result {
            Err(e) => inbound::refused(sent.desk, let_go, e),
            Ok(_) => inbound::told(
                sent.desk,
                SessionView {
                    phase: if s.phase.spec_terminal() {
                        s.phase
                    } else {
                        Phase::Finalizing
                    },
                    ..let_go
                },
            ),
        }
    }
}

/// The place for the text is gone.
#[verifier::opaque]
pub open spec fn focus_invalid(d: DeskView, s: SessionView, log: Seq<Reply>) -> Turn<()> {
    if s.binding.source_device_id == d.id {
        inbound::refused(d, s, "invalid_role"@)
    } else {
        let t = steps::pause_receiver(d, s, log);
        match t.result {
            Err(_) => t,
            Ok(_) => {
                let sent = t.desk.send(
                    s.binding.source_device_id,
                    PayloadView::SessionPause { session_id: s.binding.session_id },
                    log,
                );
                match sent.result {
                    Err(e) => inbound::refused(sent.desk, t.session, e),
                    Ok(_) => inbound::told(sent.desk, t.session),
                }
            },
        }
    }
}

/// The program asks whether it may type a piece now. It may once, the one that it was
/// given.
pub open spec fn claim_injection(d: DeskView, s: SessionView, v: JsonView) -> Turn<Answer> {
    match number_of(v, "sequence"@) {
        Err(e) => inbound::refused(d, s, e),
        Ok(sequence) => if s.binding.source_device_id == d.id || !s.can_inject() || s.inflight != Some(
            (sequence, false),
        ) {
            Turn { desk: d, session: s, result: Ok(Answer::Allowed(false)) }
        } else {
            Turn {
                desk: d,
                session: SessionView { inflight: Some((sequence, true)), ..s },
                result: Ok(Answer::Allowed(true)),
            }
        },
    }
}

/// The program says what became of a piece.
pub open spec fn injected(d: DeskView, s: SessionView, v: JsonView, log: Seq<Reply>) -> Turn<()> {
    match (status_of(v), number_of(v, "sequence"@)) {
        (None, _) => inbound::refused(d, s, "invalid_receipt"@),
        (Some(_), Err(e)) => inbound::refused(d, s, e),
        (Some(status), Ok(sequence)) => steps::injection_result(d, s, sequence, status, log),
    }
}

/// The program has a new place for the text. What was not typed may come again.
#[verifier::opaque]
pub open spec fn resume(d: DeskView, s: SessionView, v: JsonView, log: Seq<Reply>) -> Turn<()> {
    if s.binding.source_device_id == d.id || s.cancelled || session::any_unknown(s.chunks) || s.inflight is Some {
        inbound::refused(d, s, "unsafe_resume"@)
    } else {
        match text_of(v, "context_token"@) {
            Err(e) => inbound::refused(d, s, e),
            Ok(token) => if !inbound::is_context(token) || token == s.binding.context_token {
                inbound::refused(d, s, "invalid_context"@)
            } else {
                let placed = SessionView { binding: BindingView { context_token: token, ..s.binding }, ..s };
                match text_of(v, "target_app"@) {
                    Err(e) => inbound::refused(d, placed, e),
                    Ok(app) => {
                        let resumed = SessionView {
                            binding: BindingView { target_app: app, ..placed.binding },
                            retry_allowed: session::not_applied(s.chunks),
                            phase: Phase::Committing,
                            ..placed
                        };
                        let sent = d.send(
                            s.binding.source_device_id,
                            PayloadView::SessionResume {
                                session_id: s.binding.session_id,
                                context_token: token,
                                target_app: app,
                            },
                            log,
                        );
                        match sent.result {
                            Err(e) => inbound::refused(sent.desk, resumed, e),
                            Ok(_) => inbound::told(sent.desk, resumed),
                        }
                    },
                }
            },
        }
    }
}

/// A person says whether a piece in doubt was typed.
#[verifier::opaque]
pub open spec fn resolve_unknown(d: DeskView, s: SessionView, v: JsonView, log: Seq<Reply>) -> Turn<()> {
    if s.binding.source_device_id == d.id || s.inflight is Some {
        inbound::refused(d, s, "resolve_on_target"@)
    } else {
        match number_of(v, "sequence"@) {
            Err(e) => inbound::refused(d, s, e),
            Ok(sequence) => if !session::holds(s.chunks, sequence) {
                inbound::refused(d, s, "unknown_chunk"@)
            } else if session::piece(s.chunks, sequence).status != Ack::Unknown {
                inbound::refused(d, s, "not_unknown"@)
            } else {
                let status = if v.flag_at("applied"@) {
                    Ack::Applied
                } else {
                    Ack::NotApplied
                };
                let recorded = d.record(s.binding.session_id, sequence, status, log);
                match recorded.result {
                    Err(e) => inbound::refused(recorded.desk, s, e),
                    Ok(_) => {
                        let chunks = session::marked(s.chunks, session::slot(s.chunks, sequence) as int, status);
                        let resolved = SessionView {
                            chunks,
                            next_receive: session::first_open(chunks, s.next_receive),
                            phase: if s.cancelled {
                                s.phase
                            } else {
                                Phase::Paused
                            },
                            ..s
                        };
                        let sent = recorded.desk.send(
                            s.binding.source_device_id,
                            PayloadView::ChunkAck {
                                session_id: s.binding.session_id,
                                sequence,
                                ack_status: status,
                            },
                            log,
                        );
                        match sent.result {
                            Err(e) => inbound::refused(sent.desk, resolved, e),
                            Ok(_) => inbound::told(sent.desk, resolved),
                        }
                    },
                }
            },
        }
    }
}

/// The target is asked about the pieces from an index on that are not known to be typed.
pub open spec fn query_from(d: DeskView, s: SessionView, i: nat, log: Seq<Reply>) -> Turn<()>
    decreases s.chunks.len() - i,
{
    if i >= s.chunks.len() {
        Turn { desk: d, session: s, result: Ok(()) }
    } else if s.chunks[i as int].status == Ack::Applied {
        query_from(d, s, i + 1, log)
    } else {
        let sent = d.send(
            s.binding.target_device_id,
            PayloadView::ChunkQuery {
                session_id: s.binding.session_id,
                sequence: s.chunks[i as int].sequence,
            },
            log,
        );
        match sent.result {
            Err(e) => inbound::refused(sent.desk, s, e),
            Ok(_) => query_from(sent.desk, s, i + 1, log),
        }
    }
}

/// The target is asked about the pieces that are not known to be typed.
pub open spec fn query(d: DeskView, s: SessionView, log: Seq<Reply>) -> Turn<()> {
    if s.binding.source_device_id != d.id {
        inbound::refused(d, s, "invalid_role"@)
    } else {
        query_from(d, s, 0, log)
    }
}

/// A session is given a command.
#[verifier::opaque]
pub open spec fn obey(d: DeskView, s: SessionView, op: Seq<char>, v: JsonView, now: u64, log: Seq<Reply>) -> Turn<
    Answer,
> {
    if op == "bound"@ {
        done(bound(d, s, v, log))
    } else if op == "ready"@ {
        done(ready(d, s, log))
    } else if op == "listening"@ {
        done(listening(d, s, log))
    } else if op == "draft"@ {
        done(draft(d, s, v))
    } else if op == "apple_result"@ {
        done(apple_result(d, s, v, now, log))
    } else if op == "source_stopped"@ {
        done(source_stopped(d, s, v.flag_at("verified"@), log))
    } else if op == "source_failed"@ {
        done(source_failed(d, s, v, now, log))
    } else if op == "confirm_stopped"@ {
        done(confirm_stopped(d, s))
    } else if op == "confirm"@ {
        done(confirm(d, s, v, now, log))
    } else if op == "stop"@ {
        done(stop(d, s, now, log))
    } else if op == "cancel"@ {
        done(steps::cancel(d, s, true, now, log))
    } else if op == "focus_invalid"@ {
        done(focus_invalid(d, s, log))
    } else if op == "claim_injection"@ {
        claim_injection(d, s, v)
    } else if op == "injection_result"@ {
        done(injected(d, s, v, log))
    } else if op == "resume"@ {
        done(resume(d, s, v, log))
    } else if op == "resolve_unknown"@ {
        done(resolve_unknown(d, s, v, log))
    } else if op == "query"@ {
        done(query(d, s, log))
    } else {
        inbound::refused(d, s, "unknown_command"@)
    }
}

// ---------------------------------------------------------------- obeying

impl Desk {
    /// Takes in that the program has a place for the text.
    fn bound(&mut self, s: &mut Session, v: &Json) -> (r: Result<(), CoreError>)
        requires
            old(self).wf(),
            old(s)@.wf(),
        ensures
            final(self).wf(),
            final(s)@.wf(),
            final(s)@.binding.session_id == old(s)@.binding.session_id,
            outside::continues(final(self).history.replies(), old(self).history.replies()),
            forall|log: Seq<Reply>| #[trigger]
                outside::continues(log, final(self).history.replies()) ==> bound(old(self)@, old(s)@, v@, log) == (Turn {
                    desk: final(self)@,
                    session: final(s)@,
                    result: crate::outcome(r),
                }),
    {
        broadcast use outside::group_continues;

        reveal(bound);
        assert(outside::continues(self.history.replies(), self.history.replies()));
        if text::same(s.binding.source_device_id.as_str(), self.id.as_str()) || s.phase != Phase::Preparing {
            return fail("invalid_state");
        }
        let token = match string(v, "context_token") {
            Ok(t) => t,
            Err(e) => return Err(e),
        };
        if !inbound::valid_context(token.as_str()) {
            return fail("invalid_context");
        }
        s.binding.context_token = token;
        s.binding.target_app = match string(v, "target_app") {
            Ok(a) => a,
            Err(e) => return Err(e),
        };
        let source = text::copy(&s.binding.source_device_id);
        match self.send(source.as_str(), Payload::SessionBound { binding: s.binding.clone() }) {
            Ok(_) => {},
            Err(e) => return Err(e),
        }
        self.snapshot(s);
        Ok(())
    }

    /// Takes in that the source is ready to listen.
    fn ready(&mut self, s: &mut Session) -> (r: Result<(), CoreError>)
        requires
            old(self).wf(),
            old(s)@.wf(),
        ensures
            final(self).wf(),
            final(s)@.wf(),
            final(s)@.binding.session_id == old(s)@.binding.session_id,
            outside::continues(final(self).history.replies(), old(self).history.replies()),
            forall|log: Seq<Reply>| #[trigger]
                outside::continues(log, final(self).history.replies()) ==> ready(old(self)@, old(s)@, log) == (Turn {
                    desk: final(self)@,
                    session: final(s)@,
                    result: crate::outcome(r),
                }),
    {
        broadcast use outside::group_continues;

        reveal(ready);
        assert(outside::continues(self.history.replies(), self.history.replies()));
        if !text::same(s.binding.source_device_id.as_str(), self.id.as_str()) || s.stop_requested || s.cancelled {
            return fail("source_not_ready");
        }
        if s.phase != Phase::Preparing {
            return fail("invalid_state");
        }
        s.phase = Phase::Ready;
        let target = text::copy(&s.binding.target_device_id);
        match self.send(target.as_str(), Payload::SessionReady { session_id: s.binding.session_id }) {
            Ok(_) => {},
            Err(e) => return Err(e),
        }
        self.snapshot(s);
        Ok(())
    }

    /// Takes in that the source listens.
    fn listening(&mut self, s: &mut Session) -> (r: Result<(), CoreError>)
        requires
            old(self).wf(),
            old(s)@.wf(),
        ensures
            final(self).wf(),
            final(s)@.wf(),
            final(s)@.binding.session_id == old(s)@.binding.session_id,
            outside::continues(final(self).history.replies(), old(self).history.replies()),
            forall|log: Seq<Reply>| #[trigger]
                outside::continues(log, final(self).history.replies()) ==> listening(old(self)@, old(s)@, log) == (Turn {
                    desk: final(self)@,
                    session: final(s)@,
                    result: crate::outcome(r),
                }),
    {
        broadcast use outside::group_continues;

        reveal(listening);
        assert(outside::continues(self.history.replies(), self.history.replies()));
        if !text::same(s.binding.source_device_id.as_str(), self.id.as_str()) || s.stop_requested || s.cancelled {
            return fail("source_not_ready");
        }
        if s.phase != Phase::Ready {
            return fail("invalid_state");
        }
        s.phase = Phase::Listening;
        let target = text::copy(&s.binding.target_device_id);
        match self.send(target.as_str(), Payload::SessionState { session_id: s.binding.session_id, phase: Phase::Listening }) {
            Ok(_) => {},
            Err(e) => return Err(e),
        }
        self.snapshot(s);
        Ok(())
    }

    /// Takes in another draft.
    fn draft(&mut self, s: &mut Session, v: &Json) -> (r: Result<(), CoreError>)
        requires
            old(self).wf(),
            old(s)@.wf(),
        ensures
            final(self).wf(),
            final(s)@.wf(),
            final(s)@.binding.session_id == old(s)@.binding.session_id,
            outside::continues(final(self).history.replies(), old(self).history.replies()),
            forall|log: Seq<Reply>| #[trigger]
                outside::continues(log, final(self).history.replies()) ==> draft(old(self)@, old(s)@, v@) == (Turn {
                    desk: final(self)@,
                    session: final(s)@,
                    result: crate::outcome(r),
                }),
    {
        broadcast use outside::group_continues;

        assert(outside::continues(self.history.replies(), self.history.replies()));
        if !text::same(s.binding.source_device_id.as_str(), self.id.as_str()) || s.cancelled || s.frozen
            || s.phase.terminal() {
            return fail("stale_input_callback");
        }
        let said = match string(v, "text") {
            Ok(t) => t,
            Err(e) => return Err(e),
        };
        if text::byte_len(said.as_str()) > MAX_TEXT {
            return fail("draft_limit");
        }
        s.draft = said;
        self.snapshot(s);
        Ok(())
    }

    /// Sends texts, one after the other, until one cannot be.
    fn freeze_all(&mut self, s: &mut Session, said: Vec<String>, now: u64) -> (r: Result<(), CoreError>)
        requires
            old(self).wf(),
            old(s)@.wf(),
        ensures
            final(self).wf(),
            final(s)@.wf(),
            final(s)@.binding.session_id == old(s)@.binding.session_id,
            outside::continues(final(self).history.replies(), old(self).history.replies()),
            forall|log: Seq<Reply>| #[trigger]
                outside::continues(log, final(self).history.replies()) ==> freeze_all(old(self)@, old(s)@, stable::texts_view(said@), now, log) == (Turn {
                    desk: final(self)@,
                    session: final(s)@,
                    result: crate::outcome(r),
                }),
    {
        broadcast use outside::group_continues;

        assert(outside::continues(self.history.replies(), self.history.replies()));
        let ghost all = stable::texts_view(said@);
        let ghost begun = self@;
        let ghost session = s@;
        let ghost replies = self.history.replies();
        let mut left = said;
        while left.len() > 0
            invariant
                self.wf(),
                s@.wf(),
                begun == old(self)@,
                session == old(s)@,
                s@.binding.session_id == session.binding.session_id,
                replies == old(self).history.replies(),
                all == stable::texts_view(said@),
                outside::continues(self.history.replies(), replies),
                forall|log: Seq<Reply>| #[trigger]
                    outside::continues(log, self.history.replies()) ==> freeze_all(begun, session, all, now, log) == freeze_all(
                        self@,
                        s@,
                        stable::texts_view(left@),
                        now,
                        log,
                    ),
            decreases left@.len(),
        {
            broadcast use outside::group_continues;

            let ghost before = stable::texts_view(left@);
            let first = left.remove(0);
            assert(before[0] == first@);
            assert(before.drop_first() =~= stable::texts_view(left@));
            match self.freeze(s, first, false, now) {
                Ok(_) => {},
                Err(e) => return Err(e),
            }
        }
        Ok(())
    }

    /// Takes in what the recognizer heard.
    fn apple_result(&mut self, s: &mut Session, v: &Json, now: u64) -> (r: Result<(), CoreError>)
        requires
            old(self).wf(),
            old(s)@.wf(),
        ensures
            final(self).wf(),
            final(s)@.wf(),
            final(s)@.binding.session_id == old(s)@.binding.session_id,
            outside::continues(final(self).history.replies(), old(self).history.replies()),
            forall|log: Seq<Reply>| #[trigger]
                outside::continues(log, final(self).history.replies()) ==> apple_result(old(self)@, old(s)@, v@, now, log) == (Turn {
                    desk: final(self)@,
                    session: final(s)@,
                    result: crate::outcome(r),
                }),
    {
        broadcast use outside::group_continues;

        reveal(apple_result);
        assert(outside::continues(self.history.replies(), self.history.replies()));
        if !text::same(s.binding.source_device_id.as_str(), self.id.as_str()) || s.binding.input_mode
            != Mode::AppleLocal || !s.phase.accepts_text() || s.cancelled || s.stopped {
            return fail("stale_input_callback");
        }
        let start = match number(v, "start") {
            Ok(n) => n,
            Err(e) => return Err(e),
        };
        let end = match number(v, "end") {
            Ok(n) => n,
            Err(e) => return Err(e),
        };
        let until = match number(v, "finalized_until") {
            Ok(n) => n,
            Err(e) => return Err(e),
        };
        let said = match string(v, "text") {
            Ok(t) => t,
            Err(e) => return Err(e),
        };
        let ready = match s.stable.observe(start as i64, end as i64, until as i64, said) {
            Ok(texts) => texts,
            Err(e) => return Err(e),
        };
        s.draft = s.stable.draft();
        match self.freeze_all(s, ready, now) {
            Ok(_) => {},
            Err(e) => return Err(e),
        }
        self.snapshot(s);
        Ok(())
    }

    /// Takes in that the source has stopped, or could not.
    fn source_stopped(&mut self, s: &mut Session, verified: bool) -> (r: Result<(), CoreError>)
        requires
            old(self).wf(),
            old(s)@.wf(),
        ensures
            final(self).wf(),
            final(s)@.wf(),
            final(s)@.binding.session_id == old(s)@.binding.session_id,
            outside::continues(final(self).history.replies(), old(self).history.replies()),
            forall|log: Seq<Reply>| #[trigger]
                outside::continues(log, final(self).history.replies()) ==> source_stopped(old(self)@, old(s)@, verified, log) == (Turn {
                    desk: final(self)@,
                    session: final(s)@,
                    result: crate::outcome(r),
                }),
    {
        broadcast use outside::group_continues;

        reveal(source_stopped);
        assert(outside::continues(self.history.replies(), self.history.replies()));
        if !text::same(s.binding.source_device_id.as_str(), self.id.as_str()) {
            return fail("invalid_role");
        }
        let session_id = s.binding.session_id;
        let other = s.other(self.id.as_str());
        s.stopped = verified;
        s.finalizing = None;
        if !verified {
            s.phase = Phase::StopFailed;
        } else if s.cancelled {
            s.phase = Phase::Cancelled;
        } else if matches!(s.phase, Phase::Paused | Phase::Unknown) {
        } else if s.binding.input_mode == Mode::DoubaoIme || !s.draft.as_str().is_empty() {
            s.phase = Phase::AwaitingConfirmation;
        } else {
            self.end_source(s);
        }
        let _ = self.send(other.as_str(), Payload::SessionState { session_id, phase: s.phase });
        self.snapshot(s);
        Ok(())
    }

    /// Takes in that the program failed.
    fn source_failed(&mut self, s: &mut Session, v: &Json, now: u64) -> (r: Result<(), CoreError>)
        requires
            old(self).wf(),
            old(s)@.wf(),
        ensures
            final(self).wf(),
            final(s)@.wf(),
            final(s)@.binding.session_id == old(s)@.binding.session_id,
            outside::continues(final(self).history.replies(), old(self).history.replies()),
            forall|log: Seq<Reply>| #[trigger]
                outside::continues(log, final(self).history.replies()) ==> source_failed(old(self)@, old(s)@, v@, now, log) == (Turn {
                    desk: final(self)@,
                    session: final(s)@,
                    result: crate::outcome(r),
                }),
    {
        broadcast use outside::group_continues;

        reveal(source_failed);
        assert(outside::continues(self.history.replies(), self.history.replies()));
        let session_id = s.binding.session_id;
        let other = s.other(self.id.as_str());
        if text::same(s.binding.source_device_id.as_str(), self.id.as_str()) {
            self.request_stop(s, now);
        } else {
            match self.pause_receiver(s) {
                Ok(_) => {},
                Err(e) => return Err(e),
            }
        }
        s.phase = Phase::Paused;
        s.held = false;
        let code = match string(v, "code") {
            Ok(c) => c,
            Err(e) => return Err(e),
        };
        self.emit(Event::Error { session_id: Some(session_id), code });
        let _ = self.send(other.as_str(), Payload::SessionPause { session_id });
        self.snapshot(s);
        Ok(())
    }

    /// Takes in that a person says that the source has stopped.
    fn confirm_stopped(&mut self, s: &mut Session) -> (r: Result<(), CoreError>)
        requires
            old(self).wf(),
            old(s)@.wf(),
        ensures
            final(self).wf(),
            final(s)@.wf(),
            final(s)@.binding.session_id == old(s)@.binding.session_id,
            outside::continues(final(self).history.replies(), old(self).history.replies()),
            forall|log: Seq<Reply>| #[trigger]
                outside::continues(log, final(self).history.replies()) ==> confirm_stopped(old(self)@, old(s)@) == (Turn {
                    desk: final(self)@,
                    session: final(s)@,
                    result: crate::outcome(r),
                }),
    {
        broadcast use outside::group_continues;

        assert(outside::continues(self.history.replies(), self.history.replies()));
        if !text::same(s.binding.source_device_id.as_str(), self.id.as_str()) {
            return fail("invalid_role");
        }
        s.stopped = true;
        s.finalizing = None;
        s.phase = if s.cancelled {
            Phase::Cancelled
        } else {
            Phase::AwaitingConfirmation
        };
        self.snapshot(s);
        Ok(())
    }

    /// Takes in the last text, which a person confirmed.
    fn confirm(&mut self, s: &mut Session, v: &Json, now: u64) -> (r: Result<(), CoreError>)
        requires
            old(self).wf(),
            old(s)@.wf(),
        ensures
            final(self).wf(),
            final(s)@.wf(),
            final(s)@.binding.session_id == old(s)@.binding.session_id,
            outside::continues(final(self).history.replies(), old(self).history.replies()),
            forall|log: Seq<Reply>| #[trigger]
                outside::continues(log, final(self).history.replies()) ==> confirm(old(self)@, old(s)@, v@, now, log) == (Turn {
                    desk: final(self)@,
                    session: final(s)@,
                    result: crate::outcome(r),
                }),
    {
        broadcast use outside::group_continues;

        reveal(confirm);
        assert(outside::continues(self.history.replies(), self.history.replies()));
        if !text::same(s.binding.source_device_id.as_str(), self.id.as_str()) || s.cancelled || s.frozen || !s.stopped
            || s.has_unknown() || !matches!(s.phase, Phase::AwaitingConfirmation | Phase::Paused) {
            return fail("unsafe_confirmation");
        }
        let said = match string(v, "text") {
            Ok(t) => t,
            Err(e) => return Err(e),
        };
        let empty = said.as_str().is_empty();
        if !empty {
            match protocol::validate_text(said.as_str()) {
                Ok(_) => {},
                Err(e) => return Err(e),
            }
        }
        s.frozen = true;
        s.phase = Phase::Committing;
        s.draft = String::new();
        assert(s@.draft =~= seq![]);
        if !empty {
            match self.freeze(s, said, true, now) {
                Ok(_) => {},
                Err(e) => return Err(e),
            }
        }
        if s.phase != Phase::Paused {
            self.end_source(s);
        }
        Ok(())
    }

    /// Takes in that the key was let go.
    fn stop(&mut self, s: &mut Session, now: u64) -> (r: Result<(), CoreError>)
        requires
            old(self).wf(),
            old(s)@.wf(),
        ensures
            final(self).wf(),
            final(s)@.wf(),
            final(s)@.binding.session_id == old(s)@.binding.session_id,
            outside::continues(final(self).history.replies(), old(self).history.replies()),
            forall|log: Seq<Reply>| #[trigger]
                outside::continues(log, final(self).history.replies()) ==> stop(old(self)@, old(s)@, now, log) == (Turn {
                    desk: final(self)@,
                    session: final(s)@,
                    result: crate::outcome(r),
                }),
    {
        broadcast use outside::group_continues;

        reveal(stop);
        assert(outside::continues(self.history.replies(), self.history.replies()));
        let session_id = s.binding.session_id;
        s.held = false;
        if text::same(s.binding.source_device_id.as_str(), self.id.as_str()) {
            self.request_stop(s, now);
        } else {
            let source = text::copy(&s.binding.source_device_id);
            match self.send(source.as_str(), Payload::SessionStop { session_id }) {
                Ok(_) => {},
                Err(e) => return Err(e),
            }
            if !s.phase.terminal() {
                s.phase = Phase::Finalizing;
            }
            self.snapshot(s);
        }
        Ok(())
    }

    /// Takes in that the place for the text is gone.
    fn focus_invalid(&mut self, s: &mut Session) -> (r: Result<(), CoreError>)
        requires
            old(self).wf(),
            old(s)@.wf(),
        ensures
            final(self).wf(),
            final(s)@.wf(),
            final(s)@.binding.session_id == old(s)@.binding.session_id,
            outside::continues(final(self).history.replies(), old(self).history.replies()),
            forall|log: Seq<Reply>| #[trigger]
                outside::continues(log, final(self).history.replies()) ==> focus_invalid(old(self)@, old(s)@, log) == (Turn {
                    desk: final(self)@,
                    session: final(s)@,
                    result: crate::outcome(r),
                }),
    {
        broadcast use outside::group_continues;

        reveal(focus_invalid);
        assert(outside::continues(self.history.replies(), self.history.replies()));
        if text::same(s.binding.source_device_id.as_str(), self.id.as_str()) {
            return fail("invalid_role");
        }
        let session_id = s.binding.session_id;
        let source = text::copy(&s.binding.source_device_id);
        match self.pause_receiver(s) {
            Ok(_) => {},
            Err(e) => return Err(e),
        }
        match self.send(source.as_str(), Payload::SessionPause { session_id }) {
            Ok(_) => {},
            Err(e) => return Err(e),
        }
        self.snapshot(s);
        Ok(())
    }

    /// Says whether the program may type a piece now.
    fn claim_injection(&mut self, s: &mut Session, v: &Json) -> (r: Result<Answer, CoreError>)
        requires
            old(self).wf(),
            old(s)@.wf(),
        ensures
            final(self).wf(),
            final(s)@.wf(),
            final(s)@.binding.session_id == old(s)@.binding.session_id,
            outside::continues(final(self).history.replies(), old(self).history.replies()),
            forall|log: Seq<Reply>| #[trigger]
                outside::continues(log, final(self).history.replies()) ==> claim_injection(old(self)@, old(s)@, v@) == (Turn {
                    desk: final(self)@,
                    session: final(s)@,
                    result: crate::outcome(r),
                }),
    {
        broadcast use outside::group_continues;

        assert(outside::continues(self.history.replies(), self.history.replies()));
        let sequence = match number(v, "sequence") {
            Ok(n) => n,
            Err(e) => return Err(e),
        };
        let offered = match s.inflight {
            Some((n, false)) => n == sequence,
            _ => false,
        };
        if text::same(s.binding.source_device_id.as_str(), self.id.as_str()) || !s.can_inject() || !offered {
            return Ok(Answer::Allowed(false));
        }
        s.inflight = Some((sequence, true));
        Ok(Answer::Allowed(true))
    }

    /// Takes in what became of a piece.
    fn injected(&mut self, s: &mut Session, v: &Json) -> (r: Result<(), CoreError>)
        requires
            old(self).wf(),
            old(s)@.wf(),
        ensures
            final(self).wf(),
            final(s)@.wf(),
            final(s)@.binding.session_id == old(s)@.binding.session_id,
            outside::continues(final(self).history.replies(), old(self).history.replies()),
            forall|log: Seq<Reply>| #[trigger]
                outside::continues(log, final(self).history.replies()) ==> injected(old(self)@, old(s)@, v@, log) == (Turn {
                    desk: final(self)@,
                    session: final(s)@,
                    result: crate::outcome(r),
                }),
    {
        broadcast use outside::group_continues;

        assert(outside::continues(self.history.replies(), self.history.replies()));
        let status = match status_in(v) {
            Some(a) => a,
            None => return fail("invalid_receipt"),
        };
        let sequence = match number(v, "sequence") {
            Ok(n) => n,
            Err(e) => return Err(e),
        };
        self.injection_result(s, sequence, status)
    }

    /// Takes in that the program has a new place for the text.
    fn resume(&mut self, s: &mut Session, v: &Json) -> (r: Result<(), CoreError>)
        requires
            old(self).wf(),
            old(s)@.wf(),
        ensures
            final(self).wf(),
            final(s)@.wf(),
            final(s)@.binding.session_id == old(s)@.binding.session_id,
            outside::continues(final(self).history.replies(), old(self).history.replies()),
            forall|log: Seq<Reply>| #[trigger]
                outside::continues(log, final(self).history.replies()) ==> resume(old(self)@, old(s)@, v@, log) == (Turn {
                    desk: final(self)@,
                    session: final(s)@,
                    result: crate::outcome(r),
                }),
    {
        broadcast use outside::group_continues;

        reveal(resume);
        assert(outside::continues(self.history.replies(), self.history.replies()));
        if text::same(s.binding.source_device_id.as_str(), self.id.as_str()) || s.cancelled || s.has_unknown()
            || s.inflight.is_some() {
            return fail("unsafe_resume");
        }
        let token = match string(v, "context_token") {
            Ok(t) => t,
            Err(e) => return Err(e),
        };
        if !inbound::valid_context(token.as_str()) || text::same(token.as_str(), s.binding.context_token.as_str()) {
            return fail("invalid_context");
        }
        s.binding.context_token = text::copy(&token);
        s.binding.target_app = match string(v, "target_app") {
            Ok(a) => a,
            Err(e) => return Err(e),
        };
        s.allow_retries();
        s.phase = Phase::Committing;
        let source = text::copy(&s.binding.source_device_id);
        let again = Payload::SessionResume {
            session_id: s.binding.session_id,
            context_token: token,
            target_app: text::copy(&s.binding.target_app),
        };
        match self.send(source.as_str(), again) {
            Ok(_) => {},
            Err(e) => return Err(e),
        }
        self.snapshot(s);
        Ok(())
    }

    /// Takes in whether a piece in doubt was typed.
    fn resolve_unknown(&mut self, s: &mut Session, v: &Json) -> (r: Result<(), CoreError>)
        requires
            old(self).wf(),
            old(s)@.wf(),
        ensures
            final(self).wf(),
            final(s)@.wf(),
            final(s)@.binding.session_id == old(s)@.binding.session_id,
            outside::continues(final(self).history.replies(), old(self).history.replies()),
            forall|log: Seq<Reply>| #[trigger]
                outside::continues(log, final(self).history.replies()) ==> resolve_unknown(old(self)@, old(s)@, v@, log) == (Turn {
                    desk: final(self)@,
                    session: final(s)@,
                    result: crate::outcome(r),
                }),
    {
        broadcast use outside::group_continues;

        reveal(resolve_unknown);
        assert(outside::continues(self.history.replies(), self.history.replies()));
        if text::same(s.binding.source_device_id.as_str(), self.id.as_str()) || s.inflight.is_some() {
            return fail("resolve_on_target");
        }
        let sequence = match number(v, "sequence") {
            Ok(n) => n,
            Err(e) => return Err(e),
        };
        let i = match s.find(sequence) {
            Some(i) => i,
            None => return fail("unknown_chunk"),
        };
        if s.chunks[i].status != Ack::Unknown {
            return fail("not_unknown");
        }
        let status = if v.flag_at("applied") {
            Ack::Applied
        } else {
            Ack::NotApplied
        };
        let session_id = s.binding.session_id;
        match self.record(session_id, sequence, status) {
            Ok(_) => {},
            Err(e) => return Err(e),
        }
        s.mark(i, status);
        s.advance();
        if !s.cancelled {
            s.phase = Phase::Paused;
        }
        let source = text::copy(&s.binding.source_device_id);
        match self.send(source.as_str(), Payload::ChunkAck { session_id, sequence, ack_status: status }) {
            Ok(_) => {},
            Err(e) => return Err(e),
        }
        self.snapshot(s);
        Ok(())
    }

    /// Asks the target about the pieces that are not known to be typed.
    fn query(&mut self, s: &mut Session) -> (r: Result<(), CoreError>)
        requires
            old(self).wf(),
            old(s)@.wf(),
        ensures
            final(self).wf(),
            final(s)@.wf(),
            final(s)@.binding.session_id == old(s)@.binding.session_id,
            outside::continues(final(self).history.replies(), old(self).history.replies()),
            forall|log: Seq<Reply>| #[trigger]
                outside::continues(log, final(self).history.replies()) ==> query(old(self)@, old(s)@, log) == (Turn {
                    desk: final(self)@,
                    session: final(s)@,
                    result: crate::outcome(r),
                }),
    {
        broadcast use outside::group_continues;

        assert(outside::continues(self.history.replies(), self.history.replies()));
        if !text::same(s.binding.source_device_id.as_str(), self.id.as_str()) {
            return fail("invalid_role");
        }
        let session_id = s.binding.session_id;
        let ghost begun = self@;
        let ghost session = s@;
        let ghost replies = self.history.replies();
        let mut i: usize = 0;
        while i < s.chunks.len()
            invariant
                self.wf(),
                s@.wf(),
                *s == *old(s),
                begun == old(self)@,
                session == s@,
                session.binding.source_device_id == begun.id,
                session_id == session.binding.session_id,
                replies == old(self).history.replies(),
                i <= s.chunks@.len(),
                outside::continues(self.history.replies(), replies),
                forall|log: Seq<Reply>| #[trigger]
                    outside::continues(log, self.history.replies()) ==> query_from(begun, session, 0, log) == query_from(
                        self@,
                        session,
                        i as nat,
                        log,
                    ),
            decreases s.chunks.len() - i,
        {
            broadcast use outside::group_continues;

            assert(session.chunks[i as int] == s.chunks@[i as int]@);
            if s.chunks[i].status != Ack::Applied {
                let target = text::copy(&s.binding.target_device_id);
                let sequence = s.chunks[i].sequence;
                match self.send(target.as_str(), Payload::ChunkQuery { session_id, sequence }) {
                    Ok(_) => {},
                    Err(e) => return Err(e),
                }
            }
            i = i + 1;
        }
        Ok(())
    }

    /// Carries out a command on a session.
    #[verifier::rlimit(40)]
    pub fn obey(&mut self, s: &mut Session, op: &str, v: &Json, now: u64) -> (r: Result<Answer, CoreError>)
        requires
            old(self).wf(),
            old(s)@.wf(),
        ensures
            final(self).wf(),
            final(s)@.wf(),
            final(s)@.binding.session_id == old(s)@.binding.session_id,
            outside::continues(final(self).history.replies(), old(self).history.replies()),
            forall|log: Seq<Reply>| #[trigger]
                outside::continues(log, final(self).history.replies()) ==> obey(old(self)@, old(s)@, op@, v@, now, log) == (Turn {
                    desk: final(self)@,
                    session: final(s)@,
                    result: crate::outcome(r),
                }),
    {
        broadcast use outside::group_continues;

        reveal(obey);
        assert(outside::continues(self.history.replies(), self.history.replies()));
        let r = if text::same(op, "bound") {
            self.bound(s, v)
        } else if text::same(op, "ready") {
            self.ready(s)
        } else if text::same(op, "listening") {
            self.listening(s)
        } else if text::same(op, "draft") {
            self.draft(s, v)
        } else if text::same(op, "apple_result") {
            self.apple_result(s, v, now)
        } else if text::same(op, "source_stopped") {
            self.source_stopped(s, v.flag_at("verified"))
        } else if text::same(op, "source_failed") {
            self.source_failed(s, v, now)
        } else if text::same(op, "confirm_stopped") {
            self.confirm_stopped(s)
        } else if text::same(op, "confirm") {
            self.confirm(s, v, now)
        } else if text::same(op, "stop") {
            self.stop(s, now)
        } else if text::same(op, "cancel") {
            self.cancel(s, true, now)
        } else if text::same(op, "focus_invalid") {
            self.focus_invalid(s)
        } else if text::same(op, "claim_injection") {
            return self.claim_injection(s, v);
        } else if text::same(op, "injection_result") {
            self.injected(s, v)
        } else if text::same(op, "resume") {
            self.resume(s, v)
        } else if text::same(op, "resolve_unknown") {
            self.resolve_unknown(s, v)
        } else if text::same(op, "query") {
            self.query(s)
        } else {
            return fail("unknown_command");
        };
        match r {
            Ok(_) => Ok(Answer::Done),
            Err(e) => Err(e),
        }
    }
}

} // verus!
