//! What is done to one session: stopping, pausing and cancelling it, sending its text,
//! and typing it.
use crate::desk::{Desk, DeskView};
use crate::event::{Event, EventView};
use crate::outside;
use crate::outside::Reply;
use crate::protocol;
use crate::protocol::{Ack, Payload, PayloadView, Phase};
use crate::session;
use crate::session::{Chunk, ChunkView, Session, SessionView, MAX_SEQUENCE, MAX_SESSION_TEXT};
use crate::text;
use crate::{fail, CoreError};
use vstd::prelude::*;

verus! {

/// What a step on a session came to.
pub struct Turn<T> {
    pub desk: DeskView,
    pub session: SessionView,
    pub result: Result<T, Seq<char>>,
}

// ---------------------------------------------------------------- stopping

/// The source is asked to stop listening, once.
#[verifier::opaque]
pub open spec fn request_stop(d: DeskView, s: SessionView, now: u64, log: Seq<Reply>) -> Turn<()> {
    if s.stopped || s.stop_requested {
        Turn { desk: d, session: SessionView { held: false, ..s }, result: Ok(()) }
    } else {
        let stopping = SessionView {
            held: false,
            stop_requested: true,
            finalizing: Some(now),
            phase: match s.phase {
                Phase::Paused | Phase::Unknown | Phase::Cancelled => s.phase,
                _ => Phase::Finalizing,
            },
            ..s
        };
        let told = d.emit(EventView::StopInput { session_id: s.binding.session_id }).send(
            stopping.other(d.id),
            PayloadView::SessionState { session_id: s.binding.session_id, phase: stopping.phase },
            log,
        ).desk;
        Turn { desk: told.snapshot(stopping), session: stopping, result: Ok(()) }
    }
}

/// The target gives up the pieces from an index on that it has not begun to type, and
/// says so, until the journal fails.
pub open spec fn give_up_from(d: DeskView, s: SessionView, i: nat, log: Seq<Reply>) -> Turn<()>
    decreases s.chunks.len() - i,
{
    if i >= s.chunks.len() {
        Turn { desk: d, session: s, result: Ok(()) }
    } else {
        let c = s.chunks[i as int];
        if c.status == Ack::Received && s.inflight != Some((c.sequence, true)) {
            let given_up = SessionView { chunks: session::marked(s.chunks, i as int, Ack::NotApplied), ..s };
            let recorded = d.record(s.binding.session_id, c.sequence, Ack::NotApplied, log);
            match recorded.result {
                Err(e) => Turn { desk: recorded.desk, session: given_up, result: Err(e) },
                Ok(_) => give_up_from(
                    recorded.desk.send(
                        s.binding.source_device_id,
                        PayloadView::ChunkAck {
                            session_id: s.binding.session_id,
                            sequence: c.sequence,
                            ack_status: Ack::NotApplied,
                        },
                        log,
                    ).desk,
                    given_up,
                    i + 1,
                    log,
                ),
            }
        } else {
            give_up_from(d, s, i + 1, log)
        }
    }
}

/// The target stops typing: what it has not begun is given up.
#[verifier::opaque]
pub open spec fn pause_receiver(d: DeskView, s: SessionView, log: Seq<Reply>) -> Turn<()> {
    let pausing = SessionView {
        phase: if s.phase.spec_terminal() {
            s.phase
        } else {
            Phase::Paused
        },
        ..s
    };
    let t = give_up_from(d, pausing, 0, log);
    match t.result {
        Err(_) => t,
        Ok(_) => Turn {
            session: SessionView {
                inflight: match t.session.inflight {
                    Some((_, false)) => None,
                    other => other,
                },
                ..t.session
            },
            ..t
        },
    }
}

/// The session is cancelled, once, and the other side is told if `notify`.
#[verifier::opaque]
pub open spec fn cancel(d: DeskView, s: SessionView, notify: bool, now: u64, log: Seq<Reply>) -> Turn<()> {
    if s.cancelled {
        Turn { desk: d, session: s, result: Ok(()) }
    } else {
        let cancelled = SessionView { cancelled: true, held: false, phase: Phase::Cancelled, ..s };
        let t = if s.binding.source_device_id == d.id {
            if s.stopped {
                Turn { desk: d, session: cancelled, result: Ok(()) }
            } else {
                Turn {
                    desk: d.emit(EventView::CancelInput { session_id: s.binding.session_id }),
                    session: SessionView { stop_requested: true, finalizing: Some(now), ..cancelled },
                    result: Ok(()),
                }
            }
        } else {
            pause_receiver(d, cancelled, log)
        };
        match t.result {
            Err(_) => t,
            Ok(_) => {
                let told = if notify {
                    t.desk.send(
                        s.other(d.id),
                        PayloadView::SessionCancel { session_id: s.binding.session_id },
                        log,
                    ).desk
                } else {
                    t.desk
                };
                Turn { desk: told.snapshot(t.session), session: t.session, result: Ok(()) }
            },
        }
    }
}

// ---------------------------------------------------------------- sending

/// The source sends a piece of text, under the next number.
#[verifier::opaque]
pub open spec fn freeze(
    d: DeskView,
    s: SessionView,
    said: Seq<char>,
    is_final: bool,
    now: u64,
    log: Seq<Reply>,
) -> Turn<()> {
    match protocol::text_error(said) {
        Some(e) => Turn { desk: d, session: s, result: Err(e) },
        None => if s.cancelled || s.binding.source_device_id != d.id || s.next_send > MAX_SEQUENCE || session::total(
            s.chunks,
        ) + text::size(said) > MAX_SESSION_TEXT {
            Turn { desk: d, session: s, result: Err("session_text_limit"@) }
        } else {
            let sent = d.send(
                s.binding.target_device_id,
                PayloadView::TextChunk {
                    session_id: s.binding.session_id,
                    sequence: s.next_send,
                    context_token: s.binding.context_token,
                    text: said,
                    is_final,
                },
                log,
            );
            let status = if sent.result is Ok {
                Ack::Received
            } else {
                Ack::NotApplied
            };
            let frozen = SessionView {
                next_send: (s.next_send + 1) as u64,
                chunks: session::placed(
                    s.chunks,
                    ChunkView { sequence: s.next_send, text: said, status, is_final },
                ),
                ..s
            };
            let t = if sent.result is Ok {
                Turn { desk: sent.desk, session: frozen, result: Ok(()) }
            } else {
                request_stop(sent.desk, SessionView { phase: Phase::Paused, ..frozen }, now, log)
            };
            Turn { desk: t.desk.snapshot(t.session), ..t }
        },
    }
}

/// The source says that no piece comes after the last one.
#[verifier::opaque]
pub open spec fn end_source(d: DeskView, s: SessionView, log: Seq<Reply>) -> Turn<()> {
    if s.cancelled {
        let over = SessionView { phase: Phase::Cancelled, ..s };
        Turn { desk: d.snapshot(over), session: over, result: Ok(()) }
    } else {
        let last = (s.next_send - 1) as u64;
        let sent = d.send(
            s.binding.target_device_id,
            PayloadView::SessionEnd { session_id: s.binding.session_id, last_sequence: last },
            log,
        );
        let ended = SessionView {
            last_sequence: Some(last),
            phase: if sent.result is Err {
                Phase::Paused
            } else if session::all_applied(s.chunks) {
                Phase::Done
            } else {
                Phase::Committing
            },
            ..s
        };
        Turn { desk: sent.desk.snapshot(ended), session: ended, result: Ok(()) }
    }
}

// ---------------------------------------------------------------- typing

/// The next piece is to be typed, if it has come, text may be typed, and none is under
/// way.
#[verifier::opaque]
pub open spec fn pump(d: DeskView, s: SessionView) -> Turn<()> {
    if s.can_inject() && s.inflight is None && session::holds(s.chunks, s.next_receive) && session::piece(
        s.chunks,
        s.next_receive,
    ).status == Ack::Received {
        Turn {
            desk: d.emit(
                EventView::Inject {
                    session_id: s.binding.session_id,
                    sequence: s.next_receive,
                    text: session::piece(s.chunks, s.next_receive).text,
                    context_token: s.binding.context_token,
                },
            ),
            session: SessionView { inflight: Some((s.next_receive, false)), ..s },
            result: Ok(()),
        }
    } else {
        Turn { desk: d, session: s, result: Ok(()) }
    }
}

/// The target is done once the last piece has been typed and none is in doubt.
pub open spec fn finish_receiver(s: SessionView) -> SessionView {
    if !s.cancelled && s.last_sequence is Some && s.next_receive == s.last_sequence->0 + 1 && !session::any_unknown(
        s.chunks,
    ) {
        SessionView { phase: Phase::Done, ..s }
    } else {
        s
    }
}

/// The piece that is under way is settled, once the journal has answered: what could not be
/// recorded is not known.
#[verifier::opaque]
pub open spec fn settled(
    d: DeskView,
    s: SessionView,
    sequence: u64,
    requested: Ack,
    recorded: Result<(), Seq<char>>,
    log: Seq<Reply>,
) -> Turn<()> {
    let status = if recorded is Ok {
        requested
    } else {
        Ack::Unknown
    };
    if !session::holds(s.chunks, sequence) {
        Turn { desk: d, session: s, result: Err("unknown_chunk"@) }
    } else {
        let settled = SessionView {
            chunks: session::marked(s.chunks, session::slot(s.chunks, sequence) as int, status),
            inflight: None,
            next_receive: if status == Ack::Applied {
                (s.next_receive + 1) as u64
            } else {
                s.next_receive
            },
            phase: if status == Ack::Applied || s.cancelled {
                s.phase
            } else if status == Ack::Unknown {
                Phase::Unknown
            } else {
                Phase::Paused
            },
            ..s
        };
        let sent = d.send(
            s.binding.source_device_id,
            PayloadView::ChunkAck { session_id: s.binding.session_id, sequence, ack_status: status },
            log,
        );
        let finished = finish_receiver(settled);
        pump(sent.desk.snapshot(finished), finished)
    }
}

/// The program says what became of the piece that is under way.
#[verifier::opaque]
pub open spec fn injection_result(d: DeskView, s: SessionView, sequence: u64, requested: Ack, log: Seq<Reply>) -> Turn<
    (),
> {
    if s.binding.target_device_id != d.id || s.under_way() != Some(sequence) || requested == Ack::Received {
        Turn { desk: d, session: s, result: Err("invalid_injection_receipt"@) }
    } else {
        let recorded = d.record(s.binding.session_id, sequence, requested, log);
        settled(recorded.desk, s, sequence, requested, recorded.result, log)
    }
}

// ---------------------------------------------------------------- the steps

impl Desk {
    /// Asks the source to stop listening, once.
    pub fn request_stop(&mut self, s: &mut Session, now: u64)
        requires
            old(self).wf(),
            old(s)@.wf(),
        ensures
            final(self).wf(),
            final(s)@.wf(),
            final(s)@.binding.session_id == old(s)@.binding.session_id,
            outside::continues(final(self).history.replies(), old(self).history.replies()),
            forall|log: Seq<Reply>| #[trigger]
                outside::continues(log, final(self).history.replies()) ==> request_stop(old(self)@, old(s)@, now, log) == (
                Turn { desk: final(self)@, session: final(s)@, result: Ok(()) }),
    {
        broadcast use outside::group_continues;

        reveal(request_stop);
        assert(outside::continues(self.history.replies(), self.history.replies()));
        s.held = false;
        if s.stopped || s.stop_requested {
            return ;
        }
        s.stop_requested = true;
        s.finalizing = Some(now);
        s.phase = match s.phase {
            Phase::Paused => Phase::Paused,
            Phase::Unknown => Phase::Unknown,
            Phase::Cancelled => Phase::Cancelled,
            _ => Phase::Finalizing,
        };
        self.emit(Event::StopInput { session_id: s.binding.session_id });
        let other = s.other(self.id.as_str());
        let _ = self.send(
            other.as_str(),
            Payload::SessionState { session_id: s.binding.session_id, phase: s.phase },
        );
        self.snapshot(s);
    }

    /// Stops typing: gives up what has not been begun.
    pub fn pause_receiver(&mut self, s: &mut Session) -> (r: Result<(), CoreError>)
        requires
            old(self).wf(),
            old(s)@.wf(),
        ensures
            final(self).wf(),
            final(s)@.wf(),
            final(s)@.binding.session_id == old(s)@.binding.session_id,
            outside::continues(final(self).history.replies(), old(self).history.replies()),
            forall|log: Seq<Reply>| #[trigger]
                outside::continues(log, final(self).history.replies()) ==> pause_receiver(old(self)@, old(s)@, log) == (Turn {
                    desk: final(self)@,
                    session: final(s)@,
                    result: crate::outcome(r),
                }),
    {
        broadcast use outside::group_continues;

        reveal(pause_receiver);
        assert(outside::continues(self.history.replies(), self.history.replies()));
        if !s.phase.terminal() {
            s.phase = Phase::Paused;
        }
        let ghost begun = self@;
        let ghost pausing = s@;
        let ghost replies = self.history.replies();
        let mut i: usize = 0;
        while i < s.chunks.len()
            invariant
                begun == old(self)@,
                replies == old(self).history.replies(),
                pausing == (SessionView {
                    phase: if old(s)@.phase.spec_terminal() {
                        old(s)@.phase
                    } else {
                        Phase::Paused
                    },
                    ..old(s)@
                }),
                i <= s.chunks@.len(),
                s.chunks@.len() == pausing.chunks.len(),
                s@ == (SessionView { chunks: s@.chunks, ..pausing }),
                s@.wf(),
                self.wf(),
                outside::continues(self.history.replies(), replies),
                forall|log: Seq<Reply>| #[trigger]
                    outside::continues(log, self.history.replies()) ==> give_up_from(begun, pausing, 0, log) == give_up_from(
                        self@,
                        s@,
                        i as nat,
                        log,
                    ),
            decreases s.chunks.len() - i,
        {
            broadcast use outside::group_continues;

            let ghost held = s@;
            let n = s.chunks[i].sequence;
            let claimed = match s.inflight {
                Some((k, true)) => k == n,
                _ => false,
            };
            assert(held.chunks[i as int] == s.chunks@[i as int]@);
            if s.chunks[i].status == Ack::Received && !claimed {
                s.mark(i, Ack::NotApplied);
                match self.record(s.binding.session_id, n, Ack::NotApplied) {
                    Ok(_) => {},
                    Err(e) => {
                        reveal(pause_receiver);
                        return Err(e);
                    },
                }
                let source = text::copy(&s.binding.source_device_id);
                let _ = self.send(
                    source.as_str(),
                    Payload::ChunkAck {
                        session_id: s.binding.session_id,
                        sequence: n,
                        ack_status: Ack::NotApplied,
                    },
                );
            }
            i = i + 1;
        }
        match s.inflight {
            Some((_, false)) => {
                s.inflight = None;
            },
            _ => {},
        }
        Ok(())
    }

    /// Cancels a session, once, and tells the other side if `notify`.
    pub fn cancel(&mut self, s: &mut Session, notify: bool, now: u64) -> (r: Result<(), CoreError>)
        requires
            old(self).wf(),
            old(s)@.wf(),
        ensures
            final(self).wf(),
            final(s)@.wf(),
            final(s)@.binding.session_id == old(s)@.binding.session_id,
            outside::continues(final(self).history.replies(), old(self).history.replies()),
            forall|log: Seq<Reply>| #[trigger]
                outside::continues(log, final(self).history.replies()) ==> cancel(old(self)@, old(s)@, notify, now, log) == (
                Turn { desk: final(self)@, session: final(s)@, result: crate::outcome(r) }),
    {
        broadcast use outside::group_continues;

        reveal(cancel);
        assert(outside::continues(self.history.replies(), self.history.replies()));
        if s.cancelled {
            return Ok(());
        }
        s.cancelled = true;
        s.held = false;
        s.phase = Phase::Cancelled;
        let session_id = s.binding.session_id;
        let other = s.other(self.id.as_str());
        if text::same(s.binding.source_device_id.as_str(), self.id.as_str()) {
            if !s.stopped {
                s.stop_requested = true;
                s.finalizing = Some(now);
                self.emit(Event::CancelInput { session_id });
            }
        } else {
            match self.pause_receiver(s) {
                Ok(_) => {},
                Err(e) => return Err(e),
            }
        }
        if notify {
            let _ = self.send(other.as_str(), Payload::SessionCancel { session_id });
        }
        self.snapshot(s);
        Ok(())
    }

    /// Sends a piece of text, under the next number.
    pub fn freeze(&mut self, s: &mut Session, said: String, is_final: bool, now: u64) -> (r: Result<(), CoreError>)
        requires
            old(self).wf(),
            old(s)@.wf(),
        ensures
            final(self).wf(),
            final(s)@.wf(),
            final(s)@.binding.session_id == old(s)@.binding.session_id,
            outside::continues(final(self).history.replies(), old(self).history.replies()),
            forall|log: Seq<Reply>| #[trigger]
                outside::continues(log, final(self).history.replies()) ==> freeze(
                    old(self)@,
                    old(s)@,
                    said@,
                    is_final,
                    now,
                    log,
                ) == (Turn { desk: final(self)@, session: final(s)@, result: crate::outcome(r) }),
    {
        broadcast use outside::group_continues;

        reveal(freeze);
        assert(outside::continues(self.history.replies(), self.history.replies()));
        match protocol::validate_text(said.as_str()) {
            Ok(_) => {},
            Err(e) => return Err(e),
        }
        if s.cancelled || !text::same(s.binding.source_device_id.as_str(), self.id.as_str()) || s.next_send
            > MAX_SEQUENCE || s.total() + text::byte_len(said.as_str()) as u64 > MAX_SESSION_TEXT {
            return fail("session_text_limit");
        }
        let sequence = s.next_send;
        s.next_send = sequence + 1;
        let target = text::copy(&s.binding.target_device_id);
        let sent = self.send(
            target.as_str(),
            Payload::TextChunk {
                session_id: s.binding.session_id,
                sequence,
                context_token: text::copy(&s.binding.context_token),
                text: text::copy(&said),
                is_final,
            },
        ).is_ok();
        let status = if sent {
            Ack::Received
        } else {
            Ack::NotApplied
        };
        s.place(Chunk { sequence, text: said, status, is_final });
        if !sent {
            s.phase = Phase::Paused;
            self.request_stop(s, now);
        }
        self.snapshot(s);
        Ok(())
    }

    /// Says that no piece comes after the last one.
    pub fn end_source(&mut self, s: &mut Session)
        requires
            old(self).wf(),
            old(s)@.wf(),
        ensures
            final(self).wf(),
            final(s)@.wf(),
            final(s)@.binding.session_id == old(s)@.binding.session_id,
            outside::continues(final(self).history.replies(), old(self).history.replies()),
            forall|log: Seq<Reply>| #[trigger]
                outside::continues(log, final(self).history.replies()) ==> end_source(old(self)@, old(s)@, log) == (Turn {
                    desk: final(self)@,
                    session: final(s)@,
                    result: Ok(()),
                }),
    {
        broadcast use outside::group_continues;

        reveal(end_source);
        assert(outside::continues(self.history.replies(), self.history.replies()));
        if s.cancelled {
            s.phase = Phase::Cancelled;
            self.snapshot(s);
            return ;
        }
        let last = s.next_send - 1;
        s.last_sequence = Some(last);
        s.phase = Phase::Committing;
        let target = text::copy(&s.binding.target_device_id);
        let sent = self.send(
            target.as_str(),
            Payload::SessionEnd { session_id: s.binding.session_id, last_sequence: last },
        );
        if sent.is_err() {
            s.phase = Phase::Paused;
        } else if s.all_applied() {
            s.phase = Phase::Done;
        }
        self.snapshot(s);
    }

    /// Has the next piece typed, if it has come, text may be typed, and none is under
    /// way.
    pub fn pump(&mut self, s: &mut Session)
        requires
            old(self).wf(),
            old(s)@.wf(),
        ensures
            final(self).wf(),
            final(s)@.wf(),
            final(s)@.binding.session_id == old(s)@.binding.session_id,
            final(self).history.replies() == old(self).history.replies(),
            pump(old(self)@, old(s)@) == (Turn { desk: final(self)@, session: final(s)@, result: Ok(()) }),
    {
        reveal(pump);
        if !s.can_inject() || s.inflight.is_some() {
            return ;
        }
        match s.find(s.next_receive) {
            Some(i) => {
                assert(s@.chunks[i as int].sequence <= MAX_SEQUENCE);
                if s.chunks[i].status == Ack::Received {
                    s.inflight = Some((s.next_receive, false));
                    self.emit(
                        Event::Inject {
                            session_id: s.binding.session_id,
                            sequence: s.next_receive,
                            text: text::copy(&s.chunks[i].text),
                            context_token: text::copy(&s.binding.context_token),
                        },
                    );
                }
            },
            None => {},
        }
    }

    /// Takes in what became of the piece that is under way.
    pub fn injection_result(&mut self, s: &mut Session, sequence: u64, requested: Ack) -> (r: Result<(), CoreError>)
        requires
            old(self).wf(),
            old(s)@.wf(),
        ensures
            final(self).wf(),
            final(s)@.wf(),
            final(s)@.binding.session_id == old(s)@.binding.session_id,
            outside::continues(final(self).history.replies(), old(self).history.replies()),
            forall|log: Seq<Reply>| #[trigger]
                outside::continues(log, final(self).history.replies()) ==> injection_result(
                    old(self)@,
                    old(s)@,
                    sequence,
                    requested,
                    log,
                ) == (Turn { desk: final(self)@, session: final(s)@, result: crate::outcome(r) }),
    {
        broadcast use outside::group_continues;

        reveal(injection_result);
        assert(outside::continues(self.history.replies(), self.history.replies()));
        let awaited = match s.inflight {
            Some((n, _)) => n == sequence,
            None => false,
        };
        if !text::same(s.binding.target_device_id.as_str(), self.id.as_str()) || !awaited || requested
            == Ack::Received {
            return fail("invalid_injection_receipt");
        }
        let recorded = self.record(s.binding.session_id, sequence, requested);
        self.settled(s, sequence, requested, recorded)
    }

    /// Settles the piece that is under way, once the journal has answered. What could not be
    /// recorded is not known.
    pub fn settled(&mut self, s: &mut Session, sequence: u64, requested: Ack, recorded: Result<(), CoreError>) -> (r:
        Result<(), CoreError>)
        requires
            old(self).wf(),
            old(s)@.wf(),
            old(s)@.under_way() == Some(sequence),
            requested != Ack::Received,
        ensures
            final(self).wf(),
            final(s)@.wf(),
            final(s)@.binding.session_id == old(s)@.binding.session_id,
            outside::continues(final(self).history.replies(), old(self).history.replies()),
            forall|log: Seq<Reply>| #[trigger]
                outside::continues(log, final(self).history.replies()) ==> settled(
                    old(self)@,
                    old(s)@,
                    sequence,
                    requested,
                    crate::outcome(recorded),
                    log,
                ) == (Turn { desk: final(self)@, session: final(s)@, result: crate::outcome(r) }),
    {
        broadcast use outside::group_continues;

        reveal(settled);
        assert(outside::continues(self.history.replies(), self.history.replies()));
        let status = if recorded.is_ok() {
            requested
        } else {
            Ack::Unknown
        };
        let i = match s.find(sequence) {
            Some(i) => i,
            None => return fail("unknown_chunk"),
        };
        s.mark(i, status);
        s.inflight = None;
        if status == Ack::Applied {
            s.next_receive = s.next_receive + 1;
        } else if !s.cancelled {
            s.phase = if status == Ack::Unknown {
                Phase::Unknown
            } else {
                Phase::Paused
            };
        }
        let source = text::copy(&s.binding.source_device_id);
        let _ = self.send(
            source.as_str(),
            Payload::ChunkAck { session_id: s.binding.session_id, sequence, ack_status: status },
        );
        s.finish_receiver();
        self.snapshot(s);
        self.pump(s);
        Ok(())
    }
}

impl Session {
    /// Is done once the last piece has been typed and none is in doubt.
    pub fn finish_receiver(&mut self)
        requires
            old(self)@.wf(),
        ensures
            final(self)@ == finish_receiver(old(self)@),
            final(self)@.wf(),
    {
        match self.last_sequence {
            Some(n) => {
                if !self.cancelled && self.next_receive == n + 1 && !self.has_unknown() {
                    self.phase = Phase::Done;
                }
            },
            None => {},
        }
    }
}

} // verus!
