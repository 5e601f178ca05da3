//! What holds of sessions, whatever comes.
use crate::desk::DeskView;
use crate::engine;
use crate::event::EventView;
use crate::inbound;
use crate::json::JsonView;
use crate::orders;
use crate::orders::Answer;
use crate::outside::Reply;
use crate::protocol;
use crate::protocol::{Ack, BindingView, PayloadView, Phase};
use crate::session;
use crate::session::{ChunkView, SessionView, MAX_SEQUENCE};
use crate::steps;
use crate::steps::Turn;
use crate::upkeep;
use vstd::prelude::*;

verus! {

// ---------------------------------------------------------------- what steps leave alone

/// Whether one desk comes of another with nothing added to what waits but what `allowed`
/// lets pass.
pub open spec fn adds_only(d: DeskView, e: DeskView, allowed: spec_fn(EventView) -> bool) -> bool {
    &&& d.events.len() <= e.events.len()
    &&& forall|i: int| 0 <= i < d.events.len() ==> #[trigger] e.events[i] == d.events[i]
    &&& forall|i: int| d.events.len() <= i < e.events.len() ==> allowed(#[trigger] e.events[i])
}

/// Everything but a piece to type.
pub open spec fn not_inject() -> spec_fn(EventView) -> bool {
    |e: EventView| !(e is Inject)
}

/// Whether one desk comes of another without a piece to type, and the device stays what
/// it is.
pub open spec fn types_nothing(d: DeskView, e: DeskView) -> bool {
    &&& adds_only(d, e, not_inject())
    &&& e.id == d.id
}

/// To send types nothing, and leaves the journal and the paired devices alone.
pub proof fn lemma_send(d: DeskView, peer: Seq<char>, payload: PayloadView, log: Seq<Reply>)
    ensures
        ({
            let e = d.send(peer, payload, log).desk;
            &&& types_nothing(d, e)
            &&& e.journal == d.journal
            &&& e.trust == d.trust
            &&& e.name == d.name
            &&& e.links.len() == d.links.len()
        }),
{
    reveal(DeskView::send);
}

/// To ask the source to stop types nothing, and changes nothing of the session but that
/// it stops.
pub proof fn lemma_request_stop(d: DeskView, s: SessionView, now: u64, log: Seq<Reply>)
    ensures
        ({
            let t = steps::request_stop(d, s, now, log);
            &&& types_nothing(d, t.desk)
            &&& t.desk.journal == d.journal
            &&& t.desk.trust == d.trust
            &&& t.result is Ok
            &&& t.session == (SessionView {
                held: false,
                stop_requested: t.session.stop_requested,
                finalizing: t.session.finalizing,
                phase: t.session.phase,
                ..s
            })
            &&& t.session.phase == s.phase || t.session.phase == Phase::Finalizing
            &&& s.phase == Phase::Paused || s.phase == Phase::Unknown || s.phase == Phase::Cancelled
                ==> t.session.phase == s.phase
            &&& t.session.stopped || t.session.stop_requested
        }),
{
    reveal(steps::request_stop);
    let stopping = SessionView {
        held: false,
        stop_requested: true,
        finalizing: Some(now),
        phase: match s.phase {
            Phase::Paused | Phase::Unknown | Phase::Cancelled => s.phase,
            _ => Phase::Finalizing,
        },
        ..s
    };
    lemma_send(
        d.emit(EventView::StopInput { session_id: s.binding.session_id }),
        stopping.other(d.id),
        PayloadView::SessionState { session_id: s.binding.session_id, phase: stopping.phase },
        log,
    );
}

/// What giving up leaves: the pieces that are not given up are as they were, and those
/// that are were under way and not claimed.
pub open spec fn gave_up(s: SessionView, t: SessionView) -> bool {
    &&& t == (SessionView { chunks: t.chunks, ..s })
    &&& t.chunks.len() == s.chunks.len()
    &&& forall|k: int|
        0 <= k < s.chunks.len() ==> {
            ||| #[trigger] t.chunks[k] == s.chunks[k]
            ||| s.chunks[k].status == Ack::Received && s.inflight != Some((s.chunks[k].sequence, true))
                && t.chunks[k] == (ChunkView { status: Ack::NotApplied, ..s.chunks[k] })
        }
}

/// To give up pieces from an index on types nothing.
proof fn lemma_give_up_from(d: DeskView, s: SessionView, i: nat, log: Seq<Reply>)
    ensures
        ({
            let t = steps::give_up_from(d, s, i, log);
            &&& types_nothing(d, t.desk)
            &&& t.desk.trust == d.trust
            &&& gave_up(s, t.session)
            &&& t.result is Ok ==> forall|k: int|
                i <= k < s.chunks.len() ==> (#[trigger] t.session.chunks[k]).status != Ack::Received || s.inflight
                    == Some((s.chunks[k].sequence, true))
        }),
    decreases s.chunks.len() - i,
{
    if i < s.chunks.len() {
        let c = s.chunks[i as int];
        if c.status == Ack::Received && s.inflight != Some((c.sequence, true)) {
            let given_up = SessionView { chunks: session::marked(s.chunks, i as int, Ack::NotApplied), ..s };
            let recorded = d.record(s.binding.session_id, c.sequence, Ack::NotApplied, log);
            if recorded.result is Ok {
                let p = PayloadView::ChunkAck {
                    session_id: s.binding.session_id,
                    sequence: c.sequence,
                    ack_status: Ack::NotApplied,
                };
                lemma_send(recorded.desk, s.binding.source_device_id, p, log);
                lemma_give_up_from(
                    recorded.desk.send(s.binding.source_device_id, p, log).desk,
                    given_up,
                    i + 1,
                    log,
                );
                let t = steps::give_up_from(d, s, i, log);
                assert forall|k: int| 0 <= k < s.chunks.len() implies {
                    ||| #[trigger] t.session.chunks[k] == s.chunks[k]
                    ||| s.chunks[k].status == Ack::Received && s.inflight != Some((s.chunks[k].sequence, true))
                        && t.session.chunks[k] == (ChunkView { status: Ack::NotApplied, ..s.chunks[k] })
                } by {
                    assert(given_up.chunks[k].sequence == s.chunks[k].sequence);
                }
            }
        } else {
            lemma_give_up_from(d, s, i + 1, log);
        }
    }
}

/// To pause the target types nothing; of the session only the phase, the pieces and what
/// is under way change.
pub proof fn lemma_pause_receiver(d: DeskView, s: SessionView, log: Seq<Reply>)
    ensures
        ({
            let t = steps::pause_receiver(d, s, log);
            &&& types_nothing(d, t.desk)
            &&& t.desk.trust == d.trust
            &&& t.session == (SessionView {
                phase: t.session.phase,
                chunks: t.session.chunks,
                inflight: t.session.inflight,
                ..s
            })
            &&& t.session.phase == (if s.phase.spec_terminal() {
                s.phase
            } else {
                Phase::Paused
            })
            &&& t.session.inflight == s.inflight || t.session.inflight is None
            &&& gave_up(s, SessionView { phase: s.phase, inflight: s.inflight, ..t.session })
        }),
{
    reveal(steps::pause_receiver);
    let pausing = SessionView {
        phase: if s.phase.spec_terminal() {
            s.phase
        } else {
            Phase::Paused
        },
        ..s
    };
    lemma_give_up_from(d, pausing, 0, log);
}

/// To cancel a session types nothing, and cancels it.
pub proof fn lemma_cancel(d: DeskView, s: SessionView, notify: bool, now: u64, log: Seq<Reply>)
    ensures
        ({
            let t = steps::cancel(d, s, notify, now, log);
            &&& types_nothing(d, t.desk)
            &&& t.desk.trust == d.trust
            &&& t.session.cancelled
            &&& t.session == (SessionView {
                cancelled: true,
                held: t.session.held,
                phase: t.session.phase,
                stop_requested: t.session.stop_requested,
                finalizing: t.session.finalizing,
                chunks: t.session.chunks,
                inflight: t.session.inflight,
                ..s
            })
            &&& !s.cancelled ==> t.session.phase == Phase::Cancelled
            &&& s.cancelled ==> t.session == s && t.desk == d && t.result is Ok
        }),
{
    reveal(steps::cancel);
    if !s.cancelled {
        let cancelled = SessionView { cancelled: true, held: false, phase: Phase::Cancelled, ..s };
        let p = PayloadView::SessionCancel { session_id: s.binding.session_id };
        lemma_pause_receiver(d, cancelled, log);
        lemma_send(d, s.other(d.id), p, log);
        lemma_send(d.emit(EventView::CancelInput { session_id: s.binding.session_id }), s.other(d.id), p, log);
        lemma_send(steps::pause_receiver(d, cancelled, log).desk, s.other(d.id), p, log);
    }
}

/// To send a piece of text types nothing here; of the session only the pieces, the next
/// number and, where it cannot be sent, what stops it change.
pub proof fn lemma_freeze(d: DeskView, s: SessionView, said: Seq<char>, is_final: bool, now: u64, log: Seq<Reply>)
    ensures
        ({
            let t = steps::freeze(d, s, said, is_final, now, log);
            &&& types_nothing(d, t.desk)
            &&& t.desk.trust == d.trust
            &&& t.session == (SessionView {
                held: t.session.held,
                stop_requested: t.session.stop_requested,
                finalizing: t.session.finalizing,
                phase: t.session.phase,
                chunks: t.session.chunks,
                next_send: t.session.next_send,
                ..s
            })
            &&& t.session.phase == s.phase || t.session.phase == Phase::Paused
            &&& t.result is Err ==> t.session == s && t.desk == d
            &&& t.result is Ok ==> s.next_send <= MAX_SEQUENCE && t.session.next_send == s.next_send + 1
        }),
{
    reveal(steps::freeze);
    let p = PayloadView::TextChunk {
        session_id: s.binding.session_id,
        sequence: s.next_send,
        context_token: s.binding.context_token,
        text: said,
        is_final,
    };
    lemma_send(d, s.binding.target_device_id, p, log);
    let sent = d.send(s.binding.target_device_id, p, log);
    let status = if sent.result is Ok {
        Ack::Received
    } else {
        Ack::NotApplied
    };
    let frozen = SessionView {
        next_send: (s.next_send + 1) as u64,
        chunks: session::placed(s.chunks, ChunkView { sequence: s.next_send, text: said, status, is_final }),
        ..s
    };
    lemma_request_stop(sent.desk, SessionView { phase: Phase::Paused, ..frozen }, now, log);
}

/// To end the source types nothing here, and it is done only if every piece was typed.
pub proof fn lemma_end_source(d: DeskView, s: SessionView, log: Seq<Reply>)
    ensures
        ({
            let t = steps::end_source(d, s, log);
            &&& types_nothing(d, t.desk)
            &&& t.desk.trust == d.trust
            &&& t.result is Ok
            &&& t.session == (SessionView {
                phase: t.session.phase,
                last_sequence: t.session.last_sequence,
                ..s
            })
            &&& t.session.phase == Phase::Done ==> session::all_applied(s.chunks)
        }),
{
    reveal(steps::end_source);
    lemma_send(
        d,
        s.binding.target_device_id,
        PayloadView::SessionEnd {
            session_id: s.binding.session_id,
            last_sequence: (s.next_send - 1) as u64,
        },
        log,
    );
}

// ---------------------------------------------------------------- what every step keeps

/// Whether a session goes on as it must: what was cancelled or confirmed stays so,
/// numbers never go back, and it stays between the same devices.
pub open spec fn goes_on(s: SessionView, t: SessionView) -> bool {
    &&& s.cancelled ==> t.cancelled
    &&& s.frozen ==> t.frozen
    &&& s.next_send <= t.next_send
    &&& s.next_receive <= t.next_receive
    &&& t.started == s.started
    &&& t.binding.session_id == s.binding.session_id
    &&& t.binding.source_device_id == s.binding.source_device_id
    &&& t.binding.target_device_id == s.binding.target_device_id
    &&& t.binding.controller_device_id == s.binding.controller_device_id
    &&& t.binding.input_mode == s.binding.input_mode
}

/// Whether everything that a session was to type has been typed: on the source every
/// piece is known to be, on the target the last one was and none is in doubt.
pub open spec fn is_complete(s: SessionView) -> bool {
    ||| session::all_applied(s.chunks)
    ||| s.last_sequence is Some && s.next_receive == s.last_sequence->0 + 1 && !session::any_unknown(s.chunks)
}

/// Whether a step on a session is one that it may take: the session goes on as it must,
/// is done only if it is complete, and types nothing once it is cancelled.
#[verifier::opaque]
pub open spec fn is_proper<T>(d: DeskView, s: SessionView, t: Turn<T>) -> bool {
    &&& goes_on(s, t.session)
    &&& t.session.phase == Phase::Done && s.phase != Phase::Done ==> is_complete(t.session)
    &&& s.cancelled ==> types_nothing(d, t.desk)
    &&& t.desk.id == d.id
    &&& t.desk.trust == d.trust
}

/// The next piece is had typed only if the session is not cancelled.
proof fn lemma_pump(d: DeskView, s: SessionView)
    ensures
        ({
            let t = steps::pump(d, s);
            &&& t.session == (SessionView { inflight: t.session.inflight, ..s })
            &&& t.desk.id == d.id
            &&& t.desk.trust == d.trust
            &&& s.cancelled ==> types_nothing(d, t.desk)
            &&& t.result is Ok
        }),
{
    reveal(steps::pump);
}

/// To take in what became of a piece is proper.
proof fn lemma_injection_result(d: DeskView, s: SessionView, sequence: u64, requested: Ack, log: Seq<Reply>)
    requires
        s.wf(),
    ensures
        is_proper(d, s, steps::injection_result(d, s, sequence, requested, log)),
{
    reveal(is_proper);
    reveal(steps::injection_result);
    reveal(steps::settled);
    let recorded = d.record(s.binding.session_id, sequence, requested, log);
    let status = if recorded.result is Ok {
        requested
    } else {
        Ack::Unknown
    };
    let settled = SessionView {
        chunks: session::marked(s.chunks, session::slot(s.chunks, sequence) as int, status),
        inflight: None,
        next_receive: if status == Ack::Applied {
            (s.next_receive + 1) as u64
        } else {
            s.next_receive
        },
        phase: if status == Ack::Applied || s.cancelled {
            s.phase
        } else if status == Ack::Unknown {
            Phase::Unknown
        } else {
            Phase::Paused
        },
        ..s
    };
    let p = PayloadView::ChunkAck { session_id: s.binding.session_id, sequence, ack_status: status };
    lemma_send(recorded.desk, s.binding.source_device_id, p, log);
    let finished = steps::finish_receiver(settled);
    lemma_pump(
        recorded.desk.send(s.binding.source_device_id, p, log).desk.snapshot(finished),
        finished,
    );
}

/// To take in a piece is proper.
proof fn lemma_take_piece(
    d: DeskView,
    s: SessionView,
    peer: Seq<char>,
    sequence: u64,
    context_token: Seq<char>,
    said: Seq<char>,
    is_final: bool,
    log: Seq<Reply>,
)
    ensures
        is_proper(d, s, inbound::take_piece(d, s, peer, sequence, context_token, said, is_final, log)),
{
    reveal(is_proper);
    reveal(inbound::take_piece);
    reveal(inbound::keep_piece);
    let safe = inbound::is_safe(s, sequence, context_token, said);
    let status = if safe {
        Ack::Received
    } else {
        Ack::NotApplied
    };
    let recorded = d.record(s.binding.session_id, sequence, Ack::NotApplied, log);
    let taken = if s.chunks.len() < MAX_SEQUENCE {
        SessionView {
            chunks: session::placed(s.chunks, ChunkView { sequence, text: said, status, is_final }),
            ..s
        }
    } else {
        s
    };
    let before = if safe {
        d
    } else {
        recorded.desk
    };
    let p = PayloadView::ChunkAck { session_id: s.binding.session_id, sequence, ack_status: status };
    lemma_send(before, peer, p, log);
    lemma_pump(before.send(peer, p, log).desk.snapshot(taken), taken);
}

/// To hear a piece is proper.
proof fn lemma_on_chunk(
    d: DeskView,
    s: SessionView,
    peer: Seq<char>,
    sequence: u64,
    context_token: Seq<char>,
    said: Seq<char>,
    is_final: bool,
    log: Seq<Reply>,
)
    ensures
        is_proper(d, s, inbound::on_chunk(d, s, peer, sequence, context_token, said, is_final, log)),
{
    reveal(is_proper);
    reveal(inbound::on_chunk);
    reveal(inbound::registered);
    reveal(inbound::take_again);
    let registered = d.register(s.binding.session_id, sequence, said, log);
    lemma_take_piece(registered.desk, s, peer, sequence, context_token, said, is_final, log);
    if registered.result is Ok && registered.result->Ok_0 is Some {
        let status = registered.result->Ok_0->0;
        let used = if status == Ack::NotApplied {
            SessionView { retry_allowed: s.retry_allowed.remove(sequence), ..s }
        } else {
            s
        };
        let p = PayloadView::ChunkAck { session_id: s.binding.session_id, sequence, ack_status: status };
        lemma_send(registered.desk, peer, p, log);
        let recorded = registered.desk.record(s.binding.session_id, sequence, Ack::Received, log);
        lemma_take_piece(recorded.desk, used, peer, sequence, context_token, said, is_final, log);
    }
}

/// To hear what became of a piece is proper.
proof fn lemma_on_ack(d: DeskView, s: SessionView, peer: Seq<char>, sequence: u64, ack: Ack, now: u64, log: Seq<Reply>)
    ensures
        is_proper(d, s, inbound::on_ack(d, s, peer, sequence, ack, now, log)),
{
    reveal(is_proper);
    reveal(inbound::on_ack);
    let status = inbound::acknowledged(session::piece(s.chunks, sequence).status, ack);
    let known = SessionView {
        chunks: session::marked(s.chunks, session::slot(s.chunks, sequence) as int, status),
        ..s
    };
    lemma_request_stop(d, SessionView { phase: Phase::Unknown, ..known }, now, log);
    lemma_request_stop(d, SessionView { phase: Phase::Paused, ..known }, now, log);
}

/// To send pieces again types nothing here, and changes nothing but what is known of them.
proof fn lemma_resend_from(d: DeskView, s: SessionView, peer: Seq<char>, i: nat, log: Seq<Reply>)
    ensures
        ({
            let t = inbound::resend_from(d, s, peer, i, log);
            &&& types_nothing(d, t.desk)
            &&& t.desk.trust == d.trust
            &&& t.session == (SessionView { chunks: t.session.chunks, ..s })
        }),
    decreases s.chunks.len() - i,
{
    if i < s.chunks.len() {
        let c = s.chunks[i as int];
        if c.status == Ack::NotApplied {
            let p = PayloadView::TextChunk {
                session_id: s.binding.session_id,
                sequence: c.sequence,
                context_token: s.binding.context_token,
                text: c.text,
                is_final: c.is_final,
            };
            lemma_send(d, peer, p, log);
            lemma_resend_from(
                d.send(peer, p, log).desk,
                SessionView { chunks: session::marked(s.chunks, i as int, Ack::Received), ..s },
                peer,
                i + 1,
                log,
            );
        } else {
            lemma_resend_from(d, s, peer, i + 1, log);
        }
    }
}

/// To hear that there is a new place for the text is proper.
proof fn lemma_on_resume(
    d: DeskView,
    s: SessionView,
    peer: Seq<char>,
    context_token: Seq<char>,
    target_app: Seq<char>,
    log: Seq<Reply>,
)
    ensures
        is_proper(d, s, inbound::on_resume(d, s, peer, context_token, target_app, log)),
{
    reveal(is_proper);
    reveal(inbound::on_resume);
    let resumed = SessionView {
        binding: BindingView { context_token, target_app, ..s.binding },
        phase: Phase::Committing,
        ..s
    };
    lemma_resend_from(d, resumed, peer, 0, log);
    if s.last_sequence is Some {
        lemma_send(
            inbound::resend_from(d, resumed, peer, 0, log).desk,
            peer,
            PayloadView::SessionEnd {
                session_id: s.binding.session_id,
                last_sequence: s.last_sequence->0,
            },
            log,
        );
    }
}

/// Whatever message a session hears, it goes on as it must, is done only if it is
/// complete, and types nothing once it is cancelled.
pub proof fn law_messages_are_heard_properly(
    d: DeskView,
    s: SessionView,
    peer: Seq<char>,
    payload: PayloadView,
    now: u64,
    log: Seq<Reply>,
)
    requires
        s.wf(),
    ensures
        is_proper(d, s, inbound::on_message(d, s, peer, payload, now, log)),
{
    reveal(is_proper);
    reveal(inbound::on_message);
    reveal(inbound::on_pause);
    lemma_request_stop(d, s, now, log);
    lemma_cancel(d, s, false, now, log);
    lemma_request_stop(d, SessionView { phase: Phase::Paused, ..s }, now, log);
    lemma_pause_receiver(d, SessionView { phase: Phase::Paused, ..s }, log);
    match payload {
        PayloadView::TextChunk { sequence, context_token, text, is_final, .. } => {
            lemma_on_chunk(d, s, peer, sequence, context_token, text, is_final, log);
        },
        PayloadView::ChunkAck { sequence, ack_status, .. } => {
            lemma_on_ack(d, s, peer, sequence, ack_status, now, log);
        },
        PayloadView::SessionResume { context_token, target_app, .. } => {
            lemma_on_resume(d, s, peer, context_token, target_app, log);
        },
        _ => {},
    }
}

/// To send texts one after the other types nothing here.
proof fn lemma_freeze_all(d: DeskView, s: SessionView, said: Seq<Seq<char>>, now: u64, log: Seq<Reply>)
    ensures
        ({
            let t = orders::freeze_all(d, s, said, now, log);
            &&& types_nothing(d, t.desk)
            &&& t.desk.trust == d.trust
            &&& t.session == (SessionView {
                held: t.session.held,
                stop_requested: t.session.stop_requested,
                finalizing: t.session.finalizing,
                phase: t.session.phase,
                chunks: t.session.chunks,
                next_send: t.session.next_send,
                ..s
            })
            &&& t.session.phase == s.phase || t.session.phase == Phase::Paused
            &&& s.next_send <= t.session.next_send
        }),
    decreases said.len(),
{
    if said.len() > 0 {
        lemma_freeze(d, s, said[0], false, now, log);
        let t = steps::freeze(d, s, said[0], false, now, log);
        lemma_freeze_all(t.desk, t.session, said.drop_first(), now, log);
    }
}

/// To hear the recognizer is proper.
proof fn lemma_apple_result(d: DeskView, s: SessionView, v: JsonView, now: u64, log: Seq<Reply>)
    ensures
        is_proper(d, s, orders::apple_result(d, s, v, now, log)),
{
    reveal(is_proper);
    reveal(orders::apple_result);
    match (
        orders::number_of(v, "start"@),
        orders::number_of(v, "end"@),
        orders::number_of(v, "finalized_until"@),
        orders::text_of(v, "text"@),
    ) {
        (Ok(start), Ok(end), Ok(until), Ok(said)) => {
            let heard = s.stable.observe((start as i64) as int, (end as i64) as int, (until as i64) as int, said);
            if heard.ready is Ok {
                lemma_freeze_all(
                    d,
                    SessionView { draft: heard.state.draft(), stable: heard.state, ..s },
                    heard.ready->Ok_0,
                    now,
                    log,
                );
            }
        },
        _ => {},
    }
}

/// To take in that the source has stopped, or failed, is proper.
proof fn lemma_source_reports(d: DeskView, s: SessionView, v: JsonView, verified: bool, now: u64, log: Seq<Reply>)
    ensures
        is_proper(d, s, orders::source_stopped(d, s, verified, log)),
        is_proper(d, s, orders::source_failed(d, s, v, now, log)),
{
    reveal(is_proper);
    reveal(orders::source_stopped);
    reveal(orders::source_failed);
    let stopped = SessionView { stopped: verified, finalizing: None, ..s };
    lemma_end_source(d, stopped, log);
    let t = if !verified {
        Turn { desk: d, session: SessionView { phase: Phase::StopFailed, ..stopped }, result: Ok(()) }
    } else if s.cancelled {
        Turn { desk: d, session: SessionView { phase: Phase::Cancelled, ..stopped }, result: Ok(()) }
    } else if s.phase == Phase::Paused || s.phase == Phase::Unknown {
        Turn { desk: d, session: stopped, result: Ok(()) }
    } else if s.binding.input_mode == protocol::Mode::DoubaoIme || s.draft.len() != 0 {
        Turn {
            desk: d,
            session: SessionView { phase: Phase::AwaitingConfirmation, ..stopped },
            result: Ok(()),
        }
    } else {
        steps::end_source(d, stopped, log)
    };
    lemma_send(
        t.desk,
        s.other(d.id),
        PayloadView::SessionState { session_id: s.binding.session_id, phase: t.session.phase },
        log,
    );
    lemma_request_stop(d, s, now, log);
    lemma_pause_receiver(d, s, log);
    let f = if s.binding.source_device_id == d.id {
        steps::request_stop(d, s, now, log)
    } else {
        steps::pause_receiver(d, s, log)
    };
    if orders::text_of(v, "code"@) is Ok {
        lemma_send(
            f.desk.emit(
                EventView::Error {
                    session_id: Some(s.binding.session_id),
                    code: orders::text_of(v, "code"@)->Ok_0,
                },
            ),
            s.other(d.id),
            PayloadView::SessionPause { session_id: s.binding.session_id },
            log,
        );
    }
}

/// To confirm the last text is proper, and it is confirmed from then on.
proof fn lemma_confirm(d: DeskView, s: SessionView, v: JsonView, now: u64, log: Seq<Reply>)
    ensures
        is_proper(d, s, orders::confirm(d, s, v, now, log)),
        orders::confirm(d, s, v, now, log).result is Ok ==> orders::confirm(d, s, v, now, log).session.frozen,
{
    reveal(is_proper);
    reveal(orders::confirm);
    let confirmed = SessionView { frozen: true, phase: Phase::Committing, draft: seq![], ..s };
    lemma_end_source(d, confirmed, log);
    if orders::text_of(v, "text"@) is Ok {
        let said = orders::text_of(v, "text"@)->Ok_0;
        lemma_freeze(d, confirmed, said, true, now, log);
        let t = steps::freeze(d, confirmed, said, true, now, log);
        lemma_end_source(t.desk, t.session, log);
    }
}

/// To get a place for the text, to get ready and to listen is proper.
proof fn lemma_preparations(d: DeskView, s: SessionView, v: JsonView, log: Seq<Reply>)
    ensures
        is_proper(d, s, orders::bound(d, s, v, log)),
        is_proper(d, s, orders::ready(d, s, log)),
        is_proper(d, s, orders::listening(d, s, log)),
        is_proper(d, s, orders::resume(d, s, v, log)),
{
    reveal(is_proper);
    reveal(orders::bound);
    reveal(orders::ready);
    reveal(orders::listening);
    reveal(orders::resume);
    let id = s.binding.session_id;
    lemma_send(d, s.binding.target_device_id, PayloadView::SessionReady { session_id: id }, log);
    lemma_send(
        d,
        s.binding.target_device_id,
        PayloadView::SessionState { session_id: id, phase: Phase::Listening },
        log,
    );
    if orders::text_of(v, "context_token"@) is Ok && orders::text_of(v, "target_app"@) is Ok {
        let context_token = orders::text_of(v, "context_token"@)->Ok_0;
        let target_app = orders::text_of(v, "target_app"@)->Ok_0;
        let placed = BindingView { context_token, ..s.binding };
        let binding = BindingView { target_app, ..placed };
        lemma_send(d, s.binding.source_device_id, PayloadView::SessionBound { binding }, log);
        lemma_send(
            d,
            s.binding.source_device_id,
            PayloadView::SessionResume { session_id: id, context_token, target_app },
            log,
        );
    }
}

/// To let go, and to lose the place for the text, is proper.
proof fn lemma_interruptions(d: DeskView, s: SessionView, now: u64, log: Seq<Reply>)
    ensures
        is_proper(d, s, orders::stop(d, s, now, log)),
        is_proper(d, s, orders::focus_invalid(d, s, log)),
{
    reveal(is_proper);
    reveal(orders::stop);
    reveal(orders::focus_invalid);
    lemma_request_stop(d, SessionView { held: false, ..s }, now, log);
    lemma_send(
        d,
        s.binding.source_device_id,
        PayloadView::SessionStop { session_id: s.binding.session_id },
        log,
    );
    lemma_pause_receiver(d, s, log);
    lemma_send(
        steps::pause_receiver(d, s, log).desk,
        s.binding.source_device_id,
        PayloadView::SessionPause { session_id: s.binding.session_id },
        log,
    );
}

/// To settle a piece in doubt is proper.
proof fn lemma_resolve_unknown(d: DeskView, s: SessionView, v: JsonView, log: Seq<Reply>)
    requires
        s.wf(),
    ensures
        is_proper(d, s, orders::resolve_unknown(d, s, v, log)),
{
    reveal(is_proper);
    reveal(orders::resolve_unknown);
    if orders::number_of(v, "sequence"@) is Ok {
        let sequence = orders::number_of(v, "sequence"@)->Ok_0;
        let status = if v.flag_at("applied"@) {
            Ack::Applied
        } else {
            Ack::NotApplied
        };
        let recorded = d.record(s.binding.session_id, sequence, status, log);
        let chunks = session::marked(s.chunks, session::slot(s.chunks, sequence) as int, status);
        session::lemma_first_open(chunks, s.next_receive);
        lemma_send(
            recorded.desk,
            s.binding.source_device_id,
            PayloadView::ChunkAck { session_id: s.binding.session_id, sequence, ack_status: status },
            log,
        );
    }
}

/// To ask about pieces types nothing, and leaves the session alone.
proof fn lemma_query_from(d: DeskView, s: SessionView, i: nat, log: Seq<Reply>)
    ensures
        ({
            let t = orders::query_from(d, s, i, log);
            &&& types_nothing(d, t.desk)
            &&& t.desk.trust == d.trust
            &&& t.session == s
        }),
    decreases s.chunks.len() - i,
{
    if i < s.chunks.len() {
        let p = PayloadView::ChunkQuery {
            session_id: s.binding.session_id,
            sequence: s.chunks[i as int].sequence,
        };
        lemma_send(d, s.binding.target_device_id, p, log);
        lemma_query_from(d, s, i + 1, log);
        lemma_query_from(d.send(s.binding.target_device_id, p, log).desk, s, i + 1, log);
    }
}

/// To change the draft, to hear that a person saw the source stop, to cancel, to ask
/// whether a piece may be typed, to ask about pieces and to refuse is proper.
proof fn lemma_small_orders(d: DeskView, s: SessionView, v: JsonView, now: u64, log: Seq<Reply>)
    ensures
        is_proper(d, s, orders::draft(d, s, v)),
        is_proper(d, s, orders::confirm_stopped(d, s)),
        is_proper(d, s, steps::cancel(d, s, true, now, log)),
        is_proper(d, s, orders::claim_injection(d, s, v)),
        is_proper(d, s, orders::query(d, s, log)),
        is_proper(d, s, inbound::refused::<Answer>(d, s, "unknown_command"@)),
{
    reveal(is_proper);
    lemma_cancel(d, s, true, now, log);
    lemma_query_from(d, s, 0, log);
}

/// To take in what the program says of a piece is proper.
proof fn lemma_injected(d: DeskView, s: SessionView, v: JsonView, log: Seq<Reply>)
    requires
        s.wf(),
    ensures
        is_proper(d, s, orders::injected(d, s, v, log)),
{
    reveal(is_proper);
    if orders::status_of(v) is Some && orders::number_of(v, "sequence"@) is Ok {
        lemma_injection_result(
            d,
            s,
            orders::number_of(v, "sequence"@)->Ok_0,
            orders::status_of(v)->0,
            log,
        );
    }
}

/// To answer a proper step is proper.
proof fn lemma_done(d: DeskView, s: SessionView, t: Turn<()>)
    requires
        is_proper(d, s, t),
    ensures
        is_proper(d, s, orders::done(t)),
{
    reveal(is_proper);
}

/// Whatever command a session is given, it goes on as it must, is done only if it is
/// complete, and types nothing once it is cancelled.
pub proof fn law_commands_are_obeyed_properly(
    d: DeskView,
    s: SessionView,
    op: Seq<char>,
    v: JsonView,
    now: u64,
    log: Seq<Reply>,
)
    requires
        s.wf(),
    ensures
        is_proper(d, s, orders::obey(d, s, op, v, now, log)),
{
    reveal(orders::obey);
    lemma_preparations(d, s, v, log);
    lemma_apple_result(d, s, v, now, log);
    lemma_source_reports(d, s, v, v.flag_at("verified"@), now, log);
    lemma_confirm(d, s, v, now, log);
    lemma_interruptions(d, s, now, log);
    lemma_resolve_unknown(d, s, v, log);
    lemma_small_orders(d, s, v, now, log);
    lemma_injected(d, s, v, log);
    lemma_done(d, s, orders::bound(d, s, v, log));
    lemma_done(d, s, orders::ready(d, s, log));
    lemma_done(d, s, orders::listening(d, s, log));
    lemma_done(d, s, orders::draft(d, s, v));
    lemma_done(d, s, orders::apple_result(d, s, v, now, log));
    lemma_done(d, s, orders::source_stopped(d, s, v.flag_at("verified"@), log));
    lemma_done(d, s, orders::source_failed(d, s, v, now, log));
    lemma_done(d, s, orders::confirm_stopped(d, s));
    lemma_done(d, s, orders::confirm(d, s, v, now, log));
    lemma_done(d, s, orders::stop(d, s, now, log));
    lemma_done(d, s, steps::cancel(d, s, true, now, log));
    lemma_done(d, s, orders::focus_invalid(d, s, log));
    lemma_done(d, s, orders::injected(d, s, v, log));
    lemma_done(d, s, orders::resume(d, s, v, log));
    lemma_done(d, s, orders::resolve_unknown(d, s, v, log));
    lemma_done(d, s, orders::query(d, s, log));
}

/// As time goes by, and when a connection is lost, a session goes on as it must, is not
/// done by it, and types nothing.
pub proof fn law_time_and_loss_are_taken_properly(d: DeskView, s: SessionView, now: u64, log: Seq<Reply>)
    ensures
        is_proper(d, s, upkeep::aged(d, s, now, log)),
        is_proper(d, s, engine::lost(d, s, now, log)),
        types_nothing(d, upkeep::aged(d, s, now, log).desk),
        types_nothing(d, engine::lost(d, s, now, log).desk),
        s.phase != Phase::Done ==> upkeep::aged(d, s, now, log).session.phase != Phase::Done,
        s.phase != Phase::Done ==> engine::lost(d, s, now, log).session.phase != Phase::Done,
{
    reveal(is_proper);
    reveal(upkeep::aged);
    reveal(engine::lost);
    lemma_request_stop(d, s, now, log);
    lemma_pause_receiver(d, s, log);
    lemma_send(
        d,
        s.binding.source_device_id,
        PayloadView::SessionKeepalive { session_id: s.binding.session_id },
        log,
    );
}

// ---------------------------------------------------------------- stopping and cancelling

/// The source is asked to stop at most once: to ask again changes nothing, and tells
/// nobody.
pub proof fn law_stop_is_asked_once(d: DeskView, s: SessionView, now: u64, later: u64, log: Seq<Reply>)
    ensures
        ({
            let t = steps::request_stop(d, s, now, log);
            steps::request_stop(t.desk, t.session, later, log) == t
        }),
{
    lemma_request_stop(d, s, now, log);
    reveal(steps::request_stop);
}

/// A source that listens for another device stops when that device has been silent for
/// longer than its lease, and one that listens for itself when the session has lasted too
/// long.
pub proof fn law_a_lost_controller_stops_the_source(d: DeskView, s: SessionView, now: u64, log: Seq<Reply>)
    requires
        s.binding.source_device_id == d.id,
        upkeep::past(s.started, d.max_session, now) || (s.binding.controller_device_id != d.id && upkeep::past(
            s.lease,
            d.lease,
            now,
        )),
    ensures
        ({
            let t = upkeep::aged(d, s, now, log);
            t.session.stopped || t.session.stop_requested
        }),
{
    reveal(upkeep::aged);
    lemma_request_stop(d, s, now, log);
}

/// A source that does not stop in time is given up, with its draft and its pieces as they
/// were, and nothing more is sent for it but that it should stop.
pub proof fn law_a_timeout_keeps_the_text(d: DeskView, s: SessionView, now: u64, log: Seq<Reply>)
    ensures
        ({
            let t = upkeep::aged(d, s, now, log);
            &&& t.session.draft == s.draft
            &&& t.session.chunks == s.chunks
            &&& t.session.next_send == s.next_send
            &&& t.session.stable == s.stable
        }),
{
    reveal(upkeep::aged);
    lemma_request_stop(d, s, now, log);
}

/// A session is cancelled once: to cancel it again changes nothing, and tells nobody.
pub proof fn law_a_session_is_cancelled_once(
    d: DeskView,
    s: SessionView,
    notify: bool,
    again: bool,
    now: u64,
    later: u64,
    log: Seq<Reply>,
)
    ensures
        ({
            let t = steps::cancel(d, s, notify, now, log);
            let u = steps::cancel(t.desk, t.session, again, later, log);
            u.desk == t.desk && u.session == t.session && u.result is Ok
        }),
{
    lemma_cancel(d, s, notify, now, log);
    lemma_cancel(
        steps::cancel(d, s, notify, now, log).desk,
        steps::cancel(d, s, notify, now, log).session,
        again,
        later,
        log,
    );
}

/// A cancelled session takes no more text in, gives no more text out, and has nothing
/// typed.
pub proof fn law_a_cancelled_session_is_deaf(
    d: DeskView,
    s: SessionView,
    v: JsonView,
    said: Seq<char>,
    is_final: bool,
    now: u64,
    log: Seq<Reply>,
)
    requires
        s.cancelled,
    ensures
        steps::pump(d, s) == (Turn::<()> { desk: d, session: s, result: Ok(()) }),
        steps::freeze(d, s, said, is_final, now, log).result is Err,
        orders::draft(d, s, v) == inbound::refused::<()>(d, s, "stale_input_callback"@),
        orders::apple_result(d, s, v, now, log) == inbound::refused::<()>(d, s, "stale_input_callback"@),
        orders::confirm(d, s, v, now, log) == inbound::refused::<()>(d, s, "unsafe_confirmation"@),
        orders::claim_injection(d, s, v).session == s,
        orders::claim_injection(d, s, v).result is Ok ==> orders::claim_injection(d, s, v).result == Ok::<
            Answer,
            Seq<char>,
        >(Answer::Allowed(false)),
{
    reveal(steps::pump);
    reveal(steps::freeze);
    reveal(orders::apple_result);
    reveal(orders::confirm);
}

/// A piece that was claimed is not given up when the session pauses or is cancelled: it
/// stays under way until the program says what became of it.
pub proof fn law_a_claimed_piece_stays_under_way(
    d: DeskView,
    s: SessionView,
    i: int,
    notify: bool,
    now: u64,
    log: Seq<Reply>,
)
    requires
        0 <= i < s.chunks.len(),
        s.inflight == Some((s.chunks[i].sequence, true)),
    ensures
        steps::pause_receiver(d, s, log).session.inflight == s.inflight,
        steps::pause_receiver(d, s, log).session.chunks[i] == s.chunks[i],
        steps::cancel(d, s, notify, now, log).session.inflight == s.inflight,
        steps::cancel(d, s, notify, now, log).session.chunks[i] == s.chunks[i],
{
    let cancelled = SessionView { cancelled: true, held: false, phase: Phase::Cancelled, ..s };
    lemma_pause_receiver(d, s, log);
    lemma_pause_receiver(d, cancelled, log);
    reveal(steps::cancel);
    assert(steps::pause_receiver(d, s, log).session.inflight == s.inflight) by {
        reveal(steps::pause_receiver);
        let pausing = SessionView {
            phase: if s.phase.spec_terminal() {
                s.phase
            } else {
                Phase::Paused
            },
            ..s
        };
        lemma_give_up_from(d, pausing, 0, log);
    }
    assert(steps::pause_receiver(d, cancelled, log).session.inflight == s.inflight) by {
        reveal(steps::pause_receiver);
        lemma_give_up_from(d, cancelled, 0, log);
    }
    let kept = SessionView {
        phase: s.phase,
        inflight: s.inflight,
        ..steps::pause_receiver(d, s, log).session
    };
    assert(gave_up(s, kept));
    assert(kept.chunks[i] == s.chunks[i]);
    let kept_too = SessionView {
        phase: cancelled.phase,
        inflight: cancelled.inflight,
        ..steps::pause_receiver(d, cancelled, log).session
    };
    assert(gave_up(cancelled, kept_too));
    assert(kept_too.chunks[i] == cancelled.chunks[i]);
}

/// When the target has paused, nothing is under way but what was claimed: every other
/// piece that had come was given up.
pub proof fn law_a_paused_target_has_given_up_the_rest(d: DeskView, s: SessionView, log: Seq<Reply>)
    requires
        steps::pause_receiver(d, s, log).result is Ok,
    ensures
        ({
            let t = steps::pause_receiver(d, s, log).session;
            &&& t.inflight matches Some(f) ==> f.1
            &&& forall|k: int|
                0 <= k < t.chunks.len() ==> (#[trigger] t.chunks[k]).status != Ack::Received || t.inflight == Some(
                    (t.chunks[k].sequence, true),
                )
        }),
{
    reveal(steps::pause_receiver);
    let pausing = SessionView {
        phase: if s.phase.spec_terminal() {
            s.phase
        } else {
            Phase::Paused
        },
        ..s
    };
    lemma_give_up_from(d, pausing, 0, log);
    let t = steps::give_up_from(d, pausing, 0, log).session;
    assert forall|k: int| 0 <= k < t.chunks.len() implies t.chunks[k].sequence == (
    #[trigger] pausing.chunks[k]).sequence by {
        assert(t.chunks[k] == t.chunks[k]);
    }
}

/// What became of a piece that was claimed counts after the session was cancelled too, and
/// the session stays cancelled.
pub proof fn law_the_actual_result_counts_after_cancelling(
    d: DeskView,
    s: SessionView,
    sequence: u64,
    status: Ack,
    log: Seq<Reply>,
)
    requires
        s.wf(),
        s.cancelled,
        s.phase == Phase::Cancelled,
        s.binding.target_device_id == d.id,
        s.under_way() == Some(sequence),
        session::holds(s.chunks, sequence),
        status != Ack::Received,
        d.record(s.binding.session_id, sequence, status, log).result is Ok,
    ensures
        ({
            let t = steps::injection_result(d, s, sequence, status, log);
            &&& t.result is Ok
            &&& t.session.phase == Phase::Cancelled
            &&& t.session.inflight is None
            &&& t.session.chunks == session::marked(
                s.chunks,
                session::slot(s.chunks, sequence) as int,
                status,
            )
        }),
{
    reveal(steps::injection_result);
    reveal(steps::settled);
    reveal(steps::pump);
}

// ---------------------------------------------------------------- typing

/// At most one piece of a session is under way: while one is, no other is had typed.
pub proof fn law_one_piece_at_a_time(d: DeskView, s: SessionView)
    requires
        s.inflight is Some,
    ensures
        steps::pump(d, s) == (Turn::<()> { desk: d, session: s, result: Ok(()) }),
{
    reveal(steps::pump);
}

/// Pieces are typed in their order: what is had typed is the next piece, and once it was
/// typed, the one after it is the next.
pub proof fn law_pieces_are_typed_in_order(d: DeskView, s: SessionView, sequence: u64, log: Seq<Reply>)
    requires
        s.wf(),
    ensures
        steps::pump(d, s).session.inflight != s.inflight ==> steps::pump(d, s).session.inflight == Some(
            (s.next_receive, false),
        ),
        s.binding.target_device_id == d.id && s.under_way() == Some(sequence) && session::holds(s.chunks, sequence)
            && d.record(s.binding.session_id, sequence, Ack::Applied, log).result is Ok ==> sequence == s.next_receive
            && steps::injection_result(d, s, sequence, Ack::Applied, log).session.next_receive == sequence + 1,
{
    reveal(steps::pump);
    reveal(steps::injection_result);
    reveal(steps::settled);
}

/// Where it is not known whether a piece was typed, nothing more is: no piece is had typed
/// or may be claimed, neither side resumes, and no text is confirmed.
pub proof fn law_doubt_blocks(
    d: DeskView,
    s: SessionView,
    peer: Seq<char>,
    context_token: Seq<char>,
    target_app: Seq<char>,
    v: JsonView,
    now: u64,
    log: Seq<Reply>,
)
    ensures
        s.phase == Phase::Unknown ==> steps::pump(d, s) == (Turn::<()> { desk: d, session: s, result: Ok(()) }),
        s.phase == Phase::Unknown ==> orders::claim_injection(d, s, v).session == s,
        session::any_unknown(s.chunks) ==> orders::resume(d, s, v, log) == inbound::refused::<()>(
            d,
            s,
            "unsafe_resume"@,
        ),
        session::any_unknown(s.chunks) ==> inbound::on_resume(d, s, peer, context_token, target_app, log)
            == inbound::refused::<()>(d, s, "unsafe_resume"@),
        session::any_unknown(s.chunks) ==> orders::confirm(d, s, v, now, log) == inbound::refused::<()>(
            d,
            s,
            "unsafe_confirmation"@,
        ),
{
    reveal(steps::pump);
    reveal(orders::resume);
    reveal(inbound::on_resume);
    reveal(orders::confirm);
}

/// A piece that the program could not type, or may not have typed, leaves a session that
/// waits: nothing more is had typed. It must not lie just behind the last one that there
/// was to be.
pub proof fn law_a_piece_that_was_not_typed_holds_the_rest(
    d: DeskView,
    s: SessionView,
    sequence: u64,
    status: Ack,
    log: Seq<Reply>,
)
    requires
        s.wf(),
        !s.cancelled,
        s.binding.target_device_id == d.id,
        s.under_way() == Some(sequence),
        session::holds(s.chunks, sequence),
        status == Ack::NotApplied || status == Ack::Unknown || d.record(
            s.binding.session_id,
            sequence,
            status,
            log,
        ).result is Err,
        status != Ack::Received,
        s.last_sequence matches Some(last) ==> s.next_receive != last + 1,
    ensures
        ({
            let t = steps::injection_result(d, s, sequence, status, log);
            &&& t.session.phase == Phase::Unknown || t.session.phase == Phase::Paused
            &&& t.session.inflight is None
            &&& types_nothing(d, t.desk)
        }),
{
    reveal(steps::injection_result);
    reveal(steps::settled);
    reveal(steps::pump);
    let recorded = d.record(s.binding.session_id, sequence, status, log);
    let told = if recorded.result is Ok {
        status
    } else {
        Ack::Unknown
    };
    lemma_send(
        recorded.desk,
        s.binding.source_device_id,
        PayloadView::ChunkAck { session_id: s.binding.session_id, sequence, ack_status: told },
        log,
    );
}

/// A piece goes nowhere before the journal has registered it: where that fails, the session
/// is as it was, and nothing is typed or sent.
pub proof fn law_pieces_are_registered_first(
    d: DeskView,
    s: SessionView,
    peer: Seq<char>,
    sequence: u64,
    context_token: Seq<char>,
    said: Seq<char>,
    is_final: bool,
    log: Seq<Reply>,
)
    requires
        d.register(s.binding.session_id, sequence, said, log).result is Err,
    ensures
        ({
            let t = inbound::on_chunk(d, s, peer, sequence, context_token, said, is_final, log);
            &&& t.result is Err
            &&& t.session == s
            &&& t.desk.events == d.events
            &&& t.desk.links == d.links
        }),
{
    reveal(inbound::on_chunk);
    reveal(inbound::registered);
}

/// A piece that was registered before is not typed again: its sender is told what became of
/// it, unless it was not typed, may come again, and is for the place where text goes now.
pub proof fn law_known_pieces_are_not_typed_again(
    d: DeskView,
    s: SessionView,
    peer: Seq<char>,
    sequence: u64,
    context_token: Seq<char>,
    said: Seq<char>,
    is_final: bool,
    status: Ack,
    log: Seq<Reply>,
)
    requires
        d.register(s.binding.session_id, sequence, said, log).result == Ok::<Option<Ack>, Seq<char>>(Some(status)),
        status != Ack::NotApplied || !s.retry_allowed.contains(sequence) || context_token != s.binding.context_token,
    ensures
        ({
            let t = inbound::on_chunk(d, s, peer, sequence, context_token, said, is_final, log);
            &&& types_nothing(d, t.desk)
            &&& t.session.chunks == s.chunks
            &&& t.session.inflight == s.inflight
        }),
{
    reveal(inbound::on_chunk);
    reveal(inbound::registered);
    reveal(inbound::take_again);
    lemma_send(
        d.register(s.binding.session_id, sequence, said, log).desk,
        peer,
        PayloadView::ChunkAck { session_id: s.binding.session_id, sequence, ack_status: status },
        log,
    );
}

/// The target goes on only with a new place for the text.
pub proof fn law_a_new_place_is_needed(d: DeskView, s: SessionView, v: JsonView, log: Seq<Reply>)
    requires
        orders::text_of(v, "context_token"@) == Ok::<Seq<char>, Seq<char>>(s.binding.context_token),
    ensures
        orders::resume(d, s, v, log).result is Err,
        orders::resume(d, s, v, log).session == s,
        orders::resume(d, s, v, log).desk == d,
{
    reveal(orders::resume);
}

// ---------------------------------------------------------------- sending

/// An acknowledgement that comes late takes nothing back: what was typed stays typed, and
/// that a piece was received says nothing new of one whose end is known.
pub proof fn law_late_acknowledgements_take_nothing_back(
    d: DeskView,
    s: SessionView,
    peer: Seq<char>,
    sequence: u64,
    ack: Ack,
    now: u64,
    log: Seq<Reply>,
)
    requires
        s.wf(),
        session::holds(s.chunks, sequence),
        session::piece(s.chunks, sequence).status == Ack::Applied || (ack == Ack::Received && session::piece(
            s.chunks,
            sequence,
        ).status != Ack::Received),
    ensures
        inbound::on_ack(d, s, peer, sequence, ack, now, log).session.chunks == s.chunks,
{
    reveal(inbound::on_ack);
    let i = session::slot(s.chunks, sequence) as int;
    let status = session::piece(s.chunks, sequence).status;
    let known = SessionView { chunks: session::marked(s.chunks, i, status), ..s };
    assert(known.chunks =~= s.chunks);
    lemma_request_stop(d, SessionView { phase: Phase::Unknown, ..known }, now, log);
    lemma_request_stop(d, SessionView { phase: Phase::Paused, ..known }, now, log);
}

/// An acknowledgement is about one piece: the others are as they were.
pub proof fn law_an_acknowledgement_is_about_one_piece(
    d: DeskView,
    s: SessionView,
    peer: Seq<char>,
    sequence: u64,
    ack: Ack,
    now: u64,
    log: Seq<Reply>,
    k: int,
)
    requires
        s.wf(),
        0 <= k < s.chunks.len(),
        s.chunks[k].sequence != sequence,
    ensures
        inbound::on_ack(d, s, peer, sequence, ack, now, log).session.chunks[k] == s.chunks[k],
{
    reveal(inbound::on_ack);
    let i = session::slot(s.chunks, sequence) as int;
    let status = inbound::acknowledged(session::piece(s.chunks, sequence).status, ack);
    let known = SessionView { chunks: session::marked(s.chunks, i, status), ..s };
    lemma_request_stop(d, SessionView { phase: Phase::Unknown, ..known }, now, log);
    lemma_request_stop(d, SessionView { phase: Phase::Paused, ..known }, now, log);
}

/// A draft stays on the source: to change it sends nothing and asks nothing, and neither
/// does the recognizer as long as nothing is final.
pub proof fn law_drafts_stay_here(d: DeskView, s: SessionView, v: JsonView, now: u64, log: Seq<Reply>)
    ensures
        orders::draft(d, s, v).desk.links == d.links,
        orders::draft(d, s, v).desk.asked == d.asked,
        orders::draft(d, s, v).session.chunks == s.chunks,
        ({
            let start = orders::number_of(v, "start"@);
            let end = orders::number_of(v, "end"@);
            let until = orders::number_of(v, "finalized_until"@);
            let said = orders::text_of(v, "text"@);
            let t = orders::apple_result(d, s, v, now, log);
            start is Ok && end is Ok && until is Ok && said is Ok && s.stable.observe(
                (start->Ok_0 as i64) as int,
                (end->Ok_0 as i64) as int,
                (until->Ok_0 as i64) as int,
                said->Ok_0,
            ).ready == Ok::<Seq<Seq<char>>, Seq<char>>(seq![]) ==> t.desk.links == d.links && t.desk.asked == d.asked
                && t.session.chunks == s.chunks && t.session.next_send == s.next_send
        }),
{
    reveal(orders::apple_result);
}

/// The last text of a session is confirmed once: after that, neither it nor the draft
/// changes.
pub proof fn law_text_is_confirmed_once(d: DeskView, s: SessionView, v: JsonView, w: JsonView, now: u64, log: Seq<Reply>)
    requires
        orders::confirm(d, s, v, now, log).result is Ok,
    ensures
        ({
            let t = orders::confirm(d, s, v, now, log);
            &&& orders::confirm(t.desk, t.session, w, now, log) == inbound::refused::<()>(
                t.desk,
                t.session,
                "unsafe_confirmation"@,
            )
            &&& orders::draft(t.desk, t.session, w) == inbound::refused::<()>(
                t.desk,
                t.session,
                "stale_input_callback"@,
            )
        }),
{
    lemma_confirm(d, s, v, now, log);
    reveal(orders::confirm);
}

/// Nothing is confirmed before the source is known to have stopped.
pub proof fn law_confirmation_waits_for_the_source(d: DeskView, s: SessionView, v: JsonView, now: u64, log: Seq<Reply>)
    requires
        !s.stopped,
    ensures
        orders::confirm(d, s, v, now, log) == inbound::refused::<()>(d, s, "unsafe_confirmation"@),
        !orders::source_stopped(d, s, false, log).session.stopped || s.binding.source_device_id != d.id,
{
    reveal(orders::confirm);
    reveal(orders::source_stopped);
}

/// Every piece that is sent has a number of its own, one above the one before, and is kept
/// with its text.
pub proof fn law_each_number_is_given_once(
    d: DeskView,
    s: SessionView,
    said: Seq<char>,
    is_final: bool,
    now: u64,
    log: Seq<Reply>,
)
    requires
        s.wf(),
        steps::freeze(d, s, said, is_final, now, log).result is Ok,
    ensures
        ({
            let t = steps::freeze(d, s, said, is_final, now, log).session;
            &&& t.next_send == s.next_send + 1
            &&& session::holds(t.chunks, s.next_send)
            &&& session::piece(t.chunks, s.next_send).text == said
        }),
{
    lemma_freeze(d, s, said, is_final, now, log);
    reveal(steps::freeze);
    let p = PayloadView::TextChunk {
        session_id: s.binding.session_id,
        sequence: s.next_send,
        context_token: s.binding.context_token,
        text: said,
        is_final,
    };
    let sent = d.send(s.binding.target_device_id, p, log);
    let status = if sent.result is Ok {
        Ack::Received
    } else {
        Ack::NotApplied
    };
    let c = ChunkView { sequence: s.next_send, text: said, status, is_final };
    let chunks = session::placed(s.chunks, c);
    session::lemma_placed(s.chunks, c);
    session::lemma_slot(s.chunks, s.next_send);
    let i = session::slot(s.chunks, s.next_send) as int;
    assert(chunks[i] == c);
    session::lemma_slot_of(chunks, i);
    let frozen = SessionView { next_send: (s.next_send + 1) as u64, chunks, ..s };
    lemma_request_stop(sent.desk, SessionView { phase: Phase::Paused, ..frozen }, now, log);
}

/// Only the two devices of a session speak of it: a message from any other is refused, and
/// changes nothing.
pub proof fn law_only_the_other_device_is_heard(
    d: DeskView,
    s: SessionView,
    peer: Seq<char>,
    payload: PayloadView,
    now: u64,
    log: Seq<Reply>,
)
    requires
        s.other(d.id) != peer,
    ensures
        inbound::on_message(d, s, peer, payload, now, log) == inbound::refused::<()>(d, s, "unauthorized_session"@),
{
    reveal(inbound::on_message);
}

} // verus!
