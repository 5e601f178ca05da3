//! That a session minds its own business: it tells the program only what concerns it, and speaks
//! only to its other device, and only of itself.
use crate::desk;
use crate::desk::{DeskView, LinkView};
use crate::engine;
use crate::event::EventView;
use crate::hearing_laws;
use crate::inbound;
use crate::json::JsonView;
use crate::orders;
use crate::outside::Reply;
use crate::protocol;
use crate::protocol::{Ack, BindingView, PayloadView, Phase};
use crate::service_laws;
use crate::session;
use crate::session::{ChunkView, SessionView, MAX_SEQUENCE, MAX_SESSION_TEXT};
use crate::signs;
use crate::signs::{carries, full, grows};
use crate::steps;
use crate::steps::Turn;
use crate::text;
use crate::upkeep;
use vstd::prelude::*;

verus! {

/// What a session may tell: whom it speaks to, which session it is, and whether it may have the
/// microphone stopped, let go or given up, or report a failure.
pub struct Leave {
    pub peer: Seq<char>,
    pub session_id: u128,
    pub stop: bool,
    pub cancel: bool,
    pub abort: bool,
    pub fail: bool,
}

/// The session that a message is about.
pub open spec fn concerns(payload: PayloadView) -> Option<u128> {
    match payload {
        PayloadView::Hello { .. } => None,
        PayloadView::PairConfirm => None,
        PayloadView::BindRequest { binding } => Some(binding.session_id),
        PayloadView::SessionBound { binding } => Some(binding.session_id),
        PayloadView::SessionStart { binding } => Some(binding.session_id),
        PayloadView::SessionReady { session_id } => Some(session_id),
        PayloadView::SessionState { session_id, .. } => Some(session_id),
        PayloadView::SessionKeepalive { session_id } => Some(session_id),
        PayloadView::SessionStop { session_id } => Some(session_id),
        PayloadView::SessionCancel { session_id } => Some(session_id),
        PayloadView::TextChunk { session_id, .. } => Some(session_id),
        PayloadView::ChunkAck { session_id, .. } => Some(session_id),
        PayloadView::ChunkQuery { session_id, .. } => Some(session_id),
        PayloadView::SessionEnd { session_id, .. } => Some(session_id),
        PayloadView::SessionPause { session_id } => Some(session_id),
        PayloadView::SessionResume { session_id, .. } => Some(session_id),
        PayloadView::Error { session_id, .. } => session_id,
    }
}

/// Whether an event is a message to a device about a session.
pub open spec fn is_message(links: Seq<LinkView>, x: EventView, peer: Seq<char>, session_id: u128) -> bool {
    exists|payload: PayloadView| #[trigger]
        carries(links, x, peer, payload) && concerns(payload) == Some(session_id)
}

/// Whether an event is one that a session may tell.
pub open spec fn is_due(links: Seq<LinkView>, l: Leave, x: EventView) -> bool {
    match x {
        EventView::SocketSend { .. } => is_message(links, x, l.peer, l.session_id),
        EventView::StopInput { session_id } => l.stop && session_id == l.session_id,
        EventView::CancelInput { session_id } => l.cancel && session_id == l.session_id,
        EventView::AbortInput { session_id } => l.abort && session_id == l.session_id,
        EventView::Inject { session_id, .. } => session_id == l.session_id,
        EventView::Session { binding, .. } => binding.session_id == l.session_id,
        EventView::Error { session_id, .. } => l.fail && session_id == Some(l.session_id),
        _ => false,
    }
}

/// Whether only what a session may tell was told.
#[verifier::opaque]
pub open spec fn adds(d: DeskView, e: DeskView, l: Leave) -> bool {
    forall|i: int| d.events.len() <= i < e.events.len() ==> is_due(d.links, l, #[trigger] e.events[i])
}

/// That a leave is looked at.
#[verifier::opaque]
pub open spec fn watched(l: Leave) -> bool {
    true
}

/// A leave is looked at, and nothing more is within it.
pub proof fn lemma_watch(l: Leave, d: DeskView)
    ensures
        watched(l),
        adds(d, d, l),
{
    reveal(watched);
    reveal(adds);
}

/// What was told and what is told later is all that is told.
pub broadcast proof fn lemma_adds_on(a: DeskView, b: DeskView, c: DeskView, l: Leave)
    requires
        #[trigger] adds(a, b, l),
        #[trigger] adds(b, c, l),
        grows(a, b),
        grows(b, c),
    ensures
        adds(a, c, l),
{
    reveal(adds);
    reveal(grows);
    assert forall|i: int| a.events.len() <= i < c.events.len() implies is_due(a.links, l, #[trigger] c.events[i]) by {
        if i < b.events.len() {
            assert(c.events[i] == b.events[i]);
        } else {
            let x = c.events[i];
            assert(is_due(b.links, l, x));
            if x is SocketSend {
                let p = choose|p: PayloadView| #[trigger]
                    carries(b.links, x, l.peer, p) && concerns(p) == Some(l.session_id);
                signs::lemma_carries(a.links, b.links, x, l.peer, p);
            }
        }
    }
}

/// An event that is due is within a leave.
pub broadcast proof fn lemma_adds_emit(d: DeskView, x: EventView, l: Leave)
    requires
        #[trigger] watched(l),
        !(x is SocketSend),
        is_due(d.links, l, x),
    ensures
        adds(d, #[trigger] d.emit(x), l),
{
    reveal(adds);
}

/// A message to the other device about the session is within a leave.
pub broadcast proof fn lemma_adds_send(d: DeskView, peer: Seq<char>, payload: PayloadView, log: Seq<Reply>, l: Leave)
    requires
        #[trigger] watched(l),
        desk::apart(d.links),
        peer == l.peer,
        concerns(payload) == Some(l.session_id),
    ensures
        adds(d, (#[trigger] d.send(peer, payload, log)).desk, l),
{
    reveal(adds);
    signs::law_a_message_goes_to_its_device(d, peer, payload, log);
    let e = d.send(peer, payload, log);
    reveal(grows);
    reveal(signs::sends);
    if e.result is Ok && e.desk.events.len() > d.events.len() {
        if full(e.desk) {
            lemma_send_carries(d, peer, payload, log);
        } else {
            let i = choose|i: int|
                d.events.len() <= i < e.desk.events.len() && carries(
                    d.links,
                    #[trigger] e.desk.events[i],
                    peer,
                    payload,
                );
            assert(i == d.events.len());
        }
    }
}

/// The event that a message adds carries it.
proof fn lemma_send_carries(d: DeskView, peer: Seq<char>, payload: PayloadView, log: Seq<Reply>)
    requires
        desk::apart(d.links),
        d.send(peer, payload, log).result is Ok,
        d.send(peer, payload, log).desk.events.len() > d.events.len(),
    ensures
        carries(d.links, d.send(peer, payload, log).desk.events[d.events.len() as int], peer, payload),
        d.send(peer, payload, log).desk.events[d.events.len() as int] is SocketSend,
{
    reveal(DeskView::send);
    desk::lemma_link_to(d.links, peer);
    let i = desk::link_to(d.links, peer) as int;
    let connection = d.links[i].id;
    desk::lemma_link_at(d.links, connection);
    assert(desk::link_at(d.links, connection) == i);
    let w = d.message(payload, log);
    let c = d.links[i].channel;
    match c.cipher {
        crate::transport::CipherView::Transport { send_key, sent, .. } => {
            let data = signs::letter(send_key, sent, w.request_id, payload);
            assert(signs::line(d.links, connection, peer, send_key));
            assert(data == c.sealed(crate::wire::wire_bytes(w)));
        },
        _ => {},
    }
}

/// To ask the journal tells nothing.
pub broadcast proof fn lemma_adds_record(d: DeskView, id: u128, sequence: u64, status: Ack, log: Seq<Reply>, l: Leave)
    requires
        #[trigger] watched(l),
    ensures
        adds(d, (#[trigger] d.record(id, sequence, status, log)).desk, l),
{
    reveal(adds);
}

/// To register a piece tells nothing.
pub broadcast proof fn lemma_adds_register(d: DeskView, id: u128, sequence: u64, text: Seq<char>, log: Seq<Reply>, l: Leave)
    requires
        #[trigger] watched(l),
    ensures
        adds(d, (#[trigger] d.register(id, sequence, text, log)).desk, l),
{
    reveal(adds);
}

/// How what is told adds up.
pub broadcast group group_manners {
    lemma_adds_on,
    lemma_adds_emit,
    lemma_adds_send,
    lemma_adds_record,
    lemma_adds_register,
}

/// The leave of a session in a step: it speaks to its other device of itself; it has the
/// microphone stopped just when it comes to be stopped, let go just when it comes to be cancelled,
/// and given up just when it gives up waiting; and it reports a failure just when it pauses.
pub open spec fn leave(d: DeskView, s: SessionView, t: SessionView) -> Leave {
    Leave {
        peer: s.other(d.id),
        session_id: s.binding.session_id,
        stop: !s.stopped && !s.stop_requested && t.stop_requested,
        cancel: !s.cancelled && t.cancelled,
        abort: s.finalizing is Some && t.finalizing is None,
        fail: t.phase == Phase::Paused,
    }
}

/// Whether a leave is for a session.
pub open spec fn is_for(d: DeskView, s: SessionView, l: Leave) -> bool {
    l.peer == s.other(d.id) && l.session_id == s.binding.session_id
}

/// To ask the source to stop is within a leave that allows it.
proof fn lemma_stops_manners(d: DeskView, s: SessionView, now: u64, log: Seq<Reply>, l: Leave)
    requires
        desk::apart(d.links),
        is_for(d, s, l),
        !s.stopped && !s.stop_requested ==> l.stop,
    ensures
        adds(d, steps::request_stop(d, s, now, log).desk, l),
        grows(d, steps::request_stop(d, s, now, log).desk),
{
    broadcast use {signs::group_signs, group_manners};

    signs::lemma_grows_itself(d);
    lemma_watch(l, d);
    reveal(steps::request_stop);
}

/// To give up pieces is within a leave.
proof fn lemma_give_up_manners(d: DeskView, s: SessionView, i: nat, log: Seq<Reply>, l: Leave)
    requires
        desk::apart(d.links),
        s.binding.source_device_id != d.id,
        is_for(d, s, l),
        i <= s.chunks.len(),
    ensures
        adds(d, steps::give_up_from(d, s, i, log).desk, l),
        grows(d, steps::give_up_from(d, s, i, log).desk),
    decreases s.chunks.len() - i,
{
    broadcast use {signs::group_signs, group_manners};

    signs::lemma_grows_itself(d);
    lemma_watch(l, d);
    let t = steps::give_up_from(d, s, i, log);
    if i < s.chunks.len() {
        let c = s.chunks[i as int];
        if c.status == Ack::Received && s.inflight != Some((c.sequence, true)) {
            let given_up = SessionView { chunks: session::marked(s.chunks, i as int, Ack::NotApplied), ..s };
            let recorded = d.record(s.binding.session_id, c.sequence, Ack::NotApplied, log);
            if recorded.result is Ok {
                let ack = PayloadView::ChunkAck {
                    session_id: s.binding.session_id,
                    sequence: c.sequence,
                    ack_status: Ack::NotApplied,
                };
                let sent = recorded.desk.send(s.binding.source_device_id, ack, log);
                assert(adds(d, recorded.desk, l) && grows(d, recorded.desk));
                assert(adds(recorded.desk, sent.desk, l) && grows(recorded.desk, sent.desk));
                lemma_give_up_manners(sent.desk, given_up, i + 1, log, l);
                assert(adds(d, sent.desk, l));
            }
        } else {
            lemma_give_up_manners(d, s, i + 1, log, l);
        }
    }
}

/// To pause the target is within a leave.
proof fn lemma_pause_manners(d: DeskView, s: SessionView, log: Seq<Reply>, l: Leave)
    requires
        desk::apart(d.links),
        s.binding.source_device_id != d.id,
        is_for(d, s, l),
    ensures
        adds(d, steps::pause_receiver(d, s, log).desk, l),
        grows(d, steps::pause_receiver(d, s, log).desk),
{
    reveal(steps::pause_receiver);
    let pausing = SessionView {
        phase: if s.phase.spec_terminal() {
            s.phase
        } else {
            Phase::Paused
        },
        ..s
    };
    lemma_give_up_manners(d, pausing, 0, log, l);
}

/// To cancel a session is within a leave that allows it.
proof fn lemma_cancel_manners(d: DeskView, s: SessionView, notify: bool, now: u64, log: Seq<Reply>, l: Leave)
    requires
        desk::apart(d.links),
        is_for(d, s, l),
        !s.cancelled ==> l.cancel,
    ensures
        adds(d, steps::cancel(d, s, notify, now, log).desk, l),
        grows(d, steps::cancel(d, s, notify, now, log).desk),
{
    broadcast use {signs::group_signs, group_manners};

    signs::lemma_grows_itself(d);
    lemma_watch(l, d);
    reveal(steps::cancel);
    let cancelled = SessionView { cancelled: true, held: false, phase: Phase::Cancelled, ..s };
    if s.binding.source_device_id != d.id {
        lemma_pause_manners(d, cancelled, log, l);
        service_laws::lemma_pauses(d, cancelled, log);
    }
}

/// To send a text is within a leave that allows to stop where it cannot be sent.
proof fn lemma_freeze_manners(d: DeskView, s: SessionView, said: Seq<char>, is_final: bool, now: u64, log: Seq<Reply>, l: Leave)
    requires
        desk::apart(d.links),
        s.wf(),
        is_for(d, s, l),
        !s.stopped && !s.stop_requested && steps::freeze(d, s, said, is_final, now, log).session.stop_requested
            ==> l.stop,
    ensures
        adds(d, steps::freeze(d, s, said, is_final, now, log).desk, l),
        grows(d, steps::freeze(d, s, said, is_final, now, log).desk),
{
    broadcast use {signs::group_signs, group_manners};

    signs::lemma_grows_itself(d);
    lemma_watch(l, d);
    reveal(steps::freeze);
    let p = PayloadView::TextChunk {
        session_id: s.binding.session_id,
        sequence: s.next_send,
        context_token: s.binding.context_token,
        text: said,
        is_final,
    };
    if protocol::text_error(said) is None && !(s.cancelled || s.binding.source_device_id != d.id || s.next_send
        > MAX_SEQUENCE || session::total(s.chunks) + text::size(said) > MAX_SESSION_TEXT) {
        let sent = d.send(s.binding.target_device_id, p, log);
        let status = if sent.result is Ok {
            Ack::Received
        } else {
            Ack::NotApplied
        };
        let c = ChunkView { sequence: s.next_send, text: said, status, is_final };
        let frozen = SessionView {
            next_send: (s.next_send + 1) as u64,
            chunks: session::placed(s.chunks, c),
            ..s
        };
        let paused = SessionView { phase: Phase::Paused, ..frozen };
        assert(adds(d, sent.desk, l) && grows(d, sent.desk));
        if sent.result is Err {
            let stopped = steps::request_stop(sent.desk, paused, now, log);
            service_laws::lemma_stops(sent.desk, paused, now, log);
            lemma_stops_manners(sent.desk, paused, now, log, l);
            assert(adds(d, stopped.desk, l) && grows(d, stopped.desk));
        }
    }
}

/// To send texts one after the other is within a leave that allows to stop where one cannot be.
proof fn lemma_freeze_all_manners(d: DeskView, s: SessionView, said: Seq<Seq<char>>, now: u64, log: Seq<Reply>, l: Leave)
    requires
        desk::apart(d.links),
        s.wf(),
        is_for(d, s, l),
        !s.stopped && !s.stop_requested && orders::freeze_all(d, s, said, now, log).session.stop_requested ==> l.stop,
    ensures
        adds(d, orders::freeze_all(d, s, said, now, log).desk, l),
        grows(d, orders::freeze_all(d, s, said, now, log).desk),
    decreases said.len(),
{
    broadcast use {signs::group_signs, group_manners};

    signs::lemma_grows_itself(d);
    lemma_watch(l, d);
    if said.len() > 0 {
        service_laws::law_a_text_is_sent_as_it_is(d, s, said[0], false, now, log);
        let f = steps::freeze(d, s, said[0], false, now, log);
        if f.result is Ok {
            if f.session.stop_requested {
                lemma_stop_stays(f.desk, f.session, said.drop_first(), now, log);
            }
            lemma_freeze_manners(d, s, said[0], false, now, log, l);
            lemma_freeze_all_manners(f.desk, f.session, said.drop_first(), now, log, l);
        } else {
            lemma_freeze_manners(d, s, said[0], false, now, log, l);
        }
    }
}

/// A source that was asked to stop stays so while texts are sent.
proof fn lemma_stop_stays(d: DeskView, s: SessionView, said: Seq<Seq<char>>, now: u64, log: Seq<Reply>)
    requires
        desk::apart(d.links),
        s.wf(),
        s.stop_requested,
    ensures
        orders::freeze_all(d, s, said, now, log).session.stop_requested,
    decreases said.len(),
{
    broadcast use signs::group_signs;

    if said.len() > 0 {
        service_laws::law_a_text_is_sent_as_it_is(d, s, said[0], false, now, log);
        let f = steps::freeze(d, s, said[0], false, now, log);
        if f.result is Ok {
            lemma_stop_stays(f.desk, f.session, said.drop_first(), now, log);
        }
    }
}

/// To end the source is within a leave.
proof fn lemma_end_manners(d: DeskView, s: SessionView, log: Seq<Reply>, l: Leave)
    requires
        desk::apart(d.links),
        s.binding.source_device_id == d.id,
        is_for(d, s, l),
    ensures
        adds(d, steps::end_source(d, s, log).desk, l),
        grows(d, steps::end_source(d, s, log).desk),
{
    broadcast use {signs::group_signs, group_manners};

    signs::lemma_grows_itself(d);
    lemma_watch(l, d);
    reveal(steps::end_source);
}

/// To have the next piece typed is within a leave.
proof fn lemma_pump_manners(d: DeskView, s: SessionView, l: Leave)
    requires
        l.session_id == s.binding.session_id,
    ensures
        adds(d, steps::pump(d, s).desk, l),
        grows(d, steps::pump(d, s).desk),
{
    broadcast use {signs::group_signs, group_manners};

    signs::lemma_grows_itself(d);
    lemma_watch(l, d);
    reveal(steps::pump);
}

/// To ask about pieces is within a leave.
proof fn lemma_query_manners(d: DeskView, s: SessionView, i: nat, log: Seq<Reply>, l: Leave)
    requires
        desk::apart(d.links),
        s.binding.source_device_id == d.id,
        is_for(d, s, l),
        i <= s.chunks.len(),
    ensures
        adds(d, orders::query_from(d, s, i, log).desk, l),
        grows(d, orders::query_from(d, s, i, log).desk),
    decreases s.chunks.len() - i,
{
    broadcast use {signs::group_signs, group_manners};

    signs::lemma_grows_itself(d);
    lemma_watch(l, d);
    if i < s.chunks.len() {
        let p = service_laws::asking_about(s, i as int);
        let sent = d.send(s.binding.target_device_id, p, log);
        assert(adds(d, sent.desk, l) && grows(d, sent.desk));
        lemma_query_manners(d, s, i + 1, log, l);
        lemma_query_manners(sent.desk, s, i + 1, log, l);
    }
}

/// To send pieces again is within a leave.
proof fn lemma_resend_manners(d: DeskView, s: SessionView, peer: Seq<char>, i: nat, log: Seq<Reply>, l: Leave)
    requires
        desk::apart(d.links),
        l.peer == peer,
        l.session_id == s.binding.session_id,
        i <= s.chunks.len(),
    ensures
        adds(d, inbound::resend_from(d, s, peer, i, log).desk, l),
        grows(d, inbound::resend_from(d, s, peer, i, log).desk),
        inbound::resend_from(d, s, peer, i, log).session.binding == s.binding,
    decreases s.chunks.len() - i,
{
    broadcast use {signs::group_signs, group_manners};

    signs::lemma_grows_itself(d);
    lemma_watch(l, d);
    if i < s.chunks.len() {
        let p = hearing_laws::coming_again(s, i as int, s.binding.context_token);
        let sent = d.send(peer, p, log);
        assert(adds(d, sent.desk, l) && grows(d, sent.desk));
        lemma_resend_manners(d, s, peer, i + 1, log, l);
        lemma_resend_manners(
            sent.desk,
            SessionView { chunks: session::marked(s.chunks, i as int, Ack::Received), ..s },
            peer,
            i + 1,
            log,
            l,
        );
    }
}

/// Whether a step keeps to the leave of its session.
pub open spec fn is_mannerly<T>(d: DeskView, s: SessionView, t: Turn<T>) -> bool {
    adds(d, t.desk, leave(d, s, t.session))
}

/// Small orders keep to their leave.
proof fn lemma_small_manners(d: DeskView, s: SessionView, v: JsonView, log: Seq<Reply>)
    requires
        desk::apart(d.links),
    ensures
        is_mannerly(d, s, orders::bound(d, s, v, log)),
        is_mannerly(d, s, orders::ready(d, s, log)),
        is_mannerly(d, s, orders::listening(d, s, log)),
        is_mannerly(d, s, orders::draft(d, s, v)),
        is_mannerly(d, s, orders::confirm_stopped(d, s)),
        is_mannerly(d, s, orders::claim_injection(d, s, v)),
        is_mannerly(d, s, orders::query(d, s, log)),
{
    broadcast use {signs::group_signs, group_manners};

    signs::lemma_grows_itself(d);
    reveal(orders::bound);
    reveal(orders::ready);
    reveal(orders::listening);
    lemma_watch(leave(d, s, orders::bound(d, s, v, log).session), d);
    lemma_watch(leave(d, s, orders::ready(d, s, log).session), d);
    lemma_watch(leave(d, s, orders::listening(d, s, log).session), d);
    lemma_watch(leave(d, s, orders::draft(d, s, v).session), d);
    lemma_watch(leave(d, s, orders::confirm_stopped(d, s).session), d);
    lemma_watch(leave(d, s, orders::claim_injection(d, s, v).session), d);
    let l = leave(d, s, orders::query(d, s, log).session);
    lemma_watch(l, d);
    if s.binding.source_device_id == d.id {
        lemma_query_manners(d, s, 0, log, l);
    }
}

/// To recover keeps to its leave.
proof fn lemma_recovery_manners(d: DeskView, s: SessionView, v: JsonView, log: Seq<Reply>)
    requires
        desk::apart(d.links),
    ensures
        is_mannerly(d, s, orders::resume(d, s, v, log)),
        is_mannerly(d, s, orders::resolve_unknown(d, s, v, log)),
{
    broadcast use {signs::group_signs, group_manners};

    signs::lemma_grows_itself(d);
    reveal(orders::resume);
    reveal(orders::resolve_unknown);
    lemma_watch(leave(d, s, orders::resume(d, s, v, log).session), d);
    lemma_watch(leave(d, s, orders::resolve_unknown(d, s, v, log).session), d);
}

/// To stop, to cancel, to lose the place and to fail keeps to its leave.
proof fn lemma_stopping_manners(d: DeskView, s: SessionView, v: JsonView, now: u64, log: Seq<Reply>)
    requires
        desk::apart(d.links),
    ensures
        is_mannerly(d, s, orders::stop(d, s, now, log)),
        is_mannerly(d, s, steps::cancel(d, s, true, now, log)),
        is_mannerly(d, s, orders::focus_invalid(d, s, log)),
        is_mannerly(d, s, orders::source_failed(d, s, v, now, log)),
{
    broadcast use {signs::group_signs, group_manners};

    signs::lemma_grows_itself(d);
    reveal(orders::stop);
    reveal(orders::focus_invalid);
    reveal(orders::source_failed);
    let a = leave(d, s, orders::stop(d, s, now, log).session);
    let b = leave(d, s, steps::cancel(d, s, true, now, log).session);
    let c = leave(d, s, orders::focus_invalid(d, s, log).session);
    let e = leave(d, s, orders::source_failed(d, s, v, now, log).session);
    lemma_watch(a, d);
    lemma_watch(b, d);
    lemma_watch(c, d);
    lemma_watch(e, d);
    let let_go = SessionView { held: false, ..s };
    service_laws::lemma_stops(d, s, now, log);
    service_laws::lemma_stops(d, let_go, now, log);
    service_laws::lemma_cancels(d, s, true, now, log);
    service_laws::lemma_pauses(d, s, log);
    lemma_cancel_manners(d, s, true, now, log, b);
    if s.binding.source_device_id == d.id {
        lemma_stops_manners(d, let_go, now, log, a);
        lemma_stops_manners(d, s, now, log, e);
    } else {
        lemma_pause_manners(d, s, log, c);
        lemma_pause_manners(d, s, log, e);
    }
}

/// What the recognizer hears keeps to its leave.
proof fn lemma_result_manners(d: DeskView, s: SessionView, v: JsonView, now: u64, log: Seq<Reply>)
    requires
        desk::apart(d.links),
        s.wf(),
    ensures
        is_mannerly(d, s, orders::apple_result(d, s, v, now, log)),
{
    broadcast use {signs::group_signs, group_manners};

    signs::lemma_grows_itself(d);
    reveal(orders::apple_result);
    let t = orders::apple_result(d, s, v, now, log);
    let l = leave(d, s, t.session);
    lemma_watch(l, d);
    match (
        orders::number_of(v, "start"@),
        orders::number_of(v, "end"@),
        orders::number_of(v, "finalized_until"@),
        orders::text_of(v, "text"@),
    ) {
        (Ok(start), Ok(end), Ok(until), Ok(said)) => {
            let o = s.stable.observe((start as i64) as int, (end as i64) as int, (until as i64) as int, said);
            if s.binding.source_device_id == d.id && s.binding.input_mode == protocol::Mode::AppleLocal
                && s.phase.spec_accepts_text() && !s.cancelled && !s.stopped && o.ready is Ok {
                let after = SessionView { stable: o.state, draft: o.state.draft(), ..s };
                crate::stable::law_observe_moves_forward(
                    s.stable,
                    (start as i64) as int,
                    (end as i64) as int,
                    (until as i64) as int,
                    said,
                );
                let f = orders::freeze_all(d, after, o.ready->Ok_0, now, log);
                service_laws::lemma_freezes_all(d, after, o.ready->Ok_0, now, log);
                assert(t.session == f.session);
                lemma_freeze_all_manners(d, after, o.ready->Ok_0, now, log, l);
                assert(adds(d, f.desk, l) && grows(d, f.desk));
            }
        },
        _ => {},
    }
}

/// That the source has stopped keeps to its leave.
proof fn lemma_stopped_manners(d: DeskView, s: SessionView, verified: bool, log: Seq<Reply>)
    requires
        desk::apart(d.links),
    ensures
        is_mannerly(d, s, orders::source_stopped(d, s, verified, log)),
{
    broadcast use {signs::group_signs, group_manners};

    signs::lemma_grows_itself(d);
    reveal(orders::source_stopped);
    reveal(steps::end_source);
    let t = orders::source_stopped(d, s, verified, log);
    let l = leave(d, s, t.session);
    lemma_watch(l, d);
    if s.binding.source_device_id == d.id {
        let stopped = SessionView { stopped: verified, finalizing: None, ..s };
        lemma_end_manners(d, stopped, log, l);
        assert(desk::apart(steps::end_source(d, stopped, log).desk.links));
    }
}

/// The confirmed text keeps to its leave.
proof fn lemma_confirm_manners(d: DeskView, s: SessionView, v: JsonView, now: u64, log: Seq<Reply>)
    requires
        desk::apart(d.links),
        s.wf(),
    ensures
        is_mannerly(d, s, orders::confirm(d, s, v, now, log)),
{
    broadcast use {signs::group_signs, group_manners};

    signs::lemma_grows_itself(d);
    reveal(orders::confirm);
    let l = leave(d, s, orders::confirm(d, s, v, now, log).session);
    lemma_watch(l, d);
    if s.binding.source_device_id == d.id {
        let confirmed = SessionView { frozen: true, phase: Phase::Committing, draft: seq![], ..s };
        lemma_end_manners(d, confirmed, log, l);
        if orders::text_of(v, "text"@) is Ok && s.stopped {
            let said = orders::text_of(v, "text"@)->Ok_0;
            service_laws::law_a_text_is_sent_as_it_is(d, confirmed, said, true, now, log);
            lemma_freeze_manners(d, confirmed, said, true, now, log, l);
            let f = steps::freeze(d, confirmed, said, true, now, log);
            if f.result is Ok {
                lemma_end_manners(f.desk, f.session, log, l);
            }
        }
    }
}

/// What the program says of a piece keeps to its leave.
proof fn lemma_injected_manners(d: DeskView, s: SessionView, v: JsonView, log: Seq<Reply>)
    requires
        desk::apart(d.links),
    ensures
        is_mannerly(d, s, orders::injected(d, s, v, log)),
{
    broadcast use {signs::group_signs, group_manners};

    signs::lemma_grows_itself(d);
    reveal(steps::injection_result);
    reveal(steps::settled);
    let t = orders::injected(d, s, v, log);
    let l = leave(d, s, t.session);
    lemma_watch(l, d);
    if orders::status_of(v) is Some && orders::number_of(v, "sequence"@) is Ok {
        let said = orders::status_of(v)->0;
        let number = orders::number_of(v, "sequence"@)->Ok_0;
        if s.binding.target_device_id == d.id && s.under_way() == Some(number) && said != Ack::Received
            && session::holds(s.chunks, number) {
            let recorded = d.record(s.binding.session_id, number, said, log);
            let status = if recorded.result is Ok {
                said
            } else {
                Ack::Unknown
            };
            let marked = SessionView {
                chunks: session::marked(s.chunks, session::slot(s.chunks, number) as int, status),
                inflight: None,
                next_receive: if status == Ack::Applied {
                    (s.next_receive + 1) as u64
                } else {
                    s.next_receive
                },
                phase: if status == Ack::Applied || s.cancelled {
                    s.phase
                } else if status == Ack::Unknown {
                    Phase::Unknown
                } else {
                    Phase::Paused
                },
                ..s
            };
            let ack = PayloadView::ChunkAck { session_id: s.binding.session_id, sequence: number, ack_status: status };
            let sent = recorded.desk.send(s.binding.source_device_id, ack, log);
            let finished = steps::finish_receiver(marked);
            let shown = sent.desk.snapshot(finished);
            assert(adds(d, recorded.desk, l) && grows(d, recorded.desk));
            assert(adds(recorded.desk, sent.desk, l) && grows(recorded.desk, sent.desk));
            assert(adds(sent.desk, shown, l) && grows(sent.desk, shown));
            lemma_pump_manners(shown, finished, l);
        }
    }
}

/// Whatever a session is told to do, it tells the program only what concerns it, and speaks only
/// to its other device, and only of itself; and it touches the microphone only when it comes to be
/// stopped or cancelled.
pub proof fn law_commands_keep_to_their_session(
    d: DeskView,
    s: SessionView,
    op: Seq<char>,
    v: JsonView,
    now: u64,
    log: Seq<Reply>,
)
    requires
        desk::apart(d.links),
        s.wf(),
    ensures
        is_mannerly(d, s, orders::obey(d, s, op, v, now, log)),
{
    reveal(orders::obey);
    let t = orders::obey(d, s, op, v, now, log);
    lemma_watch(leave(d, s, t.session), d);
    lemma_small_manners(d, s, v, log);
    lemma_recovery_manners(d, s, v, log);
    lemma_stopping_manners(d, s, v, now, log);
    lemma_result_manners(d, s, v, now, log);
    lemma_stopped_manners(d, s, v.flag_at("verified"@), log);
    lemma_confirm_manners(d, s, v, now, log);
    lemma_injected_manners(d, s, v, log);
}

/// A piece of text that comes keeps to the leave of its session.
proof fn lemma_chunk_manners(
    d: DeskView,
    s: SessionView,
    peer: Seq<char>,
    number: u64,
    token: Seq<char>,
    said: Seq<char>,
    is_final: bool,
    log: Seq<Reply>,
    l: Leave,
)
    requires
        desk::apart(d.links),
        l.peer == peer,
        l.session_id == s.binding.session_id,
    ensures
        adds(d, inbound::on_chunk(d, s, peer, number, token, said, is_final, log).desk, l),
{
    broadcast use {signs::group_signs, group_manners};

    signs::lemma_grows_itself(d);
    lemma_watch(l, d);
    reveal(inbound::on_chunk);
    reveal(inbound::registered);
    reveal(inbound::take_again);
    let known = d.register(s.binding.session_id, number, said, log);
    assert(adds(d, known.desk, l) && grows(d, known.desk));
    lemma_take_manners(known.desk, s, peer, number, token, said, is_final, log, l);
    let again = known.desk.record(s.binding.session_id, number, Ack::Received, log);
    assert(adds(known.desk, again.desk, l) && grows(known.desk, again.desk));
    let used = SessionView { retry_allowed: s.retry_allowed.remove(number), ..s };
    lemma_take_manners(again.desk, used, peer, number, token, said, is_final, log, l);
}

/// A piece that is taken in keeps to the leave of its session.
proof fn lemma_take_manners(
    d: DeskView,
    s: SessionView,
    peer: Seq<char>,
    number: u64,
    token: Seq<char>,
    said: Seq<char>,
    is_final: bool,
    log: Seq<Reply>,
    l: Leave,
)
    requires
        desk::apart(d.links),
        l.peer == peer,
        l.session_id == s.binding.session_id,
    ensures
        adds(d, inbound::take_piece(d, s, peer, number, token, said, is_final, log).desk, l),
        grows(d, inbound::take_piece(d, s, peer, number, token, said, is_final, log).desk),
{
    broadcast use {signs::group_signs, group_manners};

    signs::lemma_grows_itself(d);
    lemma_watch(l, d);
    reveal(inbound::take_piece);
    reveal(inbound::keep_piece);
    let safe = inbound::is_safe(s, number, token, said);
    let status = if safe {
        Ack::Received
    } else {
        Ack::NotApplied
    };
    let recorded = d.record(s.binding.session_id, number, Ack::NotApplied, log);
    let m = if safe {
        d
    } else {
        recorded.desk
    };
    let c = ChunkView { sequence: number, text: said, status, is_final };
    let taken = if s.chunks.len() < MAX_SEQUENCE {
        SessionView { chunks: session::placed(s.chunks, c), ..s }
    } else {
        s
    };
    let ack = PayloadView::ChunkAck { session_id: s.binding.session_id, sequence: number, ack_status: status };
    let sent = m.send(peer, ack, log);
    let shown = sent.desk.snapshot(taken);
    assert(adds(d, m, l) && grows(d, m));
    assert(adds(m, sent.desk, l) && grows(m, sent.desk));
    assert(adds(sent.desk, shown, l) && grows(sent.desk, shown));
    lemma_pump_manners(shown, taken, l);
}

/// What time does to a session keeps to its leave.
proof fn lemma_aged_manners(d: DeskView, s: SessionView, now: u64, log: Seq<Reply>)
    requires
        desk::apart(d.links),
        s.wf(),
    ensures
        is_mannerly(d, s, upkeep::aged(d, s, now, log)),
{
    broadcast use {signs::group_signs, group_manners};

    signs::lemma_grows_itself(d);
    reveal(upkeep::aged);
    let t = upkeep::aged(d, s, now, log);
    let l = leave(d, s, t.session);
    lemma_watch(l, d);
    if s.binding.source_device_id == d.id && !s.stopped && !s.stop_requested {
        service_laws::lemma_stops(d, s, now, log);
        if t.session.stop_requested {
            lemma_stops_manners(d, s, now, log, l);
        }
    }
}

/// What the loss of a connection does to a session keeps to its leave.
proof fn lemma_lost_manners(d: DeskView, s: SessionView, now: u64, log: Seq<Reply>)
    requires
        desk::apart(d.links),
        s.wf(),
    ensures
        is_mannerly(d, s, engine::lost(d, s, now, log)),
{
    broadcast use {signs::group_signs, group_manners};

    signs::lemma_grows_itself(d);
    reveal(engine::lost);
    let l = leave(d, s, engine::lost(d, s, now, log).session);
    lemma_watch(l, d);
    service_laws::lemma_stops(d, s, now, log);
    service_laws::lemma_pauses(d, s, log);
    if s.binding.source_device_id == d.id {
        lemma_stops_manners(d, s, now, log, l);
    } else {
        lemma_pause_manners(d, s, log, l);
    }
}

/// A failure of the other side keeps to the leave of its session.
proof fn lemma_error_manners(d: DeskView, s: SessionView, peer: Seq<char>, now: u64, log: Seq<Reply>)
    requires
        desk::apart(d.links),
        s.wf(),
    ensures
        is_mannerly(d, s, inbound::on_error(d, s, peer, now, log)),
{
    broadcast use {signs::group_signs, group_manners};

    signs::lemma_grows_itself(d);
    reveal(inbound::on_error);
    let t = inbound::on_error(d, s, peer, now, log);
    let l = leave(d, s, t.session);
    lemma_watch(l, d);
    service_laws::lemma_stops(d, s, now, log);
    service_laws::lemma_pauses(d, s, log);
    if s.other(d.id) == peer {
        if s.binding.source_device_id == d.id {
            lemma_stops_manners(d, s, now, log, l);
        } else {
            lemma_pause_manners(d, s, log, l);
        }
    }
}

/// That the other side pauses keeps to the leave of its session.
proof fn lemma_pausing_manners(d: DeskView, s: SessionView, now: u64, log: Seq<Reply>)
    requires
        desk::apart(d.links),
        s.wf(),
    ensures
        is_mannerly(d, s, inbound::on_pause(d, s, now, log)),
{
    broadcast use {signs::group_signs, group_manners};

    signs::lemma_grows_itself(d);
    reveal(inbound::on_pause);
    let t = inbound::on_pause(d, s, now, log);
    let l = leave(d, s, t.session);
    lemma_watch(l, d);
    let paused = SessionView { phase: Phase::Paused, ..s };
    service_laws::lemma_stops(d, paused, now, log);
    service_laws::lemma_pauses(d, paused, log);
    if s.binding.source_device_id == d.id {
        lemma_stops_manners(d, paused, now, log, l);
    } else {
        lemma_pause_manners(d, paused, log, l);
    }
}

/// Whatever a session hears, and whatever time and loss do to it, it tells the program only what
/// concerns it, and speaks only to its other device, and only of itself; and it touches the
/// microphone only when it comes to be stopped or cancelled, or gives up waiting.
pub proof fn law_messages_keep_to_their_session(
    d: DeskView,
    s: SessionView,
    peer: Seq<char>,
    payload: PayloadView,
    now: u64,
    log: Seq<Reply>,
)
    requires
        desk::apart(d.links),
        s.wf(),
    ensures
        is_mannerly(d, s, inbound::on_message(d, s, peer, payload, now, log)),
        is_mannerly(d, s, upkeep::aged(d, s, now, log)),
        is_mannerly(d, s, engine::lost(d, s, now, log)),
        is_mannerly(d, s, inbound::on_error(d, s, peer, now, log)),
{
    lemma_aged_manners(d, s, now, log);
    lemma_lost_manners(d, s, now, log);
    lemma_error_manners(d, s, peer, now, log);
    lemma_message_manners(d, s, peer, payload, now, log);
}

/// A message keeps to the leave of its session.
proof fn lemma_message_manners(d: DeskView, s: SessionView, peer: Seq<char>, payload: PayloadView, now: u64, log: Seq<Reply>)
    requires
        desk::apart(d.links),
        s.wf(),
    ensures
        is_mannerly(d, s, inbound::on_message(d, s, peer, payload, now, log)),
{
    broadcast use {signs::group_signs, group_manners};

    signs::lemma_grows_itself(d);
    reveal(inbound::on_message);
    let t = inbound::on_message(d, s, peer, payload, now, log);
    let l = leave(d, s, t.session);
    lemma_watch(l, d);
    if s.other(d.id) == peer {
        match payload {
            PayloadView::TextChunk { sequence, context_token, text, is_final, .. } => {
                lemma_chunk_manners(d, s, peer, sequence, context_token, text, is_final, log, l);
            },
            PayloadView::ChunkAck { sequence, ack_status, .. } => {
                lemma_ack_manners(d, s, peer, sequence, ack_status, now, log);
            },
            PayloadView::SessionResume { context_token, target_app, .. } => {
                lemma_resume_manners(d, s, peer, context_token, target_app, log, l);
            },
            PayloadView::SessionStop { .. } => {
                if peer == s.binding.controller_device_id && s.binding.source_device_id == d.id {
                    let let_go = SessionView { held: false, ..s };
                    service_laws::lemma_stops(d, let_go, now, log);
                    service_laws::lemma_stops(d, s, now, log);
                    lemma_stops_manners(d, let_go, now, log, l);
                    lemma_stops_manners(d, s, now, log, l);
                }
            },
            PayloadView::SessionCancel { .. } => {
                service_laws::lemma_cancels(d, s, false, now, log);
                lemma_cancel_manners(d, s, false, now, log, l);
            },
            PayloadView::SessionPause { .. } => {
                lemma_pausing_manners(d, s, now, log);
            },
            _ => {},
        }
    }
}

/// What became of a piece keeps to the leave of its session.
proof fn lemma_ack_manners(d: DeskView, s: SessionView, peer: Seq<char>, number: u64, ack: Ack, now: u64, log: Seq<Reply>)
    requires
        desk::apart(d.links),
    ensures
        is_mannerly(d, s, inbound::on_ack(d, s, peer, number, ack, now, log)),
{
    broadcast use {signs::group_signs, group_manners};

    signs::lemma_grows_itself(d);
    reveal(inbound::on_ack);
    let t = inbound::on_ack(d, s, peer, number, ack, now, log);
    let l = leave(d, s, t.session);
    lemma_watch(l, d);
    if peer == s.binding.target_device_id && session::holds(s.chunks, number) {
        let status = inbound::acknowledged(session::piece(s.chunks, number).status, ack);
        let known = SessionView {
            chunks: session::marked(s.chunks, session::slot(s.chunks, number) as int, status),
            ..s
        };
        let a = SessionView { phase: Phase::Unknown, ..known };
        let b = SessionView { phase: Phase::Paused, ..known };
        service_laws::lemma_stops(d, a, now, log);
        service_laws::lemma_stops(d, b, now, log);
        if !s.cancelled && status == Ack::Unknown {
            lemma_stops_manners(d, a, now, log, l);
        } else if !s.cancelled && status == Ack::NotApplied {
            lemma_stops_manners(d, b, now, log, l);
        }
    }
}

/// A new place for the text keeps to the leave of its session.
proof fn lemma_resume_manners(
    d: DeskView,
    s: SessionView,
    peer: Seq<char>,
    token: Seq<char>,
    app: Seq<char>,
    log: Seq<Reply>,
    l: Leave,
)
    requires
        desk::apart(d.links),
        l.peer == peer,
        l.session_id == s.binding.session_id,
    ensures
        adds(d, inbound::on_resume(d, s, peer, token, app, log).desk, l),
{
    broadcast use {signs::group_signs, group_manners};

    signs::lemma_grows_itself(d);
    lemma_watch(l, d);
    reveal(inbound::on_resume);
    let resumed = SessionView {
        binding: BindingView { context_token: token, target_app: app, ..s.binding },
        phase: Phase::Committing,
        ..s
    };
    lemma_resend_manners(d, resumed, peer, 0, log, l);
    let t = inbound::resend_from(d, resumed, peer, 0, log);
    assert(desk::apart(t.desk.links));
    if s.last_sequence is Some {
        let p = PayloadView::SessionEnd { session_id: s.binding.session_id, last_sequence: s.last_sequence->0 };
        let sent = t.desk.send(peer, p, log);
        assert(adds(d, sent.desk, l) && grows(d, sent.desk));
    }
}

} // verus!
