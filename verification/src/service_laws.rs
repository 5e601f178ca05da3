//! What a session is for: what comes of every command and every message.
use crate::desk;
use crate::desk::DeskView;
use crate::event::EventView;
use crate::ids;
use crate::json::JsonView;
use crate::orders;
use crate::orders::Answer;
use crate::outside::Reply;
use crate::protocol;
use crate::protocol::{Ack, BindingView, Mode, PayloadView, Phase, MAX_TEXT};
use crate::session;
use crate::session::{ChunkView, SessionView, MAX_SEQUENCE, MAX_SESSION_TEXT};
use crate::session_laws;
use crate::signs;
use crate::signs::{grows, hears, is_short, records, sends, tells, types_none, willing};
use crate::steps;
use crate::steps::Turn;
use crate::text;
use vstd::prelude::*;

verus! {

// ---------------------------------------------------------------- pieces

/// Whether there is a piece with a number, and it says and is this.
pub open spec fn keeps(chunks: Seq<ChunkView>, number: u64, said: Seq<char>, status: Ack, is_final: bool) -> bool {
    chunks.contains(ChunkView { sequence: number, text: said, status, is_final })
}

/// Whether the pieces with other numbers are the same.
pub open spec fn others_stay(a: Seq<ChunkView>, b: Seq<ChunkView>, number: u64) -> bool {
    forall|c: ChunkView| c.sequence != number ==> (#[trigger] a.contains(c) <==> b.contains(c))
}

/// Whether a piece with a number is at an index.
pub open spec fn is_at(chunks: Seq<ChunkView>, number: u64, k: int) -> bool {
    0 <= k < chunks.len() && chunks[k].sequence == number
}

/// A piece is found by its number, wherever it stands.
pub proof fn lemma_is_at(chunks: Seq<ChunkView>, number: u64, k: int)
    requires
        session::ordered(chunks),
        is_at(chunks, number, k),
    ensures
        session::holds(chunks, number),
        session::slot(chunks, number) == k,
        session::piece(chunks, number) == chunks[k],
{
    session::lemma_slot_of(chunks, k);
}

/// Pieces of which there is none with a number at an index hold none.
pub proof fn lemma_holds(chunks: Seq<ChunkView>, number: u64)
    requires
        session::ordered(chunks),
    ensures
        session::holds(chunks, number) <==> exists|k: int| #[trigger] is_at(chunks, number, k),
{
    if session::holds(chunks, number) {
        assert(is_at(chunks, number, session::slot(chunks, number) as int));
    }
    if exists|k: int| #[trigger] is_at(chunks, number, k) {
        let k = choose|k: int| #[trigger] is_at(chunks, number, k);
        lemma_is_at(chunks, number, k);
    }
}

/// Another status is of one piece.
pub proof fn lemma_marked_is_of_one(chunks: Seq<ChunkView>, k: int, status: Ack)
    requires
        session::ordered(chunks),
        0 <= k < chunks.len(),
    ensures
        ({
            let out = session::marked(chunks, k, status);
            let c = chunks[k];
            &&& session::ordered(out)
            &&& keeps(out, c.sequence, c.text, status, c.is_final)
            &&& others_stay(chunks, out, c.sequence)
        }),
{
    session::lemma_marked(chunks, k, status);
    let out = session::marked(chunks, k, status);
    assert(out[k] == (ChunkView { status, ..chunks[k] }));
    assert forall|c: ChunkView| c.sequence != chunks[k].sequence implies (#[trigger] chunks.contains(c)
        <==> out.contains(c)) by {
        if chunks.contains(c) {
            let j = choose|j: int| 0 <= j < chunks.len() && chunks[j] == c;
            assert(out[j] == c);
        }
        if out.contains(c) {
            let j = choose|j: int| 0 <= j < out.len() && out[j] == c;
            assert(chunks[j] == c);
        }
    }
}

/// A piece that is placed is there, and the others stay.
pub proof fn lemma_placed_is_there(chunks: Seq<ChunkView>, c: ChunkView)
    requires
        session::ordered(chunks),
        1 <= c.sequence <= MAX_SEQUENCE,
        text::size(c.text) <= MAX_TEXT,
    ensures
        session::ordered(session::placed(chunks, c)),
        session::placed(chunks, c).contains(c),
        others_stay(chunks, session::placed(chunks, c), c.sequence),
{
    session::lemma_placed(chunks, c);
    session::lemma_slot(chunks, c.sequence);
    let out = session::placed(chunks, c);
    let i = session::slot(chunks, c.sequence) as int;
    let shift: int = if session::holds(chunks, c.sequence) { 0 } else { 1 };
    assert(out[i] == c);
    assert forall|x: ChunkView| x.sequence != c.sequence implies (#[trigger] chunks.contains(x) <==> out.contains(
        x,
    )) by {
        if chunks.contains(x) {
            let j = choose|j: int| 0 <= j < chunks.len() && chunks[j] == x;
            if j < i {
                assert(out[j] == x);
            } else {
                assert(out[j + shift] == x);
            }
        }
        if out.contains(x) {
            let j = choose|j: int| 0 <= j < out.len() && out[j] == x;
            if j < i {
                assert(chunks[j] == x);
            } else {
                assert(chunks[j - shift] == x);
            }
        }
    }
}

/// Whether a step is refused, with nothing changed.
pub open spec fn refuses<T>(d: DeskView, s: SessionView, t: Turn<T>, code: Seq<char>) -> bool {
    t.desk == d && t.session == s && t.result == Err::<T, Seq<char>>(code)
}

/// Whether the program is shown the session as it is after a step.
pub open spec fn shows<T>(d: DeskView, t: Turn<T>) -> bool {
    tells(d, t.desk, desk::snapshot_of(t.session))
}

/// The commands are told apart by a few marks.
pub proof fn lemma_ops()
    ensures
        text::mark("bound"@).0 == 5 && text::mark("bound"@).1 == 'b',
        text::mark("ready"@).0 == 5 && text::mark("ready"@).1 == 'r',
        text::mark("listening"@).0 == 9,
        text::mark("draft"@).0 == 5 && text::mark("draft"@).1 == 'd',
        text::mark("apple_result"@).0 == 12,
        text::mark("source_stopped"@).0 == 14,
        text::mark("source_failed"@).0 == 13 && text::mark("source_failed"@).1 == 's',
        text::mark("confirm_stopped"@).0 == 15 && text::mark("confirm_stopped"@).2 == 's',
        text::mark("confirm"@).0 == 7,
        text::mark("stop"@).0 == 4,
        text::mark("cancel"@).0 == 6 && text::mark("cancel"@).1 == 'c',
        text::mark("focus_invalid"@).0 == 13 && text::mark("focus_invalid"@).1 == 'f',
        text::mark("claim_injection"@).0 == 15 && text::mark("claim_injection"@).2 == 'j',
        text::mark("injection_result"@).0 == 16,
        text::mark("resume"@).0 == 6 && text::mark("resume"@).1 == 'r',
        text::mark("resolve_unknown"@).0 == 15 && text::mark("resolve_unknown"@).2 == 'u',
        text::mark("query"@).0 == 5 && text::mark("query"@).1 == 'q',
{
    reveal_strlit("bound");
    reveal_strlit("ready");
    reveal_strlit("listening");
    reveal_strlit("draft");
    reveal_strlit("apple_result");
    reveal_strlit("source_stopped");
    reveal_strlit("source_failed");
    reveal_strlit("confirm_stopped");
    reveal_strlit("confirm");
    reveal_strlit("stop");
    reveal_strlit("cancel");
    reveal_strlit("focus_invalid");
    reveal_strlit("claim_injection");
    reveal_strlit("injection_result");
    reveal_strlit("resume");
    reveal_strlit("resolve_unknown");
    reveal_strlit("query");
}

// ---------------------------------------------------------------- stopping

/// Whether a step has asked the source to stop: it tells the program to stop listening, and the
/// other device where the session stands.
pub open spec fn stops<T>(d: DeskView, s: SessionView, t: Turn<T>, now: u64) -> bool {
    &&& t.session.stop_requested
    &&& t.session.finalizing == Some(now)
    &&& !t.session.held
    &&& tells(d, t.desk, EventView::StopInput { session_id: s.binding.session_id })
}

/// To ask the source to stop tells the program to stop listening, unless it was told before.
pub proof fn lemma_stops(d: DeskView, s: SessionView, now: u64, log: Seq<Reply>)
    requires
        desk::apart(d.links),
    ensures
        ({
            let t = steps::request_stop(d, s, now, log);
            &&& grows(d, t.desk)
            &&& types_none(d, t.desk)
            &&& t.result is Ok
            &&& t.session == (SessionView {
                held: false,
                stop_requested: t.session.stop_requested,
                finalizing: t.session.finalizing,
                phase: t.session.phase,
                ..s
            })
            &&& s.stopped || s.stop_requested ==> t.desk == d && t.session == (SessionView { held: false, ..s })
            &&& !s.stopped && !s.stop_requested ==> {
                &&& stops(d, s, t, now)
                &&& shows(d, t)
                &&& t.session.phase == (if s.phase == Phase::Paused || s.phase == Phase::Unknown || s.phase
                    == Phase::Cancelled {
                    s.phase
                } else {
                    Phase::Finalizing
                })
                &&& hears(d, s.other(d.id), 1) && is_short(
                    PayloadView::SessionState { session_id: s.binding.session_id, phase: t.session.phase },
                ) ==> sends(
                    d,
                    t.desk,
                    s.other(d.id),
                    PayloadView::SessionState { session_id: s.binding.session_id, phase: t.session.phase },
                )
            }
        }),
{
    broadcast use signs::group_signs;

    signs::lemma_grows_itself(d);
    reveal(steps::request_stop);
}

// ---------------------------------------------------------------- giving up

/// Whether a piece has come and was not claimed.
pub open spec fn is_loose(s: SessionView, k: int) -> bool {
    s.chunks[k].status == Ack::Received && s.inflight != Some((s.chunks[k].sequence, true))
}

/// Whether a piece was given up by a step: that is known here and in the journal, and the source
/// is told if it hears so much.
pub open spec fn gives_up(d: DeskView, s: SessionView, e: DeskView, t: SessionView, k: int, times: int) -> bool {
    let c = s.chunks[k];
    let ack = PayloadView::ChunkAck {
        session_id: s.binding.session_id,
        sequence: c.sequence,
        ack_status: Ack::NotApplied,
    };
    &&& t.chunks[k] == (ChunkView { status: Ack::NotApplied, ..c })
    &&& records(d, e, s.binding.session_id, c.sequence, Ack::NotApplied)
    &&& hears(d, s.binding.source_device_id, times) && is_short(ack) ==> sends(d, e, s.binding.source_device_id, ack)
}

/// Whether the pieces before an index, and those that are not loose, are as they were.
pub open spec fn leaves_the_rest(s: SessionView, t: SessionView, i: nat) -> bool {
    forall|k: int|
        #![trigger t.chunks[k]]
        #![trigger s.chunks[k]]
        0 <= k < s.chunks.len() && (k < i || !is_loose(s, k)) ==> t.chunks[k] == s.chunks[k]
}

/// Whether the loose pieces from an index on were given up.
pub open spec fn gives_up_from(d: DeskView, s: SessionView, e: DeskView, t: SessionView, i: nat) -> bool {
    forall|k: int|
        #![trigger t.chunks[k]]
        #![trigger s.chunks[k]]
        i <= k < s.chunks.len() && is_loose(s, k) ==> gives_up(d, s, e, t, k, s.chunks.len() - i)
}

/// To give up pieces from an index on gives up each that is loose, and no other.
pub proof fn lemma_gives_up(d: DeskView, s: SessionView, i: nat, log: Seq<Reply>)
    requires
        desk::apart(d.links),
        i <= s.chunks.len(),
    ensures
        grows(d, steps::give_up_from(d, s, i, log).desk),
        types_none(d, steps::give_up_from(d, s, i, log).desk),
        steps::give_up_from(d, s, i, log).session == (SessionView {
            chunks: steps::give_up_from(d, s, i, log).session.chunks,
            ..s
        }),
        steps::give_up_from(d, s, i, log).session.chunks.len() == s.chunks.len(),
        leaves_the_rest(s, steps::give_up_from(d, s, i, log).session, i),
        steps::give_up_from(d, s, i, log).result is Ok ==> gives_up_from(
            d,
            s,
            steps::give_up_from(d, s, i, log).desk,
            steps::give_up_from(d, s, i, log).session,
            i,
        ),
        willing(log) ==> steps::give_up_from(d, s, i, log).result is Ok,
    decreases s.chunks.len() - i,
{
    broadcast use signs::group_signs;

    signs::lemma_grows_itself(d);
    let t = steps::give_up_from(d, s, i, log);
    signs::lemma_grows_itself(d);
    if i < s.chunks.len() {
        let c = s.chunks[i as int];
        let source = s.binding.source_device_id;
        if is_loose(s, i as int) {
            let given_up = SessionView { chunks: session::marked(s.chunks, i as int, Ack::NotApplied), ..s };
            let recorded = d.record(s.binding.session_id, c.sequence, Ack::NotApplied, log);
            if recorded.result is Ok {
                let ack = PayloadView::ChunkAck {
                    session_id: s.binding.session_id,
                    sequence: c.sequence,
                    ack_status: Ack::NotApplied,
                };
                let sent = recorded.desk.send(source, ack, log);
                lemma_gives_up(sent.desk, given_up, i + 1, log);
                assert(grows(d, sent.desk) && types_none(d, sent.desk));
                assert(grows(sent.desk, t.desk) && types_none(sent.desk, t.desk));
                assert(types_none(d, t.desk));
                assert forall|k: int|
                    #![trigger t.session.chunks[k]]
                    #![trigger s.chunks[k]]
                    0 <= k < s.chunks.len() && (k < i || !is_loose(s, k)) implies t.session.chunks[k]
                    == s.chunks[k] by {
                    assert(given_up.chunks[k] == s.chunks[k]);
                    assert(is_loose(given_up, k) == is_loose(s, k));
                }
                assert forall|k: int|
                    #![trigger t.session.chunks[k]]
                    #![trigger s.chunks[k]]
                    i <= k < s.chunks.len() && is_loose(s, k) && t.result is Ok implies gives_up(
                    d,
                    s,
                    t.desk,
                    t.session,
                    k,
                    s.chunks.len() - i,
                ) by {
                    assert(t.session.chunks[k] == t.session.chunks[k]);
                    if k == i {
                        assert(t.session.chunks[k] == given_up.chunks[k]);
                    } else {
                        assert(given_up.chunks[k] == s.chunks[k]);
                        assert(is_loose(given_up, k));
                        assert(gives_up(sent.desk, given_up, t.desk, t.session, k, s.chunks.len() - i - 1));
                        if hears(d, source, s.chunks.len() - i) {
                            assert(hears(recorded.desk, source, s.chunks.len() - i));
                            assert(hears(sent.desk, source, s.chunks.len() - i - 1));
                        }
                    }
                }
            }
        } else {
            lemma_gives_up(d, s, i + 1, log);
            assert forall|k: int|
                #![trigger t.session.chunks[k]]
                #![trigger s.chunks[k]]
                i <= k < s.chunks.len() && is_loose(s, k) && t.result is Ok implies gives_up(
                d,
                s,
                t.desk,
                t.session,
                k,
                s.chunks.len() - i,
            ) by {
                assert(gives_up(d, s, t.desk, t.session, k, s.chunks.len() - i - 1));
                signs::lemma_hears_fewer(d, source, s.chunks.len() - i, s.chunks.len() - i - 1);
            }
        }
    }
}

/// Whether a step has paused the target: every piece that had come and was not claimed is given
/// up, and what was not claimed is not under way any more.
pub open spec fn gives_up_the_rest<T>(d: DeskView, s: SessionView, t: Turn<T>) -> bool {
    &&& t.session.chunks.len() == s.chunks.len()
    &&& forall|k: int|
        #![trigger t.session.chunks[k]]
        #![trigger s.chunks[k]]
        0 <= k < s.chunks.len() ==> if is_loose(s, k) {
            gives_up(d, s, t.desk, t.session, k, s.chunks.len() as int)
        } else {
            t.session.chunks[k] == s.chunks[k]
        }
    &&& t.session.inflight == (match s.inflight {
        Some((n, true)) => Some((n, true)),
        _ => None,
    })
}

/// To pause the target gives up what has come and was not claimed, if the journal does its part.
pub proof fn lemma_pauses(d: DeskView, s: SessionView, log: Seq<Reply>)
    requires
        desk::apart(d.links),
    ensures
        ({
            let t = steps::pause_receiver(d, s, log);
            &&& grows(d, t.desk)
            &&& types_none(d, t.desk)
            &&& t.session == (SessionView {
                phase: if s.phase == Phase::Done || s.phase == Phase::Cancelled {
                    s.phase
                } else {
                    Phase::Paused
                },
                chunks: t.session.chunks,
                inflight: t.session.inflight,
                ..s
            })
            &&& t.result is Ok ==> gives_up_the_rest(d, s, t)
            &&& willing(log) ==> t.result is Ok
            &&& t.session.inflight == s.inflight || t.session.inflight is None
        }),
{
    reveal(steps::pause_receiver);
    let pausing = SessionView {
        phase: if s.phase.spec_terminal() {
            s.phase
        } else {
            Phase::Paused
        },
        ..s
    };
    lemma_gives_up(d, pausing, 0, log);
    let t = steps::pause_receiver(d, s, log);
    let u = steps::give_up_from(d, pausing, 0, log);
    if t.result is Ok {
        assert forall|k: int|
            #![trigger t.session.chunks[k]]
            #![trigger s.chunks[k]]
            0 <= k < s.chunks.len() implies if is_loose(s, k) {
            gives_up(d, s, t.desk, t.session, k, s.chunks.len() as int)
        } else {
            t.session.chunks[k] == s.chunks[k]
        } by {
            assert(u.session.chunks[k] == t.session.chunks[k]);
            assert(is_loose(pausing, k) == is_loose(s, k));
            if is_loose(s, k) {
                assert(gives_up(d, pausing, u.desk, u.session, k, s.chunks.len() as int));
            }
        }
    }
}

/// To cancel a session lets the microphone go or gives up what was to be typed, and the other
/// device hears of it if it is to be told.
pub proof fn lemma_cancels(d: DeskView, s: SessionView, notify: bool, now: u64, log: Seq<Reply>)
    requires
        desk::apart(d.links),
    ensures
        ({
            let t = steps::cancel(d, s, notify, now, log);
            let p = PayloadView::SessionCancel { session_id: s.binding.session_id };
            &&& grows(d, t.desk)
            &&& types_none(d, t.desk)
            &&& s.cancelled ==> t.desk == d && t.session == s && t.result is Ok
            &&& !s.cancelled && s.binding.source_device_id == d.id ==> {
                &&& t.result is Ok
                &&& t.session == (SessionView {
                    cancelled: true,
                    held: false,
                    phase: Phase::Cancelled,
                    stop_requested: s.stop_requested || !s.stopped,
                    finalizing: if s.stopped {
                        s.finalizing
                    } else {
                        Some(now)
                    },
                    ..s
                })
                &&& !s.stopped ==> tells(d, t.desk, EventView::CancelInput { session_id: s.binding.session_id })
                &&& shows(d, t)
                &&& notify && hears(d, s.binding.target_device_id, 1) && is_short(p) ==> sends(
                    d,
                    t.desk,
                    s.binding.target_device_id,
                    p,
                )
            }
            &&& !s.cancelled && s.binding.source_device_id != d.id ==> {
                &&& willing(log) ==> t.result is Ok
                &&& t.session == (SessionView {
                    cancelled: true,
                    held: false,
                    phase: Phase::Cancelled,
                    chunks: t.session.chunks,
                    inflight: t.session.inflight,
                    ..s
                })
                &&& t.result is Ok ==> gives_up_the_rest(d, s, t) && shows(d, t)
            }
            &&& t.session.inflight == s.inflight || t.session.inflight is None
        }),
{
    broadcast use signs::group_signs;

    signs::lemma_grows_itself(d);
    reveal(steps::cancel);
    if !s.cancelled {
        let cancelled = SessionView { cancelled: true, held: false, phase: Phase::Cancelled, ..s };
        lemma_pauses(d, cancelled, log);
        let t = steps::cancel(d, s, notify, now, log);
        let u = steps::pause_receiver(d, cancelled, log);
        if s.binding.source_device_id != d.id && t.result is Ok {
            assert(gives_up_the_rest(d, cancelled, u));
            assert(grows(u.desk, t.desk));
            lemma_gives_up_more(d, cancelled, u, t.desk);
            assert forall|k: int|
                #![trigger t.session.chunks[k]]
                #![trigger s.chunks[k]]
                0 <= k < s.chunks.len() implies if is_loose(s, k) {
                gives_up(d, s, t.desk, t.session, k, s.chunks.len() as int)
            } else {
                t.session.chunks[k] == s.chunks[k]
            } by {
                assert(u.session.chunks[k] == t.session.chunks[k]);
                assert(is_loose(cancelled, k) == is_loose(s, k));
                if is_loose(s, k) {
                    assert(gives_up(d, cancelled, t.desk, u.session, k, s.chunks.len() as int));
                }
            }
        }
    }
}

/// What was given up is, whatever comes after.
pub proof fn lemma_gives_up_more<T>(d: DeskView, s: SessionView, t: Turn<T>, e: DeskView)
    requires
        gives_up_the_rest(d, s, t),
        grows(t.desk, e),
    ensures
        gives_up_the_rest(d, s, Turn { desk: e, ..t }),
{
    broadcast use signs::group_signs;

    signs::lemma_grows_itself(d);
    let u = Turn { desk: e, ..t };
    assert forall|k: int|
        #![trigger u.session.chunks[k]]
        #![trigger s.chunks[k]]
        0 <= k < s.chunks.len() implies if is_loose(s, k) {
        gives_up(d, s, u.desk, u.session, k, s.chunks.len() as int)
    } else {
        u.session.chunks[k] == s.chunks[k]
    } by {
        assert(t.session.chunks[k] == u.session.chunks[k]);
        if is_loose(s, k) {
            assert(gives_up(d, s, t.desk, t.session, k, s.chunks.len() as int));
        }
    }
}

// ---------------------------------------------------------------- sending text

/// A text that may be sent is kept as the next piece, with exactly that text, and goes to the
/// target with it; where the target does not hear it, the piece is known not to be typed, and
/// the source stops.
pub proof fn law_a_text_is_sent_as_it_is(
    d: DeskView,
    s: SessionView,
    said: Seq<char>,
    is_final: bool,
    now: u64,
    log: Seq<Reply>,
)
    requires
        desk::apart(d.links),
        s.wf(),
    ensures
        ({
            let t = steps::freeze(d, s, said, is_final, now, log);
            let may = protocol::text_error(said) is None && !s.cancelled && s.binding.source_device_id == d.id
                && s.next_send <= MAX_SEQUENCE && session::total(s.chunks) + text::size(said) <= MAX_SESSION_TEXT;
            let p = PayloadView::TextChunk {
                session_id: s.binding.session_id,
                sequence: s.next_send,
                context_token: s.binding.context_token,
                text: said,
                is_final,
            };
            &&& grows(d, t.desk)
            &&& types_none(d, t.desk)
            &&& !may ==> t.result is Err && t.desk == d && t.session == s
            &&& may ==> {
                let sent = keeps(t.session.chunks, s.next_send, said, Ack::Received, is_final);
                &&& t.result is Ok
                &&& t.session.wf()
                &&& t.session.next_send == s.next_send + 1
                &&& others_stay(s.chunks, t.session.chunks, s.next_send)
                &&& shows(d, t)
                &&& hears(d, s.binding.target_device_id, 1) && is_short(p) ==> sent
                &&& sent ==> sends(d, t.desk, s.binding.target_device_id, p) && t.session == (SessionView {
                    chunks: t.session.chunks,
                    next_send: t.session.next_send,
                    ..s
                })
                &&& !sent ==> keeps(t.session.chunks, s.next_send, said, Ack::NotApplied, is_final) && t.session.phase
                    == Phase::Paused && (t.session.stopped || t.session.stop_requested)
                &&& t.session == (SessionView {
                    chunks: t.session.chunks,
                    next_send: t.session.next_send,
                    held: t.session.held,
                    stop_requested: t.session.stop_requested,
                    finalizing: t.session.finalizing,
                    phase: t.session.phase,
                    ..s
                })
                &&& s.stopped || s.stop_requested ==> t.session.stop_requested == s.stop_requested
                    && t.session.finalizing == s.finalizing
                &&& !sent && !s.stopped && !s.stop_requested ==> tells(
                    d,
                    t.desk,
                    EventView::StopInput { session_id: s.binding.session_id },
                )
            }
        }),
{
    broadcast use signs::group_signs;

    signs::lemma_grows_itself(d);
    reveal(steps::freeze);
    let p = PayloadView::TextChunk {
        session_id: s.binding.session_id,
        sequence: s.next_send,
        context_token: s.binding.context_token,
        text: said,
        is_final,
    };
    let may = protocol::text_error(said) is None && !s.cancelled && s.binding.source_device_id == d.id && s.next_send
        <= MAX_SEQUENCE && session::total(s.chunks) + text::size(said) <= MAX_SESSION_TEXT;
    if may {
        let sent = d.send(s.binding.target_device_id, p, log);
        let status = if sent.result is Ok {
            Ack::Received
        } else {
            Ack::NotApplied
        };
        let c = ChunkView { sequence: s.next_send, text: said, status, is_final };
        lemma_placed_is_there(s.chunks, c);
        let frozen = SessionView {
            next_send: (s.next_send + 1) as u64,
            chunks: session::placed(s.chunks, c),
            ..s
        };
        lemma_stops(sent.desk, SessionView { phase: Phase::Paused, ..frozen }, now, log);
        let t = steps::freeze(d, s, said, is_final, now, log);
        assert(t.session.chunks == frozen.chunks);
        if sent.result is Err {
            let other = ChunkView { status: Ack::Received, ..c };
            if t.session.chunks.contains(other) {
                let i = choose|i: int| 0 <= i < t.session.chunks.len() && t.session.chunks[i] == other;
                let j = choose|j: int| 0 <= j < t.session.chunks.len() && t.session.chunks[j] == c;
                assert(i != j);
                assert(t.session.chunks[i].sequence == t.session.chunks[j].sequence);
            }
        }
    }
}

/// The bytes of pieces together are the sum of the bytes of each.
pub proof fn law_the_texts_together(chunks: Seq<ChunkView>, c: ChunkView)
    ensures
        session::total(seq![]) == 0,
        session::total(chunks.push(c)) == session::total(chunks) + text::size(c.text),
{
    assert(chunks.push(c).drop_last() =~= chunks);
}

/// When the source ends, it says which piece is the last, and is done only if that could be said
/// and every piece is known to be typed.
pub proof fn lemma_ends(d: DeskView, s: SessionView, log: Seq<Reply>)
    requires
        desk::apart(d.links),
        s.wf(),
    ensures
        ({
            let t = steps::end_source(d, s, log);
            let p = PayloadView::SessionEnd {
                session_id: s.binding.session_id,
                last_sequence: (s.next_send - 1) as u64,
            };
            &&& grows(d, t.desk)
            &&& types_none(d, t.desk)
            &&& t.result is Ok
            &&& shows(d, t)
            &&& s.cancelled ==> t.session == (SessionView { phase: Phase::Cancelled, ..s })
            &&& !s.cancelled ==> {
                &&& t.session == (SessionView {
                    last_sequence: Some((s.next_send - 1) as u64),
                    phase: t.session.phase,
                    ..s
                })
                &&& t.session.phase == Phase::Paused || t.session.phase == Phase::Committing || t.session.phase
                    == Phase::Done
                &&& t.session.phase != Phase::Paused ==> sends(d, t.desk, s.binding.target_device_id, p)
                &&& hears(d, s.binding.target_device_id, 1) && is_short(p) ==> t.session.phase != Phase::Paused
                &&& t.session.phase != Phase::Paused ==> (t.session.phase == Phase::Done <==> forall|k: int|
                    0 <= k < s.chunks.len() ==> (#[trigger] s.chunks[k]).status == Ack::Applied)
            }
        }),
{
    broadcast use signs::group_signs;

    signs::lemma_grows_itself(d);
    reveal(steps::end_source);
}


// ---------------------------------------------------------------- commands to the source

/// A place for the text is told to the source as it was given, with everything else of the
/// binding as it was.
pub proof fn law_a_place_is_told_to_the_source(
    d: DeskView,
    s: SessionView,
    v: JsonView,
    token: Seq<char>,
    app: Seq<char>,
    now: u64,
    log: Seq<Reply>,
)
    requires
        desk::apart(d.links),
    ensures
        ({
            let t = orders::obey(d, s, "bound"@, v, now, log);
            let b = BindingView { context_token: token, target_app: app, ..s.binding };
            let p = PayloadView::SessionBound { binding: b };
            &&& s.binding.source_device_id == d.id || s.phase != Phase::Preparing ==> refuses(
                d,
                s,
                t,
                "invalid_state"@,
            )
            &&& s.binding.source_device_id != d.id && s.phase == Phase::Preparing && v.member("context_token"@) == Some(
                JsonView::Text(token),
            ) && (ids::id_parsed(token) is None || ids::id_parsed(token) == Some(0u128)) ==> refuses(
                d,
                s,
                t,
                "invalid_context"@,
            )
            &&& s.binding.source_device_id != d.id && s.phase == Phase::Preparing && v.member("context_token"@) == Some(
                JsonView::Text(token),
            ) && ids::id_parsed(token) is Some && ids::id_parsed(token) != Some(0u128) && v.member("target_app"@)
                == Some(JsonView::Text(app)) ==> {
                &&& t.session == (SessionView { binding: b, ..s })
                &&& t.result is Ok ==> t.result == Ok::<Answer, Seq<char>>(Answer::Done) && shows(d, t) && sends(
                    d,
                    t.desk,
                    s.binding.source_device_id,
                    p,
                )
                &&& hears(d, s.binding.source_device_id, 1) && is_short(p) ==> t.result is Ok
            }
        }),
{
    broadcast use signs::group_signs;

    signs::lemma_grows_itself(d);
    reveal(orders::obey);
    reveal(orders::bound);
    lemma_ops();
}

/// A source that is prepared is ready, one that is ready listens, and the target hears of it; no
/// source does so otherwise, and none that was stopped or cancelled.
pub proof fn law_a_source_gets_ready_and_listens(d: DeskView, s: SessionView, v: JsonView, now: u64, log: Seq<Reply>)
    requires
        desk::apart(d.links),
    ensures
        ({
            let t = orders::obey(d, s, "ready"@, v, now, log);
            let u = orders::obey(d, s, "listening"@, v, now, log);
            let may = s.binding.source_device_id == d.id && !s.stop_requested && !s.cancelled;
            let target = s.binding.target_device_id;
            let p = PayloadView::SessionReady { session_id: s.binding.session_id };
            let q = PayloadView::SessionState { session_id: s.binding.session_id, phase: Phase::Listening };
            &&& !may ==> refuses(d, s, t, "source_not_ready"@) && refuses(d, s, u, "source_not_ready"@)
            &&& may && s.phase != Phase::Preparing ==> refuses(d, s, t, "invalid_state"@)
            &&& may && s.phase != Phase::Ready ==> refuses(d, s, u, "invalid_state"@)
            &&& may && s.phase == Phase::Preparing ==> {
                &&& t.session == (SessionView { phase: Phase::Ready, ..s })
                &&& t.result is Ok ==> t.result == Ok::<Answer, Seq<char>>(Answer::Done) && shows(d, t) && sends(
                    d,
                    t.desk,
                    target,
                    p,
                )
                &&& hears(d, target, 1) && is_short(p) ==> t.result is Ok
            }
            &&& may && s.phase == Phase::Ready ==> {
                &&& u.session == (SessionView { phase: Phase::Listening, ..s })
                &&& u.result is Ok ==> u.result == Ok::<Answer, Seq<char>>(Answer::Done) && shows(d, u) && sends(
                    d,
                    u.desk,
                    target,
                    q,
                )
                &&& hears(d, target, 1) && is_short(q) ==> u.result is Ok
            }
        }),
{
    broadcast use signs::group_signs;

    signs::lemma_grows_itself(d);
    reveal(orders::obey);
    reveal(orders::ready);
    reveal(orders::listening);
    lemma_ops();
}

/// A draft that comes while the source may still change its text is the draft, and the program
/// sees it; nothing is sent.
pub proof fn law_a_draft_is_kept(d: DeskView, s: SessionView, v: JsonView, said: Seq<char>, now: u64, log: Seq<Reply>)
    requires
        v.member("text"@) == Some(JsonView::Text(said)),
    ensures
        ({
            let t = orders::obey(d, s, "draft"@, v, now, log);
            let may = s.binding.source_device_id == d.id && !s.cancelled && !s.frozen && s.phase != Phase::Done
                && s.phase != Phase::Cancelled;
            &&& !may ==> refuses(d, s, t, "stale_input_callback"@)
            &&& may && text::size(said) > MAX_TEXT ==> refuses(d, s, t, "draft_limit"@)
            &&& may && text::size(said) <= MAX_TEXT ==> {
                &&& t.result == Ok::<Answer, Seq<char>>(Answer::Done)
                &&& t.session == (SessionView { draft: said, ..s })
                &&& shows(d, t)
                &&& t.desk.links == d.links
                &&& t.desk.asked == d.asked
            }
        }),
{
    broadcast use signs::group_signs;

    signs::lemma_grows_itself(d);
    reveal(orders::obey);
    lemma_ops();
}

/// Whether texts are kept as the next pieces, one after the other, none of them the last.
pub open spec fn keeps_all(s: SessionView, t: SessionView, said: Seq<Seq<char>>) -> bool {
    &&& t.next_send == s.next_send + said.len()
    &&& forall|i: int|
        0 <= i < said.len() ==> keeps(
            t.chunks,
            (s.next_send + i) as u64,
            #[trigger] said[i],
            Ack::Received,
            false,
        ) || keeps(t.chunks, (s.next_send + i) as u64, said[i], Ack::NotApplied, false)
    &&& forall|c: ChunkView|
        c.sequence < s.next_send || c.sequence >= s.next_send + said.len() ==> (#[trigger] t.chunks.contains(c)
            <==> s.chunks.contains(c))
}

/// Whether the texts that were kept as received went to the target.
pub open spec fn sends_all(d: DeskView, e: DeskView, s: SessionView, t: SessionView, said: Seq<Seq<char>>) -> bool {
    forall|i: int|
        0 <= i < said.len() && keeps(
            t.chunks,
            (s.next_send + i) as u64,
            #[trigger] said[i],
            Ack::Received,
            false,
        ) ==> sends(
            d,
            e,
            s.binding.target_device_id,
            PayloadView::TextChunk {
                session_id: s.binding.session_id,
                sequence: (s.next_send + i) as u64,
                context_token: s.binding.context_token,
                text: said[i],
                is_final: false,
            },
        )
}

/// The message with which a text goes out, so many after the next one.
pub open spec fn going_out(s: SessionView, said: Seq<char>, i: int) -> PayloadView {
    PayloadView::TextChunk {
        session_id: s.binding.session_id,
        sequence: (s.next_send + i) as u64,
        context_token: s.binding.context_token,
        text: said,
        is_final: false,
    }
}

/// Whether texts are all kept as pieces that went out.
pub open spec fn all_received(s: SessionView, t: SessionView, said: Seq<Seq<char>>) -> bool {
    forall|i: int|
        0 <= i < said.len() ==> keeps(t.chunks, (s.next_send + i) as u64, #[trigger] said[i], Ack::Received, false)
}

/// The sizes of texts together.
pub open spec fn sizes(said: Seq<Seq<char>>) -> nat
    decreases said.len(),
{
    if said.len() == 0 {
        0
    } else {
        text::size(said[0]) + sizes(said.drop_first())
    }
}

/// Texts that may be sent are all kept and sent, in their order.
pub proof fn lemma_freezes_all(d: DeskView, s: SessionView, said: Seq<Seq<char>>, now: u64, log: Seq<Reply>)
    requires
        desk::apart(d.links),
        s.wf(),
    ensures
        ({
            let t = orders::freeze_all(d, s, said, now, log);
            &&& grows(d, t.desk)
            &&& types_none(d, t.desk)
            &&& t.session.wf()
            &&& t.session == (SessionView {
                chunks: t.session.chunks,
                next_send: t.session.next_send,
                held: t.session.held,
                stop_requested: t.session.stop_requested,
                finalizing: t.session.finalizing,
                phase: t.session.phase,
                ..s
            })
            &&& t.session.phase == s.phase || t.session.phase == Phase::Paused
            &&& t.result is Ok ==> keeps_all(s, t.session, said) && sends_all(d, t.desk, s, t.session, said)
            &&& t.result is Ok && hears(d, s.binding.target_device_id, said.len() as int) && (forall|i: int|
                0 <= i < said.len() ==> is_short(going_out(s, #[trigger] said[i], i))) ==> all_received(
                s,
                t.session,
                said,
            ) && t.session == (SessionView {
                chunks: t.session.chunks,
                next_send: t.session.next_send,
                ..s
            })
            &&& (forall|i: int| 0 <= i < said.len() ==> protocol::text_error(#[trigger] said[i]) is None)
                && !s.cancelled && s.binding.source_device_id == d.id && s.next_send + said.len() <= MAX_SEQUENCE + 1
                && session::total(s.chunks) + sizes(said) <= MAX_SESSION_TEXT ==> t.result is Ok
        }),
    decreases said.len(),
{
    broadcast use signs::group_signs;

    signs::lemma_grows_itself(d);
    let t = orders::freeze_all(d, s, said, now, log);
    if said.len() > 0 {
        law_a_text_is_sent_as_it_is(d, s, said[0], false, now, log);
        let f = steps::freeze(d, s, said[0], false, now, log);
        if f.result is Ok {
            let rest = said.drop_first();
            lemma_freezes_all(f.desk, f.session, rest, now, log);
            lemma_total_of_freeze(d, s, said[0], false, now, log);
            assert forall|i: int| 0 <= i < rest.len() implies rest[i] == said[i + 1] by {}
            if t.result is Ok {
                assert(keeps_all(f.session, t.session, rest));
                assert(sends_all(f.desk, t.desk, f.session, t.session, rest));
                let yes = ChunkView { sequence: s.next_send, text: said[0], status: Ack::Received, is_final: false };
                let no = ChunkView { status: Ack::NotApplied, ..yes };
                assert(t.session.chunks.contains(yes) <==> f.session.chunks.contains(yes));
                assert(t.session.chunks.contains(no) <==> f.session.chunks.contains(no));
                assert forall|i: int| 0 <= i < said.len() implies keeps(
                    t.session.chunks,
                    (s.next_send + i) as u64,
                    #[trigger] said[i],
                    Ack::Received,
                    false,
                ) || keeps(t.session.chunks, (s.next_send + i) as u64, said[i], Ack::NotApplied, false) by {
                    if i > 0 {
                        assert(rest[i - 1] == said[i]);
                    }
                }
                assert forall|c: ChunkView|
                    c.sequence < s.next_send || c.sequence >= s.next_send + said.len() implies (
                #[trigger] t.session.chunks.contains(c) <==> s.chunks.contains(c)) by {
                    assert(s.chunks.contains(c) <==> f.session.chunks.contains(c));
                }
                assert forall|i: int|
                    0 <= i < said.len() && keeps(
                        t.session.chunks,
                        (s.next_send + i) as u64,
                        #[trigger] said[i],
                        Ack::Received,
                        false,
                    ) implies sends(
                    d,
                    t.desk,
                    s.binding.target_device_id,
                    PayloadView::TextChunk {
                        session_id: s.binding.session_id,
                        sequence: (s.next_send + i) as u64,
                        context_token: s.binding.context_token,
                        text: said[i],
                        is_final: false,
                    },
                ) by {
                    if i > 0 {
                        assert(rest[i - 1] == said[i]);
                    }
                }
            }
            let target = s.binding.target_device_id;
            if t.result is Ok && hears(d, target, said.len() as int) && forall|i: int|
                0 <= i < said.len() ==> is_short(going_out(s, #[trigger] said[i], i)) {
                assert(is_short(going_out(s, said[0], 0)));
                signs::lemma_hears_fewer(d, target, said.len() as int, 1);
                assert(keeps(f.session.chunks, s.next_send, said[0], Ack::Received, false));
                lemma_freeze_leaves_more_room(d, s, said[0], false, said.len() as int, now, log);
                assert forall|i: int| 0 <= i < rest.len() implies is_short(
                    going_out(f.session, #[trigger] rest[i], i),
                ) by {
                    assert(is_short(going_out(s, said[i + 1], i + 1)));
                }
                assert(all_received(f.session, t.session, rest));
                assert forall|i: int| 0 <= i < said.len() implies keeps(
                    t.session.chunks,
                    (s.next_send + i) as u64,
                    #[trigger] said[i],
                    Ack::Received,
                    false,
                ) by {
                    if i > 0 {
                        assert(rest[i - 1] == said[i]);
                    }
                }
            }
            assert forall|i: int| 0 <= i < rest.len() && (forall|j: int|
                0 <= j < said.len() ==> protocol::text_error(#[trigger] said[j]) is None) implies protocol::text_error(
                #[trigger] rest[i],
            ) is None by {
                assert(protocol::text_error(said[i + 1]) is None);
            }
        } else {
            assert(protocol::text_error(said[0]) is None ==> !(protocol::text_error(said[0]) is Some));
        }
    }
}

/// A target that hears so many things hears one less after a text was sent.
pub proof fn lemma_freeze_leaves_more_room(
    d: DeskView,
    s: SessionView,
    said: Seq<char>,
    is_final: bool,
    times: int,
    now: u64,
    log: Seq<Reply>,
)
    requires
        desk::apart(d.links),
        s.wf(),
        times >= 1,
        hears(d, s.binding.target_device_id, times),
        steps::freeze(d, s, said, is_final, now, log).result is Ok,
        is_short(
            PayloadView::TextChunk {
                session_id: s.binding.session_id,
                sequence: s.next_send,
                context_token: s.binding.context_token,
                text: said,
                is_final,
            },
        ),
    ensures
        hears(steps::freeze(d, s, said, is_final, now, log).desk, s.binding.target_device_id, times - 1),
{
    broadcast use signs::group_signs;

    signs::lemma_grows_itself(d);
    reveal(steps::freeze);
}

/// A text that is sent adds its size to the texts.
pub proof fn lemma_total_of_freeze(d: DeskView, s: SessionView, said: Seq<char>, is_final: bool, now: u64, log: Seq<Reply>)
    requires
        desk::apart(d.links),
        s.wf(),
        steps::freeze(d, s, said, is_final, now, log).result is Ok,
    ensures
        session::total(steps::freeze(d, s, said, is_final, now, log).session.chunks) <= session::total(s.chunks)
            + text::size(said),
{
    reveal(steps::freeze);
    let p = PayloadView::TextChunk {
        session_id: s.binding.session_id,
        sequence: s.next_send,
        context_token: s.binding.context_token,
        text: said,
        is_final,
    };
    let sent = d.send(s.binding.target_device_id, p, log);
    let status = if sent.result is Ok {
        Ack::Received
    } else {
        Ack::NotApplied
    };
    let c = ChunkView { sequence: s.next_send, text: said, status, is_final };
    let chunks = session::placed(s.chunks, c);
    let frozen = SessionView { next_send: (s.next_send + 1) as u64, chunks, ..s };
    session_laws::lemma_request_stop(sent.desk, SessionView { phase: Phase::Paused, ..frozen }, now, log);
    session::lemma_slot(s.chunks, s.next_send);
    lemma_total_placed(s.chunks, session::slot(s.chunks, s.next_send) as int, c);
}

/// The texts together with another one at an index, or with one in place of another.
pub proof fn lemma_total_placed(chunks: Seq<ChunkView>, i: int, c: ChunkView)
    requires
        0 <= i <= chunks.len(),
    ensures
        session::total(chunks.insert(i, c)) == session::total(chunks) + text::size(c.text),
        i < chunks.len() ==> session::total(chunks.update(i, c)) <= session::total(chunks) + text::size(c.text),
    decreases chunks.len(),
{
    if i == chunks.len() {
        assert(chunks.insert(i, c).drop_last() =~= chunks);
    } else {
        lemma_total_placed(chunks.drop_last(), i, c);
        assert(chunks.insert(i, c).drop_last() =~= chunks.drop_last().insert(i, c));
        assert(chunks.insert(i, c).last() == chunks.last());
        if i < chunks.len() - 1 {
            assert(chunks.update(i, c).drop_last() =~= chunks.drop_last().update(i, c));
            assert(chunks.update(i, c).last() == chunks.last());
        } else {
            assert(chunks.update(i, c).drop_last() =~= chunks.drop_last());
        }
    }
}

/// What the recognizer hears goes into the text: what becomes final is kept and sent piece by
/// piece, with exactly those texts and in their order, and what stays open is the draft.
pub proof fn law_what_is_heard_is_sent_or_drafted(
    d: DeskView,
    s: SessionView,
    v: JsonView,
    start: u64,
    end: u64,
    until: u64,
    said: Seq<char>,
    now: u64,
    log: Seq<Reply>,
)
    requires
        desk::apart(d.links),
        s.wf(),
        v.member("start"@) == Some(JsonView::Unsigned(start)),
        v.member("end"@) == Some(JsonView::Unsigned(end)),
        v.member("finalized_until"@) == Some(JsonView::Unsigned(until)),
        v.member("text"@) == Some(JsonView::Text(said)),
    ensures
        ({
            let t = orders::obey(d, s, "apple_result"@, v, now, log);
            let may = s.binding.source_device_id == d.id && s.binding.input_mode == Mode::AppleLocal && (s.phase
                == Phase::Listening || s.phase == Phase::Finalizing) && !s.cancelled && !s.stopped;
            let o = s.stable.observe((start as i64) as int, (end as i64) as int, (until as i64) as int, said);
            &&& !may ==> refuses(d, s, t, "stale_input_callback"@)
            &&& may ==> t.session.stable == o.state
            &&& may && o.ready is Err ==> t.result is Err && t.desk == d && t.session == (SessionView {
                stable: o.state,
                ..s
            })
            &&& may && o.ready is Ok ==> {
                &&& t.session.draft == o.state.draft()
                &&& t.result is Ok ==> keeps_all(s, t.session, o.ready->Ok_0) && sends_all(
                    d,
                    t.desk,
                    s,
                    t.session,
                    o.ready->Ok_0,
                ) && shows(d, t) && t.result == Ok::<Answer, Seq<char>>(Answer::Done)
                &&& t.session == (SessionView {
                    stable: o.state,
                    draft: o.state.draft(),
                    chunks: t.session.chunks,
                    next_send: t.session.next_send,
                    held: t.session.held,
                    stop_requested: t.session.stop_requested,
                    finalizing: t.session.finalizing,
                    phase: t.session.phase,
                    ..s
                })
                &&& t.result is Ok && hears(d, s.binding.target_device_id, o.ready->Ok_0.len() as int) && (forall|i: int|
                    0 <= i < o.ready->Ok_0.len() ==> is_short(going_out(s, #[trigger] o.ready->Ok_0[i], i)))
                    ==> all_received(s, t.session, o.ready->Ok_0) && t.session == (SessionView {
                    stable: o.state,
                    draft: o.state.draft(),
                    chunks: t.session.chunks,
                    next_send: t.session.next_send,
                    ..s
                })
                &&& (forall|i: int|
                    0 <= i < o.ready->Ok_0.len() ==> protocol::text_error(#[trigger] o.ready->Ok_0[i]) is None)
                    && s.next_send + o.ready->Ok_0.len() <= MAX_SEQUENCE + 1 && session::total(s.chunks) + sizes(
                    o.ready->Ok_0,
                ) <= MAX_SESSION_TEXT ==> t.result is Ok
            }
        }),
{
    broadcast use signs::group_signs;

    signs::lemma_grows_itself(d);
    reveal(orders::obey);
    reveal(orders::apple_result);
    lemma_ops();
    let o = s.stable.observe((start as i64) as int, (end as i64) as int, (until as i64) as int, said);
    crate::stable::law_observe_moves_forward(
        s.stable,
        (start as i64) as int,
        (end as i64) as int,
        (until as i64) as int,
        said,
    );
    if o.ready is Ok {
        let after = SessionView { stable: o.state, draft: o.state.draft(), ..s };
        lemma_freezes_all(d, after, o.ready->Ok_0, now, log);
        let f = orders::freeze_all(d, after, o.ready->Ok_0, now, log);
        let t = orders::obey(d, s, "apple_result"@, v, now, log);
        if f.result is Ok && s.binding.source_device_id == d.id && s.binding.input_mode == Mode::AppleLocal
            && s.phase.spec_accepts_text() && !s.cancelled && !s.stopped {
            assert(keeps_all(s, f.session, o.ready->Ok_0));
            assert(sends_all(d, f.desk, after, f.session, o.ready->Ok_0));
            if forall|i: int|
                0 <= i < o.ready->Ok_0.len() ==> is_short(going_out(s, #[trigger] o.ready->Ok_0[i], i)) {
                assert forall|i: int| 0 <= i < o.ready->Ok_0.len() implies is_short(
                    going_out(after, #[trigger] o.ready->Ok_0[i], i),
                ) by {
                    assert(going_out(after, o.ready->Ok_0[i], i) == going_out(s, o.ready->Ok_0[i], i));
                }
                assert(hears(d, s.binding.target_device_id, o.ready->Ok_0.len() as int) ==> all_received(
                    after,
                    f.session,
                    o.ready->Ok_0,
                ));
            }
            assert(grows(f.desk, t.desk));
        }
    }
}

/// Where the source is reported to have stopped, or not, that is what is known of it; what is
/// left to confirm waits, and where nothing is, the session ends with the last number. The text
/// stays what it was.
pub proof fn law_a_report_of_the_source_counts(d: DeskView, s: SessionView, v: JsonView, now: u64, log: Seq<Reply>)
    requires
        desk::apart(d.links),
        s.wf(),
    ensures
        ({
            let t = orders::obey(d, s, "source_stopped"@, v, now, log);
            let verified = v.member("verified"@) == Some(JsonView::Bool(true));
            let waits = s.phase == Phase::Paused || s.phase == Phase::Unknown;
            let unconfirmed = s.binding.input_mode == Mode::DoubaoIme || s.draft.len() != 0;
            let ends = verified && !s.cancelled && !waits && !unconfirmed;
            let target = s.binding.target_device_id;
            let p = PayloadView::SessionState { session_id: s.binding.session_id, phase: t.session.phase };
            let q = PayloadView::SessionEnd {
                session_id: s.binding.session_id,
                last_sequence: (s.next_send - 1) as u64,
            };
            &&& s.binding.source_device_id != d.id ==> refuses(d, s, t, "invalid_role"@)
            &&& s.binding.source_device_id == d.id ==> {
                &&& t.result == Ok::<Answer, Seq<char>>(Answer::Done)
                &&& t.session == (SessionView {
                    stopped: verified,
                    finalizing: None,
                    phase: t.session.phase,
                    last_sequence: t.session.last_sequence,
                    ..s
                })
                &&& shows(d, t)
                &&& !ends ==> t.session.last_sequence == s.last_sequence && t.session.phase == (if !verified {
                    Phase::StopFailed
                } else if s.cancelled {
                    Phase::Cancelled
                } else if waits {
                    s.phase
                } else {
                    Phase::AwaitingConfirmation
                })
                &&& ends ==> {
                    &&& t.session.last_sequence == Some((s.next_send - 1) as u64)
                    &&& t.session.phase == Phase::Paused || sends(d, t.desk, target, q)
                    &&& hears(d, target, 1) && is_short(q) ==> t.session.phase == (if forall|k: int|
                        0 <= k < s.chunks.len() ==> (#[trigger] s.chunks[k]).status == Ack::Applied {
                        Phase::Done
                    } else {
                        Phase::Committing
                    })
                }
                &&& hears(d, target, 2) && is_short(p) ==> sends(d, t.desk, target, p)
            }
        }),
{
    broadcast use signs::group_signs;

    signs::lemma_grows_itself(d);
    reveal(orders::obey);
    reveal(orders::source_stopped);
    lemma_ops();
    let verified = v.flag_at("verified"@);
    let stopped = SessionView { stopped: verified, finalizing: None, ..s };
    lemma_ends(d, stopped, log);
    reveal(steps::end_source);
}


/// A text may be sent if it is not empty, not too long, and holds no control character but line
/// ends and tabs.
pub proof fn law_texts_that_may_be_sent(said: Seq<char>)
    ensures
        protocol::text_error(said) is None <==> said.len() > 0 && text::size(said) <= 16384 && forall|i: int|
            0 <= i < said.len() ==> {
                ||| #[trigger] said[i] == '\n'
                ||| said[i] == '\r'
                ||| said[i] == '\t'
                ||| 32 <= said[i] as u32 && !(127 <= said[i] as u32 && (said[i] as u32) < 160)
            },
{
    if protocol::has_unsafe_control(said) {
        let i = choose|i: int|
            0 <= i < said.len() && protocol::control(#[trigger] said[i]) && said[i] != '\n' && said[i] != '\r'
                && said[i] != '\t';
        assert(said[i] == said[i]);
    } else {
        assert forall|i: int| 0 <= i < said.len() implies {
            ||| #[trigger] said[i] == '\n'
            ||| said[i] == '\r'
            ||| said[i] == '\t'
            ||| 32 <= said[i] as u32 && !(127 <= said[i] as u32 && (said[i] as u32) < 160)
        } by {
            if said[i] != '\n' && said[i] != '\r' && said[i] != '\t' {
                assert(!protocol::control(said[i]));
            }
        }
    }
}

/// Where the program fails, the session pauses: a source is stopped, a target gives up what was
/// to be typed, and both the program and the other device hear of it.
pub proof fn law_a_failure_pauses_the_session(
    d: DeskView,
    s: SessionView,
    v: JsonView,
    code: Seq<char>,
    now: u64,
    log: Seq<Reply>,
)
    requires
        desk::apart(d.links),
        v.member("code"@) == Some(JsonView::Text(code)),
    ensures
        ({
            let t = orders::obey(d, s, "source_failed"@, v, now, log);
            let p = PayloadView::SessionPause { session_id: s.binding.session_id };
            let source = s.binding.source_device_id == d.id;
            &&& source || willing(log) ==> t.result == Ok::<Answer, Seq<char>>(Answer::Done)
            &&& t.result is Ok ==> {
                &&& t.session == (SessionView {
                    phase: Phase::Paused,
                    held: false,
                    stop_requested: s.stop_requested || (source && !s.stopped),
                    finalizing: if source && !s.stopped && !s.stop_requested {
                        Some(now)
                    } else {
                        s.finalizing
                    },
                    chunks: t.session.chunks,
                    inflight: t.session.inflight,
                    ..s
                })
                &&& source ==> t.session.inflight == s.inflight
                &&& tells(d, t.desk, EventView::Error { session_id: Some(s.binding.session_id), code })
                &&& shows(d, t)
                &&& source ==> t.session.stopped || t.session.stop_requested
                &&& source ==> t.session.chunks == s.chunks
                &&& source && !s.stopped && !s.stop_requested ==> tells(
                    d,
                    t.desk,
                    EventView::StopInput { session_id: s.binding.session_id },
                )
                &&& source && hears(d, s.binding.target_device_id, 2) && is_short(p) ==> sends(
                    d,
                    t.desk,
                    s.binding.target_device_id,
                    p,
                )
                &&& !source ==> gives_up_the_rest(d, s, t)
            }
        }),
{
    broadcast use signs::group_signs;

    signs::lemma_grows_itself(d);
    reveal(orders::obey);
    reveal(orders::source_failed);
    lemma_ops();
    lemma_stops(d, s, now, log);
    lemma_pauses(d, s, log);
    let t = orders::obey(d, s, "source_failed"@, v, now, log);
    if s.binding.source_device_id == d.id {
        reveal(steps::request_stop);
    } else {
        let u = steps::pause_receiver(d, s, log);
        if u.result is Ok {
            assert(grows(u.desk, t.desk));
            lemma_gives_up_more(d, s, u, t.desk);
            assert(t.session.chunks == u.session.chunks);
            lemma_gives_up_so(d, s, u, t);
        }
    }
}

/// What was given up by one step is given up by another with the same pieces.
pub proof fn lemma_gives_up_so<T, U>(d: DeskView, s: SessionView, t: Turn<T>, u: Turn<U>)
    requires
        gives_up_the_rest(d, s, t),
        grows(t.desk, u.desk),
        u.session.chunks == t.session.chunks,
        u.session.inflight == t.session.inflight,
    ensures
        gives_up_the_rest(d, s, u),
{
    broadcast use signs::group_signs;

    signs::lemma_grows_itself(d);
    assert forall|k: int|
        #![trigger u.session.chunks[k]]
        #![trigger s.chunks[k]]
        0 <= k < s.chunks.len() implies if is_loose(s, k) {
        gives_up(d, s, u.desk, u.session, k, s.chunks.len() as int)
    } else {
        u.session.chunks[k] == s.chunks[k]
    } by {
        assert(t.session.chunks[k] == u.session.chunks[k]);
        if is_loose(s, k) {
            assert(gives_up(d, s, t.desk, t.session, k, s.chunks.len() as int));
        }
    }
}

/// Whether some piece may or may not have been typed.
pub open spec fn doubtful(chunks: Seq<ChunkView>) -> bool {
    exists|k: int| 0 <= k < chunks.len() && (#[trigger] chunks[k]).status == Ack::Unknown
}

/// The text that a person confirms is the last piece: exactly that text is kept and sent,
/// whatever the draft was, and then the session ends with its number. An empty text adds no
/// piece.
pub proof fn law_the_confirmed_text_is_sent(
    d: DeskView,
    s: SessionView,
    v: JsonView,
    said: Seq<char>,
    now: u64,
    log: Seq<Reply>,
)
    requires
        desk::apart(d.links),
        s.wf(),
        v.member("text"@) == Some(JsonView::Text(said)),
    ensures
        ({
            let t = orders::obey(d, s, "confirm"@, v, now, log);
            let may = s.binding.source_device_id == d.id && !s.cancelled && !s.frozen && s.stopped && !doubtful(s.chunks)
                && (s.phase == Phase::AwaitingConfirmation || s.phase == Phase::Paused);
            let fits = s.next_send <= MAX_SEQUENCE && session::total(s.chunks) + text::size(said) <= MAX_SESSION_TEXT;
            let target = s.binding.target_device_id;
            let p = PayloadView::TextChunk {
                session_id: s.binding.session_id,
                sequence: s.next_send,
                context_token: s.binding.context_token,
                text: said,
                is_final: true,
            };
            let q = PayloadView::SessionEnd {
                session_id: s.binding.session_id,
                last_sequence: (t.session.next_send - 1) as u64,
            };
            &&& !may ==> refuses(d, s, t, "unsafe_confirmation"@)
            &&& may && said.len() != 0 && protocol::text_error(said) is Some ==> refuses(
                d,
                s,
                t,
                protocol::text_error(said)->0,
            )
            &&& may && said.len() == 0 ==> {
                &&& t.result is Ok
                &&& t.session.chunks == s.chunks
                &&& t.session.next_send == s.next_send
                &&& hears(d, target, 1) && is_short(q) ==> sends(d, t.desk, target, q)
            }
            &&& may && said.len() != 0 && protocol::text_error(said) is None && fits ==> t.result is Ok
            &&& may && said.len() != 0 && t.result is Ok ==> {
                &&& t.session.next_send == s.next_send + 1
                &&& keeps(t.session.chunks, s.next_send, said, Ack::Received, true) || keeps(
                    t.session.chunks,
                    s.next_send,
                    said,
                    Ack::NotApplied,
                    true,
                )
                &&& others_stay(s.chunks, t.session.chunks, s.next_send)
                &&& keeps(t.session.chunks, s.next_send, said, Ack::Received, true) ==> sends(d, t.desk, target, p)
                &&& hears(d, target, 1) && is_short(p) ==> keeps(
                    t.session.chunks,
                    s.next_send,
                    said,
                    Ack::Received,
                    true,
                )
                &&& hears(d, target, 2) && is_short(p) && is_short(q) ==> t.session.phase == Phase::Committing
                    && sends(d, t.desk, target, q)
            }
            &&& may && t.result is Ok ==> {
                &&& t.result == Ok::<Answer, Seq<char>>(Answer::Done)
                &&& t.session.frozen
                &&& t.session.draft.len() == 0
                &&& shows(d, t)
                &&& t.session == (SessionView {
                    frozen: true,
                    draft: t.session.draft,
                    phase: t.session.phase,
                    chunks: t.session.chunks,
                    next_send: t.session.next_send,
                    last_sequence: t.session.last_sequence,
                    held: t.session.held,
                    ..s
                })
                &&& t.session.phase == Phase::Paused || t.session.phase == Phase::Committing || t.session.phase
                    == Phase::Done
                &&& t.session.phase == Phase::Done ==> forall|k: int|
                    0 <= k < t.session.chunks.len() ==> (#[trigger] t.session.chunks[k]).status == Ack::Applied
                &&& t.session.phase != Phase::Paused ==> t.session.last_sequence == Some(
                    (t.session.next_send - 1) as u64,
                ) && sends(d, t.desk, target, q)
            }
        }),
{
    broadcast use signs::group_signs;

    signs::lemma_grows_itself(d);
    reveal(orders::obey);
    reveal(orders::confirm);
    lemma_ops();
    assert(doubtful(s.chunks) == session::any_unknown(s.chunks));
    let confirmed = SessionView { frozen: true, phase: Phase::Committing, draft: seq![], ..s };
    lemma_ends(d, confirmed, log);
    law_a_text_is_sent_as_it_is(d, confirmed, said, true, now, log);
    let f = steps::freeze(d, confirmed, said, true, now, log);
    if f.result is Ok {
        lemma_ends(f.desk, f.session, log);
        let p = PayloadView::TextChunk {
            session_id: s.binding.session_id,
            sequence: s.next_send,
            context_token: s.binding.context_token,
            text: said,
            is_final: true,
        };
        let target = s.binding.target_device_id;
        if hears(d, target, 2) && is_short(p) {
            assert(keeps(f.session.chunks, s.next_send, said, Ack::Received, true));
            lemma_freeze_leaves_room(d, confirmed, said, true, now, log);
            let j = choose|j: int|
                0 <= j < f.session.chunks.len() && f.session.chunks[j] == (ChunkView {
                    sequence: s.next_send,
                    text: said,
                    status: Ack::Received,
                    is_final: true,
                });
            assert(f.session.chunks[j].status != Ack::Applied);
        }
    }
}

/// A target that hears two things hears one more after a text was sent.
pub proof fn lemma_freeze_leaves_room(d: DeskView, s: SessionView, said: Seq<char>, is_final: bool, now: u64, log: Seq<Reply>)
    requires
        desk::apart(d.links),
        s.wf(),
        hears(d, s.binding.target_device_id, 2),
        steps::freeze(d, s, said, is_final, now, log).result is Ok,
        is_short(
            PayloadView::TextChunk {
                session_id: s.binding.session_id,
                sequence: s.next_send,
                context_token: s.binding.context_token,
                text: said,
                is_final,
            },
        ),
    ensures
        hears(steps::freeze(d, s, said, is_final, now, log).desk, s.binding.target_device_id, 1),
{
    broadcast use signs::group_signs;

    signs::lemma_grows_itself(d);
    reveal(steps::freeze);
}

/// A person's word that the source has stopped is taken: the text waits to be confirmed.
pub proof fn law_a_person_may_say_that_it_stopped(d: DeskView, s: SessionView, v: JsonView, now: u64, log: Seq<Reply>)
    ensures
        ({
            let t = orders::obey(d, s, "confirm_stopped"@, v, now, log);
            &&& s.binding.source_device_id != d.id ==> refuses(d, s, t, "invalid_role"@)
            &&& s.binding.source_device_id == d.id ==> {
                &&& t.result == Ok::<Answer, Seq<char>>(Answer::Done)
                &&& t.session == (SessionView {
                    stopped: true,
                    finalizing: None,
                    phase: if s.cancelled {
                        Phase::Cancelled
                    } else {
                        Phase::AwaitingConfirmation
                    },
                    ..s
                })
                &&& shows(d, t)
            }
        }),
{
    broadcast use signs::group_signs;

    signs::lemma_grows_itself(d);
    reveal(orders::obey);
    lemma_ops();
}

/// When the key is let go, the source is asked to stop: the program is told to stop listening
/// where it listens here, and the source where it listens there.
pub proof fn law_letting_go_stops_the_source(d: DeskView, s: SessionView, v: JsonView, now: u64, log: Seq<Reply>)
    requires
        desk::apart(d.links),
    ensures
        ({
            let t = orders::obey(d, s, "stop"@, v, now, log);
            let p = PayloadView::SessionStop { session_id: s.binding.session_id };
            let source = s.binding.source_device_id == d.id;
            &&& !t.session.held
            &&& t.session.chunks == s.chunks && t.session.draft == s.draft
            &&& source ==> t.result == Ok::<Answer, Seq<char>>(Answer::Done)
            &&& source && (s.stopped || s.stop_requested) ==> t.desk == d && t.session == (SessionView {
                held: false,
                ..s
            })
            &&& source && !s.stopped && !s.stop_requested ==> stops(d, s, t, now) && shows(d, t) && t.session == (
            SessionView {
                held: false,
                stop_requested: true,
                finalizing: Some(now),
                phase: if s.phase == Phase::Paused || s.phase == Phase::Unknown || s.phase == Phase::Cancelled {
                    s.phase
                } else {
                    Phase::Finalizing
                },
                ..s
            })
            &&& !source && hears(d, s.binding.source_device_id, 1) && is_short(p) ==> t.result is Ok
            &&& !source && t.result is Ok ==> {
                &&& t.result == Ok::<Answer, Seq<char>>(Answer::Done)
                &&& sends(d, t.desk, s.binding.source_device_id, p)
                &&& shows(d, t)
                &&& t.session == (SessionView {
                    held: false,
                    phase: if s.phase == Phase::Done || s.phase == Phase::Cancelled {
                        s.phase
                    } else {
                        Phase::Finalizing
                    },
                    ..s
                })
            }
        }),
{
    broadcast use signs::group_signs;

    signs::lemma_grows_itself(d);
    reveal(orders::obey);
    reveal(orders::stop);
    lemma_ops();
    lemma_stops(d, SessionView { held: false, ..s }, now, log);
}

/// A session that is cancelled is cancelled here and there: the microphone is let go, or what was
/// to be typed is given up, and the other device is told.
pub proof fn law_cancelling_reaches_both_sides(d: DeskView, s: SessionView, v: JsonView, now: u64, log: Seq<Reply>)
    requires
        desk::apart(d.links),
        !s.cancelled,
    ensures
        ({
            let t = orders::obey(d, s, "cancel"@, v, now, log);
            let p = PayloadView::SessionCancel { session_id: s.binding.session_id };
            let source = s.binding.source_device_id == d.id;
            &&& source || willing(log) ==> t.result == Ok::<Answer, Seq<char>>(Answer::Done)
            &&& t.session == (SessionView {
                cancelled: true,
                phase: Phase::Cancelled,
                held: false,
                stop_requested: s.stop_requested || (source && !s.stopped),
                finalizing: if source && !s.stopped {
                    Some(now)
                } else {
                    s.finalizing
                },
                chunks: t.session.chunks,
                inflight: t.session.inflight,
                ..s
            })
            &&& source ==> t.session.inflight == s.inflight
            &&& source ==> t.session.chunks == s.chunks && t.session.stopped == s.stopped
            &&& source && !s.stopped ==> tells(
                d,
                t.desk,
                EventView::CancelInput { session_id: s.binding.session_id },
            ) && t.session.stop_requested && t.session.finalizing == Some(now)
            &&& source && hears(d, s.binding.target_device_id, 1) && is_short(p) ==> sends(
                d,
                t.desk,
                s.binding.target_device_id,
                p,
            )
            &&& !source && t.result is Ok ==> gives_up_the_rest(d, s, t)
            &&& !source && t.result is Ok && hears(d, s.binding.source_device_id, s.chunks.len() as int + 1)
                && is_short(p) ==> sends(d, t.desk, s.binding.source_device_id, p)
            &&& t.result is Ok ==> shows(d, t)
        }),
{
    broadcast use signs::group_signs;

    signs::lemma_grows_itself(d);
    reveal(orders::obey);
    lemma_ops();
    lemma_cancels(d, s, true, now, log);
    let cancelled = SessionView { cancelled: true, held: false, phase: Phase::Cancelled, ..s };
    if s.binding.source_device_id != d.id {
        lemma_pauses(d, cancelled, log);
        lemma_pause_leaves_room(d, cancelled, s.binding.source_device_id, log);
        reveal(steps::cancel);
    }
}

/// Where the place for the text is lost, what was to be typed is given up, and the source hears
/// that the session pauses.
pub proof fn law_a_lost_place_pauses_the_session(d: DeskView, s: SessionView, v: JsonView, now: u64, log: Seq<Reply>)
    requires
        desk::apart(d.links),
    ensures
        ({
            let t = orders::obey(d, s, "focus_invalid"@, v, now, log);
            let p = PayloadView::SessionPause { session_id: s.binding.session_id };
            &&& s.binding.source_device_id == d.id ==> refuses(d, s, t, "invalid_role"@)
            &&& s.binding.source_device_id != d.id ==> {
                &&& t.session == (SessionView {
                    phase: if s.phase == Phase::Done || s.phase == Phase::Cancelled {
                        s.phase
                    } else {
                        Phase::Paused
                    },
                    chunks: t.session.chunks,
                    inflight: t.session.inflight,
                    ..s
                })
                &&& t.result is Ok ==> gives_up_the_rest(d, s, t) && shows(d, t) && sends(
                    d,
                    t.desk,
                    s.binding.source_device_id,
                    p,
                ) && t.result == Ok::<Answer, Seq<char>>(Answer::Done)
                &&& willing(log) && hears(d, s.binding.source_device_id, s.chunks.len() as int + 1) && is_short(p)
                    ==> t.result is Ok
            }
        }),
{
    broadcast use signs::group_signs;

    signs::lemma_grows_itself(d);
    reveal(orders::obey);
    reveal(orders::focus_invalid);
    lemma_ops();
    lemma_pauses(d, s, log);
    let t = orders::obey(d, s, "focus_invalid"@, v, now, log);
    let u = steps::pause_receiver(d, s, log);
    lemma_pause_leaves_room(d, s, s.binding.source_device_id, log);
    if s.binding.source_device_id != d.id && t.result is Ok {
        assert(grows(u.desk, t.desk));
        lemma_gives_up_so(d, s, u, t);
    }
}

/// To give up pieces tells the source at most one thing for each.
pub proof fn lemma_give_up_leaves_room(d: DeskView, s: SessionView, i: nat, peer: Seq<char>, times: int, log: Seq<Reply>)
    requires
        i <= s.chunks.len(),
        times >= 0,
    ensures
        hears(d, peer, s.chunks.len() - i + times) ==> hears(steps::give_up_from(d, s, i, log).desk, peer, times),
    decreases s.chunks.len() - i,
{
    broadcast use signs::group_signs;

    signs::lemma_grows_itself(d);
    if i < s.chunks.len() {
        let c = s.chunks[i as int];
        let n = s.chunks.len() - i + times;
        signs::lemma_hears_fewer(d, peer, n, n - 1);
        if c.status == Ack::Received && s.inflight != Some((c.sequence, true)) {
            let given_up = SessionView { chunks: session::marked(s.chunks, i as int, Ack::NotApplied), ..s };
            let recorded = d.record(s.binding.session_id, c.sequence, Ack::NotApplied, log);
            let ack = PayloadView::ChunkAck {
                session_id: s.binding.session_id,
                sequence: c.sequence,
                ack_status: Ack::NotApplied,
            };
            let sent = recorded.desk.send(s.binding.source_device_id, ack, log);
            if hears(d, peer, n) {
                signs::lemma_hears_still(d, recorded.desk, peer, n);
                signs::lemma_hears_after_send(recorded.desk, peer, n, s.binding.source_device_id, ack, log);
                signs::lemma_hears_fewer(recorded.desk, peer, n, times);
            }
            lemma_give_up_leaves_room(sent.desk, given_up, i + 1, peer, times, log);
        } else {
            lemma_give_up_leaves_room(d, s, i + 1, peer, times, log);
        }
    }
}

/// A device that hears one thing more than there are pieces hears one when the target has
/// paused.
pub proof fn lemma_pause_leaves_room(d: DeskView, s: SessionView, peer: Seq<char>, log: Seq<Reply>)
    ensures
        hears(d, peer, s.chunks.len() as int + 1) ==> hears(steps::pause_receiver(d, s, log).desk, peer, 1),
{
    reveal(steps::pause_receiver);
    let pausing = SessionView {
        phase: if s.phase.spec_terminal() {
            s.phase
        } else {
            Phase::Paused
        },
        ..s
    };
    lemma_give_up_leaves_room(d, pausing, 0, peer, 1, log);
}


// ---------------------------------------------------------------- typing

/// Whether text may be typed in a session now.
pub open spec fn may_type(s: SessionView) -> bool {
    &&& !s.cancelled
    &&& s.phase == Phase::Ready || s.phase == Phase::Listening || s.phase == Phase::Finalizing || s.phase
        == Phase::AwaitingConfirmation || s.phase == Phase::Committing
}

/// The event that has the piece at an index typed.
pub open spec fn typing(s: SessionView, k: int) -> EventView {
    EventView::Inject {
        session_id: s.binding.session_id,
        sequence: s.chunks[k].sequence,
        text: s.chunks[k].text,
        context_token: s.binding.context_token,
    }
}

/// Whether the piece at an index is the next to be typed, and has come.
pub open spec fn is_next(s: SessionView, k: int) -> bool {
    &&& is_at(s.chunks, s.next_receive, k)
    &&& s.chunks[k].status == Ack::Received
}

/// Whether a step, of a session that was and of one that is, has only that typed which it should:
/// one piece at most, and that the next one that has come, with the text that came, in the place
/// of the session, while text may be typed and no other piece is under way. That piece is then
/// under way, and none is under way anew that was not had typed.
pub open spec fn types_right(d: DeskView, s: SessionView, e: DeskView, t: SessionView) -> bool {
    &&& forall|i: int|
        d.events.len() <= i < e.events.len() && (#[trigger] e.events[i]) is Inject ==> {
            &&& may_type(t)
            &&& t.inflight == Some((t.next_receive, false))
            &&& s.inflight != t.inflight
            &&& exists|k: int| #[trigger] is_next(t, k) && e.events[i] == typing(t, k)
        }
    &&& forall|i: int, j: int|
        d.events.len() <= i < j < e.events.len() ==> !((#[trigger] e.events[i]) is Inject && (
        #[trigger] e.events[j]) is Inject)
    &&& t.inflight != s.inflight ==> (t.inflight matches Some(f) ==> f.1 || (f.0 == t.next_receive && exists|k: int|
        #[trigger] is_next(t, k) && tells(d, e, typing(t, k))))
}

/// To have the next piece typed has it typed, with its text.
pub proof fn lemma_pump_types(d: DeskView, s: SessionView)
    requires
        s.wf(),
    ensures
        ({
            let t = steps::pump(d, s);
            &&& grows(d, t.desk)
            &&& types_right(d, s, t.desk, t.session)
            &&& t.result is Ok
            &&& t.session == (SessionView { inflight: t.session.inflight, ..s })
            &&& t.desk.links == d.links
            &&& t.desk.asked == d.asked
            &&& forall|k: int| #[trigger]
                is_next(s, k) && may_type(s) && s.inflight is None ==> t.session.inflight == Some(
                    (s.next_receive, false),
                ) && tells(d, t.desk, typing(s, k))
            &&& !may_type(s) || s.inflight is Some || !(exists|k: int| #[trigger] is_next(s, k)) ==> t.desk == d
                && t.session == s
            &&& t.session.inflight == s.inflight || t.session.inflight == Some((s.next_receive, false))
        }),
{
    broadcast use signs::group_signs;

    signs::lemma_grows_itself(d);
    reveal(steps::pump);
    lemma_holds(s.chunks, s.next_receive);
    let t = steps::pump(d, s);
    assert(may_type(s) == s.can_inject());
    if session::holds(s.chunks, s.next_receive) {
        let k = session::slot(s.chunks, s.next_receive) as int;
        assert(is_at(s.chunks, s.next_receive, k));
        if s.can_inject() && s.inflight is None && session::piece(s.chunks, s.next_receive).status == Ack::Received {
            assert(is_next(s, k) && is_next(t.session, k));
            assert(typing(s, k) == typing(t.session, k));
            assert forall|j: int| #[trigger] is_next(s, j) implies j == k by {
                lemma_is_at(s.chunks, s.next_receive, j);
            }
            assert forall|i: int|
                d.events.len() <= i < t.desk.events.len() && (#[trigger] t.desk.events[i]) is Inject implies {
                &&& may_type(t.session)
                &&& t.session.inflight == Some((t.session.next_receive, false))
                &&& s.inflight != t.session.inflight
                &&& exists|k: int| #[trigger] is_next(t.session, k) && t.desk.events[i] == typing(t.session, k)
            } by {
                assert(t.desk.events[i] == typing(t.session, k));
            }
        } else {
            assert forall|j: int| #[trigger] is_next(s, j) implies j == k by {
                lemma_is_at(s.chunks, s.next_receive, j);
            }
        }
    }
}

/// A step that has nothing typed, and nothing anew under way, types what it should.
pub proof fn lemma_types_none_is_right(d: DeskView, s: SessionView, e: DeskView, t: SessionView)
    requires
        types_none(d, e),
        t.inflight == s.inflight || (t.inflight matches Some(f) ==> f.1),
    ensures
        types_right(d, s, e, t),
{
    reveal(signs::types_none);
}

/// What is typed after nothing was is typed as it should be.
pub proof fn lemma_types_right_after(d: DeskView, s: SessionView, m: DeskView, u: SessionView, e: DeskView, t: SessionView)
    requires
        grows(d, m),
        types_none(d, m),
        grows(m, e),
        types_right(m, u, e, t),
        u.inflight == s.inflight || (u.inflight is None && t.inflight != s.inflight),
    ensures
        types_right(d, s, e, t),
{
    broadcast use signs::group_signs;

    signs::lemma_grows_itself(d);
    reveal(grows);
    reveal(signs::types_none);
    assert forall|i: int| d.events.len() <= i < m.events.len() implies !((#[trigger] e.events[i]) is Inject) by {
        assert(e.events[i] == m.events[i]);
    }
}

/// The program may type the piece that it was given, once, while text may be typed; any other it
/// may not, and asking changes nothing.
pub proof fn law_a_piece_is_claimed_once(
    d: DeskView,
    s: SessionView,
    v: JsonView,
    number: u64,
    now: u64,
    log: Seq<Reply>,
)
    requires
        v.member("sequence"@) == Some(JsonView::Unsigned(number)),
    ensures
        ({
            let t = orders::obey(d, s, "claim_injection"@, v, now, log);
            let again = orders::obey(t.desk, t.session, "claim_injection"@, v, now, log);
            let may = s.binding.source_device_id != d.id && may_type(s) && s.inflight == Some((number, false));
            &&& t.desk == d
            &&& t.result == Ok::<Answer, Seq<char>>(Answer::Allowed(may))
            &&& may ==> t.session == (SessionView { inflight: Some((number, true)), ..s })
            &&& !may ==> t.session == s
            &&& again.result == Ok::<Answer, Seq<char>>(Answer::Allowed(false))
        }),
{
    reveal(orders::obey);
    lemma_ops();
    assert(may_type(s) == s.can_inject());
}

/// What the program says of the piece that is under way is what is known of it, here, in the
/// journal and on the source; what cannot be recorded is not known. A piece that was typed makes
/// way for the next, which is had typed if it has come; any other result holds the rest.
pub proof fn law_the_result_of_typing_counts(
    d: DeskView,
    s: SessionView,
    v: JsonView,
    number: u64,
    k: int,
    said: Ack,
    now: u64,
    log: Seq<Reply>,
)
    requires
        desk::apart(d.links),
        s.wf(),
        v.member("sequence"@) == Some(JsonView::Unsigned(number)),
        v.member("status"@) == Some(JsonView::Text(protocol::ack_name(said))),
        is_at(s.chunks, number, k),
    ensures
        ({
            let t = orders::obey(d, s, "injection_result"@, v, now, log);
            let may = s.binding.target_device_id == d.id && (s.inflight matches Some(f) && f.0 == number) && said
                != Ack::Received;
            let known = t.session.chunks[k].status;
            let ack = PayloadView::ChunkAck {
                session_id: s.binding.session_id,
                sequence: number,
                ack_status: known,
            };
            let last = s.last_sequence matches Some(n) && t.session.next_receive == n + 1;
            &&& !may ==> refuses(d, s, t, "invalid_injection_receipt"@)
            &&& may ==> {
                &&& t.result == Ok::<Answer, Seq<char>>(Answer::Done)
                &&& known == said || known == Ack::Unknown
                &&& willing(log) ==> known == said
                &&& t.session.chunks == s.chunks.update(k, ChunkView { status: known, ..s.chunks[k] })
                &&& records(d, t.desk, s.binding.session_id, number, said)
                &&& hears(d, s.binding.source_device_id, 1) && is_short(ack) ==> sends(
                    d,
                    t.desk,
                    s.binding.source_device_id,
                    ack,
                )
                &&& t.session.next_receive == (if known == Ack::Applied {
                    number + 1
                } else {
                    number as int
                })
                &&& t.session == (SessionView {
                    chunks: t.session.chunks,
                    next_receive: t.session.next_receive,
                    inflight: t.session.inflight,
                    phase: t.session.phase,
                    ..s
                })
                &&& t.session.phase == (if s.cancelled {
                    s.phase
                } else if last && !doubtful(t.session.chunks) {
                    Phase::Done
                } else if known == Ack::Applied {
                    s.phase
                } else if known == Ack::Unknown {
                    Phase::Unknown
                } else {
                    Phase::Paused
                })
                &&& tells(d, t.desk, desk::snapshot_of(SessionView { inflight: None, ..t.session }))
                &&& known == Ack::Applied && may_type(t.session) ==> forall|j: int| #[trigger]
                    is_next(t.session, j) ==> t.session.inflight == Some((t.session.next_receive, false)) && tells(
                        d,
                        t.desk,
                        typing(t.session, j),
                    )
                &&& known != Ack::Applied ==> t.session.inflight is None
            }
        }),
{
    broadcast use signs::group_signs;

    signs::lemma_grows_itself(d);
    reveal(orders::obey);
    reveal(steps::injection_result);
    reveal(steps::settled);
    lemma_ops();
    protocol::lemma_ack_names(said);
    assert(orders::status_of(v) == Some(said));
    lemma_is_at(s.chunks, number, k);
    let t = orders::obey(d, s, "injection_result"@, v, now, log);
    let may = s.binding.target_device_id == d.id && (s.inflight matches Some(f) && f.0 == number) && said
        != Ack::Received;
    if may {
        let recorded = d.record(s.binding.session_id, number, said, log);
        let status = if recorded.result is Ok {
            said
        } else {
            Ack::Unknown
        };
        lemma_marked_is_of_one(s.chunks, k, status);
        let marked = SessionView {
            chunks: session::marked(s.chunks, k, status),
            inflight: None,
            next_receive: if status == Ack::Applied {
                (s.next_receive + 1) as u64
            } else {
                s.next_receive
            },
            phase: if status == Ack::Applied || s.cancelled {
                s.phase
            } else if status == Ack::Unknown {
                Phase::Unknown
            } else {
                Phase::Paused
            },
            ..s
        };
        let ack = PayloadView::ChunkAck { session_id: s.binding.session_id, sequence: number, ack_status: status };
        let sent = recorded.desk.send(s.binding.source_device_id, ack, log);
        let finished = steps::finish_receiver(marked);
        assert(doubtful(marked.chunks) == session::any_unknown(marked.chunks));
        let shown = sent.desk.snapshot(finished);
        lemma_pump_types(shown, finished);
        assert(t.session.chunks == marked.chunks);
        assert(SessionView { inflight: None, ..t.session } == finished);
        assert(grows(recorded.desk, sent.desk) && grows(sent.desk, shown) && grows(shown, t.desk));
        assert forall|j: int| #[trigger] is_next(t.session, j) && known_applied(status, t.session) implies t.session.inflight == Some(
            (t.session.next_receive, false),
        ) && tells(d, t.desk, typing(t.session, j)) by {
            assert(is_next(finished, j));
            assert(typing(finished, j) == typing(t.session, j));
        }
    }
}

/// Whether a piece was typed, and more may be.
spec fn known_applied(status: Ack, s: SessionView) -> bool {
    status == Ack::Applied && may_type(s)
}

/// A new place for the text is told to the source as it was given; then the pieces that were not
/// typed may come again, and no others.
pub proof fn law_a_new_place_lets_pieces_come_again(
    d: DeskView,
    s: SessionView,
    v: JsonView,
    token: Seq<char>,
    app: Seq<char>,
    now: u64,
    log: Seq<Reply>,
)
    requires
        desk::apart(d.links),
        v.member("context_token"@) == Some(JsonView::Text(token)),
        v.member("target_app"@) == Some(JsonView::Text(app)),
    ensures
        ({
            let t = orders::obey(d, s, "resume"@, v, now, log);
            let may = s.binding.source_device_id != d.id && !s.cancelled && !doubtful(s.chunks) && s.inflight is None;
            let new = ids::id_parsed(token) is Some && ids::id_parsed(token) != Some(0u128) && token
                != s.binding.context_token;
            let p = PayloadView::SessionResume {
                session_id: s.binding.session_id,
                context_token: token,
                target_app: app,
            };
            &&& !may ==> refuses(d, s, t, "unsafe_resume"@)
            &&& may && !new ==> refuses(d, s, t, "invalid_context"@)
            &&& may && new ==> {
                &&& t.session == (SessionView {
                    binding: BindingView { context_token: token, target_app: app, ..s.binding },
                    retry_allowed: t.session.retry_allowed,
                    phase: Phase::Committing,
                    ..s
                })
                &&& forall|n: u64| #[trigger]
                    t.session.retry_allowed.contains(n) <==> exists|k: int| #[trigger]
                        is_at(s.chunks, n, k) && s.chunks[k].status == Ack::NotApplied
                &&& t.result is Ok ==> t.result == Ok::<Answer, Seq<char>>(Answer::Done) && shows(d, t) && sends(
                    d,
                    t.desk,
                    s.binding.source_device_id,
                    p,
                )
                &&& hears(d, s.binding.source_device_id, 1) && is_short(p) ==> t.result is Ok
            }
        }),
{
    broadcast use signs::group_signs;

    signs::lemma_grows_itself(d);
    reveal(orders::obey);
    reveal(orders::resume);
    lemma_ops();
    assert(doubtful(s.chunks) == session::any_unknown(s.chunks));
    assert forall|n: u64| #[trigger]
        session::not_applied(s.chunks).contains(n) <==> exists|k: int| #[trigger]
            is_at(s.chunks, n, k) && s.chunks[k].status == Ack::NotApplied by {
        lemma_not_applied(s.chunks, n);
    }
}

/// The numbers of the pieces that were not typed are theirs.
pub proof fn lemma_not_applied(chunks: Seq<ChunkView>, n: u64)
    ensures
        session::not_applied(chunks).contains(n) <==> exists|k: int| #[trigger]
            is_at(chunks, n, k) && chunks[k].status == Ack::NotApplied,
    decreases chunks.len(),
{
    if chunks.len() > 0 {
        let rest = chunks.drop_last();
        lemma_not_applied(rest, n);
        if exists|k: int| #[trigger] is_at(rest, n, k) && rest[k].status == Ack::NotApplied {
            let k = choose|k: int| #[trigger] is_at(rest, n, k) && rest[k].status == Ack::NotApplied;
            assert(is_at(chunks, n, k) && chunks[k].status == Ack::NotApplied);
        }
        if exists|k: int| #[trigger] is_at(chunks, n, k) && chunks[k].status == Ack::NotApplied {
            let k = choose|k: int| #[trigger] is_at(chunks, n, k) && chunks[k].status == Ack::NotApplied;
            if k < rest.len() {
                assert(is_at(rest, n, k) && rest[k].status == Ack::NotApplied);
            }
        }
        if chunks.last().status == Ack::NotApplied && chunks.last().sequence == n {
            assert(is_at(chunks, n, chunks.len() - 1));
        }
    }
}

/// Whether there is a piece with a number, and it was typed.
pub open spec fn was_typed(chunks: Seq<ChunkView>, number: u64) -> bool {
    exists|k: int| #[trigger] is_at(chunks, number, k) && chunks[k].status == Ack::Applied
}

/// Whether the pieces from one number up to another were typed, and there is none at that one
/// that was.
pub open spec fn typed_up_to(chunks: Seq<ChunkView>, from: u64, to: u64) -> bool {
    &&& from <= to <= MAX_SEQUENCE + 1
    &&& forall|n: u64| from <= n < to ==> #[trigger] was_typed(chunks, n)
    &&& to <= MAX_SEQUENCE ==> forall|k: int| #[trigger] is_at(chunks, to, k) ==> chunks[k].status != Ack::Applied
}

/// The first open number comes after what was typed in a row.
pub proof fn lemma_typed_up_to(chunks: Seq<ChunkView>, from: u64)
    requires
        session::ordered(chunks),
        from <= MAX_SEQUENCE + 1,
    ensures
        typed_up_to(chunks, from, session::first_open(chunks, from)),
    decreases MAX_SEQUENCE + 1 - from,
{
    session::lemma_first_open(chunks, from);
    let to = session::first_open(chunks, from);
    if from <= MAX_SEQUENCE && session::holds(chunks, from) && session::piece(chunks, from).status == Ack::Applied {
        lemma_typed_up_to(chunks, (from + 1) as u64);
        assert forall|n: u64| from <= n < to implies #[trigger] was_typed(chunks, n) by {
            if n == from {
                assert(is_at(chunks, from, session::slot(chunks, from) as int));
            }
        }
    } else {
        assert forall|k: int| #[trigger] is_at(chunks, to, k) && to <= MAX_SEQUENCE implies chunks[k].status
            != Ack::Applied by {
            lemma_is_at(chunks, to, k);
        }
    }
}

/// What a person says of a piece in doubt settles it: typed if they say so, and else not typed.
/// That is what is known of it here, in the journal and on the source. What comes next is the
/// first piece that was not typed.
pub proof fn law_a_person_settles_a_doubt(
    d: DeskView,
    s: SessionView,
    v: JsonView,
    number: u64,
    k: int,
    now: u64,
    log: Seq<Reply>,
)
    requires
        desk::apart(d.links),
        s.wf(),
        v.member("sequence"@) == Some(JsonView::Unsigned(number)),
        is_at(s.chunks, number, k),
    ensures
        ({
            let t = orders::obey(d, s, "resolve_unknown"@, v, now, log);
            let status = if v.member("applied"@) == Some(JsonView::Bool(true)) {
                Ack::Applied
            } else {
                Ack::NotApplied
            };
            let ack = PayloadView::ChunkAck {
                session_id: s.binding.session_id,
                sequence: number,
                ack_status: status,
            };
            let may = s.binding.source_device_id != d.id && s.inflight is None;
            &&& !may ==> refuses(d, s, t, "resolve_on_target"@)
            &&& may && s.chunks[k].status != Ack::Unknown ==> refuses(d, s, t, "not_unknown"@)
            &&& may && s.chunks[k].status == Ack::Unknown ==> {
                &&& records(d, t.desk, s.binding.session_id, number, status)
                &&& t.session == s && t.result is Err || {
                    &&& t.session.chunks == s.chunks.update(k, ChunkView { status, ..s.chunks[k] })
                    &&& typed_up_to(t.session.chunks, s.next_receive, t.session.next_receive)
                    &&& status == Ack::NotApplied && s.next_receive <= number ==> t.session.next_receive <= number
                    &&& status == Ack::Applied && s.next_receive == number ==> t.session.next_receive > number
                    &&& t.session == (SessionView {
                        chunks: t.session.chunks,
                        next_receive: t.session.next_receive,
                        phase: if s.cancelled {
                            s.phase
                        } else {
                            Phase::Paused
                        },
                        ..s
                    })
                }
                &&& t.result is Ok ==> t.result == Ok::<Answer, Seq<char>>(Answer::Done) && t.session.chunks[k].status
                    == status && sends(d, t.desk, s.binding.source_device_id, ack) && shows(d, t)
                &&& willing(log) && hears(d, s.binding.source_device_id, 1) && is_short(ack) ==> t.result is Ok
            }
        }),
{
    broadcast use signs::group_signs;

    signs::lemma_grows_itself(d);
    reveal(orders::obey);
    reveal(orders::resolve_unknown);
    lemma_ops();
    lemma_is_at(s.chunks, number, k);
    let status = if v.flag_at("applied"@) {
        Ack::Applied
    } else {
        Ack::NotApplied
    };
    let chunks = session::marked(s.chunks, k, status);
    lemma_marked_is_of_one(s.chunks, k, status);
    lemma_typed_up_to(chunks, s.next_receive);
    let to = session::first_open(chunks, s.next_receive);
    assert(is_at(chunks, number, k));
    if status == Ack::NotApplied && s.next_receive <= number && to > number {
        assert(was_typed(chunks, number));
        let j = choose|j: int| #[trigger] is_at(chunks, number, j) && chunks[j].status == Ack::Applied;
        lemma_is_at(chunks, number, j);
        lemma_is_at(chunks, number, k);
    }
}

/// To be asked about a piece that there is not settles nothing.
pub proof fn law_only_pieces_that_came_are_settled(
    d: DeskView,
    s: SessionView,
    v: JsonView,
    number: u64,
    now: u64,
    log: Seq<Reply>,
)
    requires
        s.wf(),
        v.member("sequence"@) == Some(JsonView::Unsigned(number)),
        forall|k: int| !(#[trigger] is_at(s.chunks, number, k)),
        s.binding.source_device_id != d.id,
        s.inflight is None,
    ensures
        refuses(d, s, orders::obey(d, s, "resolve_unknown"@, v, now, log), "unknown_chunk"@),
{
    reveal(orders::obey);
    reveal(orders::resolve_unknown);
    lemma_ops();
    lemma_holds(s.chunks, number);
}

/// The target is asked about every piece that is not known to be typed, and the session stays as
/// it is.
pub proof fn law_every_open_piece_is_asked_about(d: DeskView, s: SessionView, v: JsonView, now: u64, log: Seq<Reply>)
    requires
        desk::apart(d.links),
    ensures
        ({
            let t = orders::obey(d, s, "query"@, v, now, log);
            &&& s.binding.source_device_id != d.id ==> refuses(d, s, t, "invalid_role"@)
            &&& s.binding.source_device_id == d.id ==> {
                &&& t.session == s
                &&& t.result is Ok ==> t.result == Ok::<Answer, Seq<char>>(Answer::Done) && forall|k: int|
                    0 <= k < s.chunks.len() && (#[trigger] s.chunks[k]).status != Ack::Applied ==> sends(
                        d,
                        t.desk,
                        s.binding.target_device_id,
                        asking_about(s, k),
                    )
                &&& hears(d, s.binding.target_device_id, s.chunks.len() as int) && (forall|k: int|
                    0 <= k < s.chunks.len() ==> is_short(asking_about(s, k))) ==> t.result is Ok
            }
        }),
{
    broadcast use signs::group_signs;

    signs::lemma_grows_itself(d);
    reveal(orders::obey);
    lemma_ops();
    lemma_asks_about(d, s, 0, log);
}

/// The message that asks about the piece at an index.
pub open spec fn asking_about(s: SessionView, k: int) -> PayloadView {
    PayloadView::ChunkQuery { session_id: s.binding.session_id, sequence: s.chunks[k].sequence }
}

/// The target is asked about the open pieces from an index on.
pub proof fn lemma_asks_about(d: DeskView, s: SessionView, i: nat, log: Seq<Reply>)
    requires
        desk::apart(d.links),
        i <= s.chunks.len(),
    ensures
        grows(d, orders::query_from(d, s, i, log).desk),
        types_none(d, orders::query_from(d, s, i, log).desk),
        orders::query_from(d, s, i, log).session == s,
        orders::query_from(d, s, i, log).result is Ok ==> forall|k: int|
            i <= k < s.chunks.len() && (#[trigger] s.chunks[k]).status != Ack::Applied ==> sends(
                d,
                orders::query_from(d, s, i, log).desk,
                s.binding.target_device_id,
                asking_about(s, k),
            ),
        hears(d, s.binding.target_device_id, s.chunks.len() - i) && (forall|k: int|
            0 <= k < s.chunks.len() ==> is_short(#[trigger] asking_about(s, k))) ==> orders::query_from(
            d,
            s,
            i,
            log,
        ).result is Ok,
    decreases s.chunks.len() - i,
{
    broadcast use signs::group_signs;

    signs::lemma_grows_itself(d);
    let t = orders::query_from(d, s, i, log);
    let target = s.binding.target_device_id;
    if i < s.chunks.len() {
        let n = s.chunks.len() - i;
        signs::lemma_hears_fewer(d, target, n, n - 1);
        if s.chunks[i as int].status == Ack::Applied {
            lemma_asks_about(d, s, i + 1, log);
        } else {
            let p = asking_about(s, i as int);
            let sent = d.send(target, p, log);
            if hears(d, target, n) {
                signs::lemma_hears_after_send(d, target, n, target, p, log);
            }
            lemma_asks_about(sent.desk, s, i + 1, log);
            if t.result is Ok {
                assert(grows(sent.desk, t.desk));
                assert forall|k: int|
                    i <= k < s.chunks.len() && (#[trigger] s.chunks[k]).status != Ack::Applied implies sends(
                    d,
                    t.desk,
                    target,
                    asking_about(s, k),
                ) by {
                    if k > i {
                        assert(sends(sent.desk, t.desk, target, asking_about(s, k)));
                    }
                }
            }
        }
    }
}


/// What was given up of a session that differs in its phase alone is given up.
pub proof fn lemma_gives_up_as<T, U>(d: DeskView, a: SessionView, s: SessionView, t: Turn<T>, u: Turn<U>)
    requires
        gives_up_the_rest(d, a, t),
        a == (SessionView { phase: a.phase, ..s }),
        grows(t.desk, u.desk),
        u.session.chunks == t.session.chunks,
        u.session.inflight == t.session.inflight,
    ensures
        gives_up_the_rest(d, s, u),
{
    broadcast use signs::group_signs;

    signs::lemma_grows_itself(d);
    assert forall|k: int|
        #![trigger u.session.chunks[k]]
        #![trigger s.chunks[k]]
        0 <= k < s.chunks.len() implies if is_loose(s, k) {
        gives_up(d, s, u.desk, u.session, k, s.chunks.len() as int)
    } else {
        u.session.chunks[k] == s.chunks[k]
    } by {
        assert(t.session.chunks[k] == u.session.chunks[k]);
        assert(is_loose(a, k) == is_loose(s, k));
        if is_loose(s, k) {
            assert(gives_up(d, a, t.desk, t.session, k, s.chunks.len() as int));
        }
    }
}


} // verus!
