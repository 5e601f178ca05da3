//! What a session makes of what its other device says, and of time.
use crate::desk;
use crate::desk::DeskView;
use crate::engine;
use crate::event::EventView;
use crate::ids;
use crate::inbound;
use crate::json::JsonView;
use crate::orders;
use crate::outside::{Ask, Reply};
use crate::protocol;
use crate::protocol::{Ack, BindingView, Mode, PayloadView, Phase};
use crate::service_laws;
use crate::service_laws::{doubtful, gives_up_the_rest, is_at, is_next, keeps, may_type, others_stay, refuses, shows, stops, types_right};
use crate::session;
use crate::session::{ChunkView, SessionView, MAX_SEQUENCE};
use crate::signs;
use crate::signs::{grows, hears, is_short, records, sends, tells, types_none, willing};
use crate::steps;
use crate::steps::Turn;
use crate::text;
use crate::upkeep;
use vstd::prelude::*;

verus! {

// ---------------------------------------------------------------- the journal is asked

/// The journal is asked about exactly what it should be, and its answer is the one that counts.
pub proof fn law_the_journal_is_asked(
    d: DeskView,
    session_id: u128,
    peer: Seq<char>,
    number: u64,
    said: Seq<char>,
    outcome: Ack,
    now: u64,
    log: Seq<Reply>,
)
    ensures
        ({
            let n = d.asked.len() as int;
            let r = d.register(session_id, number, said, log);
            let a = d.authorize(session_id, peer, now, log);
            let c = d.record(session_id, number, outcome, log);
            let q = d.tell(session_id, number, log);
            let o = d.note(session_id, peer, now, log);
            &&& r.desk.asked == d.asked.push(
                Ask::Register { journal: d.journal, id: session_id, sequence: number, text: said },
            )
            &&& a.desk.asked == d.asked.push(Ask::Authorize { journal: d.journal, id: session_id, peer, now })
            &&& c.desk.asked == d.asked.push(
                Ask::Record { journal: d.journal, id: session_id, sequence: number, status: outcome },
            )
            &&& q.desk.asked == d.asked.push(Ask::Tell { journal: d.journal, id: session_id, sequence: number })
            &&& o.desk.asked == d.asked.push(Ask::Note { journal: d.journal, id: session_id, peer, now })
            &&& log[n] matches Reply::Registered(x) ==> r.result == x
            &&& log[n] matches Reply::Done(x) ==> a.result == x && c.result == x && o.result == x
            &&& log[n] matches Reply::Told(x) ==> q.result == x
            &&& a.desk.journal == d.journal && q.desk.journal == d.journal
            &&& d.journal.exclusive && c.result is Ok ==> c.desk.journal.status(session_id, number) == outcome
        }),
{
    protocol::lemma_ack_parsed(outcome);
}

// ---------------------------------------------------------------- pieces come

/// Whether a piece can be typed in its turn: it is for the place where text goes, text may be
/// typed, its turn is not over and not too far off, and it fits.
pub open spec fn is_welcome(s: SessionView, number: u64, token: Seq<char>, said: Seq<char>) -> bool {
    &&& token == s.binding.context_token
    &&& may_type(s)
    &&& s.next_receive <= number < s.next_receive + 32
    &&& session::total(s.chunks) + text::size(said) <= 262144
}

/// Whether a step took a piece in: it is kept with its text, its sender is told that it came, and
/// if it is its turn, it is had typed. One that is not welcome is kept as not typed, and the
/// journal and the sender hear that.
pub open spec fn takes_in<T>(
    d: DeskView,
    s: SessionView,
    t: Turn<T>,
    peer: Seq<char>,
    number: u64,
    token: Seq<char>,
    said: Seq<char>,
    is_final: bool,
    log: Seq<Reply>,
) -> bool {
    let welcome = is_welcome(s, number, token, said);
    let status = if welcome {
        Ack::Received
    } else {
        Ack::NotApplied
    };
    let ack = PayloadView::ChunkAck { session_id: s.binding.session_id, sequence: number, ack_status: status };
    &&& !welcome ==> records(d, t.desk, s.binding.session_id, number, Ack::NotApplied)
    &&& (welcome || willing(log)) && s.chunks.len() < MAX_SEQUENCE ==> keeps(
        t.session.chunks,
        number,
        said,
        status,
        is_final,
    ) && others_stay(s.chunks, t.session.chunks, number)
    &&& s.chunks.len() >= MAX_SEQUENCE ==> t.session.chunks == s.chunks
    &&& t.result is Ok ==> sends(d, t.desk, peer, ack)
    &&& (welcome || willing(log)) && hears(d, peer, 1) && is_short(ack) ==> t.result is Ok
    &&& t.result is Ok && welcome && s.chunks.len() < MAX_SEQUENCE && number == s.next_receive && s.inflight is None
        ==> t.session.inflight == Some((number, false)) && tells(
        d,
        t.desk,
        EventView::Inject {
            session_id: s.binding.session_id,
            sequence: number,
            text: said,
            context_token: s.binding.context_token,
        },
    )
    &&& t.result is Ok ==> tells(
        d,
        t.desk,
        desk::snapshot_of(SessionView { inflight: s.inflight, ..t.session }),
    )
    &&& t.session == (SessionView {
        chunks: t.session.chunks,
        inflight: t.session.inflight,
        ..s
    })
}

/// A piece that is taken in is taken in as it should be.
pub proof fn lemma_takes_in(
    d: DeskView,
    s: SessionView,
    peer: Seq<char>,
    number: u64,
    token: Seq<char>,
    said: Seq<char>,
    is_final: bool,
    log: Seq<Reply>,
)
    requires
        desk::apart(d.links),
        s.wf(),
        1 <= number <= MAX_SEQUENCE,
        protocol::text_error(said) is None,
    ensures
        takes_in(
            d,
            s,
            inbound::take_piece(d, s, peer, number, token, said, is_final, log),
            peer,
            number,
            token,
            said,
            is_final,
            log,
        ),
        grows(d, inbound::take_piece(d, s, peer, number, token, said, is_final, log).desk),
        types_right(
            d,
            s,
            inbound::take_piece(d, s, peer, number, token, said, is_final, log).desk,
            inbound::take_piece(d, s, peer, number, token, said, is_final, log).session,
        ),
{
    broadcast use signs::group_signs;

    signs::lemma_grows_itself(d);
    reveal(inbound::take_piece);
    reveal(inbound::keep_piece);
    let t = inbound::take_piece(d, s, peer, number, token, said, is_final, log);
    let safe = inbound::is_safe(s, number, token, said);
    assert(may_type(s) == s.can_inject());
    assert(safe == is_welcome(s, number, token, said));
    let status = if safe {
        Ack::Received
    } else {
        Ack::NotApplied
    };
    let recorded = d.record(s.binding.session_id, number, Ack::NotApplied, log);
    let m = if safe {
        d
    } else {
        recorded.desk
    };
    let c = ChunkView { sequence: number, text: said, status, is_final };
    let taken = if s.chunks.len() < MAX_SEQUENCE {
        SessionView { chunks: session::placed(s.chunks, c), ..s }
    } else {
        s
    };
    service_laws::lemma_placed_is_there(s.chunks, c);
    let ack = PayloadView::ChunkAck { session_id: s.binding.session_id, sequence: number, ack_status: status };
    let sent = m.send(peer, ack, log);
    let shown = sent.desk.snapshot(taken);
    assert(grows(d, m) && types_none(d, m));
    if safe || recorded.result is Ok {
        assert(grows(m, sent.desk) && types_none(m, sent.desk));
        if sent.result is Ok {
            service_laws::lemma_pump_types(shown, taken);
            assert(grows(sent.desk, shown) && types_none(sent.desk, shown));
            assert(grows(d, shown) && types_none(d, shown));
            service_laws::lemma_types_right_after(d, s, shown, taken, t.desk, t.session);
            if safe && s.chunks.len() < MAX_SEQUENCE && number == s.next_receive && s.inflight is None {
                let k = choose|k: int| 0 <= k < taken.chunks.len() && taken.chunks[k] == c;
                assert(is_at(taken.chunks, number, k));
                assert(is_next(taken, k));
            }
            assert(SessionView { inflight: s.inflight, ..t.session } == taken);
        } else {
            assert(types_none(d, t.desk));
            service_laws::lemma_types_none_is_right(d, s, t.desk, t.session);
        }
    } else {
        service_laws::lemma_types_none_is_right(d, s, t.desk, t.session);
    }
}

/// The message with a piece of text.
pub open spec fn piece_of_text(
    session_id: u128,
    number: u64,
    token: Seq<char>,
    said: Seq<char>,
    is_final: bool,
) -> PayloadView {
    PayloadView::TextChunk { session_id, sequence: number, context_token: token, text: said, is_final }
}

/// A piece that comes from the source is taken in if it is new to the journal, or if it was not
/// typed and may come again for the place where text goes now; of any other its sender is told
/// what became of it. One that no source may send, or that is no text, is refused.
pub proof fn law_pieces_that_come_are_taken_in(
    d: DeskView,
    s: SessionView,
    peer: Seq<char>,
    session_id: u128,
    number: u64,
    token: Seq<char>,
    said: Seq<char>,
    is_final: bool,
    now: u64,
    log: Seq<Reply>,
)
    requires
        desk::apart(d.links),
        s.wf(),
        peer == s.other(d.id),
    ensures
        ({
            let t = inbound::on_message(
                d,
                s,
                peer,
                piece_of_text(session_id, number, token, said, is_final),
                now,
                log,
            );
            let may = peer == s.binding.source_device_id && 1 <= number <= 4096;
            let known = d.register(s.binding.session_id, number, said, log);
            let again = d.register(s.binding.session_id, number, said, log).desk.record(
                s.binding.session_id,
                number,
                Ack::Received,
                log,
            );
            let used = SessionView { retry_allowed: s.retry_allowed.remove(number), ..s };
            &&& !may ==> refuses(d, s, t, "unauthorized_chunk"@)
            &&& may && protocol::text_error(said) is Some ==> refuses(d, s, t, protocol::text_error(said)->0)
            &&& may && protocol::text_error(said) is None ==> match known.result {
                Err(e) => t.desk == known.desk && t.session == s && t.result == Err::<(), Seq<char>>(e),
                Ok(None) => takes_in(known.desk, s, t, peer, number, token, said, is_final, log),
                Ok(Some(status)) => {
                    let ack = PayloadView::ChunkAck {
                        session_id: s.binding.session_id,
                        sequence: number,
                        ack_status: status,
                    };
                    let retried = status == Ack::NotApplied && s.retry_allowed.contains(number) && token
                        == s.binding.context_token;
                    &&& !retried ==> {
                        &&& t.result is Ok ==> sends(d, t.desk, peer, ack)
                        &&& hears(d, peer, 1) && is_short(ack) ==> t.result is Ok
                        &&& t.session == (if status == Ack::NotApplied {
                            used
                        } else {
                            s
                        })
                        &&& types_none(d, t.desk)
                    }
                    &&& retried && again.result is Ok ==> takes_in(
                        again.desk,
                        used,
                        t,
                        peer,
                        number,
                        token,
                        said,
                        is_final,
                        log,
                    )
                    &&& retried && again.result is Err ==> t.session == used && t.result is Err && t.desk == again.desk
                },
            }
            &&& grows(d, t.desk)
            &&& types_right(d, s, t.desk, t.session)
        }),
{
    broadcast use signs::group_signs;

    signs::lemma_grows_itself(d);
    reveal(inbound::on_message);
    reveal(inbound::on_chunk);
    reveal(inbound::registered);
    reveal(inbound::take_again);
    let t = inbound::on_message(d, s, peer, piece_of_text(session_id, number, token, said, is_final), now, log);
    let may = peer == s.binding.source_device_id && 1 <= number <= 4096;
    if may && protocol::text_error(said) is None {
        let known = d.register(s.binding.session_id, number, said, log);
        match known.result {
            Err(_) => {
                service_laws::lemma_types_none_is_right(d, s, t.desk, t.session);
            },
            Ok(None) => {
                lemma_takes_in(known.desk, s, peer, number, token, said, is_final, log);
                service_laws::lemma_types_right_after(d, s, known.desk, s, t.desk, t.session);
            },
            Ok(Some(status)) => {
                let again = known.desk.record(s.binding.session_id, number, Ack::Received, log);
                let used = SessionView { retry_allowed: s.retry_allowed.remove(number), ..s };
                let retried = status == Ack::NotApplied && s.retry_allowed.contains(number) && token
                    == s.binding.context_token;
                assert(grows(d, again.desk) && types_none(d, again.desk));
                if retried && again.result is Ok {
                    lemma_takes_in(again.desk, used, peer, number, token, said, is_final, log);
                    service_laws::lemma_types_right_after(d, s, again.desk, used, t.desk, t.session);
                } else {
                    assert(types_none(d, t.desk));
                    service_laws::lemma_types_none_is_right(d, s, t.desk, t.session);
                }
            },
        }
    } else {
        service_laws::lemma_types_none_is_right(d, s, t.desk, t.session);
    }
}

// ---------------------------------------------------------------- what became of pieces

/// Whether every piece was typed.
pub open spec fn all_typed(chunks: Seq<ChunkView>) -> bool {
    forall|j: int| 0 <= j < chunks.len() ==> (#[trigger] chunks[j]).status == Ack::Applied
}

/// What the target says of a piece is what is known of it on the source, unless it was known to
/// be typed or says less than was known. A piece that was not typed, or may not have been, stops
/// the source; when every piece was typed and the source has ended, the session is done.
pub proof fn law_an_acknowledgement_counts(
    d: DeskView,
    s: SessionView,
    peer: Seq<char>,
    session_id: u128,
    number: u64,
    k: int,
    ack: Ack,
    now: u64,
    log: Seq<Reply>,
)
    requires
        desk::apart(d.links),
        s.wf(),
        peer == s.other(d.id),
        is_at(s.chunks, number, k),
    ensures
        ({
            let t = inbound::on_message(
                d,
                s,
                peer,
                PayloadView::ChunkAck { session_id, sequence: number, ack_status: ack },
                now,
                log,
            );
            let status = t.session.chunks[k].status;
            let chunks = s.chunks.update(k, ChunkView { status, ..s.chunks[k] });
            let held_up = status == Ack::Unknown || status == Ack::NotApplied;
            let over = s.stopped && s.last_sequence is Some && all_typed(t.session.chunks);
            &&& peer != s.binding.target_device_id ==> refuses(d, s, t, "unauthorized_ack"@)
            &&& peer == s.binding.target_device_id ==> {
                &&& t.result is Ok
                &&& t.session.chunks == chunks
                &&& s.chunks[k].status == Ack::Applied ==> status == Ack::Applied
                &&& s.chunks[k].status != Ack::Applied && ack != Ack::Received ==> status == ack
                &&& ack == Ack::Received ==> status == s.chunks[k].status
                &&& t.session.phase == (if s.cancelled {
                    s.phase
                } else if status == Ack::Unknown {
                    Phase::Unknown
                } else if status == Ack::NotApplied {
                    Phase::Paused
                } else if over {
                    Phase::Done
                } else {
                    s.phase
                })
                &&& !s.cancelled && held_up ==> t.session.stopped || t.session.stop_requested
                &&& !s.cancelled && held_up && !s.stopped && !s.stop_requested ==> stops(d, s, t, now)
                &&& s.cancelled || !held_up ==> t.session == (SessionView {
                    chunks,
                    phase: t.session.phase,
                    ..s
                }) && t.desk.links == d.links
                &&& t.session == (SessionView {
                    chunks,
                    phase: t.session.phase,
                    held: t.session.held,
                    stop_requested: t.session.stop_requested,
                    finalizing: t.session.finalizing,
                    ..s
                })
                &&& shows(d, t)
            }
            &&& grows(d, t.desk)
            &&& types_none(d, t.desk)
        }),
{
    broadcast use signs::group_signs;

    signs::lemma_grows_itself(d);
    reveal(inbound::on_message);
    reveal(inbound::on_ack);
    service_laws::lemma_is_at(s.chunks, number, k);
    let status = inbound::acknowledged(s.chunks[k].status, ack);
    let known = SessionView { chunks: session::marked(s.chunks, k, status), ..s };
    service_laws::lemma_stops(d, SessionView { phase: Phase::Unknown, ..known }, now, log);
    service_laws::lemma_stops(d, SessionView { phase: Phase::Paused, ..known }, now, log);
    assert(all_typed(known.chunks) == session::all_applied(known.chunks));
    let t = inbound::on_message(
        d,
        s,
        peer,
        PayloadView::ChunkAck { session_id, sequence: number, ack_status: ack },
        now,
        log,
    );
    if peer == s.binding.target_device_id {
        assert(t.session.chunks == known.chunks);
        assert(t.session.chunks[k].status == status);
    }
}

/// An acknowledgement of a piece that was not sent is refused, and so is one from another device
/// than the target.
pub proof fn law_only_pieces_that_were_sent_are_acknowledged(
    d: DeskView,
    s: SessionView,
    peer: Seq<char>,
    session_id: u128,
    number: u64,
    ack: Ack,
    now: u64,
    log: Seq<Reply>,
)
    requires
        s.wf(),
        peer == s.other(d.id),
        peer == s.binding.target_device_id,
        forall|k: int| !(#[trigger] is_at(s.chunks, number, k)),
    ensures
        refuses(
            d,
            s,
            inbound::on_message(
                d,
                s,
                peer,
                PayloadView::ChunkAck { session_id, sequence: number, ack_status: ack },
                now,
                log,
            ),
            "unknown_chunk"@,
        ),
{
    reveal(inbound::on_message);
    reveal(inbound::on_ack);
    service_laws::lemma_holds(s.chunks, number);
}

/// The last number that the source names is kept, and the target is done when every piece up to
/// it was typed and none is in doubt. It cannot lie below a piece that has come.
pub proof fn law_the_end_is_kept(
    d: DeskView,
    s: SessionView,
    peer: Seq<char>,
    session_id: u128,
    last: u64,
    now: u64,
    log: Seq<Reply>,
)
    requires
        peer == s.other(d.id),
    ensures
        ({
            let t = inbound::on_message(
                d,
                s,
                peer,
                PayloadView::SessionEnd { session_id, last_sequence: last },
                now,
                log,
            );
            let may = peer == s.binding.source_device_id && last <= 4096 && forall|k: int|
                0 <= k < s.chunks.len() ==> (#[trigger] s.chunks[k]).sequence <= last;
            &&& !may ==> refuses(d, s, t, "invalid_session_end"@)
            &&& may ==> {
                &&& t.result is Ok
                &&& t.session == (SessionView {
                    last_sequence: Some(last),
                    phase: if !s.cancelled && s.next_receive == last + 1 && !doubtful(s.chunks) {
                        Phase::Done
                    } else {
                        s.phase
                    },
                    ..s
                })
                &&& shows(d, t)
            }
            &&& grows(d, t.desk)
            &&& types_none(d, t.desk)
        }),
{
    broadcast use signs::group_signs;

    signs::lemma_grows_itself(d);
    reveal(inbound::on_message);
    assert(doubtful(s.chunks) == session::any_unknown(s.chunks));
}

/// The message with which the piece at an index comes again, for a place.
pub open spec fn coming_again(s: SessionView, k: int, token: Seq<char>) -> PayloadView {
    PayloadView::TextChunk {
        session_id: s.binding.session_id,
        sequence: s.chunks[k].sequence,
        context_token: token,
        text: s.chunks[k].text,
        is_final: s.chunks[k].is_final,
    }
}

/// Whether the pieces from an index on that were not typed were sent again, and the others stayed.
pub open spec fn sends_again(
    d: DeskView,
    s: SessionView,
    peer: Seq<char>,
    e: DeskView,
    chunks: Seq<ChunkView>,
    i: int,
) -> bool {
    &&& chunks.len() == s.chunks.len()
    &&& forall|k: int|
        #![trigger chunks[k]]
        #![trigger s.chunks[k]]
        0 <= k < s.chunks.len() ==> if k >= i && s.chunks[k].status == Ack::NotApplied {
            chunks[k] == (ChunkView { status: Ack::Received, ..s.chunks[k] }) && sends(
                d,
                e,
                peer,
                coming_again(s, k, s.binding.context_token),
            )
        } else {
            chunks[k] == s.chunks[k]
        }
}

/// The pieces that were not typed are sent again.
pub proof fn lemma_sends_again(d: DeskView, s: SessionView, peer: Seq<char>, i: nat, log: Seq<Reply>)
    requires
        desk::apart(d.links),
        i <= s.chunks.len(),
    ensures
        grows(d, inbound::resend_from(d, s, peer, i, log).desk),
        types_none(d, inbound::resend_from(d, s, peer, i, log).desk),
        inbound::resend_from(d, s, peer, i, log).session == (SessionView {
            chunks: inbound::resend_from(d, s, peer, i, log).session.chunks,
            ..s
        }),
        inbound::resend_from(d, s, peer, i, log).result is Ok ==> sends_again(
            d,
            s,
            peer,
            inbound::resend_from(d, s, peer, i, log).desk,
            inbound::resend_from(d, s, peer, i, log).session.chunks,
            i as int,
        ),
        hears(d, peer, s.chunks.len() - i + 1) && (forall|k: int|
            #![trigger s.chunks[k]]
            0 <= k < s.chunks.len() ==> is_short(coming_again(s, k, s.binding.context_token)))
            ==> inbound::resend_from(d, s, peer, i, log).result is Ok && hears(
            inbound::resend_from(d, s, peer, i, log).desk,
            peer,
            1,
        ),
    decreases s.chunks.len() - i,
{
    broadcast use signs::group_signs;

    signs::lemma_grows_itself(d);
    let t = inbound::resend_from(d, s, peer, i, log);
    if i < s.chunks.len() {
        let n = s.chunks.len() - i + 1;
        signs::lemma_hears_fewer(d, peer, n, n - 1);
        if s.chunks[i as int].status == Ack::NotApplied {
            let p = coming_again(s, i as int, s.binding.context_token);
            let sent = d.send(peer, p, log);
            let marked = SessionView { chunks: session::marked(s.chunks, i as int, Ack::Received), ..s };
            if hears(d, peer, n) {
                signs::lemma_hears_after_send(d, peer, n, peer, p, log);
            }
            lemma_sends_again(sent.desk, marked, peer, i + 1, log);
            assert forall|k: int| 0 <= k < s.chunks.len() implies coming_again(marked, k, s.binding.context_token)
                == coming_again(s, k, s.binding.context_token) && #[trigger] marked.chunks[k].sequence
                == s.chunks[k].sequence by {}
            if forall|k: int|
                #![trigger s.chunks[k]]
                0 <= k < s.chunks.len() ==> is_short(coming_again(s, k, s.binding.context_token)) {
                assert(is_short(coming_again(s, i as int, s.binding.context_token)));
                assert forall|k: int|
                    #![trigger marked.chunks[k]]
                    0 <= k < marked.chunks.len() implies is_short(
                    coming_again(marked, k, marked.binding.context_token),
                ) by {
                    assert(is_short(coming_again(s, k, s.binding.context_token)));
                }
            }
            if t.result is Ok {
                assert(grows(sent.desk, t.desk));
                assert forall|k: int|
                    #![trigger t.session.chunks[k]]
                    #![trigger s.chunks[k]]
                    0 <= k < s.chunks.len() implies if k >= i && s.chunks[k].status == Ack::NotApplied {
                    t.session.chunks[k] == (ChunkView { status: Ack::Received, ..s.chunks[k] }) && sends(
                        d,
                        t.desk,
                        peer,
                        coming_again(s, k, s.binding.context_token),
                    )
                } else {
                    t.session.chunks[k] == s.chunks[k]
                } by {
                    assert(t.session.chunks[k] == t.session.chunks[k]);
                    assert(marked.chunks[k].sequence == s.chunks[k].sequence);
                }
            }
        } else {
            lemma_sends_again(d, s, peer, i + 1, log);
        }
    }
}

/// Where the target has a new place for the text, the source sends what was not typed again, each
/// piece with its own text and for the new place, and then says again which is the last.
pub proof fn law_what_was_not_typed_goes_to_the_new_place(
    d: DeskView,
    s: SessionView,
    peer: Seq<char>,
    session_id: u128,
    token: Seq<char>,
    app: Seq<char>,
    now: u64,
    log: Seq<Reply>,
)
    requires
        desk::apart(d.links),
        peer == s.other(d.id),
    ensures
        ({
            let t = inbound::on_message(
                d,
                s,
                peer,
                PayloadView::SessionResume { session_id, context_token: token, target_app: app },
                now,
                log,
            );
            let may = peer == s.binding.target_device_id && ids::id_parsed(token) is Some && ids::id_parsed(token)
                != Some(0u128) && !s.cancelled && !doubtful(s.chunks);
            let resumed = SessionView {
                binding: BindingView { context_token: token, target_app: app, ..s.binding },
                phase: Phase::Committing,
                ..s
            };
            let end = |n: u64| PayloadView::SessionEnd { session_id: s.binding.session_id, last_sequence: n };
            &&& !may ==> refuses(d, s, t, "unsafe_resume"@)
            &&& may ==> t.session == (SessionView { chunks: t.session.chunks, ..resumed })
            &&& may && t.result is Ok ==> {
                &&& sends_again(d, resumed, peer, t.desk, t.session.chunks, 0)
                &&& s.last_sequence matches Some(n) ==> sends(d, t.desk, peer, end(n))
                &&& shows(d, t)
            }
            &&& may && hears(d, peer, s.chunks.len() as int + 1) && (forall|k: int|
                #![trigger s.chunks[k]]
                0 <= k < s.chunks.len() ==> is_short(coming_again(s, k, token))) && (s.last_sequence matches Some(n)
                ==> is_short(end(n))) ==> t.result is Ok
            &&& grows(d, t.desk)
            &&& types_none(d, t.desk)
        }),
{
    broadcast use signs::group_signs;

    signs::lemma_grows_itself(d);
    reveal(inbound::on_message);
    reveal(inbound::on_resume);
    assert(doubtful(s.chunks) == session::any_unknown(s.chunks));
    let resumed = SessionView {
        binding: BindingView { context_token: token, target_app: app, ..s.binding },
        phase: Phase::Committing,
        ..s
    };
    lemma_sends_again(d, resumed, peer, 0, log);
    let u = inbound::resend_from(d, resumed, peer, 0, log);
    let t = inbound::on_message(
        d,
        s,
        peer,
        PayloadView::SessionResume { session_id, context_token: token, target_app: app },
        now,
        log,
    );
    if forall|k: int|
        #![trigger s.chunks[k]]
        0 <= k < s.chunks.len() ==> is_short(coming_again(s, k, token)) {
        assert forall|k: int|
            #![trigger resumed.chunks[k]]
            0 <= k < resumed.chunks.len() implies is_short(
            coming_again(resumed, k, resumed.binding.context_token),
        ) by {
            assert(coming_again(resumed, k, token) == coming_again(s, k, token));
            assert(is_short(coming_again(s, k, token)));
        }
    }
    if u.result is Ok && peer == s.binding.target_device_id && inbound::is_context(token) && !s.cancelled && !doubtful(
        s.chunks,
    ) {
        assert(grows(u.desk, t.desk));
        assert(t.session.chunks == u.session.chunks);
        if t.result is Ok {
            assert forall|k: int|
                #![trigger t.session.chunks[k]]
                #![trigger resumed.chunks[k]]
                0 <= k < resumed.chunks.len() implies if k >= 0 && resumed.chunks[k].status == Ack::NotApplied {
                t.session.chunks[k] == (ChunkView { status: Ack::Received, ..resumed.chunks[k] }) && sends(
                    d,
                    t.desk,
                    peer,
                    coming_again(resumed, k, resumed.binding.context_token),
                )
            } else {
                t.session.chunks[k] == resumed.chunks[k]
            } by {
                assert(u.session.chunks[k] == t.session.chunks[k]);
            }
        }
    }
}

// ---------------------------------------------------------------- the source is controlled

/// Where the device that controls a session wants its source to stop, the source is asked to
/// stop: the program is told to stop listening, and the controller hears where the session
/// stands. No other device can.
pub proof fn law_the_controller_stops_the_source(
    d: DeskView,
    s: SessionView,
    peer: Seq<char>,
    session_id: u128,
    now: u64,
    log: Seq<Reply>,
)
    requires
        desk::apart(d.links),
        peer == s.other(d.id),
    ensures
        ({
            let t = inbound::on_message(d, s, peer, PayloadView::SessionStop { session_id }, now, log);
            let may = peer == s.binding.controller_device_id && s.binding.source_device_id == d.id;
            let p = PayloadView::SessionState { session_id: s.binding.session_id, phase: t.session.phase };
            &&& !may ==> refuses(d, s, t, "unauthorized_session"@)
            &&& may ==> {
                &&& t.result is Ok
                &&& !t.session.held
                &&& t.session.stopped || t.session.stop_requested
                &&& !s.stopped && !s.stop_requested ==> {
                    &&& stops(d, s, t, now)
                    &&& t.session == (SessionView {
                        held: false,
                        stop_requested: true,
                        finalizing: Some(now),
                        phase: if s.phase == Phase::Paused || s.phase == Phase::Unknown || s.phase
                            == Phase::Cancelled {
                            s.phase
                        } else {
                            Phase::Finalizing
                        },
                        ..s
                    })
                    &&& shows(d, t)
                    &&& hears(d, peer, 1) && is_short(p) ==> sends(d, t.desk, peer, p)
                }
                &&& s.stopped || s.stop_requested ==> t.desk == d && t.session == (SessionView { held: false, ..s })
            }
            &&& grows(d, t.desk)
            &&& types_none(d, t.desk)
        }),
{
    broadcast use signs::group_signs;

    signs::lemma_grows_itself(d);
    reveal(inbound::on_message);
    service_laws::lemma_stops(d, s, now, log);
}

/// A word from the controller renews the lease of a source that prepares, is ready or listens, and
/// changes nothing else; from anyone else, or later, it changes nothing.
pub proof fn law_the_controller_renews_the_lease(
    d: DeskView,
    s: SessionView,
    peer: Seq<char>,
    session_id: u128,
    now: u64,
    log: Seq<Reply>,
)
    requires
        peer == s.other(d.id),
    ensures
        ({
            let t = inbound::on_message(d, s, peer, PayloadView::SessionKeepalive { session_id }, now, log);
            let may = peer == s.binding.controller_device_id && s.binding.source_device_id == d.id && !s.stop_requested
                && (s.phase == Phase::Preparing || s.phase == Phase::Ready || s.phase == Phase::Listening);
            &&& t.result is Ok
            &&& t.desk == d
            &&& may ==> t.session == (SessionView { lease: now, ..s })
            &&& !may ==> t.session == s
        }),
{
    reveal(inbound::on_message);
}

/// The target follows the source: it is ready when the source is, and stands where the source
/// says, unless it waits for something else, is over, or the source says that it is.
pub proof fn law_the_target_follows_the_source(
    d: DeskView,
    s: SessionView,
    peer: Seq<char>,
    session_id: u128,
    phase: Phase,
    now: u64,
    log: Seq<Reply>,
)
    requires
        peer == s.other(d.id),
    ensures
        ({
            let t = inbound::on_message(d, s, peer, PayloadView::SessionReady { session_id }, now, log);
            let u = inbound::on_message(d, s, peer, PayloadView::SessionState { session_id, phase }, now, log);
            let may = peer == s.binding.source_device_id;
            let stays = s.phase == Phase::Paused || s.phase == Phase::Unknown || s.phase == Phase::Cancelled || s.phase
                == Phase::Done || phase == Phase::Done || phase == Phase::Cancelled;
            &&& !may ==> refuses(d, s, t, "unauthorized_session"@) && refuses(d, s, u, "unauthorized_session"@)
            &&& may ==> {
                &&& t.result is Ok && u.result is Ok
                &&& t.session == (SessionView {
                    phase: if s.phase == Phase::Preparing {
                        Phase::Ready
                    } else {
                        s.phase
                    },
                    ..s
                })
                &&& u.session == (SessionView {
                    phase: if stays {
                        s.phase
                    } else {
                        phase
                    },
                    ..s
                })
                &&& shows(d, t) && shows(d, u)
            }
            &&& grows(d, t.desk) && types_none(d, t.desk)
            &&& grows(d, u.desk) && types_none(d, u.desk)
        }),
{
    broadcast use signs::group_signs;

    signs::lemma_grows_itself(d);
    reveal(inbound::on_message);
}

/// A session that the other device cancels, pauses, or reports a failure of, stops here too: a
/// source is stopped, a target gives up what was to be typed.
pub proof fn law_the_other_side_may_end_it(
    d: DeskView,
    s: SessionView,
    peer: Seq<char>,
    session_id: u128,
    now: u64,
    log: Seq<Reply>,
)
    requires
        desk::apart(d.links),
        peer == s.other(d.id),
    ensures
        ({
            let c = inbound::on_message(d, s, peer, PayloadView::SessionCancel { session_id }, now, log);
            let p = inbound::on_message(d, s, peer, PayloadView::SessionPause { session_id }, now, log);
            let e = inbound::on_error(d, s, peer, now, log);
            let source = s.binding.source_device_id == d.id;
            &&& source || willing(log) ==> c.result is Ok && p.result is Ok && e.result is Ok
            &&& c.session.cancelled
            &&& !s.cancelled ==> c.session.phase == Phase::Cancelled
            &&& s.cancelled ==> c.session == s && c.desk == d
            &&& !s.cancelled && source && !s.stopped ==> c.session.stop_requested && tells(
                d,
                c.desk,
                EventView::CancelInput { session_id: s.binding.session_id },
            )
            &&& !s.cancelled && !source && c.result is Ok ==> gives_up_the_rest(d, s, c)
            &&& !s.cancelled && c.result is Ok ==> shows(d, c)
            &&& p.result is Ok ==> p.session.phase == Phase::Paused && shows(d, p)
            &&& e.result is Ok ==> e.session.phase == Phase::Paused && !e.session.held && shows(d, e)
            &&& source ==> {
                &&& p.session.stopped || p.session.stop_requested
                &&& e.session.stopped || e.session.stop_requested
                &&& p.session.chunks == s.chunks && e.session.chunks == s.chunks && c.session.chunks == s.chunks
                &&& !s.stopped && !s.stop_requested ==> stops(d, s, p, now) && tells(
                    d,
                    e.desk,
                    EventView::StopInput { session_id: s.binding.session_id },
                )
            }
            &&& !source && p.result is Ok ==> gives_up_the_rest(d, s, p)
            &&& !source && e.result is Ok ==> gives_up_the_rest(d, s, e)
            &&& !s.cancelled ==> c.session == (SessionView {
                cancelled: true,
                phase: Phase::Cancelled,
                held: false,
                stop_requested: s.stop_requested || (source && !s.stopped),
                finalizing: if source && !s.stopped {
                    Some(now)
                } else {
                    s.finalizing
                },
                chunks: c.session.chunks,
                inflight: c.session.inflight,
                ..s
            })
            &&& p.session == (SessionView {
                phase: Phase::Paused,
                held: if source {
                    false
                } else {
                    s.held
                },
                stop_requested: s.stop_requested || (source && !s.stopped),
                finalizing: if source && !s.stopped && !s.stop_requested {
                    Some(now)
                } else {
                    s.finalizing
                },
                chunks: p.session.chunks,
                inflight: p.session.inflight,
                ..s
            })
            &&& e.result is Ok ==> e.session == (SessionView {
                phase: Phase::Paused,
                held: false,
                stop_requested: s.stop_requested || (source && !s.stopped),
                finalizing: if source && !s.stopped && !s.stop_requested {
                    Some(now)
                } else {
                    s.finalizing
                },
                chunks: e.session.chunks,
                inflight: e.session.inflight,
                ..s
            })
            &&& source ==> p.session.inflight == s.inflight && e.session.inflight == s.inflight && c.session.inflight
                == s.inflight
            &&& grows(d, c.desk) && types_none(d, c.desk)
            &&& grows(d, p.desk) && types_none(d, p.desk)
            &&& grows(d, e.desk) && types_none(d, e.desk)
        }),
{
    broadcast use signs::group_signs;

    signs::lemma_grows_itself(d);
    reveal(inbound::on_message);
    reveal(inbound::on_pause);
    reveal(inbound::on_error);
    service_laws::lemma_cancels(d, s, false, now, log);
    let paused = SessionView { phase: Phase::Paused, ..s };
    service_laws::lemma_stops(d, s, now, log);
    service_laws::lemma_stops(d, paused, now, log);
    service_laws::lemma_pauses(d, s, log);
    service_laws::lemma_pauses(d, paused, log);
    let p = inbound::on_message(d, s, peer, PayloadView::SessionPause { session_id }, now, log);
    let e = inbound::on_error(d, s, peer, now, log);
    if s.binding.source_device_id != d.id {
        let u = steps::pause_receiver(d, paused, log);
        let w = steps::pause_receiver(d, s, log);
        if u.result is Ok {
            assert(grows(u.desk, p.desk));
            service_laws::lemma_gives_up_as(d, paused, s, u, p);
        }
        if w.result is Ok {
            assert(grows(w.desk, e.desk));
            service_laws::lemma_gives_up_so(d, s, w, e);
        }
    }
}

/// Where the target has a place for the text, the source takes the binding over and prepares to
/// listen, once, and only if it is about the same devices and in the same way.
pub proof fn law_a_bound_source_prepares(d: DeskView, s: SessionView, peer: Seq<char>, b: BindingView)
    ensures
        ({
            let t = inbound::on_bound(d, s, peer, b);
            let may = s.binding.source_device_id == d.id && s.binding.target_device_id == peer && b.source_device_id
                == d.id && b.target_device_id == peer && b.controller_device_id == s.binding.controller_device_id
                && b.input_mode == s.binding.input_mode && ids::id_parsed(b.context_token) is Some && ids::id_parsed(
                b.context_token,
            ) != Some(0u128);
            &&& !may ==> refuses(d, s, t, "invalid_binding"@)
            &&& may && (s.phase != Phase::Preparing || s.stop_requested) ==> t.result is Ok && t.desk == d && t.session
                == s
            &&& may && s.phase == Phase::Preparing && !s.stop_requested ==> {
                &&& t.result is Ok
                &&& t.session == (SessionView { binding: b, ..s })
                &&& tells(d, t.desk, EventView::PrepareInput { binding: b })
                &&& shows(d, t)
            }
            &&& grows(d, t.desk)
            &&& types_none(d, t.desk)
        }),
{
    broadcast use signs::group_signs;

    signs::lemma_grows_itself(d);
}

// ---------------------------------------------------------------- time and loss

/// Time stops a source whose session has lasted too long or whose controller is silent, and gives
/// one up that does not stop in time; a target that controls the session says that it is there
/// while the key is held. Before its time nothing changes.
pub proof fn law_time_does_its_part(d: DeskView, s: SessionView, now: u64, log: Seq<Reply>)
    requires
        desk::apart(d.links),
    ensures
        ({
            let t = upkeep::aged(d, s, now, log);
            let source = s.binding.source_device_id == d.id;
            let overdue = !s.stopped && !s.stop_requested && (now - s.started > d.max_session || (
            s.binding.controller_device_id != d.id && now - s.lease > d.lease));
            let late = s.finalizing matches Some(since) && now - since > d.finalizing;
            let calls = s.held && s.binding.controller_device_id == d.id && (s.phase == Phase::Preparing || s.phase
                == Phase::Ready || s.phase == Phase::Listening) && now - s.keepalive_sent > 750000000;
            let p = PayloadView::SessionKeepalive { session_id: s.binding.session_id };
            &&& t.result is Ok
            &&& t.session.chunks == s.chunks && t.session.draft == s.draft
            &&& source && overdue ==> stops(d, s, t, now) && shows(d, t) && t.session == (SessionView {
                held: false,
                stop_requested: true,
                finalizing: Some(now),
                phase: if s.phase == Phase::Paused || s.phase == Phase::Unknown || s.phase == Phase::Cancelled {
                    s.phase
                } else {
                    Phase::Finalizing
                },
                ..s
            })
            &&& source && !overdue && !late ==> t.desk == d && t.session == s
            &&& source && !overdue && late ==> {
                &&& t.session == (SessionView {
                    finalizing: None,
                    phase: if s.binding.input_mode == Mode::DoubaoIme {
                        Phase::StopFailed
                    } else if s.cancelled {
                        Phase::Cancelled
                    } else {
                        Phase::AwaitingConfirmation
                    },
                    ..s
                })
                &&& tells(d, t.desk, EventView::AbortInput { session_id: s.binding.session_id })
                &&& shows(d, t)
            }
            &&& !source && calls ==> t.session == (SessionView { keepalive_sent: now, ..s }) && (hears(
                d,
                s.binding.source_device_id,
                1,
            ) && is_short(p) ==> sends(d, t.desk, s.binding.source_device_id, p))
            &&& !source && !calls ==> t.desk == d && t.session == s
            &&& grows(d, t.desk)
            &&& types_none(d, t.desk)
        }),
{
    broadcast use signs::group_signs;

    signs::lemma_grows_itself(d);
    reveal(upkeep::aged);
    service_laws::lemma_stops(d, s, now, log);
}

/// Where the connection to the other device is lost, a source is stopped and what was under way
/// is in doubt, and a target gives up what was to be typed; the session pauses, in doubt if any
/// piece is.
pub proof fn law_a_lost_connection_pauses_the_session(d: DeskView, s: SessionView, now: u64, log: Seq<Reply>)
    requires
        desk::apart(d.links),
    ensures
        ({
            let t = engine::lost(d, s, now, log);
            let source = s.binding.source_device_id == d.id;
            &&& source || willing(log) ==> t.result is Ok
            &&& t.result is Ok ==> t.session.phase == (if doubtful(t.session.chunks) {
                Phase::Unknown
            } else {
                Phase::Paused
            }) && shows(d, t)
            &&& t.session == (SessionView {
                phase: t.session.phase,
                held: if source {
                    false
                } else {
                    s.held
                },
                stop_requested: s.stop_requested || (source && !s.stopped),
                finalizing: if source && !s.stopped && !s.stop_requested {
                    Some(now)
                } else {
                    s.finalizing
                },
                chunks: t.session.chunks,
                inflight: t.session.inflight,
                ..s
            })
            &&& source ==> t.session.inflight == s.inflight
            &&& source ==> {
                &&& t.session.stopped || t.session.stop_requested
                &&& !s.stopped && !s.stop_requested ==> stops(d, s, t, now)
                &&& t.session.chunks.len() == s.chunks.len()
                &&& forall|k: int|
                    0 <= k < s.chunks.len() ==> (#[trigger] t.session.chunks[k]) == (ChunkView {
                        status: if s.chunks[k].status == Ack::Received {
                            Ack::Unknown
                        } else {
                            s.chunks[k].status
                        },
                        ..s.chunks[k]
                    })
            }
            &&& !source && t.result is Ok ==> gives_up_the_rest(d, s, t)
            &&& grows(d, t.desk)
            &&& types_none(d, t.desk)
        }),
{
    broadcast use signs::group_signs;

    signs::lemma_grows_itself(d);
    reveal(engine::lost);
    service_laws::lemma_stops(d, s, now, log);
    service_laws::lemma_pauses(d, s, log);
    let t = engine::lost(d, s, now, log);
    let u = steps::pause_receiver(d, s, log);
    assert(doubtful(t.session.chunks) == session::any_unknown(t.session.chunks));
    if s.binding.source_device_id != d.id && u.result is Ok {
        assert(grows(u.desk, t.desk));
        service_laws::lemma_gives_up_so(d, s, u, t);
    }
}


// ---------------------------------------------------------------- nothing else is typed

/// Whether a step adds to what is seen, has nothing typed, and puts no piece under way.
pub open spec fn is_quiet<T>(d: DeskView, s: SessionView, t: Turn<T>) -> bool {
    &&& grows(d, t.desk)
    &&& types_none(d, t.desk)
    &&& t.session.inflight == s.inflight || (t.session.inflight matches Some(f) ==> f.1)
}

/// Preparing, listening and drafting types nothing.
pub proof fn lemma_quiet_source(d: DeskView, s: SessionView, v: JsonView, now: u64, log: Seq<Reply>)
    requires
        desk::apart(d.links),
        s.wf(),
    ensures
        is_quiet(d, s, orders::bound(d, s, v, log)),
        is_quiet(d, s, orders::ready(d, s, log)),
        is_quiet(d, s, orders::listening(d, s, log)),
        is_quiet(d, s, orders::draft(d, s, v)),
        is_quiet(d, s, orders::confirm_stopped(d, s)),
        is_quiet(d, s, orders::resume(d, s, v, log)),
        is_quiet(d, s, orders::resolve_unknown(d, s, v, log)),
        is_quiet(d, s, orders::claim_injection(d, s, v)),
        is_quiet(d, s, orders::query(d, s, log)),
{
    broadcast use signs::group_signs;

    signs::lemma_grows_itself(d);
    reveal(orders::bound);
    reveal(orders::ready);
    reveal(orders::listening);
    reveal(orders::resume);
    reveal(orders::resolve_unknown);
    service_laws::lemma_asks_about(d, s, 0, log);
}

/// Stopping, pausing and cancelling types nothing.
pub proof fn lemma_quiet_stops(d: DeskView, s: SessionView, v: JsonView, now: u64, log: Seq<Reply>)
    requires
        desk::apart(d.links),
        s.wf(),
    ensures
        is_quiet(d, s, orders::stop(d, s, now, log)),
        is_quiet(d, s, steps::cancel(d, s, true, now, log)),
        is_quiet(d, s, orders::focus_invalid(d, s, log)),
        is_quiet(d, s, orders::source_failed(d, s, v, now, log)),
{
    broadcast use signs::group_signs;

    signs::lemma_grows_itself(d);
    reveal(orders::stop);
    reveal(orders::focus_invalid);
    reveal(orders::source_failed);
    service_laws::lemma_stops(d, s, now, log);
    service_laws::lemma_stops(d, SessionView { held: false, ..s }, now, log);
    service_laws::lemma_pauses(d, s, log);
    service_laws::lemma_cancels(d, s, true, now, log);
}

/// Sending text types nothing here.
pub proof fn lemma_quiet_sending(d: DeskView, s: SessionView, v: JsonView, verified: bool, now: u64, log: Seq<Reply>)
    requires
        desk::apart(d.links),
        s.wf(),
    ensures
        is_quiet(d, s, orders::apple_result(d, s, v, now, log)),
        is_quiet(d, s, orders::source_stopped(d, s, verified, log)),
        is_quiet(d, s, orders::confirm(d, s, v, now, log)),
{
    broadcast use signs::group_signs;

    signs::lemma_grows_itself(d);
    reveal(orders::apple_result);
    reveal(orders::source_stopped);
    reveal(orders::confirm);
    match (
        orders::number_of(v, "start"@),
        orders::number_of(v, "end"@),
        orders::number_of(v, "finalized_until"@),
        orders::text_of(v, "text"@),
    ) {
        (Ok(start), Ok(end), Ok(until), Ok(said)) => {
            let o = s.stable.observe((start as i64) as int, (end as i64) as int, (until as i64) as int, said);
            crate::stable::law_observe_moves_forward(
                s.stable,
                (start as i64) as int,
                (end as i64) as int,
                (until as i64) as int,
                said,
            );
            if o.ready is Ok {
                let after = SessionView { stable: o.state, draft: o.state.draft(), ..s };
                service_laws::lemma_freezes_all(d, after, o.ready->Ok_0, now, log);
            }
        },
        _ => {},
    }
    let stopped = SessionView { stopped: verified, finalizing: None, ..s };
    service_laws::lemma_ends(d, stopped, log);
    let confirmed = SessionView { frozen: true, phase: Phase::Committing, draft: seq![], ..s };
    service_laws::lemma_ends(d, confirmed, log);
    if orders::text_of(v, "text"@) is Ok {
        let said = orders::text_of(v, "text"@)->Ok_0;
        service_laws::law_a_text_is_sent_as_it_is(d, confirmed, said, true, now, log);
        let f = steps::freeze(d, confirmed, said, true, now, log);
        if f.result is Ok {
            service_laws::lemma_ends(f.desk, f.session, log);
        }
    }
}

/// What the program says of a piece has at most the next one typed.
pub proof fn lemma_injected_types_right(d: DeskView, s: SessionView, v: JsonView, log: Seq<Reply>)
    requires
        desk::apart(d.links),
        s.wf(),
    ensures
        grows(d, orders::injected(d, s, v, log).desk),
        types_right(d, s, orders::injected(d, s, v, log).desk, orders::injected(d, s, v, log).session),
{
    broadcast use signs::group_signs;

    signs::lemma_grows_itself(d);
    reveal(steps::injection_result);
    reveal(steps::settled);
    let t = orders::injected(d, s, v, log);
    service_laws::lemma_types_none_is_right(d, s, d, s);
    if orders::status_of(v) is Some && orders::number_of(v, "sequence"@) is Ok {
        let said = orders::status_of(v)->0;
        let number = orders::number_of(v, "sequence"@)->Ok_0;
        if s.binding.target_device_id == d.id && s.under_way() == Some(number) && said != Ack::Received {
            let recorded = d.record(s.binding.session_id, number, said, log);
            let status = if recorded.result is Ok {
                said
            } else {
                Ack::Unknown
            };
            if session::holds(s.chunks, number) {
                let k = session::slot(s.chunks, number) as int;
                service_laws::lemma_marked_is_of_one(s.chunks, k, status);
                let marked = SessionView {
                    chunks: session::marked(s.chunks, k, status),
                    inflight: None,
                    next_receive: if status == Ack::Applied {
                        (s.next_receive + 1) as u64
                    } else {
                        s.next_receive
                    },
                    phase: if status == Ack::Applied || s.cancelled {
                        s.phase
                    } else if status == Ack::Unknown {
                        Phase::Unknown
                    } else {
                        Phase::Paused
                    },
                    ..s
                };
                let ack = PayloadView::ChunkAck {
                    session_id: s.binding.session_id,
                    sequence: number,
                    ack_status: status,
                };
                let sent = recorded.desk.send(s.binding.source_device_id, ack, log);
                let finished = steps::finish_receiver(marked);
                let shown = sent.desk.snapshot(finished);
                assert(grows(d, recorded.desk) && types_none(d, recorded.desk));
                assert(grows(recorded.desk, sent.desk) && types_none(recorded.desk, sent.desk));
                assert(grows(sent.desk, shown) && types_none(sent.desk, shown));
                assert(grows(d, shown) && types_none(d, shown));
                service_laws::lemma_pump_types(shown, finished);
                if t.session.inflight != s.inflight {
                    service_laws::lemma_types_right_after(d, s, shown, finished, t.desk, t.session);
                }
            } else {
                service_laws::lemma_types_none_is_right(d, s, t.desk, t.session);
            }
        }
    }
}

/// Whatever a session is told to do, it has at most one piece typed, and that is the next one
/// that has come, with the text that came, in the place of the session.
pub proof fn law_commands_type_only_what_came(
    d: DeskView,
    s: SessionView,
    op: Seq<char>,
    v: JsonView,
    now: u64,
    log: Seq<Reply>,
)
    requires
        desk::apart(d.links),
        s.wf(),
    ensures
        grows(d, orders::obey(d, s, op, v, now, log).desk),
        types_right(
            d,
            s,
            orders::obey(d, s, op, v, now, log).desk,
            orders::obey(d, s, op, v, now, log).session,
        ),
{
    signs::lemma_grows_itself(d);
    reveal(orders::obey);
    let t = orders::obey(d, s, op, v, now, log);
    lemma_quiet_source(d, s, v, now, log);
    lemma_quiet_stops(d, s, v, now, log);
    lemma_quiet_sending(d, s, v, v.flag_at("verified"@), now, log);
    lemma_injected_types_right(d, s, v, log);
    if is_quiet(d, s, t) {
        service_laws::lemma_types_none_is_right(d, s, t.desk, t.session);
    }
}

/// Whatever a session hears, and whatever time and loss do to it, it has at most one piece typed,
/// and that is the next one that has come, with the text that came, in the place of the session.
pub proof fn law_messages_type_only_what_came(
    d: DeskView,
    s: SessionView,
    peer: Seq<char>,
    payload: PayloadView,
    now: u64,
    log: Seq<Reply>,
)
    requires
        desk::apart(d.links),
        s.wf(),
    ensures
        grows(d, inbound::on_message(d, s, peer, payload, now, log).desk),
        types_right(
            d,
            s,
            inbound::on_message(d, s, peer, payload, now, log).desk,
            inbound::on_message(d, s, peer, payload, now, log).session,
        ),
        grows(d, upkeep::aged(d, s, now, log).desk),
        types_none(d, upkeep::aged(d, s, now, log).desk),
        grows(d, engine::lost(d, s, now, log).desk),
        types_none(d, engine::lost(d, s, now, log).desk),
{
    broadcast use signs::group_signs;

    signs::lemma_grows_itself(d);
    law_time_does_its_part(d, s, now, log);
    law_a_lost_connection_pauses_the_session(d, s, now, log);
    let t = inbound::on_message(d, s, peer, payload, now, log);
    if s.other(d.id) != peer {
        reveal(inbound::on_message);
        service_laws::lemma_types_none_is_right(d, s, t.desk, t.session);
    } else {
        match payload {
            PayloadView::TextChunk { session_id, sequence, context_token, text, is_final } => {
                law_pieces_that_come_are_taken_in(
                    d,
                    s,
                    peer,
                    session_id,
                    sequence,
                    context_token,
                    text,
                    is_final,
                    now,
                    log,
                );
            },
            _ => {
                lemma_quiet_messages(d, s, peer, payload, now, log);
                service_laws::lemma_types_none_is_right(d, s, t.desk, t.session);
            },
        }
    }
}

/// A message that is no piece of text types nothing.
pub proof fn lemma_quiet_messages(
    d: DeskView,
    s: SessionView,
    peer: Seq<char>,
    payload: PayloadView,
    now: u64,
    log: Seq<Reply>,
)
    requires
        desk::apart(d.links),
        s.wf(),
        !(payload is TextChunk),
    ensures
        is_quiet(d, s, inbound::on_message(d, s, peer, payload, now, log)),
{
    broadcast use signs::group_signs;

    signs::lemma_grows_itself(d);
    reveal(inbound::on_message);
    reveal(inbound::on_pause);
    reveal(inbound::on_ack);
    reveal(inbound::on_resume);
    let paused = SessionView { phase: Phase::Paused, ..s };
    service_laws::lemma_stops(d, s, now, log);
    service_laws::lemma_stops(d, paused, now, log);
    service_laws::lemma_pauses(d, paused, log);
    service_laws::lemma_cancels(d, s, false, now, log);
    match payload {
        PayloadView::ChunkAck { sequence, ack_status, .. } => {
            let status = inbound::acknowledged(session::piece(s.chunks, sequence).status, ack_status);
            let known = SessionView {
                chunks: session::marked(s.chunks, session::slot(s.chunks, sequence) as int, status),
                ..s
            };
            service_laws::lemma_stops(d, SessionView { phase: Phase::Unknown, ..known }, now, log);
            service_laws::lemma_stops(d, SessionView { phase: Phase::Paused, ..known }, now, log);
        },
        PayloadView::SessionResume { context_token, target_app, .. } => {
            let resumed = SessionView {
                binding: BindingView { context_token, target_app, ..s.binding },
                phase: Phase::Committing,
                ..s
            };
            lemma_sends_again(d, resumed, peer, 0, log);
        },
        _ => {},
    }
}


} // verus!
