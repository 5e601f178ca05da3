//! What can be seen of a step from outside: what it tells the program, which messages it sends,
//! and what it asks of the journal.
use crate::desk;
use crate::desk::{DeskView, LinkView, MAX_EVENTS};
use crate::event::EventView;
use crate::noise;
use crate::outside;
use crate::outside::{Ask, Reply};
use crate::protocol::{Ack, PayloadView, WireView, MAX_FRAME, VERSION};
use crate::transport;
use crate::transport::{ChannelView, CipherView};
use crate::wire;
use vstd::prelude::*;

verus! {

// ---------------------------------------------------------------- what is seen

/// The key that a channel sends under, once its handshake is over.
pub open spec fn sending_key(c: ChannelView) -> Option<Seq<u8>> {
    match c.cipher {
        CipherView::Transport { send_key, .. } => Some(send_key),
        _ => None,
    }
}

/// Whether connections are the same, to the same devices and under the same keys.
pub open spec fn same_lines(a: Seq<LinkView>, b: Seq<LinkView>) -> bool {
    &&& a.len() == b.len()
    &&& forall|k: int|
        0 <= k < a.len() ==> (#[trigger] a[k]).id == b[k].id && a[k].channel.peer == b[k].channel.peer && sending_key(
            a[k].channel,
        ) == sending_key(b[k].channel)
}

/// Whether no more events can wait.
pub open spec fn full(d: DeskView) -> bool {
    d.events.len() >= MAX_EVENTS
}

/// Whether one desk comes of another by telling, sending and asking more, and the device is
/// still the same one.
#[verifier::opaque]
pub open spec fn grows(d: DeskView, e: DeskView) -> bool {
    &&& d.events.len() <= e.events.len()
    &&& forall|i: int| 0 <= i < d.events.len() ==> #[trigger] e.events[i] == d.events[i]
    &&& d.asked.len() <= e.asked.len()
    &&& forall|i: int| 0 <= i < d.asked.len() ==> #[trigger] e.asked[i] == d.asked[i]
    &&& same_lines(d.links, e.links)
    &&& e.id == d.id
    &&& e.name == d.name
    &&& e.private == d.private
    &&& e.trust == d.trust
    &&& e.seen == d.seen
    &&& e.lease == d.lease
    &&& e.finalizing == d.finalizing
    &&& e.max_session == d.max_session
    &&& e.heartbeat == d.heartbeat
    &&& e.faulted ==> d.faulted || full(e)
}

/// Whether the program is told something, unless no more events can wait.
#[verifier::opaque]
pub open spec fn tells(d: DeskView, e: DeskView, x: EventView) -> bool {
    full(e) || exists|i: int| d.events.len() <= i < e.events.len() && #[trigger] e.events[i] == x
}

/// Whether there is a connection of a name to a device, under a key.
pub open spec fn line(links: Seq<LinkView>, connection: Seq<char>, peer: Seq<char>, key: Seq<u8>) -> bool {
    exists|k: int|
        0 <= k < links.len() && (#[trigger] links[k]).id == connection && links[k].channel.peer == Some(peer)
            && sending_key(links[k].channel) == Some(key)
}

/// The bytes of a message with an identifier, sealed under a key with a number.
pub open spec fn letter(key: Seq<u8>, number: u64, request_id: u128, payload: PayloadView) -> Seq<u8> {
    transport::framed(
        noise::sealed(key, number, wire::wire_bytes(WireView { protocol_version: VERSION, request_id, payload })),
    )
}

/// Whether an event is a message on its way to a device, sealed for it.
pub open spec fn carries(links: Seq<LinkView>, x: EventView, peer: Seq<char>, payload: PayloadView) -> bool {
    exists|connection: Seq<char>, key: Seq<u8>, number: u64, request_id: u128|
        #![trigger line(links, connection, peer, key), letter(key, number, request_id, payload)]
        line(links, connection, peer, key) && x == (EventView::SocketSend {
            connection_id: connection,
            data: letter(key, number, request_id, payload),
        })
}

/// Whether a message goes to a device, unless no more events can wait.
#[verifier::opaque]
pub open spec fn sends(d: DeskView, e: DeskView, peer: Seq<char>, payload: PayloadView) -> bool {
    full(e) || exists|i: int|
        d.events.len() <= i < e.events.len() && carries(d.links, #[trigger] e.events[i], peer, payload)
}

/// Whether the journal is asked to record what became of a piece.
#[verifier::opaque]
pub open spec fn records(d: DeskView, e: DeskView, session: u128, number: u64, outcome: Ack) -> bool {
    exists|i: int|
        d.asked.len() <= i < e.asked.len() && (#[trigger] e.asked[i] matches Ask::Record {
            id,
            sequence,
            status,
            ..
        } && id == session && sequence == number && status == outcome)
}

/// Whether nothing is had typed.
#[verifier::opaque]
pub open spec fn types_none(d: DeskView, e: DeskView) -> bool {
    forall|i: int| d.events.len() <= i < e.events.len() ==> !(#[trigger] e.events[i] is Inject)
}

/// Whether a device can be told so many things: it is paired, there is a connection to it, and
/// every connection to it is ready to carry messages.
#[verifier::opaque]
pub open spec fn hears(d: DeskView, peer: Seq<char>, times: int) -> bool {
    &&& d.paired(peer)
    &&& exists|k: int| 0 <= k < d.links.len() && (#[trigger] d.links[k]).channel.peer == Some(peer)
    &&& forall|k: int|
        0 <= k < d.links.len() && (#[trigger] d.links[k]).channel.peer == Some(peer) ==> (d.links[k].channel.cipher
            matches CipherView::Transport { sent, .. } && sent + times <= u64::MAX)
}

/// Whether a message is not too long for a frame.
pub open spec fn is_short(payload: PayloadView) -> bool {
    forall|request_id: u128| #[trigger]
        wire::wire_bytes(WireView { protocol_version: VERSION, request_id, payload }).len() <= MAX_FRAME - 32
}

/// Whether the journal does what it is asked.
pub open spec fn willing(log: Seq<Reply>) -> bool {
    forall|i: int| outside::done_in(#[trigger] log[i]) is Ok
}

// ---------------------------------------------------------------- how it adds up

/// Nothing more is no less.
pub broadcast proof fn lemma_grows_itself(d: DeskView)
    ensures
        #[trigger] grows(d, d),
        types_none(d, d),
{
    reveal(grows);
    reveal(types_none);
}

/// What comes of what came of a desk came of it.
pub broadcast proof fn lemma_grows_on(a: DeskView, b: DeskView, c: DeskView)
    requires
        #[trigger] grows(a, b),
        #[trigger] grows(b, c),
    ensures
        grows(a, c),
        types_none(a, b) && types_none(b, c) ==> types_none(a, c),
{
    reveal(grows);
    reveal(types_none);
    assert forall|i: int| 0 <= i < a.events.len() implies #[trigger] c.events[i] == a.events[i] by {
        assert(b.events[i] == a.events[i]);
    }
    assert forall|i: int| 0 <= i < a.asked.len() implies #[trigger] c.asked[i] == a.asked[i] by {
        assert(b.asked[i] == a.asked[i]);
    }
    assert forall|k: int| 0 <= k < a.links.len() implies (#[trigger] a.links[k]).id == c.links[k].id
        && a.links[k].channel.peer == c.links[k].channel.peer && sending_key(a.links[k].channel) == sending_key(
        c.links[k].channel,
    ) by {
        assert(b.links[k].id == a.links[k].id);
    }
    if types_none(a, b) && types_none(b, c) {
        assert forall|i: int| a.events.len() <= i < c.events.len() implies !(#[trigger] c.events[i] is Inject) by {
            if i < b.events.len() {
                assert(c.events[i] == b.events[i]);
            }
        }
    }
}

/// A desk that comes of another is of the same device, and its connections have names of their
/// own if those had.
pub broadcast proof fn lemma_grows_same(d: DeskView, e: DeskView)
    requires
        #[trigger] grows(d, e),
    ensures
        e.id == d.id,
        e.name == d.name,
        e.trust == d.trust,
        e.private == d.private,
        e.seen == d.seen,
        e.lease == d.lease,
        e.finalizing == d.finalizing,
        e.max_session == d.max_session,
        desk::apart(d.links) ==> desk::apart(e.links),
        full(d) ==> full(e),
{
    reveal(grows);
    if desk::apart(d.links) {
        assert forall|i: int, j: int| 0 <= i < j < e.links.len() implies (#[trigger] e.links[i]).id != (
        #[trigger] e.links[j]).id by {
            assert(d.links[i].id == e.links[i].id);
            assert(d.links[j].id == e.links[j].id);
        }
    }
}

/// An event that waits is told.
pub broadcast proof fn lemma_emit(d: DeskView, x: EventView)
    ensures
        grows(d, #[trigger] d.emit(x)),
        tells(d, d.emit(x), x),
        !(x is Inject) ==> types_none(d, d.emit(x)),
        d.emit(x).links == d.links,
        d.emit(x).journal == d.journal,
        d.emit(x).asked == d.asked,
{
    reveal(grows);
    reveal(tells);
    reveal(types_none);
    let e = d.emit(x);
    if !full(d) {
        assert(e.events[d.events.len() as int] == x);
    }
}

/// What was told is told.
pub broadcast proof fn lemma_tells_before(a: DeskView, b: DeskView, c: DeskView, x: EventView)
    requires
        #[trigger] tells(a, b, x),
        #[trigger] grows(b, c),
    ensures
        tells(a, c, x),
{
    reveal(grows);
    reveal(tells);
    if !full(b) {
        let i = choose|i: int| a.events.len() <= i < b.events.len() && #[trigger] b.events[i] == x;
        assert(c.events[i] == x);
    }
}

/// What is told later is told.
pub broadcast proof fn lemma_tells_after(a: DeskView, b: DeskView, c: DeskView, x: EventView)
    requires
        #[trigger] grows(a, b),
        #[trigger] tells(b, c, x),
    ensures
        tells(a, c, x),
{
    reveal(grows);
    reveal(tells);
}

/// Connections that are the same carry the same.
pub proof fn lemma_carries(a: Seq<LinkView>, b: Seq<LinkView>, x: EventView, peer: Seq<char>, payload: PayloadView)
    requires
        same_lines(a, b),
        carries(b, x, peer, payload),
    ensures
        carries(a, x, peer, payload),
{
    let (connection, key, number, request_id) = choose|
        connection: Seq<char>,
        key: Seq<u8>,
        number: u64,
        request_id: u128,
    |
        #![trigger line(b, connection, peer, key), letter(key, number, request_id, payload)]
        line(b, connection, peer, key) && x == (EventView::SocketSend {
            connection_id: connection,
            data: letter(key, number, request_id, payload),
        });
    let k = choose|k: int|
        0 <= k < b.len() && (#[trigger] b[k]).id == connection && b[k].channel.peer == Some(peer) && sending_key(
            b[k].channel,
        ) == Some(key);
    assert(a[k].id == connection);
    assert(line(a, connection, peer, key));
    let data = letter(key, number, request_id, payload);
}

/// What was sent is sent.
pub broadcast proof fn lemma_sends_before(a: DeskView, b: DeskView, c: DeskView, peer: Seq<char>, payload: PayloadView)
    requires
        #[trigger] sends(a, b, peer, payload),
        #[trigger] grows(b, c),
    ensures
        sends(a, c, peer, payload),
{
    reveal(grows);
    reveal(sends);
    if !full(b) {
        let i = choose|i: int|
            a.events.len() <= i < b.events.len() && carries(a.links, #[trigger] b.events[i], peer, payload);
        assert(c.events[i] == b.events[i]);
    }
}

/// What is sent later is sent.
pub broadcast proof fn lemma_sends_after(a: DeskView, b: DeskView, c: DeskView, peer: Seq<char>, payload: PayloadView)
    requires
        #[trigger] grows(a, b),
        #[trigger] sends(b, c, peer, payload),
    ensures
        sends(a, c, peer, payload),
{
    reveal(grows);
    reveal(sends);
    if !full(c) {
        let i = choose|i: int|
            b.events.len() <= i < c.events.len() && carries(b.links, #[trigger] c.events[i], peer, payload);
        lemma_carries(a.links, b.links, c.events[i], peer, payload);
    }
}

/// What was to be recorded is.
pub broadcast proof fn lemma_records_before(a: DeskView, b: DeskView, c: DeskView, session: u128, number: u64, status: Ack)
    requires
        #[trigger] records(a, b, session, number, status),
        #[trigger] grows(b, c),
    ensures
        records(a, c, session, number, status),
{
    reveal(grows);
    reveal(records);
    let i = choose|i: int|
        a.asked.len() <= i < b.asked.len() && (#[trigger] b.asked[i] matches Ask::Record {
            id,
            sequence,
            status: outcome,
            ..
        } && id == session && sequence == number && outcome == status);
    assert(c.asked[i] == b.asked[i]);
}

/// What is to be recorded later is.
pub broadcast proof fn lemma_records_after(a: DeskView, b: DeskView, c: DeskView, session: u128, number: u64, status: Ack)
    requires
        #[trigger] grows(a, b),
        #[trigger] records(b, c, session, number, status),
    ensures
        records(a, c, session, number, status),
{
    reveal(grows);
    reveal(records);
}

/// To ask something of the outside tells nothing.
pub broadcast proof fn lemma_asking(d: DeskView, ask: Ask)
    ensures
        grows(d, #[trigger] d.asking(ask)),
        types_none(d, d.asking(ask)),
{
    reveal(grows);
    reveal(types_none);
}

/// To have something recorded asks for it, and tells nothing.
pub broadcast proof fn lemma_record(d: DeskView, id: u128, sequence: u64, status: Ack, log: Seq<Reply>)
    ensures
        grows(d, (#[trigger] d.record(id, sequence, status, log)).desk),
        types_none(d, d.record(id, sequence, status, log).desk),
        records(d, d.record(id, sequence, status, log).desk, id, sequence, status),
        d.record(id, sequence, status, log).desk.links == d.links,
        d.record(id, sequence, status, log).desk.events == d.events,
{
    reveal(grows);
    reveal(types_none);
    reveal(records);
    let e = d.record(id, sequence, status, log).desk;
    assert(e.asked[d.asked.len() as int] == (Ask::Record { journal: d.journal, id, sequence, status }));
}

/// To register a piece tells nothing.
pub broadcast proof fn lemma_register(d: DeskView, id: u128, sequence: u64, text: Seq<char>, log: Seq<Reply>)
    ensures
        grows(d, (#[trigger] d.register(id, sequence, text, log)).desk),
        types_none(d, d.register(id, sequence, text, log).desk),
        d.register(id, sequence, text, log).desk.links == d.links,
        d.register(id, sequence, text, log).desk.events == d.events,
{
    reveal(grows);
    reveal(types_none);
}

/// What is said to a device goes to it, and to no other, if it is said at all; it is said if the
/// device can be reached.
pub broadcast proof fn law_a_message_goes_to_its_device(d: DeskView, peer: Seq<char>, payload: PayloadView, log: Seq<Reply>)
    requires
        desk::apart(d.links),
    ensures
        grows(d, (#[trigger] d.send(peer, payload, log)).desk),
        types_none(d, d.send(peer, payload, log).desk),
        d.send(peer, payload, log).desk.journal == d.journal,
        d.send(peer, payload, log).result is Ok ==> sends(d, d.send(peer, payload, log).desk, peer, payload),
        d.send(peer, payload, log).result is Ok ==> d.send(peer, payload, log).desk.events.len() <= d.events.len() + 1,
        d.send(peer, payload, log).result is Err ==> d.send(peer, payload, log).desk.events == d.events,
        hears(d, peer, 1) && is_short(payload) ==> d.send(peer, payload, log).result is Ok,
{
    reveal(grows);
    reveal(types_none);
    reveal(sends);
    reveal(hears);
    reveal(DeskView::send);
    let e = d.send(peer, payload, log);
    let i = desk::link_to(d.links, peer) as int;
    desk::lemma_link_to(d.links, peer);
    let w = d.message(payload, log);
    let bytes = wire::wire_bytes(w);
    if d.paired(peer) && i < d.links.len() {
        let connection = d.links[i].id;
        desk::lemma_link_at(d.links, connection);
        assert(desk::link_at(d.links, connection) == i);
        let c = d.links[i].channel;
        if c.mute(bytes.len()) is None {
            match c.cipher {
                CipherView::Transport { send_key, sent, .. } => {
                    let data = letter(send_key, sent, w.request_id, payload);
                    assert(line(d.links, connection, peer, send_key));
                    assert(data == c.sealed(bytes));
                    let x = EventView::SocketSend { connection_id: connection, data };
                    assert(carries(d.links, x, peer, payload));
                    if !full(d) {
                        assert(e.desk.events[d.events.len() as int] == x);
                    }
                },
                _ => {},
            }
        }
        if hears(d, peer, 1) && is_short(payload) {
            assert(d.links[i].channel.peer == Some(peer));
            assert(wire::wire_bytes(WireView { protocol_version: VERSION, request_id: w.request_id, payload }).len()
                <= MAX_FRAME - 32);
        }
    }
    if hears(d, peer, 1) && i >= d.links.len() {
        let k = choose|k: int| 0 <= k < d.links.len() && (#[trigger] d.links[k]).channel.peer == Some(peer);
        assert(d.links[k].channel.peer != Some(peer));
    }
}

/// A device that hears so many things hears fewer.
pub broadcast proof fn lemma_hears_less(d: DeskView, peer: Seq<char>, times: int)
    requires
        #[trigger] hears(d, peer, times),
        times >= 1,
    ensures
        hears(d, peer, 1),
{
    reveal(hears);
}

/// A device that hears so many things hears so many fewer.
pub proof fn lemma_hears_fewer(d: DeskView, peer: Seq<char>, times: int, fewer: int)
    requires
        fewer <= times,
    ensures
        hears(d, peer, times) ==> hears(d, peer, fewer),
{
    reveal(hears);
}

/// What else a device is told does not keep it from hearing more.
pub broadcast proof fn lemma_hears_after_send(
    d: DeskView,
    peer: Seq<char>,
    times: int,
    other: Seq<char>,
    payload: PayloadView,
    log: Seq<Reply>,
)
    requires
        #[trigger] hears(d, peer, times),
        times >= 1,
    ensures
        hears((#[trigger] d.send(other, payload, log)).desk, peer, times - 1),
{
    reveal(hears);
    reveal(DeskView::send);
    let e = d.send(other, payload, log).desk;
    let k = choose|k: int| 0 <= k < d.links.len() && (#[trigger] d.links[k]).channel.peer == Some(peer);
    assert(e.links[k].channel.peer == Some(peer));
    assert forall|j: int| 0 <= j < e.links.len() && (#[trigger] e.links[j]).channel.peer == Some(peer) implies (
    e.links[j].channel.cipher matches CipherView::Transport { sent, .. } && sent + (times - 1) <= u64::MAX) by {
        assert(d.links[j].channel.peer == Some(peer));
    }
}

/// What the program is told, and what the journal is asked, keeps no device from hearing.
pub broadcast proof fn lemma_hears_still(d: DeskView, e: DeskView, peer: Seq<char>, times: int)
    requires
        #[trigger] hears(d, peer, times),
        #[trigger] grows(d, e),
        e.links == d.links,
    ensures
        hears(e, peer, times),
{
    reveal(hears);
    reveal(grows);
}

/// How what is seen of steps adds up.
pub broadcast group group_signs {
    lemma_grows_itself,
    lemma_grows_on,
    lemma_grows_same,
    lemma_emit,
    lemma_tells_before,
    lemma_tells_after,
    lemma_sends_before,
    lemma_sends_after,
    lemma_records_before,
    lemma_records_after,
    lemma_asking,
    lemma_record,
    lemma_register,
    law_a_message_goes_to_its_device,
    lemma_hears_less,
    lemma_hears_after_send,
    lemma_hears_still,
}

/// What a session shows of itself is what it is: its binding, where it stands, the draft, every
/// piece with its text and what became of it, and whether it was stopped or cancelled.
pub proof fn law_a_session_shows_what_it_is(s: crate::session::SessionView)
    ensures
        desk::snapshot_of(s) matches EventView::Session { binding, phase, draft, chunks, stopped, cancelled } && {
            &&& binding == s.binding
            &&& phase == s.phase
            &&& draft == s.draft
            &&& stopped == s.stopped
            &&& cancelled == s.cancelled
            &&& chunks.len() == s.chunks.len()
            &&& forall|i: int|
                0 <= i < chunks.len() ==> (#[trigger] chunks[i]).sequence == s.chunks[i].sequence && chunks[i].text
                    == s.chunks[i].text && chunks[i].status == s.chunks[i].status
        },
{
}

} // verus!
