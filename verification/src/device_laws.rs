//! What holds of a device, whatever comes.
use crate::command;
use crate::crypto;
use crate::desk;
use crate::desk::{DeskView, MAX_EVENTS};
use crate::engine;
use crate::engine::{EngineView, MAX_SEEN, MAX_SESSIONS};
use crate::event::EventView;
use crate::json;
use crate::json::JsonView;
use crate::network;
use crate::noise;
use crate::orders;
use crate::orders::Answer;
use crate::outside;
use crate::outside::{Ask, Reply};
use crate::protocol::{BindingView, PayloadView, WireView};
use crate::session_laws;
use crate::text;
use crate::transport;
use crate::transport::{ChannelEventView, ChannelView, CipherView};
use crate::trust;
use crate::wire;
use vstd::prelude::*;

verus! {

// ---------------------------------------------------------------- messages arrive

/// What one device sends, the other hears: a frame that can be read, and comes whole over a
/// channel with the same key where it is the next one, is heard as the message that was
/// sent. The channel must have room in its current second, and the request must not have
/// come before with another content.
pub proof fn law_what_is_sent_is_heard(
    sender: ChannelView,
    w: WireView,
    e: EngineView,
    v: JsonView,
    connection: Seq<char>,
    peer: Seq<char>,
    now: u64,
    wall: u64,
    log: Seq<Reply>,
)
    requires
        desk::readable(sender, w),
        orders::text_of(v, "connection_id"@) == Ok::<Seq<char>, Seq<char>>(connection),
        orders::text_of(v, "data"@) == Ok::<Seq<char>, Seq<char>>(
            crypto::b64_text(sender.sealed(wire::wire_bytes(w))),
        ),
        desk::link_at(e.desk.links, connection) < e.desk.links.len(),
        ({
            let c = e.desk.links[desk::link_at(e.desk.links, connection) as int].channel;
            &&& sender.cipher matches CipherView::Transport { send_key, sent, .. }
            &&& c.cipher matches CipherView::Transport { receive_key, received, .. }
            &&& receive_key == send_key
            &&& received == sent
            &&& c.buffer.len() == 0
            &&& c.counted(now).messages <= 100
            &&& c.peer == Some(peer)
        }),
        !network::conflicts(e.desk.seen, peer, w.request_id, crypto::sha256_of(wire::wire_bytes(w))),
    ensures
        ({
            let i = desk::link_at(e.desk.links, connection) as int;
            let c = e.desk.links[i].channel;
            let bytes = wire::wire_bytes(w);
            let opened = transport::after_opening(ChannelView { last_rx: now, ..c.counted(now) });
            let d = e.desk.asking(Ask::Shake).with_channel(i, opened);
            let seen = desk::SeenView { peer, request_id: w.request_id, digest: crypto::sha256_of(bytes) };
            let heard = e.at(DeskView { seen: network::remembered(e.desk.seen, seen), ..d }).receive(
                peer,
                connection,
                w.payload,
                now,
                wall,
                log,
            );
            e.bytes(v, now, wall, log) == (match heard.result {
                Ok(_) => heard.engine.kept(),
                Err(code) => heard.engine.close(connection, now, log).refused(code),
            })
        }),
{
    reveal(EngineView::bytes);
    reveal(EngineView::on_plain);
    let i = desk::link_at(e.desk.links, connection) as int;
    let c = e.desk.links[i].channel;
    let bytes = wire::wire_bytes(w);
    let frame = sender.sealed(bytes);
    let wrote = outside::wrote_in(e.desk.next(log));
    crypto::law_base64_is_read_back(frame);
    match sender.cipher {
        CipherView::Transport { send_key, sent, .. } => {
            let message = noise::sealed(send_key, sent, bytes);
            transport::law_sealed_text_arrives(c, message, bytes, now, wrote);
        },
        _ => {},
    }
    let opened = transport::after_opening(ChannelView { last_rx: now, ..c.counted(now) });
    let next = e.at(e.desk.asking(Ask::Shake).with_channel(i, opened));
    let events = seq![ChannelEventView::Plain(bytes)];
    reveal_with_fuel(EngineView::on_channel_events, 2);
    assert(events.drop_first() =~= seq![]);
    desk::lemma_link_at(e.desk.links, connection);
    lemma_same_name(e.desk.links, i, opened, connection);
}

/// Another channel on a connection leaves the names of connections where they are.
proof fn lemma_same_name(links: Seq<desk::LinkView>, i: int, c: ChannelView, connection: Seq<char>)
    requires
        0 <= i < links.len(),
    ensures
        desk::link_at(links.update(i, desk::LinkView { id: links[i].id, channel: c }), connection) == desk::link_at(
            links,
            connection,
        ),
    decreases links.len(),
{
    let other = links.update(i, desk::LinkView { id: links[i].id, channel: c });
    if links[0].id != connection {
        if i > 0 {
            lemma_same_name(links.drop_first(), i - 1, c, connection);
            assert(other.drop_first() =~= links.drop_first().update(
                i - 1,
                desk::LinkView { id: links[i].id, channel: c },
            ));
        } else {
            assert(other.drop_first() =~= links.drop_first());
        }
    }
}

/// A request that comes again under its identifier with another content is refused, and
/// changes nothing.
pub proof fn law_a_request_keeps_its_content(
    e: EngineView,
    connection: Seq<char>,
    peer: Seq<char>,
    bytes: Seq<u8>,
    w: WireView,
    now: u64,
    wall: u64,
    log: Seq<Reply>,
)
    requires
        wire::wire_decoded(bytes) == Ok::<WireView, Seq<char>>(w),
        desk::link_at(e.desk.links, connection) < e.desk.links.len(),
        e.desk.links[desk::link_at(e.desk.links, connection) as int].channel.peer == Some(peer),
        network::conflicts(e.desk.seen, peer, w.request_id, crypto::sha256_of(bytes)),
    ensures
        e.on_plain(connection, bytes, now, wall, log) == e.refused::<()>("request_content_conflict"@),
{
    reveal(EngineView::on_plain);
}

/// Only the messages of the protocol are read: one of any other kind is none.
pub proof fn law_other_kinds_are_refused(j: JsonView)
    requires
        wire::payload_of(j) is Some,
    ensures
        wire::kind_of(j) matches Some(k) && (k == "hello"@ || k == "pair_confirm"@ || k == "bind_request"@ || k
            == "session_bound"@ || k == "session_start"@ || k == "session_ready"@ || k == "session_state"@ || k
            == "session_keepalive"@ || k == "session_stop"@ || k == "session_cancel"@ || k == "text_chunk"@ || k
            == "chunk_ack"@ || k == "chunk_query"@ || k == "session_end"@ || k == "session_pause"@ || k
            == "session_resume"@ || k == "error"@),
{
}

// ---------------------------------------------------------------- pairing

/// Devices are paired only when both sides have confirmed, and a device that is newly
/// paired may not start sessions.
pub proof fn law_pairing_needs_both(d: DeskView, peer: Seq<char>)
    requires
        trust::sorted(d.trust),
    ensures
        ({
            let i = desk::link_to(d.links, peer) as int;
            let after = d.maybe_pair(peer).desk;
            &&& trust::sorted(after.trust)
            &&& after.trust != d.trust ==> i < d.links.len() && d.links[i].channel.local_confirmed
                && d.links[i].channel.remote_confirmed
            &&& !d.paired(peer) && after.paired(peer) ==> !trust::may_start(after.trust, peer)
            &&& i < d.links.len() && d.links[i].channel.local_confirmed && d.links[i].channel.remote_confirmed
                ==> after.paired(peer)
        }),
{
    let i = desk::link_to(d.links, peer) as int;
    if i < d.links.len() {
        trust::law_a_paired_device_is_on_the_list(
            d.trust,
            trust::TrustView { peer_id: peer, name: d.links[i].channel.name, allow_remote: false },
        );
    }
}

/// A device that is not paired is heard only as far as who it is and that it pairs: of
/// anything else, nothing is done.
pub proof fn law_strangers_are_not_heard(
    e: EngineView,
    peer: Seq<char>,
    connection: Seq<char>,
    payload: PayloadView,
    now: u64,
    wall: u64,
    log: Seq<Reply>,
)
    requires
        !e.desk.paired(peer),
        !(payload is Hello),
        !(payload is PairConfirm),
    ensures
        e.receive(peer, connection, payload, now, wall, log) == e.refused::<()>("unpaired_device"@),
{
    reveal(EngineView::receive);
}

/// No session is begun with a device that is not paired, or not there.
pub proof fn law_sessions_need_a_paired_device(e: EngineView, v: JsonView, peer: Seq<char>, now: u64, wall: u64, log: Seq<Reply>)
    requires
        orders::text_of(v, "peer_id"@) == Ok::<Seq<char>, Seq<char>>(peer),
    ensures
        !e.desk.paired(peer) ==> e.begin(v, now, wall, log) == e.refused::<Answer>("unpaired_device"@),
        e.desk.paired(peer) && !e.desk.connected(peer) ==> e.begin(v, now, wall, log) == e.refused::<Answer>(
            "target_offline"@,
        ),
{
    reveal(EngineView::begin);
}

/// To be paired is no leave to use the microphone: where a device that was not given it
/// wants this one to dictate, no session comes of it, and the program hears nothing but an
/// answer to send.
pub proof fn law_pairing_gives_no_microphone(
    e: EngineView,
    peer: Seq<char>,
    b: BindingView,
    now: u64,
    wall: u64,
    log: Seq<Reply>,
)
    requires
        !trust::may_start(e.desk.trust, peer),
    ensures
        ({
            let m = e.on_session_start(peer, b, now, wall, log);
            &&& m.engine.sessions == e.sessions
            &&& m.engine.active_source == e.active_source
            &&& m.engine.active_target == e.active_target
            &&& session_laws::adds_only(e.desk, m.engine.desk, |x: EventView| x is SocketSend)
        }),
{
    reveal(EngineView::on_session_start);
    reveal(DeskView::send);
}

/// A device whose pairing has ended is not on the list any more, and the list stays in
/// order.
pub proof fn law_revoking_takes_off_the_list(e: EngineView, v: JsonView, peer: Seq<char>, now: u64, log: Seq<Reply>)
    requires
        trust::sorted(e.desk.trust),
        orders::text_of(v, "peer_id"@) == Ok::<Seq<char>, Seq<char>>(peer),
    ensures
        !e.revoke(v, now, log).engine.desk.paired(peer),
        trust::sorted(e.revoke(v, now, log).engine.desk.trust),
        e.revoke(v, now, log).result is Ok,
{
    reveal(EngineView::revoke);
    trust::law_a_revoked_device_is_off_the_list(e.desk.trust, peer);
    let off = e.at(DeskView { trust: trust::without_peer(e.desk.trust, peer), ..e.desk }.save_trust());
    lemma_disallow_keeps_trust(off, peer, true, now, log);
    let revoked = off.disallow(peer, true, now, log);
    let i = desk::link_to(revoked.desk.links, peer) as int;
    lemma_close_keeps_trust(revoked, revoked.desk.links[i].id, now, log);
}

/// To give or take the leave to start sessions leaves the list in order, with the same
/// devices on it.
pub proof fn law_permissions_keep_the_list(e: EngineView, v: JsonView, now: u64, log: Seq<Reply>)
    requires
        trust::sorted(e.desk.trust),
    ensures
        trust::sorted(e.remote_permission(v, now, log).engine.desk.trust),
        e.remote_permission(v, now, log).engine.desk.trust.len() == e.desk.trust.len(),
        forall|i: int|
            0 <= i < e.desk.trust.len() ==> (#[trigger] e.remote_permission(v, now, log).engine.desk.trust[i]).peer_id
                == e.desk.trust[i].peer_id,
{
    reveal(EngineView::remote_permission);
    if orders::text_of(v, "peer_id"@) is Ok {
        let peer = orders::text_of(v, "peer_id"@)->Ok_0;
        if e.desk.paired(peer) {
            let allowed = v.flag_at("allowed"@);
            let i = trust::spot(e.desk.trust, peer) as int;
            let list = e.desk.trust.update(
                i,
                trust::TrustView { allow_remote: allowed, ..e.desk.trust[i] },
            );
            assert(trust::sorted(list)) by {
                assert forall|a: int, b: int| 0 <= a < b < list.len() implies text::before(
                    (#[trigger] list[a]).peer_id,
                    (#[trigger] list[b]).peer_id,
                ) by {
                    assert(text::before(e.desk.trust[a].peer_id, e.desk.trust[b].peer_id));
                }
            }
            let changed = e.at(DeskView { trust: list, ..e.desk }.save_trust());
            lemma_disallow_keeps_trust(changed, peer, false, now, log);
        }
    }
}

/// To cancel a session for want of leave leaves the paired devices.
proof fn lemma_disallow_keeps_trust(e: EngineView, peer: Seq<char>, revoked: bool, now: u64, log: Seq<Reply>)
    ensures
        e.disallow(peer, revoked, now, log).desk.trust == e.desk.trust,
{
    reveal(command::disallowed);
    if e.active_source is Some {
        let i = engine::session_at(e.sessions, e.active_source->0) as int;
        if i < e.sessions.len() {
            session_laws::lemma_cancel(e.desk, e.sessions[i], true, now, log);
        }
    }
}

/// To lose connections leaves the paired devices.
proof fn lemma_lose_keeps_trust(e: EngineView, peer: Seq<char>, i: nat, now: u64, log: Seq<Reply>)
    ensures
        e.lose_from(peer, i, now, log).desk.trust == e.desk.trust,
    decreases e.sessions.len() - i,
{
    if i < e.sessions.len() {
        let s = e.sessions[i as int];
        session_laws::law_time_and_loss_are_taken_properly(e.desk, s, now, log);
        reveal(session_laws::is_proper);
        lemma_lose_keeps_trust(e, peer, i + 1, now, log);
        lemma_lose_keeps_trust(
            e.landed(i as int, engine::lost(e.desk, s, now, log)).engine,
            peer,
            i + 1,
            now,
            log,
        );
    }
}

/// To close a connection leaves the paired devices.
proof fn lemma_close_keeps_trust(e: EngineView, connection: Seq<char>, now: u64, log: Seq<Reply>)
    ensures
        e.close(connection, now, log).desk.trust == e.desk.trust,
{
    reveal(EngineView::close);
    let i = desk::link_at(e.desk.links, connection) as int;
    let d = (DeskView { links: e.desk.links.remove(i), ..e.desk }).emit(
        EventView::SocketClose { connection_id: connection },
    );
    if i < e.desk.links.len() && e.desk.links[i].channel.peer is Some {
        let peer = e.desk.links[i].channel.peer->0;
        lemma_lose_keeps_trust(e.at(d.peer_event(peer, false)), peer, 0, now, log);
    }
}

// ---------------------------------------------------------------- sessions

/// There is one microphone and one keyboard: while a session has it, no other is begun on
/// it, and nothing changes.
pub proof fn law_one_microphone_one_keyboard(
    e: EngineView,
    b: BindingView,
    source: bool,
    now: u64,
    wall: u64,
    log: Seq<Reply>,
)
    requires
        if source {
            e.active_source is Some
        } else {
            e.active_target is Some
        },
    ensures
        e.add_session(b, source, now, wall, log).result is Err,
        e.add_session(b, source, now, wall, log).engine == e,
{
    reveal(EngineView::add_session);
}

/// A device keeps no more sessions than it may.
pub proof fn law_sessions_are_few(e: EngineView, b: BindingView, source: bool, now: u64, wall: u64, log: Seq<Reply>)
    requires
        e.sessions.len() <= MAX_SESSIONS,
    ensures
        e.add_session(b, source, now, wall, log).engine.sessions.len() <= MAX_SESSIONS,
{
    reveal(EngineView::add_session);
}

/// A new session is noted in the journal before it is anything else: where the journal
/// refuses it, there is no session.
pub proof fn law_sessions_are_noted_first(
    e: EngineView,
    b: BindingView,
    source: bool,
    now: u64,
    wall: u64,
    log: Seq<Reply>,
)
    requires
        e.desk.note(
            b.session_id,
            if source {
                b.target_device_id
            } else {
                b.source_device_id
            },
            wall,
            log,
        ).result is Err,
    ensures
        ({
            let m = e.add_session(b, source, now, wall, log);
            &&& m.result is Err
            &&& m.engine.sessions == e.sessions
            &&& m.engine.active_source == e.active_source
            &&& m.engine.active_target == e.active_target
            &&& m.engine.desk.events == e.desk.events
        }),
{
    reveal(EngineView::add_session);
}

/// To be asked what became of a piece changes no session, and has nothing typed.
pub proof fn law_questions_change_nothing(
    e: EngineView,
    peer: Seq<char>,
    session_id: u128,
    sequence: u64,
    wall: u64,
    log: Seq<Reply>,
)
    ensures
        ({
            let m = e.on_query(peer, session_id, sequence, wall, log);
            &&& m.engine.sessions == e.sessions
            &&& session_laws::types_nothing(e.desk, m.engine.desk)
        }),
{
    reveal(EngineView::on_query);
    let authorized = e.desk.authorize(session_id, peer, wall, log);
    let told = authorized.desk.tell(session_id, sequence, log);
    if told.result is Ok {
        session_laws::lemma_send(
            told.desk,
            peer,
            PayloadView::ChunkAck { session_id, sequence, ack_status: told.result->Ok_0 },
            log,
        );
    }
}

/// A session that has the microphone or the keyboard is not forgotten.
pub proof fn law_active_sessions_are_kept(e: EngineView, v: JsonView, id: u128)
    requires
        orders::session_of(v) == Ok::<u128, Seq<char>>(id),
        e.active_source == Some(id) || e.active_target == Some(id),
    ensures
        e.forget_recovery(v) == e.refused::<()>("session_still_active"@),
{
}

// ---------------------------------------------------------------- limits

/// No more events wait than may: the one too many is not kept, and the device is done for.
pub proof fn law_events_are_few(d: DeskView, x: EventView)
    requires
        d.events.len() <= MAX_EVENTS,
    ensures
        d.emit(x).events.len() <= MAX_EVENTS,
        d.events.len() < MAX_EVENTS ==> d.emit(x).events == d.events.push(x) && d.emit(x).faulted == d.faulted,
        d.events.len() == MAX_EVENTS ==> d.emit(x).events == d.events && d.emit(x).faulted,
{
}

/// A device that lost events does nothing any more, lets every connection and the
/// microphone go, and says so last.
pub proof fn law_a_device_that_lost_events_is_done_for(e: EngineView, v: JsonView, now: u64, wall: u64, log: Seq<Reply>)
    requires
        e.desk.faulted,
    ensures
        e.command(v, now, wall, log) == e.refused::<Answer>("core_restart_required"@),
        e.enforce_event_limit().desk.links.len() == 0,
        e.enforce_event_limit().desk.events.len() > 0,
        e.enforce_event_limit().desk.events.last() == (EventView::Fatal {
            code: "event_overflow_restart_required"@,
        }),
        e.enforce_event_limit().desk.faulted,
        e.active_source matches Some(id) ==> e.enforce_event_limit().desk.events.contains(
            EventView::CancelInput { session_id: id },
        ),
        forall|i: int|
            0 <= i < e.desk.links.len() ==> e.enforce_event_limit().desk.events.contains(
                EventView::SocketClose { connection_id: (#[trigger] e.desk.links[i]).id },
            ),
{
    reveal(EngineView::command);
    let all = command::last_events(e.desk.links, e.active_source);
    assert forall|i: int| 0 <= i < e.desk.links.len() implies all.contains(
        EventView::SocketClose { connection_id: (#[trigger] e.desk.links[i]).id },
    ) by {
        assert(all[i] == (EventView::SocketClose { connection_id: e.desk.links[i].id }));
    }
    if e.active_source is Some {
        assert(all[e.desk.links.len() as int] == (EventView::CancelInput { session_id: e.active_source->0 }));
    }
}

/// No more requests are remembered than may be, and the newest is.
pub proof fn law_requests_are_few(seen: Seq<desk::SeenView>, s: desk::SeenView)
    requires
        seen.len() <= MAX_SEEN,
    ensures
        network::remembered(seen, s).len() <= MAX_SEEN,
        network::remembered(seen, s).last() == s,
{
}

// ---------------------------------------------------------------- a person's word

/// Where a person says that the source has stopped, the device does what it does when the
/// program has made sure of it; every other command is taken as it is.
pub proof fn law_a_confirmed_stop_is_a_verified_stop(v: JsonView, key: Seq<char>)
    ensures
        v.text_at("op"@) == Some("confirm_stopped"@) ==> {
            let n = crate::normalized(v);
            &&& n.text_at("op"@) == Some("source_stopped"@)
            &&& n.flag_at("verified"@)
            &&& key != "op"@ && key != "verified"@ ==> n.member(key) == v.member(key)
        },
        v.text_at("op"@) != Some("confirm_stopped"@) ==> crate::normalized(v) == v,
{
    reveal_strlit("op");
    reveal_strlit("verified");
    assert("op"@.len() != "verified"@.len());
    match v {
        JsonView::Object(members) => {
            let renamed = JsonView::Text("source_stopped"@);
            let told = json::entries_with(members, "op"@, renamed);
            json::lemma_set(members, "op"@, renamed, "op"@);
            json::lemma_set(members, "op"@, renamed, key);
            json::lemma_set(told, "verified"@, JsonView::Bool(true), "op"@);
            json::lemma_set(told, "verified"@, JsonView::Bool(true), "verified"@);
            json::lemma_set(told, "verified"@, JsonView::Bool(true), key);
        },
        _ => {},
    }
}


/// What a device that lost events says last is that each connection is closed, in their order,
/// that the microphone is let go, where it is in use, and that it is done for, and no more.
pub proof fn law_the_last_events(e: EngineView, i: int)
    requires
        e.desk.faulted,
    ensures
        ({
            let last = e.enforce_event_limit().desk.events;
            let n = e.desk.links.len() as int;
            &&& last.len() == n + (if e.active_source is Some {
                2int
            } else {
                1int
            })
            &&& 0 <= i < n ==> last[i] == (EventView::SocketClose { connection_id: e.desk.links[i].id })
            &&& e.active_source matches Some(id) ==> last[n] == (EventView::CancelInput { session_id: id })
            &&& e.enforce_event_limit().active_source == e.active_source
            &&& e.enforce_event_limit().sessions == e.sessions
        }),
{
}

} // verus!
