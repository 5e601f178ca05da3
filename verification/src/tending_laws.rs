//! What a device does about its connections and its leave, and as time goes by.
use crate::command;
use crate::conduct_laws;
use crate::conduct_laws::{fares, is_link, is_session, tells_of};
use crate::desk;
use crate::desk::{DeskView, LinkView};
use crate::engine;
use crate::engine::EngineView;
use crate::event::EventView;
use crate::hearing_laws;
use crate::ids;
use crate::json::JsonView;
use crate::network;
use crate::orders::Answer;
use crate::outside;
use crate::outside::{Ask, Reply};
use crate::protocol;
use crate::protocol::PayloadView;
use crate::service_laws;
use crate::session::SessionView;
use crate::session_laws;
use crate::signs;
use crate::signs::{full, grows, hears, is_short, sends, tells, types_none};
use crate::text;
use crate::transport;
use crate::transport::{ChannelEventView, ChannelView};
use crate::trust;
use crate::trust::TrustView;
use crate::upkeep;
use vstd::prelude::*;

verus! {

// ---------------------------------------------------------------- leave is taken

/// Where a device loses its leave, the session that has the microphone is cancelled if that device
/// controls it or, where it is not paired any more, is at its other end; no other session is
/// touched.
pub proof fn lemma_disallows(e: EngineView, peer: Seq<char>, revoked: bool, k: int, now: u64, log: Seq<Reply>)
    requires
        desk::apart(e.desk.links),
        engine::apart(e.sessions),
        e.active_source matches Some(id) ==> is_session(e, id, k),
    ensures
        ({
            let f = e.disallow(peer, revoked, now, log);
            &&& grows(e.desk, f.desk)
            &&& types_none(e.desk, f.desk)
            &&& f.sessions.len() == e.sessions.len()
            &&& forall|j: int|
                0 <= j < e.sessions.len() && (e.active_source is None || j != k) ==> #[trigger] f.sessions[j]
                    == e.sessions[j]
            &&& forall|j: int|
                0 <= j < e.sessions.len() ==> (#[trigger] f.sessions[j]).binding == e.sessions[j].binding && (
                e.sessions[j].cancelled ==> f.sessions[j].cancelled)
            &&& e.active_source is Some ==> {
                let s = e.sessions[k];
                let hit = s.binding.controller_device_id == peer || (revoked && s.other(e.desk.id) == peer);
                &&& hit ==> f.sessions[k].cancelled
                &&& hit && !s.cancelled && s.binding.source_device_id == e.desk.id && !s.stopped ==> tells(
                    e.desk,
                    f.desk,
                    EventView::CancelInput { session_id: s.binding.session_id },
                )
                &&& !hit ==> f.sessions[k] == s
            }
        }),
{
    broadcast use signs::group_signs;

    signs::lemma_grows_itself(e.desk);
    reveal(command::disallowed);
    if e.active_source is Some {
        let id = e.active_source->0;
        conduct_laws::lemma_is_session(e, id, k);
        service_laws::lemma_cancels(e.desk, e.sessions[k], true, now, log);
        session_laws::lemma_cancel(e.desk, e.sessions[k], true, now, log);
    }
}

/// A device whose pairing is ended is off the list, and every other stays on it as it was; the
/// connection to it is closed, and the session that listens for it or with it is called off.
pub proof fn law_ending_a_pairing(
    e: EngineView,
    v: JsonView,
    peer: Seq<char>,
    k: int,
    x: TrustView,
    now: u64,
    wall: u64,
    log: Seq<Reply>,
)
    requires
        !e.desk.faulted,
        desk::apart(e.desk.links),
        engine::apart(e.sessions),
        trust::sorted(e.desk.trust),
        v.member("op"@) == Some(JsonView::Text("revoke"@)),
        v.member("peer_id"@) == Some(JsonView::Text(peer)),
        e.active_source matches Some(id) ==> is_session(e, id, k),
        forall|i: int, j: int|
            0 <= i < j < e.desk.links.len() && (#[trigger] e.desk.links[i]).channel.peer == Some(peer) ==> (
            #[trigger] e.desk.links[j]).channel.peer != Some(peer),
    ensures
        ({
            let m = e.command(v, now, wall, log);
            let f = m.engine;
            let s = e.sessions[k];
            &&& m.result == Ok::<Answer, Seq<char>>(Answer::Done)
            &&& f.desk.trust.contains(x) <==> e.desk.trust.contains(x) && x.peer_id != peer
            &&& forall|i: int| 0 <= i < f.desk.links.len() ==> (#[trigger] f.desk.links[i]).channel.peer != Some(peer)
            &&& forall|i: int|
                0 <= i < e.desk.links.len() && (#[trigger] e.desk.links[i]).channel.peer != Some(peer) ==> exists|j: int|
                    #[trigger] is_link(f.desk, e.desk.links[i].id, j)
            &&& e.active_source is Some && (s.binding.controller_device_id == peer || s.other(e.desk.id) == peer)
                ==> f.sessions[k].cancelled
            &&& forall|j: int|
                0 <= j < e.sessions.len() && (e.active_source is None || j != k) && e.sessions[j].other(e.desk.id)
                    != peer ==> #[trigger] f.sessions[j] == e.sessions[j]
            &&& tells_list(e.desk, f.desk, trust::without_peer(e.desk.trust, peer))
            &&& tells_of(e.desk, f.desk, peer, false)
        }),
{
    broadcast use signs::group_signs;

    reveal(EngineView::command);
    reveal(EngineView::revoke);
    conduct_laws::lemma_device_ops();
    let t = TrustView { peer_id: peer, name: seq![], allow_remote: false };
    trust::law_other_devices_stay(e.desk.trust, t, x);
    let off = DeskView { trust: trust::without_peer(e.desk.trust, peer), ..e.desk };
    signs::lemma_grows_itself(off);
    let saved = e.at(off.save_trust());
    assert(tells(off, saved.desk, EventView::TrustChanged { peers: off.trust }));
    if e.active_source is Some {
        assert(is_session(saved, e.active_source->0, k));
    }
    lemma_disallows(saved, peer, true, k, now, log);
    let r = saved.disallow(peer, true, now, log);
    let i = desk::link_to(r.desk.links, peer) as int;
    desk::lemma_link_to(r.desk.links, peer);
    assert(grows(off, r.desk));
    assert(signs::same_lines(e.desk.links, r.desk.links) && e.desk.events.len() <= r.desk.events.len()) by {
        reveal(grows);
    }
    let m = e.command(v, now, wall, log);
    assert forall|j: int| 0 <= j < r.sessions.len() && e.sessions[j].other(e.desk.id) != peer implies (
    #[trigger] r.sessions[j]).other(e.desk.id) != peer by {
        assert(r.sessions[j].binding == saved.sessions[j].binding);
    }
    if i < r.desk.links.len() {
        let id = r.desk.links[i].id;
        assert(is_link(r.desk, id, i));
        conduct_laws::law_a_closed_connection_is_gone(r, id, i, now, log);
        let c = r.close(id, now, log);
        let cut = r.at(DeskView { links: r.desk.links.remove(i), ..r.desk });
        conduct_laws::lemma_tells_of(c.desk, peer, c.desk.connected(peer));
        let f = m.engine;
        assert(f == c.at(c.desk.peer_event(peer, c.desk.connected(peer))));
        assert forall|j: int| 0 <= j < c.desk.links.len() implies (#[trigger] c.desk.links[j]).channel.peer != Some(
            peer,
        ) by {
            assert(cut.desk.links[j].channel.peer == c.desk.links[j].channel.peer);
            let a = if j < i { j } else { j + 1 };
            assert(cut.desk.links[j] == r.desk.links[a]);
            assert(e.desk.links[a].channel.peer == r.desk.links[a].channel.peer);
            assert(e.desk.links[i].channel.peer == r.desk.links[i].channel.peer);
            if a < i {
                assert(r.desk.links[a].channel.peer != Some(peer));
            }
        }
        assert forall|a: int|
            0 <= a < e.desk.links.len() && (#[trigger] e.desk.links[a]).channel.peer != Some(peer) implies exists|j: int|
            #[trigger] is_link(f.desk, e.desk.links[a].id, j) by {
            assert(e.desk.links[a].channel.peer == r.desk.links[a].channel.peer);
            assert(a != i);
            let j = if a < i { a } else { a - 1 };
            assert(cut.desk.links[j] == r.desk.links[a]);
            assert(cut.desk.links[j].id == c.desk.links[j].id);
            assert(is_link(f.desk, e.desk.links[a].id, j));
        }
        assert forall|j: int| 0 <= j < e.sessions.len() implies (r.sessions[j].cancelled ==> (
        #[trigger] f.sessions[j]).cancelled) && (r.sessions[j].other(e.desk.id) != peer ==> f.sessions[j]
            == r.sessions[j]) by {
            assert(fares(cut, c, peer, 0, j, now, log));
            if conduct_laws::is_concerned(cut, peer, j) {
                let d = choose|d: DeskView| #[trigger] conduct_laws::is_lost_at(cut, c, d, j, now, log);
                session_laws::law_time_and_loss_are_taken_properly(d, r.sessions[j], now, log);
                reveal(session_laws::is_proper);
            }
        }
        assert(grows(cut.desk, c.desk));
        lemma_tells_list(off, r.desk, cut.desk, c.desk, f.desk, off.trust);
        conduct_laws::lemma_tells_of_still(cut.desk, c.desk, f.desk, peer, false);
        lemma_tells_of_since(e.desk, r.desk, cut.desk, f.desk, peer);
    } else {
        let f = m.engine;
        conduct_laws::lemma_tells_of(r.desk, peer, r.desk.connected(peer));
        assert forall|a: int|
            0 <= a < e.desk.links.len() && (#[trigger] e.desk.links[a]).channel.peer != Some(peer) implies exists|j: int|
            #[trigger] is_link(f.desk, e.desk.links[a].id, j) by {
            assert(e.desk.links[a].id == r.desk.links[a].id);
            assert(is_link(f.desk, e.desk.links[a].id, a));
        }
        lemma_tells_list(off, r.desk, r.desk, r.desk, f.desk, off.trust);
        lemma_tells_of_since(e.desk, r.desk, r.desk, f.desk, peer);
    }
}

/// Whether the program is told a list of paired devices.
pub open spec fn tells_list(d: DeskView, e: DeskView, list: Seq<TrustView>) -> bool {
    full(e) || exists|i: int|
        d.events.len() <= i < e.events.len() && #[trigger] e.events[i] == (EventView::TrustChanged { peers: list })
}

/// A list that was told stays told when a connection is cut.
proof fn lemma_tells_list(off: DeskView, r: DeskView, cut: DeskView, c: DeskView, f: DeskView, list: Seq<TrustView>)
    requires
        tells(off, r, EventView::TrustChanged { peers: list }),
        cut.events == r.events,
        grows(cut, c),
        grows(c, f),
    ensures
        tells_list(off, f, list),
{
    reveal(grows);
    reveal(signs::tells);
    let x = EventView::TrustChanged { peers: list };
    if !full(r) {
        let i = choose|i: int| off.events.len() <= i < r.events.len() && #[trigger] r.events[i] == x;
        assert(c.events[i] == cut.events[i]);
        assert(f.events[i] == x);
    }
}

/// What is told of a device after other things is told.
proof fn lemma_tells_of_since(e: DeskView, r: DeskView, cut: DeskView, f: DeskView, peer: Seq<char>)
    requires
        tells_of(cut, f, peer, false),
        cut.events == r.events,
        e.events.len() <= r.events.len(),
    ensures
        tells_of(e, f, peer, false),
{
}

/// A device may start sessions just as the program last said, and nothing is said of any other;
/// one that may not any more has the session called off that it controls. A device that is not
/// paired is given no leave.
pub proof fn law_leave_is_given_and_taken(
    e: EngineView,
    v: JsonView,
    peer: Seq<char>,
    k: int,
    x: TrustView,
    now: u64,
    wall: u64,
    log: Seq<Reply>,
)
    requires
        !e.desk.faulted,
        desk::apart(e.desk.links),
        engine::apart(e.sessions),
        trust::sorted(e.desk.trust),
        v.member("op"@) == Some(JsonView::Text("remote_permission"@)),
        v.member("peer_id"@) == Some(JsonView::Text(peer)),
        e.active_source matches Some(id) ==> is_session(e, id, k),
        e.desk.trust.contains(x),
    ensures
        ({
            let m = e.command(v, now, wall, log);
            let f = m.engine;
            let s = e.sessions[k];
            let allowed = v.member("allowed"@) == Some(JsonView::Bool(true));
            &&& !e.desk.paired(peer) ==> m == e.refused::<Answer>("unpaired_device"@)
            &&& e.desk.paired(peer) ==> {
                &&& m.result == Ok::<Answer, Seq<char>>(Answer::Done)
                &&& trust::sorted(f.desk.trust)
                &&& f.desk.trust.len() == e.desk.trust.len()
                &&& x.peer_id != peer ==> f.desk.trust.contains(x)
                &&& x.peer_id == peer ==> f.desk.trust.contains(TrustView { allow_remote: allowed, ..x })
                &&& tells_list(e.desk, f.desk, f.desk.trust)
                &&& signs::same_lines(e.desk.links, f.desk.links)
                &&& allowed ==> f.sessions == e.sessions
                &&& !allowed && e.active_source is Some && s.binding.controller_device_id == peer
                    ==> f.sessions[k].cancelled
                &&& forall|j: int|
                    0 <= j < e.sessions.len() && (e.active_source is None || j != k
                        || s.binding.controller_device_id != peer) ==> #[trigger] f.sessions[j] == e.sessions[j]
            }
        }),
{
    broadcast use signs::group_signs;

    reveal(EngineView::command);
    reveal(EngineView::remote_permission);
    conduct_laws::lemma_device_ops();
    let m = e.command(v, now, wall, log);
    let f = m.engine;
    if e.desk.paired(peer) {
        let allowed = v.flag_at("allowed"@);
        let i = trust::spot(e.desk.trust, peer) as int;
        let list = e.desk.trust.update(i, TrustView { allow_remote: allowed, ..e.desk.trust[i] });
        trust::law_a_list_says_what_it_holds(e.desk.trust, x);
        let n = choose|n: int| 0 <= n < e.desk.trust.len() && e.desk.trust[n] == x;
        if x.peer_id == peer {
            assert(list[i] == (TrustView { allow_remote: allowed, ..x }));
        } else {
            assert(n != i);
            assert(list[n] == x);
        }
        assert(trust::sorted(list)) by {
            assert forall|a: int, b: int| 0 <= a < b < list.len() implies text::before(
                (#[trigger] list[a]).peer_id,
                (#[trigger] list[b]).peer_id,
            ) by {
                assert(text::before(e.desk.trust[a].peer_id, e.desk.trust[b].peer_id));
            }
        }
        let off = DeskView { trust: list, ..e.desk };
        signs::lemma_grows_itself(off);
        let saved = e.at(off.save_trust());
        assert(tells(off, saved.desk, EventView::TrustChanged { peers: list }));
        if e.active_source is Some {
            assert(is_session(saved, e.active_source->0, k));
        }
        lemma_disallows(saved, peer, false, k, now, log);
        let r = if allowed {
            saved
        } else {
            saved.disallow(peer, false, now, log)
        };
        conduct_laws::lemma_tells_of(r.desk, peer, r.desk.connected(peer));
        assert(grows(off, r.desk) && grows(r.desk, f.desk));
        assert(signs::same_lines(e.desk.links, f.desk.links)) by {
            reveal(grows);
        }
        signs::lemma_grows_itself(r.desk);
        lemma_tells_list(off, r.desk, r.desk, r.desk, f.desk, list);
    }
}

/// A session that is forgotten is gone, and only that; the program is told. One that has the
/// microphone or the keyboard is not forgotten.
pub proof fn law_a_forgotten_session_is_gone(
    e: EngineView,
    v: JsonView,
    name: Seq<char>,
    id: u128,
    now: u64,
    wall: u64,
    log: Seq<Reply>,
    s: SessionView,
)
    requires
        !e.desk.faulted,
        engine::apart(e.sessions),
        v.member("op"@) == Some(JsonView::Text("forget_recovery"@)),
        v.member("session_id"@) == Some(JsonView::Text(name)),
        ids::id_parsed(name) == Some(id),
    ensures
        ({
            let m = e.command(v, now, wall, log);
            let active = e.active_source == Some(id) || e.active_target == Some(id);
            &&& active ==> m == e.refused::<Answer>("session_still_active"@)
            &&& !active ==> {
                &&& m.result == Ok::<Answer, Seq<char>>(Answer::Done)
                &&& tells(e.desk, m.engine.desk, EventView::RecoveryCleared { session_id: id })
                &&& m.engine.sessions.contains(s) <==> e.sessions.contains(s) && s.binding.session_id != id
                &&& m.engine.active_source == e.active_source && m.engine.active_target == e.active_target
                &&& m.engine.desk.links == e.desk.links
            }
        }),
{
    broadcast use signs::group_signs;

    reveal(EngineView::command);
    conduct_laws::lemma_device_ops();
    engine::lemma_session_at(e.sessions, id);
    let i = engine::session_at(e.sessions, id) as int;
    let out = if engine::known(e.sessions, id) {
        e.sessions.remove(i)
    } else {
        e.sessions
    };
    if e.sessions.contains(s) {
        let k = choose|k: int| 0 <= k < e.sessions.len() && e.sessions[k] == s;
        if s.binding.session_id != id && engine::known(e.sessions, id) {
            let j = if k < i { k } else { k - 1 };
            assert(out[j] == s);
        } else if s.binding.session_id == id {
            if k < i {
                assert(e.sessions[k].binding.session_id != id);
            }
            assert(engine::known(e.sessions, id));
        }
    }
    if out.contains(s) {
        let k = choose|k: int| 0 <= k < out.len() && out[k] == s;
        if engine::known(e.sessions, id) {
            let j = if k < i { k } else { k + 1 };
            assert(e.sessions[j] == s);
            if j < i {
                assert(e.sessions[j].binding.session_id != e.sessions[i].binding.session_id);
            } else {
                assert(e.sessions[i].binding.session_id != e.sessions[j].binding.session_id);
            }
        } else {
            assert(e.sessions[k] == s);
            assert(e.sessions[k].binding.session_id != id);
        }
    }
}

// ---------------------------------------------------------------- connections begin

/// A connection that is opened is one more, with a channel that has just begun, for the device
/// that is expected if one is; where this side begins, the first message of the handshake goes
/// out. There are no more than eight, and none twice.
pub proof fn law_opening_a_connection(
    e: EngineView,
    v: JsonView,
    connection: Seq<char>,
    now: u64,
    wall: u64,
    log: Seq<Reply>,
)
    requires
        !e.desk.faulted,
        v.member("op"@) == Some(JsonView::Text("open"@)),
        v.member("connection_id"@) == Some(JsonView::Text(connection)),
    ensures
        ({
            let m = e.command(v, now, wall, log);
            let d = m.engine.desk;
            let expected = match v.member("expected_peer"@) {
                Some(JsonView::Text(s)) => Some(s),
                _ => None,
            };
            let begins = v.member("initiator"@) == Some(JsonView::Bool(true));
            let sound = expected is None || protocol::is_valid_id(expected->0);
            let new = forall|k: int| !(#[trigger] is_link(e.desk, connection, k));
            let c = d.links.last().channel;
            let wrote = outside::wrote_in(log[e.desk.asked.len() as int]);
            &&& e.desk.links.len() >= 8 || !new ==> m == e.refused::<Answer>("connection_limit"@)
            &&& e.desk.links.len() < 8 && new && !sound ==> m == e.refused::<Answer>("invalid_peer_identity"@)
            &&& e.desk.links.len() < 8 && new && sound && (begins ==> wrote[0].message is Some) ==> {
                &&& m.result == Ok::<Answer, Seq<char>>(Answer::Done)
                &&& d.links.len() == e.desk.links.len() + 1
                &&& d.links.drop_last() == e.desk.links
                &&& d.links.last().id == connection
                &&& c.expected == expected
                &&& c.peer is None && !c.local_confirmed && !c.remote_confirmed
                &&& c.created == now && c.last_rx == now
                &&& c.buffer.len() == 0 && c.name.len() == 0 && c.code.len() == 0
                &&& m.engine.sessions == e.sessions
                &&& d.trust == e.desk.trust
                &&& begins ==> tells(
                    e.desk,
                    d,
                    EventView::SocketSend {
                        connection_id: connection,
                        data: transport::framed(wrote[0].message->0),
                    },
                )
                &&& !begins ==> d.events == e.desk.events
                &&& begins ==> c.cipher == transport::CipherView::Handshake(wrote[0].after)
                &&& !begins ==> c.cipher == transport::CipherView::Handshake(
                    ChannelView::first(e.desk.private, false),
                )
            }
        }),
{
    broadcast use signs::group_signs;

    reveal(EngineView::command);
    reveal(EngineView::open);
    reveal_with_fuel(EngineView::on_channel_events, 2);
    conduct_laws::lemma_device_ops();
    desk::lemma_link_at(e.desk.links, connection);
    let i = desk::link_at(e.desk.links, connection) as int;
    if i < e.desk.links.len() {
        assert(is_link(e.desk, connection, i));
    } else {
        assert forall|k: int| !(#[trigger] is_link(e.desk, connection, k)) by {
            if is_link(e.desk, connection, k) {
                assert(e.desk.links[k].id != connection);
            }
        }
        let expected = v.text_at("expected_peer"@);
        let wrote = outside::wrote_in(e.desk.next(log));
        let heard = ChannelView::open(e.desk.private, v.flag_at("initiator"@), expected, now, wrote);
        let m = e.command(v, now, wall, log);
        if heard.result is Ok {
            let events = heard.result->Ok_0;
            let next = DeskView {
                links: e.desk.links.push(LinkView { id: connection, channel: heard.channel }),
                ..e.desk.asking(Ask::Shake)
            };
            assert(next.links.drop_last() =~= e.desk.links);
            if events.len() == 1 {
                assert(events.drop_first() =~= seq![]);
                reveal(signs::tells);
            }
        }
    }
}

/// Once it is known who is at the other end of a connection, that device is greeted with who this
/// one is, and the program is told of the secure channel and its code; a second connection to the
/// same device, or one to this device itself, is refused.
pub proof fn law_a_known_device_is_greeted(
    e: EngineView,
    connection: Seq<char>,
    k: int,
    peer: Seq<char>,
    code: Seq<char>,
    now: u64,
    wall: u64,
    log: Seq<Reply>,
)
    requires
        desk::apart(e.desk.links),
        is_link(e.desk, connection, k),
        e.desk.links[k].channel.peer == Some(peer),
    ensures
        ({
            let m = e.on_channel_event(
                connection,
                ChannelEventView::Authenticated { peer, code },
                now,
                wall,
                log,
            );
            let hello = PayloadView::Hello { device_id: e.desk.id, name: e.desk.name };
            let twice = peer == e.desk.id || exists|j: int|
                0 <= j < e.desk.links.len() && j != k && (#[trigger] e.desk.links[j]).channel.peer == Some(peer);
            &&& twice ==> m == e.refused::<()>("duplicate_connection"@)
            &&& !twice && m.result is Ok ==> sends(e.desk, m.engine.desk, peer, hello) && tells(
                e.desk,
                m.engine.desk,
                EventView::SecureChannel { peer_id: peer, code },
            )
            &&& !twice && conduct_laws::can_seal(e.desk.links[k].channel, 1) && is_short(hello) ==> m.result is Ok
            &&& m.engine.sessions == e.sessions
        }),
{
    broadcast use signs::group_signs;

    signs::lemma_grows_itself(e.desk);
    let hello = PayloadView::Hello { device_id: e.desk.id, name: e.desk.name };
    conduct_laws::lemma_send_on(e.desk, connection, k, peer, hello, log);
    if network::elsewhere(e.desk.links, connection, peer) {
        let j = choose|j: int|
            0 <= j < e.desk.links.len() && (#[trigger] e.desk.links[j]).id != connection && e.desk.links[j].channel.peer
                == Some(peer);
        assert(j != k);
    }
    if exists|j: int| 0 <= j < e.desk.links.len() && j != k && (#[trigger] e.desk.links[j]).channel.peer == Some(peer) {
        let j = choose|j: int|
            0 <= j < e.desk.links.len() && j != k && (#[trigger] e.desk.links[j]).channel.peer == Some(peer);
        if j < k {
            assert(e.desk.links[j].id != e.desk.links[k].id);
        } else {
            assert(e.desk.links[k].id != e.desk.links[j].id);
        }
        assert(network::elsewhere(e.desk.links, connection, peer));
    }
}

/// What the handshake of a channel writes goes out on its connection as it is.
pub proof fn law_a_handshake_goes_out(
    e: EngineView,
    connection: Seq<char>,
    data: Seq<u8>,
    now: u64,
    wall: u64,
    log: Seq<Reply>,
)
    ensures
        ({
            let m = e.on_channel_event(connection, ChannelEventView::Write(data), now, wall, log);
            &&& m.result is Ok
            &&& tells(e.desk, m.engine.desk, EventView::SocketSend { connection_id: connection, data })
            &&& m.engine.sessions == e.sessions && m.engine.desk.links == e.desk.links
        }),
{
    broadcast use signs::group_signs;

}

/// Bytes that are none, or for no connection, change nothing; bytes that a channel refuses close
/// its connection, and the refusal is the answer.
pub proof fn law_bytes_that_make_no_sense(
    e: EngineView,
    v: JsonView,
    connection: Seq<char>,
    data: Seq<char>,
    k: int,
    now: u64,
    wall: u64,
    log: Seq<Reply>,
)
    requires
        !e.desk.faulted,
        desk::apart(e.desk.links),
        v.member("op"@) == Some(JsonView::Text("bytes"@)),
        v.member("connection_id"@) == Some(JsonView::Text(connection)),
        v.member("data"@) == Some(JsonView::Text(data)),
    ensures
        ({
            let m = e.command(v, now, wall, log);
            let bytes = crate::crypto::b64_bytes(data);
            let heard = e.desk.links[k].channel.receive(
                bytes->0,
                now,
                outside::wrote_in(log[e.desk.asked.len() as int]),
            );
            let d = DeskView {
                links: e.desk.links.update(k, LinkView { id: connection, channel: heard.channel }),
                asked: e.desk.asked.push(Ask::Shake),
                ..e.desk
            };
            &&& bytes is None ==> m == e.refused::<Answer>("invalid_frame"@)
            &&& bytes is Some && (forall|j: int| !(#[trigger] is_link(e.desk, connection, j))) ==> m == e.refused::<
                Answer,
            >("target_offline"@)
            &&& bytes is Some && is_link(e.desk, connection, k) && heard.result is Err ==> m.engine == e.at(d).close(
                connection,
                now,
                log,
            ) && m.result == Err::<Answer, Seq<char>>(heard.result->Err_0)
            &&& bytes is Some && is_link(e.desk, connection, k) && heard.result is Ok ==> {
                let h = e.at(d).on_channel_events(connection, heard.result->Ok_0, now, wall, log);
                &&& h.result is Ok ==> m.engine == h.engine && m.result == Ok::<Answer, Seq<char>>(Answer::Done)
                &&& h.result is Err ==> m.engine == h.engine.close(connection, now, log) && m.result == Err::<
                    Answer,
                    Seq<char>,
                >(h.result->Err_0)
            }
        }),
{
    reveal(EngineView::command);
    reveal(EngineView::bytes);
    conduct_laws::lemma_device_ops();
    if is_link(e.desk, connection, k) {
        conduct_laws::lemma_is_link(e.desk, connection, k);
    }
    if forall|j: int| !(#[trigger] is_link(e.desk, connection, j)) {
        conduct_laws::lemma_no_link(e.desk, connection);
    }
}

/// The events of a channel are taken one after the other, until one of them fails.
pub proof fn law_channel_events_are_taken_in_order(
    e: EngineView,
    connection: Seq<char>,
    first: ChannelEventView,
    rest: Seq<ChannelEventView>,
    now: u64,
    wall: u64,
    log: Seq<Reply>,
)
    ensures
        ({
            let a = e.on_channel_event(connection, first, now, wall, log);
            let m = e.on_channel_events(connection, seq![first] + rest, now, wall, log);
            &&& e.on_channel_events(connection, seq![], now, wall, log) == e.kept()
            &&& a.result is Err ==> m == a
            &&& a.result is Ok ==> m == a.engine.on_channel_events(connection, rest, now, wall, log)
        }),
{
    assert((seq![first] + rest).drop_first() =~= rest);
}


// ---------------------------------------------------------------- time goes by

/// Whether a device has a connection of a name, to a device if that is known.
pub open spec fn has_link(d: DeskView, connection: Seq<char>, peer: Option<Seq<char>>) -> bool {
    exists|k: int| #[trigger] is_link(d, connection, k) && d.links[k].channel.peer == peer
}

/// A connection that there is not is told to be closed, and nothing else happens.
pub proof fn law_closing_no_connection(e: EngineView, connection: Seq<char>, now: u64, log: Seq<Reply>)
    requires
        forall|k: int| !(#[trigger] is_link(e.desk, connection, k)),
    ensures
        ({
            let f = e.close(connection, now, log);
            &&& tells(e.desk, f.desk, EventView::SocketClose { connection_id: connection })
            &&& f.sessions == e.sessions && f.desk.links == e.desk.links && f.desk.trust == e.desk.trust
            &&& grows(e.desk, f.desk)
        }),
{
    broadcast use signs::group_signs;

    reveal(EngineView::close);
    conduct_laws::lemma_no_link(e.desk, connection);
}

/// To close one connection leaves the others.
proof fn lemma_close_leaves(e: EngineView, connection: Seq<char>, now: u64, log: Seq<Reply>)
    requires
        desk::apart(e.desk.links),
    ensures
        ({
            let f = e.close(connection, now, log);
            &&& desk::apart(f.desk.links)
            &&& f.desk.trust == e.desk.trust
            &&& f.desk.id == e.desk.id && f.desk.name == e.desk.name
            &&& f.desk.heartbeat == e.desk.heartbeat
            &&& f.sessions.len() == e.sessions.len()
            &&& e.desk.events.len() <= f.desk.events.len()
            &&& forall|x: Seq<char>, p: Option<Seq<char>>| #[trigger]
                has_link(f.desk, x, p) <==> has_link(e.desk, x, p) && x != connection
        }),
{
    broadcast use signs::group_signs;

    let f = e.close(connection, now, log);
    if exists|k: int| #[trigger] is_link(e.desk, connection, k) {
        let k = choose|k: int| #[trigger] is_link(e.desk, connection, k);
        conduct_laws::law_a_closed_connection_is_gone(e, connection, k, now, log);
        let cut = DeskView { links: e.desk.links.remove(k), ..e.desk };
        reveal(grows);
        reveal(EngineView::close);
        conduct_laws::lemma_is_link(e.desk, connection, k);
        assert forall|i: int, j: int| 0 <= i < j < f.desk.links.len() implies (#[trigger] f.desk.links[i]).id != (
        #[trigger] f.desk.links[j]).id by {
            let a = if i < k { i } else { i + 1 };
            let b = if j < k { j } else { j + 1 };
            assert(cut.links[i].id == f.desk.links[i].id && cut.links[j].id == f.desk.links[j].id);
            assert(e.desk.links[a].id != e.desk.links[b].id);
        }
        assert forall|x: Seq<char>, p: Option<Seq<char>>| #[trigger]
            has_link(f.desk, x, p) <==> has_link(e.desk, x, p) && x != connection by {
            if has_link(f.desk, x, p) {
                let i = choose|i: int| #[trigger] is_link(f.desk, x, i) && f.desk.links[i].channel.peer == p;
                let a = if i < k { i } else { i + 1 };
                assert(cut.links[i].id == f.desk.links[i].id);
                assert(cut.links[i] == e.desk.links[a]);
                assert(is_link(e.desk, x, a));
                if a < k {
                    assert(e.desk.links[a].id != e.desk.links[k].id);
                } else {
                    assert(e.desk.links[k].id != e.desk.links[a].id);
                }
            }
            if has_link(e.desk, x, p) && x != connection {
                let a = choose|a: int| #[trigger] is_link(e.desk, x, a) && e.desk.links[a].channel.peer == p;
                let i = if a < k { a } else { a - 1 };
                assert(cut.links[i] == e.desk.links[a]);
                assert(cut.links[i].id == f.desk.links[i].id);
                assert(is_link(f.desk, x, i));
            }
        }
    } else {
        law_closing_no_connection(e, connection, now, log);
        reveal(grows);
        assert forall|x: Seq<char>, p: Option<Seq<char>>| #[trigger]
            has_link(f.desk, x, p) <==> has_link(e.desk, x, p) && x != connection by {
            if has_link(f.desk, x, p) {
                let i = choose|i: int| #[trigger] is_link(f.desk, x, i) && f.desk.links[i].channel.peer == p;
                assert(is_link(e.desk, x, i));
            }
            if has_link(e.desk, x, p) {
                let i = choose|i: int| #[trigger] is_link(e.desk, x, i) && e.desk.links[i].channel.peer == p;
                assert(is_link(f.desk, x, i));
            }
        }
    }
}

/// Connections are closed one after the other, and the rest stays.
pub proof fn law_connections_are_closed_in_turn(
    e: EngineView,
    first: Seq<char>,
    rest: Seq<Seq<char>>,
    now: u64,
    log: Seq<Reply>,
)
    ensures
        e.close_all(seq![], now, log) == e,
        e.close_all(seq![first] + rest, now, log) == e.close(first, now, log).close_all(rest, now, log),
{
    assert((seq![first] + rest).drop_first() =~= rest);
}

/// To close connections leaves the others.
proof fn lemma_close_all_leaves(e: EngineView, names: Seq<Seq<char>>, now: u64, log: Seq<Reply>)
    requires
        desk::apart(e.desk.links),
    ensures
        ({
            let f = e.close_all(names, now, log);
            &&& desk::apart(f.desk.links)
            &&& f.desk.trust == e.desk.trust
            &&& f.desk.id == e.desk.id && f.desk.name == e.desk.name
            &&& f.desk.heartbeat == e.desk.heartbeat
            &&& f.sessions.len() == e.sessions.len()
            &&& forall|x: Seq<char>, p: Option<Seq<char>>| #[trigger]
                has_link(f.desk, x, p) <==> has_link(e.desk, x, p) && !names.contains(x)
        }),
    decreases names.len(),
{
    if names.len() > 0 {
        lemma_close_leaves(e, names[0], now, log);
        let g = e.close(names[0], now, log);
        let rest = names.drop_first();
        lemma_close_all_leaves(g, rest, now, log);
        let f = e.close_all(names, now, log);
        assert forall|x: Seq<char>, p: Option<Seq<char>>| #[trigger]
            has_link(f.desk, x, p) <==> has_link(e.desk, x, p) && !names.contains(x) by {
            assert(has_link(g.desk, x, p) <==> has_link(e.desk, x, p) && x != names[0]);
            assert(names.contains(x) <==> x == names[0] || rest.contains(x)) by {
                if names.contains(x) {
                    let k = choose|k: int| 0 <= k < names.len() && names[k] == x;
                    if k > 0 {
                        assert(rest[k - 1] == x);
                    }
                }
                if rest.contains(x) {
                    let k = choose|k: int| 0 <= k < rest.len() && rest[k] == x;
                    assert(names[k + 1] == x);
                }
            }
        }
    }
}

/// Whether a connection has outlived its use: nobody is known at its other end after ten seconds,
/// nobody who is paired after a minute, or nothing has come for three quarters of one.
pub open spec fn has_outlived(l: LinkView, paired: Seq<TrustView>, now: u64) -> bool {
    ||| l.channel.peer is None && now - l.channel.created > 10000000000
    ||| (l.channel.peer matches Some(p) && !trust::is_paired(paired, p)) && now - l.channel.created > 60000000000
    ||| now - l.channel.last_rx > 45000000000
}

/// The connections to close are those that have outlived their use.
proof fn lemma_stale(links: Seq<LinkView>, paired: Seq<TrustView>, now: u64, x: Seq<char>)
    ensures
        upkeep::stale(links, paired, now).contains(x) <==> exists|k: int|
            0 <= k < links.len() && (#[trigger] links[k]).id == x && has_outlived(links[k], paired, now),
    decreases links.len(),
{
    if links.len() > 0 {
        let rest = links.drop_last();
        lemma_stale(rest, paired, now, x);
        let all = upkeep::stale(links, paired, now);
        let some = upkeep::stale(rest, paired, now);
        let n = links.len() - 1;
        if exists|k: int| 0 <= k < links.len() && (#[trigger] links[k]).id == x && has_outlived(links[k], paired, now) {
            let k = choose|k: int|
                0 <= k < links.len() && (#[trigger] links[k]).id == x && has_outlived(links[k], paired, now);
            if k < n {
                assert(rest[k].id == x && has_outlived(rest[k], paired, now));
                let j = choose|j: int| 0 <= j < some.len() && some[j] == x;
                assert(all[j] == x);
            } else {
                assert(all[some.len() as int] == x);
            }
        }
        if all.contains(x) {
            let j = choose|j: int| 0 <= j < all.len() && all[j] == x;
            if j < some.len() {
                assert(some[j] == x);
                let k = choose|k: int|
                    0 <= k < rest.len() && (#[trigger] rest[k]).id == x && has_outlived(rest[k], paired, now);
                assert(links[k].id == x);
            } else {
                assert(links[n].id == x);
            }
        }
    } else {
        assert(upkeep::stale(links, paired, now) =~= seq![]);
    }
}

/// Whether, on a desk on the way from one to another, the session at an index aged.
pub open spec fn is_aged_at(e: EngineView, f: EngineView, m: DeskView, j: int, now: u64, log: Seq<Reply>) -> bool {
    let t = upkeep::aged(m, e.sessions[j], now, log);
    &&& grows(e.desk, m)
    &&& f.sessions[j] == t.session
    &&& grows(t.desk, f.desk)
}

/// Whether the session at an index has aged, if it is not before another index.
pub open spec fn ages(e: EngineView, f: EngineView, from: int, j: int, now: u64, log: Seq<Reply>) -> bool {
    if j >= from {
        exists|m: DeskView| #[trigger] is_aged_at(e, f, m, j, now, log)
    } else {
        f.sessions[j] == e.sessions[j]
    }
}

/// Every session ages.
proof fn lemma_ages(e: EngineView, i: nat, now: u64, log: Seq<Reply>)
    requires
        desk::apart(e.desk.links),
        i <= e.sessions.len(),
    ensures
        ({
            let f = e.age_from(i, now, log);
            &&& grows(e.desk, f.desk)
            &&& types_none(e.desk, f.desk)
            &&& f.sessions.len() == e.sessions.len()
            &&& forall|j: int| 0 <= j < e.sessions.len() ==> #[trigger] ages(e, f, i as int, j, now, log)
        }),
    decreases e.sessions.len() - i,
{
    broadcast use signs::group_signs;

    signs::lemma_grows_itself(e.desk);
    let f = e.age_from(i, now, log);
    if i < e.sessions.len() {
        let s = e.sessions[i as int];
        let t = upkeep::aged(e.desk, s, now, log);
        hearing_laws::law_time_does_its_part(e.desk, s, now, log);
        let g = e.landed(i as int, t).engine;
        lemma_ages(g, i + 1, now, log);
        assert(grows(e.desk, g.desk) && grows(g.desk, f.desk));
        assert forall|j: int| 0 <= j < e.sessions.len() implies #[trigger] ages(e, f, i as int, j, now, log) by {
            assert(ages(g, f, i as int + 1, j, now, log));
            if j == i {
                assert(is_aged_at(e, f, e.desk, j, now, log));
            } else if j > i {
                let m = choose|m: DeskView| #[trigger] is_aged_at(g, f, m, j, now, log);
                assert(is_aged_at(e, f, m, j, now, log));
            }
        }
    } else {
        assert forall|j: int| 0 <= j < e.sessions.len() implies #[trigger] ages(e, f, i as int, j, now, log) by {}
    }
}

/// The devices of a list that hear so much are greeted.
proof fn lemma_greets(d: DeskView, peers: Seq<TrustView>, log: Seq<Reply>)
    requires
        desk::apart(d.links),
    ensures
        ({
            let e = upkeep::greeted(d, peers, log);
            let hello = PayloadView::Hello { device_id: d.id, name: d.name };
            &&& grows(d, e)
            &&& types_none(d, e)
            &&& forall|k: int|
                0 <= k < peers.len() && hears(d, (#[trigger] peers[k]).peer_id, peers.len() as int) && is_short(hello)
                    ==> sends(d, e, peers[k].peer_id, hello)
        }),
    decreases peers.len(),
{
    broadcast use signs::group_signs;

    signs::lemma_grows_itself(d);
    if peers.len() > 0 {
        let hello = PayloadView::Hello { device_id: d.id, name: d.name };
        let sent = d.send(peers[0].peer_id, hello, log);
        let rest = peers.drop_first();
        lemma_greets(sent.desk, rest, log);
        let e = upkeep::greeted(d, peers, log);
        assert(grows(d, sent.desk) && grows(sent.desk, e));
        assert forall|k: int|
            0 <= k < peers.len() && hears(d, (#[trigger] peers[k]).peer_id, peers.len() as int) && is_short(
                hello,
            ) implies sends(d, e, peers[k].peer_id, hello) by {
            if k == 0 {
                signs::lemma_hears_fewer(d, peers[0].peer_id, peers.len() as int, 1);
            } else {
                assert(rest[k - 1] == peers[k]);
                signs::lemma_hears_after_send(
                    d,
                    peers[k].peer_id,
                    peers.len() as int,
                    peers[0].peer_id,
                    hello,
                    log,
                );
                assert(hears(sent.desk, rest[k - 1].peer_id, rest.len() as int));
            }
        }
    }
}

/// As time goes by, the connections that have outlived their use are closed, and no others; every
/// ten seconds the paired devices are greeted with who this one is; and every session ages.
pub proof fn law_a_tick_tends_to_everything(e: EngineView, v: JsonView, x: Seq<char>, k: int, now: u64, wall: u64, log: Seq<Reply>)
    requires
        !e.desk.faulted,
        desk::apart(e.desk.links),
        v.member("op"@) == Some(JsonView::Text("tick"@)),
        is_link(e.desk, x, k),
    ensures
        ({
            let m = e.command(v, now, wall, log);
            let f = m.engine;
            let closed = e.close_all(upkeep::stale(e.desk.links, e.desk.trust, now), now, log);
            let due = now - e.desk.heartbeat > 10000000000;
            let base = closed.at(
                DeskView {
                    heartbeat: if due {
                        now
                    } else {
                        e.desk.heartbeat
                    },
                    ..closed.desk
                },
            );
            let hello = PayloadView::Hello { device_id: e.desk.id, name: e.desk.name };
            &&& m.result == Ok::<Answer, Seq<char>>(Answer::Done)
            &&& has_outlived(e.desk.links[k], e.desk.trust, now) ==> forall|j: int| !(#[trigger] is_link(f.desk, x, j))
            &&& !has_outlived(e.desk.links[k], e.desk.trust, now) ==> has_link(
                f.desk,
                x,
                e.desk.links[k].channel.peer,
            )
            &&& f.desk.heartbeat == base.desk.heartbeat
            &&& f.desk.trust == e.desk.trust
            &&& due ==> forall|j: int|
                0 <= j < e.desk.trust.len() && hears(
                    base.desk,
                    (#[trigger] e.desk.trust[j]).peer_id,
                    e.desk.trust.len() as int,
                ) && is_short(hello) ==> sends(base.desk, f.desk, e.desk.trust[j].peer_id, hello)
            &&& f.sessions.len() == e.sessions.len()
            &&& forall|j: int| 0 <= j < e.sessions.len() ==> #[trigger] ages(base, f, 0, j, now, log)
        }),
{
    broadcast use signs::group_signs;

    reveal(EngineView::command);
    reveal(EngineView::tick);
    conduct_laws::lemma_device_ops();
    let names = upkeep::stale(e.desk.links, e.desk.trust, now);
    let closed = e.close_all(names, now, log);
    lemma_close_all_leaves(e, names, now, log);
    lemma_stale(e.desk.links, e.desk.trust, now, x);
    let due = now - e.desk.heartbeat > 10000000000;
    let base = closed.at(
        DeskView {
            heartbeat: if due {
                now
            } else {
                e.desk.heartbeat
            },
            ..closed.desk
        },
    );
    signs::lemma_grows_itself(base.desk);
    lemma_greets(base.desk, e.desk.trust, log);
    let b = closed.beat(now, log);
    if !due {
        assert(b == base);
    }
    assert(grows(base.desk, b.desk));
    lemma_ages(b, 0, now, log);
    let f = b.age_from(0, now, log);
    assert(grows(b.desk, f.desk));
    assert(f.desk.heartbeat == base.desk.heartbeat && signs::same_lines(closed.desk.links, f.desk.links)) by {
        reveal(grows);
    }
    assert forall|j: int| 0 <= j < e.sessions.len() implies #[trigger] ages(base, f, 0, j, now, log) by {
        assert(ages(b, f, 0, j, now, log));
        let m = choose|m: DeskView| #[trigger] is_aged_at(b, f, m, j, now, log);
        assert(is_aged_at(base, f, m, j, now, log));
    }
    let p = e.desk.links[k].channel.peer;
    assert(has_link(e.desk, x, p));
    assert(has_link(closed.desk, x, p) <==> has_link(e.desk, x, p) && !names.contains(x));
    if has_outlived(e.desk.links[k], e.desk.trust, now) {
        assert(names.contains(x));
        assert forall|j: int| !(#[trigger] is_link(f.desk, x, j)) by {
            if is_link(f.desk, x, j) {
                assert(closed.desk.links[j].id == f.desk.links[j].id);
                assert(is_link(closed.desk, x, j));
                assert(has_link(closed.desk, x, closed.desk.links[j].channel.peer));
            }
        }
    } else {
        if names.contains(x) {
            let i = choose|i: int|
                0 <= i < e.desk.links.len() && (#[trigger] e.desk.links[i]).id == x && has_outlived(
                    e.desk.links[i],
                    e.desk.trust,
                    now,
                );
            if i < k {
                assert(e.desk.links[i].id != e.desk.links[k].id);
            } else if k < i {
                assert(e.desk.links[k].id != e.desk.links[i].id);
            }
        }
        let j = choose|j: int| #[trigger] is_link(closed.desk, x, j) && closed.desk.links[j].channel.peer == p;
        assert(closed.desk.links[j].id == f.desk.links[j].id);
        assert(is_link(f.desk, x, j));
    }
}

/// The newest requests are remembered: one more, and the oldest goes only where there is no room.
pub proof fn law_requests_are_remembered(seen: Seq<desk::SeenView>, s: desk::SeenView, x: desk::SeenView)
    ensures
        seen.len() < 2048 ==> network::remembered(seen, s) == seen.push(s),
        seen.len() >= 2048 ==> network::remembered(seen, s) == seen.skip(1).push(s),
        network::conflicts(seen, x.peer, x.request_id, x.digest) <==> exists|i: int|
            0 <= i < seen.len() && (#[trigger] seen[i]).peer == x.peer && seen[i].request_id == x.request_id
                && seen[i].digest != x.digest,
{
    if seen.len() >= 2048 {
        assert(seen.drop_first() =~= seen.skip(1));
    }
}


} // verus!
