//! What a device is for: what comes of every command and every message.
use crate::desk;
use crate::desk::{DeskView, LinkView};
use crate::engine;
use crate::engine::{EngineView, Move};
use crate::event::EventView;
use crate::ids;
use crate::inbound;
use crate::json::JsonView;
use crate::network;
use crate::orders;
use crate::orders::Answer;
use crate::outside::{Ask, Reply};
use crate::protocol;
use crate::protocol::{BindingView, Mode, PayloadView, Phase};
use crate::session::SessionView;
use crate::hearing_laws;
use crate::signs;
use crate::signs::{full, grows, hears, is_short, sends, tells, types_none, willing};
use crate::steps::Turn;
use crate::text;
use crate::transport::ChannelView;
use crate::trust;
use crate::trust::TrustView;
use vstd::prelude::*;

verus! {

// ---------------------------------------------------------------- where commands go

/// Whether the session at an index has an identifier.
pub open spec fn is_session(e: EngineView, id: u128, k: int) -> bool {
    0 <= k < e.sessions.len() && e.sessions[k].binding.session_id == id
}

/// A session is found by its identifier, wherever it stands.
pub proof fn lemma_is_session(e: EngineView, id: u128, k: int)
    requires
        engine::apart(e.sessions),
        is_session(e, id, k),
    ensures
        engine::session_at(e.sessions, id) == k,
{
    engine::lemma_session_at(e.sessions, id);
    let i = engine::session_at(e.sessions, id) as int;
    if i < k {
        assert(e.sessions[i].binding.session_id != e.sessions[k].binding.session_id);
    }
}

/// Where no session has an identifier, none is found.
pub proof fn lemma_no_session(e: EngineView, id: u128)
    requires
        forall|k: int| !(#[trigger] is_session(e, id, k)),
    ensures
        engine::session_at(e.sessions, id) == e.sessions.len(),
{
    engine::lemma_session_at(e.sessions, id);
    let i = engine::session_at(e.sessions, id) as int;
    if i < e.sessions.len() {
        assert(is_session(e, id, i));
    }
}

/// Whether something was done to one session of a device, and to no other. A session that is over
/// then frees the microphone once its source has stopped, and the keyboard once nothing is under
/// way.
pub open spec fn touches_one<T>(e: EngineView, m: Move<T>, k: int, t: Turn<T>) -> bool {
    let id = e.sessions[k].binding.session_id;
    let over = t.session.phase == Phase::Done || t.session.phase == Phase::Cancelled;
    &&& m.engine.desk == t.desk
    &&& m.result == t.result
    &&& m.engine.sessions == e.sessions.update(k, t.session)
    &&& m.engine.active_source == (if e.active_source == Some(id) && over && t.session.stopped {
        None
    } else {
        e.active_source
    })
    &&& m.engine.active_target == (if e.active_target == Some(id) && over && t.session.inflight is None {
        None
    } else {
        e.active_target
    })
}

/// Whether a command is about the device, not about one of its sessions.
pub open spec fn is_for_the_device(op: Seq<char>) -> bool {
    op == "open"@ || op == "bytes"@ || op == "closed"@ || op == "pair"@ || op == "revoke"@ || op
        == "remote_permission"@ || op == "begin"@ || op == "tick"@ || op == "forget_recovery"@
}

/// A command that is about a session reaches that session and no other; where there is no such
/// session, nothing changes.
pub proof fn law_a_command_reaches_its_session(
    e: EngineView,
    v: JsonView,
    op: Seq<char>,
    name: Seq<char>,
    id: u128,
    k: int,
    now: u64,
    wall: u64,
    log: Seq<Reply>,
)
    requires
        !e.desk.faulted,
        engine::apart(e.sessions),
        v.member("op"@) == Some(JsonView::Text(op)),
        !is_for_the_device(op),
        v.member("session_id"@) == Some(JsonView::Text(name)),
        ids::id_parsed(name) == Some(id),
    ensures
        is_session(e, id, k) ==> touches_one(
            e,
            e.command(v, now, wall, log),
            k,
            orders::obey(e.desk, e.sessions[k], op, v, now, log),
        ),
        (forall|j: int| !(#[trigger] is_session(e, id, j))) ==> e.command(v, now, wall, log) == e.refused::<Answer>(
            "unknown_session"@,
        ),
{
    reveal(EngineView::command);
    if is_session(e, id, k) {
        lemma_is_session(e, id, k);
    }
    if forall|j: int| !(#[trigger] is_session(e, id, j)) {
        lemma_no_session(e, id);
    }
}

/// A command without a session that can be named is refused.
pub proof fn law_commands_name_their_session(e: EngineView, v: JsonView, op: Seq<char>, now: u64, wall: u64, log: Seq<Reply>)
    requires
        !e.desk.faulted,
        v.member("op"@) == Some(JsonView::Text(op)),
        !is_for_the_device(op),
    ensures
        v.text_at("session_id"@) is None ==> e.command(v, now, wall, log) == e.refused::<Answer>("invalid_command"@),
        v.text_at("session_id"@) matches Some(s) && ids::id_parsed(s) is None ==> e.command(v, now, wall, log)
            == e.refused::<Answer>("invalid_session_id"@),
{
    reveal(EngineView::command);
}

/// The commands for the device are told apart by a few marks.
pub proof fn lemma_device_ops()
    ensures
        text::mark("open"@).0 == 4 && text::mark("open"@).1 == 'o',
        text::mark("bytes"@).0 == 5 && text::mark("bytes"@).1 == 'b' && "bytes"@[1] == 'y',
        text::mark("closed"@).0 == 6 && text::mark("closed"@).1 == 'c',
        text::mark("pair"@).0 == 4 && text::mark("pair"@).1 == 'p',
        text::mark("revoke"@).0 == 6 && text::mark("revoke"@).1 == 'r',
        text::mark("remote_permission"@).0 == 17,
        text::mark("begin"@).0 == 5 && text::mark("begin"@).1 == 'b' && "begin"@[1] == 'e',
        text::mark("tick"@).0 == 4 && text::mark("tick"@).1 == 't',
        text::mark("forget_recovery"@).0 == 15,
{
    reveal_strlit("open");
    reveal_strlit("bytes");
    reveal_strlit("closed");
    reveal_strlit("pair");
    reveal_strlit("revoke");
    reveal_strlit("remote_permission");
    reveal_strlit("begin");
    reveal_strlit("tick");
    reveal_strlit("forget_recovery");
}

/// A message about a session reaches that session and no other, if the journal lets the device
/// that sent it speak of the session.
pub proof fn law_a_message_reaches_its_session(
    e: EngineView,
    peer: Seq<char>,
    connection: Seq<char>,
    payload: PayloadView,
    id: u128,
    k: int,
    now: u64,
    wall: u64,
    log: Seq<Reply>,
)
    requires
        engine::apart(e.sessions),
        e.desk.paired(peer),
        subject(payload) == Some(id),
    ensures
        ({
            let asked = e.desk.authorize(id, peer, wall, log);
            let m = e.receive(peer, connection, payload, now, wall, log);
            &&& asked.result is Ok && is_session(e, id, k) ==> touches_one(
                e.at(asked.desk),
                m,
                k,
                inbound::on_message(asked.desk, e.sessions[k], peer, payload, now, log),
            )
            &&& asked.result is Ok && (forall|j: int| !(#[trigger] is_session(e, id, j))) ==> m == e.at(
                asked.desk,
            ).refused::<()>("unknown_session"@)
            &&& asked.result is Err ==> m.engine == e.at(asked.desk) && m.result == asked.result
        }),
{
    reveal(EngineView::receive);
    reveal(EngineView::on_session_message);
    if is_session(e, id, k) {
        lemma_is_session(e, id, k);
    }
    if forall|j: int| !(#[trigger] is_session(e, id, j)) {
        lemma_no_session(e, id);
    }
}

/// The session that a message between the two devices of a session is about.
pub open spec fn subject(payload: PayloadView) -> Option<u128> {
    match payload {
        PayloadView::SessionReady { session_id } => Some(session_id),
        PayloadView::SessionState { session_id, .. } => Some(session_id),
        PayloadView::SessionKeepalive { session_id } => Some(session_id),
        PayloadView::SessionStop { session_id } => Some(session_id),
        PayloadView::SessionCancel { session_id } => Some(session_id),
        PayloadView::TextChunk { session_id, .. } => Some(session_id),
        PayloadView::ChunkAck { session_id, .. } => Some(session_id),
        PayloadView::SessionEnd { session_id, .. } => Some(session_id),
        PayloadView::SessionPause { session_id } => Some(session_id),
        PayloadView::SessionResume { session_id, .. } => Some(session_id),
        _ => None,
    }
}

// ---------------------------------------------------------------- sessions begin

/// Whether a session has just begun: nothing has been said, sent or typed, and the key is held.
pub open spec fn is_new(s: SessionView, b: BindingView, now: u64) -> bool {
    &&& s.binding == b
    &&& s.phase == Phase::Preparing
    &&& s.chunks.len() == 0
    &&& s.draft.len() == 0
    &&& s.stable.segments.len() == 0 && s.stable.committed_end == 0 && s.stable.finalized_until == 0
    &&& s.next_send == 1
    &&& s.next_receive == 1
    &&& s.inflight is None
    &&& s.last_sequence is None
    &&& forall|n: u64| !(#[trigger] s.retry_allowed.contains(n))
    &&& s.started == now
    &&& s.lease == now
    &&& s.keepalive_sent == now
    &&& s.finalizing is None
    &&& s.held
    &&& !s.stopped
    &&& !s.stop_requested
    &&& !s.cancelled
    &&& !s.frozen
}

/// Whether a device has one session more, which has just begun, and the others as they were: it
/// has the microphone or the keyboard, the journal knows of it, and the program sees it.
pub open spec fn begins<T>(e: EngineView, m: Move<T>, b: BindingView, source: bool, now: u64, wall: u64) -> bool {
    let s = m.engine.sessions.last();
    &&& m.engine.sessions.len() == e.sessions.len() + 1
    &&& m.engine.sessions.drop_last() == e.sessions
    &&& is_new(s, b, now)
    &&& m.engine.active_source == (if source {
        Some(b.session_id)
    } else {
        e.active_source
    })
    &&& m.engine.active_target == (if source {
        e.active_target
    } else {
        Some(b.session_id)
    })
    &&& tells(e.desk, m.engine.desk, desk::snapshot_of(s))
    &&& notes(
        e.desk,
        m.engine.desk,
        b.session_id,
        if source {
            b.target_device_id
        } else {
            b.source_device_id
        },
        wall,
    )
}

/// Whether the journal was asked to note a session with a device.
pub open spec fn notes(d: DeskView, e: DeskView, session: u128, device: Seq<char>, at: u64) -> bool {
    exists|i: int|
        d.asked.len() <= i < e.asked.len() && (#[trigger] e.asked[i] matches Ask::Note { id, peer, now, .. } && id
            == session && peer == device && now == at)
}

/// What was noted is, whatever comes after.
pub proof fn lemma_notes_still(d: DeskView, m: DeskView, e: DeskView, session: u128, device: Seq<char>, at: u64)
    requires
        notes(d, m, session, device, at),
        grows(m, e),
    ensures
        notes(d, e, session, device, at),
{
    reveal(grows);
    let i = choose|i: int|
        d.asked.len() <= i < m.asked.len() && (#[trigger] m.asked[i] matches Ask::Note { id, peer, now, .. } && id
            == session && peer == device && now == at);
    assert(e.asked[i] == m.asked[i]);
}

/// Whether a session can begin: its binding is sound, there is room for it, and the microphone or
/// the keyboard is free.
pub open spec fn has_room(e: EngineView, b: BindingView, source: bool, wall: u64) -> bool {
    &&& protocol::binding_ok(b, wall)
    &&& e.sessions.len() < 64
    &&& source ==> e.active_source is None
    &&& !source ==> e.active_target is None
}

/// A session that can begin does, if the journal notes it.
pub proof fn lemma_begins(e: EngineView, b: BindingView, source: bool, now: u64, wall: u64, log: Seq<Reply>)
    requires
        forall|k: int| !(#[trigger] is_session(e, b.session_id, k)),
    ensures
        ({
            let m = e.add_session(b, source, now, wall, log);
            &&& has_room(e, b, source, wall) && willing(log) ==> m.result is Ok
            &&& m.result is Ok ==> {
                &&& m.result == Ok::<u128, Seq<char>>(b.session_id)
                &&& begins(e, m, b, source, now, wall)
                &&& m.engine.desk.links == e.desk.links
            }
            &&& m.result is Err ==> m.engine.sessions == e.sessions && m.engine.active_source == e.active_source
                && m.engine.active_target == e.active_target && m.engine.desk.links == e.desk.links
            &&& grows(e.desk, m.engine.desk)
            &&& types_none(e.desk, m.engine.desk)
        }),
{
    broadcast use signs::group_signs;

    signs::lemma_grows_itself(e.desk);
    reveal(EngineView::add_session);
    lemma_no_session(e, b.session_id);
    let m = e.add_session(b, source, now, wall, log);
    let other = if source {
        b.target_device_id
    } else {
        b.source_device_id
    };
    let noted = e.desk.note(b.session_id, other, wall, log);
    let ask = Ask::Note { journal: e.desk.journal, id: b.session_id, peer: other, now: wall };
    assert(grows(e.desk, noted.desk) && types_none(e.desk, noted.desk)) by {
        reveal(grows);
        reveal(signs::types_none);
    }
    assert(noted.desk.asked[e.desk.asked.len() as int] == ask);
    assert(notes(e.desk, noted.desk, b.session_id, other, wall));
    if m.result is Ok {
        let s = SessionView::fresh(b, now);
        assert(m.engine.sessions.last() == s);
        assert(m.engine.sessions.drop_last() =~= e.sessions);
        lemma_notes_still(e.desk, noted.desk, m.engine.desk, b.session_id, other, wall);
    }
}

/// A session that the program begins is between this device and the one that it names, in the way
/// that it names, under an identifier that was drawn; the other device is asked to take part, and
/// the program is told the identifier.
pub proof fn law_beginning_a_session(
    e: EngineView,
    v: JsonView,
    peer: Seq<char>,
    mode: Mode,
    token: Seq<char>,
    now: u64,
    wall: u64,
    log: Seq<Reply>,
    id: u128,
)
    requires
        !e.desk.faulted,
        desk::apart(e.desk.links),
        v.member("op"@) == Some(JsonView::Text("begin"@)),
        v.member("peer_id"@) == Some(JsonView::Text(peer)),
        v.member("mode"@) == Some(JsonView::Text(protocol::mode_name(mode))),
        v.member("remote"@) == Some(JsonView::Bool(true)) ==> v.member("context_token"@) == Some(JsonView::Text(token)),
        log[e.desk.asked.len() as int] == Reply::Id(id),
        forall|k: int| !(#[trigger] is_session(e, id, k)),
    ensures
        ({
            let m = e.command(v, now, wall, log);
            let remote = v.member("remote"@) == Some(JsonView::Bool(true));
            let app = match v.member("target_app"@) {
                Some(JsonView::Text(s)) => s,
                _ => seq![],
            };
            let b = BindingView {
                session_id: id,
                source_device_id: if remote {
                    peer
                } else {
                    e.desk.id
                },
                target_device_id: if remote {
                    e.desk.id
                } else {
                    peer
                },
                controller_device_id: e.desk.id,
                input_mode: mode,
                context_token: if remote {
                    token
                } else {
                    seq![]
                },
                target_app: app,
                created_ms: wall,
            };
            let p = if remote {
                PayloadView::SessionStart { binding: b }
            } else {
                PayloadView::BindRequest { binding: b }
            };
            let place = ids::id_parsed(token) is Some && ids::id_parsed(token) != Some(0u128);
            &&& m.result is Ok ==> {
                &&& m.result == Ok::<Answer, Seq<char>>(Answer::Begun(id))
                &&& begins(e, m, b, !remote, now, wall)
                &&& sends(e.desk, m.engine.desk, peer, p)
            }
            &&& hears(e.desk, peer, 1) && is_short(p) && (remote ==> place) && has_room(e, b, !remote, wall) && willing(
                log,
            ) ==> m.result is Ok
            &&& remote && !place ==> m.result is Err && m.engine.sessions == e.sessions
            &&& grows(e.desk, m.engine.desk)
            &&& types_none(e.desk, m.engine.desk)
        }),
{
    broadcast use signs::group_signs;

    signs::lemma_grows_itself(e.desk);
    reveal(EngineView::command);
    reveal(EngineView::begin);
    lemma_device_ops();
    protocol::lemma_mode_names(mode);
    assert(orders::mode_of(v) == Some(mode));
    let remote = v.flag_at("remote"@);
    let d = e.desk.asking(Ask::Fresh);
    let drawn = e.at(d);
    let b = BindingView {
        session_id: id,
        source_device_id: if remote {
            peer
        } else {
            e.desk.id
        },
        target_device_id: if remote {
            e.desk.id
        } else {
            peer
        },
        controller_device_id: e.desk.id,
        input_mode: mode,
        context_token: if remote {
            token
        } else {
            seq![]
        },
        target_app: match v.text_at("target_app"@) {
            Some(app) => app,
            None => seq![],
        },
        created_ms: wall,
    };
    assert forall|k: int| !(#[trigger] is_session(drawn, id, k)) by {
        assert(!is_session(e, id, k));
    }
    lemma_begins(drawn, b, !remote, now, wall, log);
    let added = drawn.add_session(b, !remote, now, wall, log);
    let m = e.command(v, now, wall, log);
    if hears(e.desk, peer, 1) {
        signs::lemma_hears_still(e.desk, added.engine.desk, peer, 1);
        lemma_hears_means(e.desk, peer);
    }
    if m.result is Ok {
        let other = if remote {
            b.source_device_id
        } else {
            b.target_device_id
        };
        assert(grows(added.engine.desk, m.engine.desk));
        lemma_notes_still(d, added.engine.desk, m.engine.desk, id, other, wall);
        let i = choose|i: int|
            d.asked.len() <= i < m.engine.desk.asked.len() && (#[trigger] m.engine.desk.asked[i] matches Ask::Note {
                id: x,
                peer: y,
                now: z,
                ..
            } && x == id && y == other && z == wall);
        assert(e.desk.asked.len() <= i);
        assert(notes(e.desk, m.engine.desk, id, other, wall));
    }
}

/// A device that can be told something is paired and connected.
pub proof fn lemma_hears_means(d: DeskView, peer: Seq<char>)
    requires
        hears(d, peer, 1),
    ensures
        d.paired(peer),
        d.connected(peer),
{
    reveal(signs::hears);
    desk::lemma_link_to(d.links, peer);
    let k = choose|k: int| 0 <= k < d.links.len() && (#[trigger] d.links[k]).channel.peer == Some(peer);
    assert(d.links[k].channel.peer == Some(peer));
}

/// A device that wants to dictate into this one gets a session here, if it is about the two of
/// them and may be, and the program is asked for a place for the text; to ask again changes
/// nothing.
pub proof fn law_a_request_to_dictate_is_taken(
    e: EngineView,
    peer: Seq<char>,
    connection: Seq<char>,
    b: BindingView,
    k: int,
    now: u64,
    wall: u64,
    log: Seq<Reply>,
)
    requires
        engine::apart(e.sessions),
        e.desk.paired(peer),
    ensures
        ({
            let m = e.receive(peer, connection, PayloadView::BindRequest { binding: b }, now, wall, log);
            let sound = b.source_device_id == peer && b.target_device_id == e.desk.id && b.controller_device_id == peer
                && b.context_token.len() == 0;
            let new = forall|j: int| !(#[trigger] is_session(e, b.session_id, j));
            &&& !sound ==> m == e.refused::<()>("invalid_binding"@)
            &&& sound && is_session(e, b.session_id, k) && e.sessions[k].binding.source_device_id == peer ==> m
                == e.kept()
            &&& sound && is_session(e, b.session_id, k) && e.sessions[k].binding.source_device_id != peer ==> m
                == e.refused::<()>("session_conflict"@)
            &&& sound && new && has_room(e, b, false, wall) && willing(log) ==> m.result is Ok
            &&& sound && new && m.result is Ok ==> begins(e, m, b, false, now, wall) && tells(
                e.desk,
                m.engine.desk,
                EventView::BindTarget { session_id: b.session_id },
            )
            &&& sound && new && m.result is Err ==> m.engine.sessions == e.sessions
        }),
{
    broadcast use signs::group_signs;

    signs::lemma_grows_itself(e.desk);
    reveal(EngineView::receive);
    let m = e.receive(peer, connection, PayloadView::BindRequest { binding: b }, now, wall, log);
    if is_session(e, b.session_id, k) {
        lemma_is_session(e, b.session_id, k);
    }
    if forall|j: int| !(#[trigger] is_session(e, b.session_id, j)) {
        lemma_no_session(e, b.session_id);
        lemma_begins(e, b, false, now, wall, log);
        let added = e.add_session(b, false, now, wall, log);
        if added.result is Ok && m.result is Ok {
            assert(grows(added.engine.desk, m.engine.desk));
            lemma_notes_still(e.desk, added.engine.desk, m.engine.desk, b.session_id, b.source_device_id, wall);
        }
    }
}

/// A device that may start sessions here and wants this one to dictate gets a session, if it is
/// about the two of them, and the program is asked to prepare; one that may not is told so, and
/// nothing else happens.
pub proof fn law_a_request_to_listen_is_taken(
    e: EngineView,
    peer: Seq<char>,
    connection: Seq<char>,
    b: BindingView,
    k: int,
    now: u64,
    wall: u64,
    log: Seq<Reply>,
)
    requires
        desk::apart(e.desk.links),
        engine::apart(e.sessions),
        e.desk.paired(peer),
    ensures
        ({
            let m = e.receive(peer, connection, PayloadView::SessionStart { binding: b }, now, wall, log);
            let allowed = trust::may_start(e.desk.trust, peer);
            let sound = b.source_device_id == e.desk.id && b.target_device_id == peer && b.controller_device_id == peer
                && ids::id_parsed(b.context_token) is Some && ids::id_parsed(b.context_token) != Some(0u128);
            let new = forall|j: int| !(#[trigger] is_session(e, b.session_id, j));
            let s = e.sessions[k];
            let same = s.binding.controller_device_id == peer && s.binding.context_token == b.context_token
                && s.binding.input_mode == b.input_mode;
            let no = PayloadView::Error { session_id: Some(b.session_id), code: "remote_not_authorized"@ };
            let busy = PayloadView::Error { session_id: None, code: "busy_or_expired_session"@ };
            let state = PayloadView::SessionState { session_id: b.session_id, phase: s.phase };
            &&& !allowed ==> m.engine.sessions == e.sessions && (m.result is Ok ==> sends(
                e.desk,
                m.engine.desk,
                peer,
                no,
            )) && (hears(e.desk, peer, 1) && is_short(no) ==> m.result is Ok)
            &&& allowed && !sound ==> m == e.refused::<()>("invalid_binding"@)
            &&& allowed && sound && is_session(e, b.session_id, k) ==> m.engine.sessions == e.sessions
            &&& allowed && sound && is_session(e, b.session_id, k) && !same ==> m == e.refused::<()>(
                "session_conflict"@,
            )
            &&& allowed && sound && is_session(e, b.session_id, k) && same && m.result is Ok ==> sends(
                e.desk,
                m.engine.desk,
                peer,
                state,
            )
            &&& allowed && sound && new && has_room(e, b, true, wall) && willing(log) ==> m.result is Ok && begins(
                e,
                m,
                b,
                true,
                now,
                wall,
            ) && tells(e.desk, m.engine.desk, EventView::PrepareInput { binding: b })
            &&& allowed && sound && new && !has_room(e, b, true, wall) ==> m.engine.sessions == e.sessions && (
            m.result is Ok ==> sends(e.desk, m.engine.desk, peer, busy))
        }),
{
    broadcast use signs::group_signs;

    signs::lemma_grows_itself(e.desk);
    reveal(EngineView::receive);
    reveal(EngineView::on_session_start);
    let m = e.receive(peer, connection, PayloadView::SessionStart { binding: b }, now, wall, log);
    if is_session(e, b.session_id, k) {
        lemma_is_session(e, b.session_id, k);
    }
    if forall|j: int| !(#[trigger] is_session(e, b.session_id, j)) {
        lemma_no_session(e, b.session_id);
        lemma_begins(e, b, true, now, wall, log);
        let added = e.add_session(b, true, now, wall, log);
        let sound = b.source_device_id == e.desk.id && b.target_device_id == peer && b.controller_device_id == peer
            && inbound::is_context(b.context_token);
        if trust::may_start(e.desk.trust, peer) && sound && added.result is Ok {
            assert(grows(added.engine.desk, m.engine.desk));
            lemma_notes_still(e.desk, added.engine.desk, m.engine.desk, b.session_id, b.target_device_id, wall);
        }
        if !has_room(e, b, true, wall) {
            reveal(EngineView::add_session);
        }
    }
}

/// Where the target of a session has a place for the text, that session hears of it, and no other.
pub proof fn law_a_bound_session_is_found(
    e: EngineView,
    peer: Seq<char>,
    connection: Seq<char>,
    b: BindingView,
    k: int,
    now: u64,
    wall: u64,
    log: Seq<Reply>,
)
    requires
        engine::apart(e.sessions),
        e.desk.paired(peer),
    ensures
        ({
            let m = e.receive(peer, connection, PayloadView::SessionBound { binding: b }, now, wall, log);
            &&& !protocol::binding_ok(b, wall) ==> m == e.refused::<()>("invalid_binding"@)
            &&& protocol::binding_ok(b, wall) && is_session(e, b.session_id, k) ==> touches_one(
                e,
                m,
                k,
                inbound::on_bound(e.desk, e.sessions[k], peer, b),
            )
            &&& protocol::binding_ok(b, wall) && (forall|j: int| !(#[trigger] is_session(e, b.session_id, j))) ==> m
                == e.refused::<()>("unknown_session"@)
        }),
{
    reveal(EngineView::receive);
    if is_session(e, b.session_id, k) {
        lemma_is_session(e, b.session_id, k);
    }
    if forall|j: int| !(#[trigger] is_session(e, b.session_id, j)) {
        lemma_no_session(e, b.session_id);
    }
}

/// A device that asks what became of a piece is told what the journal says of it, if the journal
/// lets it speak of the session.
pub proof fn law_a_question_is_answered(
    e: EngineView,
    peer: Seq<char>,
    connection: Seq<char>,
    session_id: u128,
    number: u64,
    now: u64,
    wall: u64,
    log: Seq<Reply>,
)
    requires
        desk::apart(e.desk.links),
        e.desk.paired(peer),
    ensures
        ({
            let m = e.receive(
                peer,
                connection,
                PayloadView::ChunkQuery { session_id, sequence: number },
                now,
                wall,
                log,
            );
            let asked = e.desk.authorize(session_id, peer, wall, log);
            let told = asked.desk.tell(session_id, number, log);
            &&& m.engine.sessions == e.sessions
            &&& asked.result is Err ==> m.result == asked.result && m.engine.desk.events == e.desk.events
            &&& asked.result is Ok && told.result is Err ==> m.result is Err && m.engine.desk.events == e.desk.events
            &&& asked.result is Ok && told.result is Ok ==> {
                let ack = PayloadView::ChunkAck {
                    session_id,
                    sequence: number,
                    ack_status: told.result->Ok_0,
                };
                &&& m.result is Ok ==> sends(e.desk, m.engine.desk, peer, ack)
                &&& hears(e.desk, peer, 1) && is_short(ack) ==> m.result is Ok
            }
        }),
{
    broadcast use signs::group_signs;

    signs::lemma_grows_itself(e.desk);
    reveal(EngineView::receive);
    reveal(EngineView::on_query);
    let asked = e.desk.authorize(session_id, peer, wall, log);
    let told = asked.desk.tell(session_id, number, log);
    assert(grows(e.desk, asked.desk) && grows(asked.desk, told.desk));
}

/// A failure on the other device is told to the program as it came, if its code is one, and the
/// session that it is about stops for it; other sessions go on.
pub proof fn law_a_failure_elsewhere_is_told(
    e: EngineView,
    peer: Seq<char>,
    connection: Seq<char>,
    session_id: Option<u128>,
    code: Seq<char>,
    k: int,
    now: u64,
    wall: u64,
    log: Seq<Reply>,
)
    requires
        engine::apart(e.sessions),
        desk::apart(e.desk.links),
        e.desk.paired(peer),
    ensures
        ({
            let m = e.receive(peer, connection, PayloadView::Error { session_id, code }, now, wall, log);
            let told = e.desk.emit(EventView::Error { session_id, code });
            &&& !network::is_code(code) ==> m == e.refused::<()>("invalid_error_code"@)
            &&& network::is_code(code) ==> m.result is Ok && tells(
                e.desk,
                m.engine.desk,
                EventView::Error { session_id, code },
            )
            &&& network::is_code(code) && (session_id matches Some(id) && is_session(e, id, k)) ==> m.engine.sessions
                == e.sessions.update(k, inbound::on_error(told, e.sessions[k], peer, now, log).session)
            &&& network::is_code(code) && (session_id is None || forall|j: int|
                !(#[trigger] is_session(e, session_id->0, j))) ==> m.engine.sessions == e.sessions
        }),
{
    broadcast use signs::group_signs;

    signs::lemma_grows_itself(e.desk);
    reveal(EngineView::receive);
    reveal(EngineView::on_error_message);
    if session_id is Some {
        let id = session_id->0;
        let told = e.desk.emit(EventView::Error { session_id, code });
        if is_session(e, id, k) {
            lemma_is_session(e, id, k);
        }
        if forall|j: int| !(#[trigger] is_session(e, id, j)) {
            lemma_no_session(e, id);
        }
        let i = engine::session_at(e.sessions, id) as int;
        engine::lemma_session_at(e.sessions, id);
        if i < e.sessions.len() {
            if peer == e.sessions[i].other(e.desk.id) {
                hearing_laws::law_the_other_side_may_end_it(told, e.sessions[i], peer, id, now, log);
            } else {
                reveal(inbound::on_error);
            }
        }
    }
}

/// A code is made of a few lower-case letters and underscores.
pub proof fn law_what_a_code_is(code: Seq<char>)
    ensures
        network::is_code(code) <==> vstd::utf8::encode_utf8(code).len() <= 64 && forall|i: int|
            0 <= i < vstd::utf8::encode_utf8(code).len() ==> (#[trigger] vstd::utf8::encode_utf8(code)[i]) == 95u8 || (
            97u8 <= vstd::utf8::encode_utf8(code)[i] && vstd::utf8::encode_utf8(code)[i] <= 122u8),
{
    if network::is_code(code) {
        assert forall|i: int| 0 <= i < vstd::utf8::encode_utf8(code).len() implies (
        #[trigger] vstd::utf8::encode_utf8(code)[i]) == 95u8 || (97u8 <= vstd::utf8::encode_utf8(code)[i]
            && vstd::utf8::encode_utf8(code)[i] <= 122u8) by {
            assert(network::code_byte(vstd::utf8::encode_utf8(code)[i]));
        }
    }
}

// ---------------------------------------------------------------- pairing

/// What the program is told of a device is what is known of it: the name and the code of its
/// channel while it is connected, else the name that it was paired under, whether it is paired,
/// and whether it may start sessions.
pub proof fn law_a_device_is_told_of_as_it_is(d: DeskView, peer: Seq<char>, online: bool, k: int)
    requires
        trust::sorted(d.trust),
        forall|i: int, j: int|
            0 <= i < j < d.links.len() && (#[trigger] d.links[i]).channel.peer == Some(peer) ==> (
            #[trigger] d.links[j]).channel.peer != Some(peer),
    ensures
        exists|x: EventView|
            {
                &&& #[trigger] tells(d, d.peer_event(peer, online), x)
                &&& x matches EventView::Peer { peer_id, name, online: up, paired, allow_remote, code } && {
                    &&& peer_id == peer
                    &&& up == online
                    &&& paired <==> exists|i: int| 0 <= i < d.trust.len() && (#[trigger] d.trust[i]).peer_id == peer
                    &&& forall|i: int|
                        0 <= i < d.trust.len() && (#[trigger] d.trust[i]).peer_id == peer ==> allow_remote
                            == d.trust[i].allow_remote
                    &&& !paired ==> !allow_remote
                    &&& 0 <= k < d.links.len() && d.links[k].channel.peer == Some(peer) ==> name
                        == d.links[k].channel.name && code == d.links[k].channel.code
                    &&& (forall|i: int| 0 <= i < d.links.len() ==> (#[trigger] d.links[i]).channel.peer != Some(peer))
                        ==> code.len() == 0 && (!paired ==> name.len() == 0) && forall|i: int|
                        0 <= i < d.trust.len() && (#[trigger] d.trust[i]).peer_id == peer ==> name == d.trust[i].name
                }
            },
        d.peer_event(peer, online).links == d.links,
        d.peer_event(peer, online).trust == d.trust,
        grows(d, d.peer_event(peer, online)),
        types_none(d, d.peer_event(peer, online)),
{
    broadcast use signs::group_signs;

    signs::lemma_grows_itself(d);
    trust::law_paired_means_listed(d.trust, peer);
    desk::lemma_link_to(d.links, peer);
    let i = desk::link_to(d.links, peer) as int;
    assert forall|j: int| 0 <= j < d.trust.len() && (#[trigger] d.trust[j]).peer_id == peer implies trust::entry_of(
        d.trust,
        peer,
    ) == d.trust[j] by {
        trust::law_a_list_says_what_it_holds(d.trust, d.trust[j]);
    }
    if 0 <= k < d.links.len() && d.links[k].channel.peer == Some(peer) {
        if k < i {
            assert(d.links[k].channel.peer != Some(peer));
        } else if i < k {
            assert(d.links[i].channel.peer == Some(peer));
        }
    }
    let x = EventView::Peer {
        peer_id: peer,
        name: if i < d.links.len() {
            d.links[i].channel.name
        } else if d.paired(peer) {
            trust::entry_of(d.trust, peer).name
        } else {
            seq![]
        },
        online,
        paired: d.paired(peer),
        allow_remote: trust::may_start(d.trust, peer),
        code: if i < d.links.len() {
            d.links[i].channel.code
        } else {
            seq![]
        },
    };
    assert(tells(d, d.peer_event(peer, online), x));
}

/// Whether the program is told of a device.
pub open spec fn tells_of(d: DeskView, e: DeskView, peer: Seq<char>, up: bool) -> bool {
    full(e) || exists|i: int|
        d.events.len() <= i < e.events.len() && (#[trigger] e.events[i] matches EventView::Peer { peer_id, online, .. }
            && peer_id == peer && online == up)
}

/// Where both sides have confirmed, the two devices are paired: this one keeps the other under
/// the name that it gave, as one that may not start sessions, unless it was paired before, and
/// tells the program the whole list. Until then nothing changes, and the other devices stay.
pub proof fn law_two_confirmations_pair(d: DeskView, peer: Seq<char>, k: int, x: TrustView)
    requires
        desk::apart(d.links),
        trust::sorted(d.trust),
        0 <= k < d.links.len(),
        d.links[k].channel.peer == Some(peer),
        forall|i: int| 0 <= i < k ==> (#[trigger] d.links[i]).channel.peer != Some(peer),
    ensures
        ({
            let m = d.maybe_pair(peer);
            let c = d.links[k].channel;
            let both = c.local_confirmed && c.remote_confirmed;
            &&& m.result is Ok
            &&& !both ==> m.desk == d
            &&& both ==> {
                &&& tells(d, m.desk, EventView::TrustChanged { peers: m.desk.trust })
                &&& m.desk.trust.contains(x) <==> d.trust.contains(x) || (!d.paired(peer) && x == (TrustView {
                    peer_id: peer,
                    name: c.name,
                    allow_remote: false,
                }))
                &&& m.desk.paired(peer)
            }
        }),
{
    broadcast use signs::group_signs;

    signs::lemma_grows_itself(d);
    desk::lemma_link_to(d.links, peer);
    let i = desk::link_to(d.links, peer) as int;
    assert(i == k) by {
        if i < k {
            assert(d.links[i].channel.peer != Some(peer));
        } else if k < i {
            assert(d.links[k].channel.peer != Some(peer));
        }
    }
    let t = TrustView { peer_id: peer, name: d.links[k].channel.name, allow_remote: false };
    trust::law_other_devices_stay(d.trust, t, x);
    trust::law_a_paired_device_is_on_the_list(d.trust, t);
    trust::law_paired_means_listed(d.trust, peer);
    if d.trust.contains(x) && x.peer_id == peer {
        let j = choose|j: int| 0 <= j < d.trust.len() && d.trust[j] == x;
        assert(d.trust[j].peer_id == peer);
    }
    let m = d.maybe_pair(peer);
    if d.links[k].channel.local_confirmed && d.links[k].channel.remote_confirmed {
        let n = if d.paired(peer) {
            d
        } else {
            DeskView { trust: trust::with_peer(d.trust, t), ..d }
        };
        assert(tells(n, n.save_trust(), EventView::TrustChanged { peers: n.trust }));
        assert(grows(n.save_trust(), m.desk));
        assert(tells(n, m.desk, EventView::TrustChanged { peers: n.trust }));
        reveal(signs::tells);
        assert(m.desk.trust == n.trust);
    }
}


// ---------------------------------------------------------------- connections

/// Whether the connection at an index has a name.
pub open spec fn is_link(d: DeskView, connection: Seq<char>, k: int) -> bool {
    0 <= k < d.links.len() && d.links[k].id == connection
}

/// A connection is found by its name, wherever it stands.
pub proof fn lemma_is_link(d: DeskView, connection: Seq<char>, k: int)
    requires
        desk::apart(d.links),
        is_link(d, connection, k),
    ensures
        desk::link_at(d.links, connection) == k,
{
    desk::lemma_link_at(d.links, connection);
    let i = desk::link_at(d.links, connection) as int;
    if i < k {
        assert(d.links[i].id != d.links[k].id);
    }
}

/// Where no connection has a name, none is found.
pub proof fn lemma_no_link(d: DeskView, connection: Seq<char>)
    requires
        forall|k: int| !(#[trigger] is_link(d, connection, k)),
    ensures
        desk::link_at(d.links, connection) >= d.links.len(),
{
    desk::lemma_link_at(d.links, connection);
    let i = desk::link_at(d.links, connection) as int;
    if i < d.links.len() {
        assert(is_link(d, connection, i));
    }
}

/// Whether a channel can seal so many more messages.
pub open spec fn can_seal(c: ChannelView, times: int) -> bool {
    c.cipher matches crate::transport::CipherView::Transport { sent, .. } && sent + times <= u64::MAX
}

/// What is said on a connection goes to the device at its other end, if it can.
pub proof fn lemma_send_on(d: DeskView, connection: Seq<char>, k: int, peer: Seq<char>, payload: PayloadView, log: Seq<Reply>)
    requires
        desk::apart(d.links),
        is_link(d, connection, k),
        d.links[k].channel.peer == Some(peer),
    ensures
        ({
            let m = d.send_on(connection, payload, log);
            &&& grows(d, m.desk)
            &&& types_none(d, m.desk)
            &&& m.result is Ok ==> sends(d, m.desk, peer, payload)
            &&& m.result is Err ==> m.desk.events == d.events && m.desk.links == d.links
            &&& can_seal(d.links[k].channel, 1) && is_short(payload) ==> m.result is Ok
            &&& m.desk.links.len() == d.links.len()
            &&& forall|j: int|
                0 <= j < d.links.len() ==> (#[trigger] m.desk.links[j]).id == d.links[j].id && m.desk.links[j].channel
                    == (ChannelView { cipher: m.desk.links[j].channel.cipher, ..d.links[j].channel })
        }),
{
    reveal(grows);
    reveal(signs::types_none);
    reveal(signs::sends);
    lemma_is_link(d, connection, k);
    let m = d.send_on(connection, payload, log);
    let w = d.message(payload, log);
    let bytes = crate::wire::wire_bytes(w);
    let c = d.links[k].channel;
    if is_short(payload) {
        assert(crate::wire::wire_bytes(
            crate::protocol::WireView { protocol_version: protocol::VERSION, request_id: w.request_id, payload },
        ).len() <= protocol::MAX_FRAME - 32);
    }
    if c.mute(bytes.len()) is None {
        match c.cipher {
            crate::transport::CipherView::Transport { send_key, sent, .. } => {
                let data = signs::letter(send_key, sent, w.request_id, payload);
                assert(signs::line(d.links, connection, peer, send_key));
                assert(data == c.sealed(bytes));
                let x = EventView::SocketSend { connection_id: connection, data };
                assert(signs::carries(d.links, x, peer, payload));
                if !full(d) {
                    assert(m.desk.events[d.events.len() as int] == x);
                }
            },
            _ => {},
        }
    }
}

/// Whether one connection has another channel, and the others are as they were.
pub open spec fn rechannels(d: DeskView, e: DeskView, k: int, c: ChannelView) -> bool {
    e.links == d.links.update(k, LinkView { id: d.links[k].id, channel: c })
}

/// A device that says who it is, truthfully and with a name that is one, is known under that name
/// on its connection, and the program is told that it is there.
pub proof fn law_a_device_names_itself(
    e: EngineView,
    peer: Seq<char>,
    connection: Seq<char>,
    device_id: Seq<char>,
    name: Seq<char>,
    k: int,
    now: u64,
    wall: u64,
    log: Seq<Reply>,
)
    requires
        desk::apart(e.desk.links),
        is_link(e.desk, connection, k),
    ensures
        ({
            let m = e.receive(peer, connection, PayloadView::Hello { device_id, name }, now, wall, log);
            let sound = device_id == peer && text::size(name) <= 128 && !protocol::has_control(name);
            &&& !sound ==> m == e.refused::<()>("invalid_peer_identity"@)
            &&& sound ==> {
                &&& m.result is Ok
                &&& rechannels(e.desk, m.engine.desk, k, ChannelView { name, ..e.desk.links[k].channel })
                &&& tells_of(e.desk, m.engine.desk, peer, true)
                &&& m.engine.sessions == e.sessions
                &&& m.engine.desk.trust == e.desk.trust
            }
        }),
{
    reveal(EngineView::receive);
    lemma_is_link(e.desk, connection, k);
    let named = e.desk.with_channel(k, ChannelView { name, ..e.desk.links[k].channel });
    lemma_tells_of(named, peer, true);
}

/// To tell of a device tells of it.
pub proof fn lemma_tells_of(d: DeskView, peer: Seq<char>, online: bool)
    ensures
        tells_of(d, d.peer_event(peer, online), peer, online),
        grows(d, d.peer_event(peer, online)),
        types_none(d, d.peer_event(peer, online)),
        d.peer_event(peer, online).links == d.links,
        d.peer_event(peer, online).events.len() <= d.events.len() + 1,
{
    broadcast use signs::group_signs;

    signs::lemma_grows_itself(d);
    let e = d.peer_event(peer, online);
    if !full(d) {
        assert(e.events[d.events.len() as int] matches EventView::Peer { peer_id, online: up, .. } && peer_id == peer
            && up == online);
    }
}

/// What was told of a device is told, whatever comes after.
pub proof fn lemma_tells_of_still(a: DeskView, b: DeskView, c: DeskView, peer: Seq<char>, up: bool)
    requires
        tells_of(a, b, peer, up),
        grows(b, c),
    ensures
        tells_of(a, c, peer, up),
{
    reveal(grows);
    if !full(b) {
        let i = choose|i: int|
            a.events.len() <= i < b.events.len() && (#[trigger] b.events[i] matches EventView::Peer {
                peer_id,
                online,
                ..
            } && peer_id == peer && online == up);
        assert(c.events[i] == b.events[i]);
    }
}

/// A device that confirms that it pairs is remembered as one that did, and the program is told of
/// its wish, with the code, if it is not paired yet; no device is paired by that alone.
pub proof fn law_the_other_side_confirms(
    e: EngineView,
    peer: Seq<char>,
    connection: Seq<char>,
    k: int,
    now: u64,
    wall: u64,
    log: Seq<Reply>,
)
    requires
        desk::apart(e.desk.links),
        is_link(e.desk, connection, k),
        e.desk.links[k].channel.peer == Some(peer),
        forall|i: int| 0 <= i < k ==> (#[trigger] e.desk.links[i]).channel.peer != Some(peer),
        trust::sorted(e.desk.trust),
    ensures
        ({
            let m = e.receive(peer, connection, PayloadView::PairConfirm, now, wall, log);
            let c = e.desk.links[k].channel;
            &&& m.result is Ok
            &&& m.engine.sessions == e.sessions
            &&& rechannels(e.desk, m.engine.desk, k, ChannelView { remote_confirmed: true, ..c })
            &&& !e.desk.paired(peer) ==> tells(
                e.desk,
                m.engine.desk,
                EventView::PairRequested { peer_id: peer, code: c.code, name: c.name },
            )
            &&& !c.local_confirmed ==> m.engine.desk.trust == e.desk.trust
            &&& c.local_confirmed ==> m.engine.desk.paired(peer)
        }),
{
    broadcast use signs::group_signs;

    reveal(EngineView::receive);
    lemma_is_link(e.desk, connection, k);
    let c = e.desk.links[k].channel;
    let confirmed = e.desk.with_channel(k, ChannelView { remote_confirmed: true, ..c });
    let asked = if e.desk.paired(peer) {
        confirmed
    } else {
        confirmed.emit(EventView::PairRequested { peer_id: peer, code: c.code, name: c.name })
    };
    let m = e.receive(peer, connection, PayloadView::PairConfirm, now, wall, log);
    assert(desk::apart(asked.links)) by {
        assert forall|i: int, j: int| 0 <= i < j < asked.links.len() implies (#[trigger] asked.links[i]).id != (
        #[trigger] asked.links[j]).id by {
            assert(e.desk.links[i].id != e.desk.links[j].id);
        }
    }
    assert forall|i: int| 0 <= i < k implies (#[trigger] asked.links[i]).channel.peer != Some(peer) by {
        assert(e.desk.links[i].channel.peer != Some(peer));
    }
    let t = TrustView { peer_id: peer, name: c.name, allow_remote: false };
    law_two_confirmations_pair(asked, peer, k, t);
    lemma_pairing_grows(asked, peer);
    if !e.desk.paired(peer) {
        let x = EventView::PairRequested { peer_id: peer, code: c.code, name: c.name };
        assert(tells(confirmed, asked, x));
        reveal(signs::tells);
        reveal(grows);
        if !full(asked) {
            let i = choose|i: int| confirmed.events.len() <= i < asked.events.len() && #[trigger] asked.events[i] == x;
            assert(m.engine.desk.events[i] == x);
        }
    }
}

/// To pair keeps the connections and what was told.
pub proof fn lemma_pairing_grows(d: DeskView, peer: Seq<char>)
    ensures
        d.maybe_pair(peer).desk.links == d.links,
        d.events.len() <= d.maybe_pair(peer).desk.events.len(),
        forall|i: int| 0 <= i < d.events.len() ==> #[trigger] d.maybe_pair(peer).desk.events[i] == d.events[i],
        full(d) ==> full(d.maybe_pair(peer).desk),
{
}

/// Where a person confirms that the device pairs, that is remembered, and the other device is told
/// over their connection; they are paired then if the other side had confirmed, and else nothing
/// of that changes.
pub proof fn law_this_side_confirms(
    e: EngineView,
    v: JsonView,
    peer: Seq<char>,
    k: int,
    now: u64,
    wall: u64,
    log: Seq<Reply>,
)
    requires
        !e.desk.faulted,
        desk::apart(e.desk.links),
        v.member("op"@) == Some(JsonView::Text("pair"@)),
        v.member("peer_id"@) == Some(JsonView::Text(peer)),
        0 <= k < e.desk.links.len(),
        e.desk.links[k].channel.peer == Some(peer),
        forall|i: int| 0 <= i < k ==> (#[trigger] e.desk.links[i]).channel.peer != Some(peer),
        trust::sorted(e.desk.trust),
    ensures
        ({
            let m = e.command(v, now, wall, log);
            let c = e.desk.links[k].channel;
            &&& m.engine.sessions == e.sessions
            &&& m.engine.desk.links[k].channel.local_confirmed
            &&& m.engine.desk.links[k].channel.remote_confirmed == c.remote_confirmed
            &&& can_seal(c, 1) && is_short(PayloadView::PairConfirm) ==> m.result is Ok
            &&& m.result is Ok ==> m.result == Ok::<Answer, Seq<char>>(Answer::Done) && sends(
                e.desk,
                m.engine.desk,
                peer,
                PayloadView::PairConfirm,
            )
            &&& m.result is Ok && c.remote_confirmed ==> m.engine.desk.paired(peer)
            &&& !c.remote_confirmed ==> m.engine.desk.trust == e.desk.trust
        }),
{
    reveal(EngineView::command);
    reveal(EngineView::pair);
    lemma_device_ops();
    desk::lemma_link_to(e.desk.links, peer);
    let i = desk::link_to(e.desk.links, peer) as int;
    assert(i == k) by {
        if i < k {
            assert(e.desk.links[i].channel.peer != Some(peer));
        } else if k < i {
            assert(e.desk.links[k].channel.peer != Some(peer));
        }
    }
    let c = e.desk.links[k].channel;
    let id = e.desk.links[k].id;
    let d = e.desk.with_channel(k, ChannelView { local_confirmed: true, ..c });
    assert(desk::apart(d.links)) by {
        assert forall|i: int, j: int| 0 <= i < j < d.links.len() implies (#[trigger] d.links[i]).id != (
        #[trigger] d.links[j]).id by {
            assert(e.desk.links[i].id != e.desk.links[j].id);
        }
    }
    lemma_send_on(d, id, k, peer, PayloadView::PairConfirm, log);
    let sent = d.send_on(id, PayloadView::PairConfirm, log);
    let m = e.command(v, now, wall, log);
    assert(sent.desk.links[k].id == d.links[k].id);
    assert(signs::same_lines(e.desk.links, d.links));
    if sent.result is Ok {
        assert forall|i: int| 0 <= i < k implies (#[trigger] sent.desk.links[i]).channel.peer != Some(peer) by {
            assert(e.desk.links[i].channel.peer != Some(peer));
            assert(sent.desk.links[i].id == d.links[i].id);
        }
        assert(desk::apart(sent.desk.links) && sent.desk.trust == d.trust) by {
            signs::lemma_grows_same(d, sent.desk);
        }
        let t = TrustView { peer_id: peer, name: c.name, allow_remote: false };
        law_two_confirmations_pair(sent.desk, peer, k, t);
        lemma_pairing_grows(sent.desk, peer);
        reveal(signs::sends);
        if !full(m.engine.desk) {
            let j = choose|j: int|
                d.events.len() <= j < sent.desk.events.len() && signs::carries(
                    d.links,
                    #[trigger] sent.desk.events[j],
                    peer,
                    PayloadView::PairConfirm,
                );
            assert(m.engine.desk.events[j] == sent.desk.events[j]);
            signs::lemma_carries(e.desk.links, d.links, sent.desk.events[j], peer, PayloadView::PairConfirm);
        }
    } else {
        assert(sent.desk.trust == d.trust) by {
            signs::lemma_grows_same(d, sent.desk);
        }
    }
}

// ---------------------------------------------------------------- losing connections

/// Whether the session at an index is one that a lost connection to a device concerns.
pub open spec fn is_concerned(e: EngineView, peer: Seq<char>, j: int) -> bool {
    let s = e.sessions[j];
    s.phase != Phase::Done && s.phase != Phase::Cancelled && s.other(e.desk.id) == peer
}

/// Whether, on a desk on the way from one to another, the session at an index lost its connection.
pub open spec fn is_lost_at(e: EngineView, f: EngineView, m: DeskView, j: int, now: u64, log: Seq<Reply>) -> bool {
    let t = engine::lost(m, e.sessions[j], now, log);
    &&& grows(e.desk, m)
    &&& f.sessions[j] == t.session
    &&& grows(t.desk, f.desk)
}

/// Whether the session at an index has lost its connection, if that concerns it, and is as it was
/// if not.
pub open spec fn fares(
    e: EngineView,
    f: EngineView,
    peer: Seq<char>,
    from: int,
    j: int,
    now: u64,
    log: Seq<Reply>,
) -> bool {
    if j >= from && is_concerned(e, peer, j) {
        exists|m: DeskView| #[trigger] is_lost_at(e, f, m, j, now, log)
    } else {
        f.sessions[j] == e.sessions[j]
    }
}

/// Whether the sessions from an index on that a lost connection concerns have lost it, and the
/// others are as they were.
pub open spec fn lose(e: EngineView, f: EngineView, peer: Seq<char>, from: int, now: u64, log: Seq<Reply>) -> bool {
    &&& grows(e.desk, f.desk)
    &&& types_none(e.desk, f.desk)
    &&& f.sessions.len() == e.sessions.len()
    &&& forall|j: int| 0 <= j < e.sessions.len() ==> #[trigger] fares(e, f, peer, from, j, now, log)
}

/// The sessions that a lost connection concerns lose it.
pub proof fn lemma_lose(e: EngineView, peer: Seq<char>, i: nat, now: u64, log: Seq<Reply>)
    requires
        desk::apart(e.desk.links),
        i <= e.sessions.len(),
    ensures
        lose(e, e.lose_from(peer, i, now, log), peer, i as int, now, log),
    decreases e.sessions.len() - i,
{
    broadcast use signs::group_signs;

    signs::lemma_grows_itself(e.desk);
    let f = e.lose_from(peer, i, now, log);
    if i == e.sessions.len() {
        assert forall|j: int| 0 <= j < e.sessions.len() implies #[trigger] fares(e, f, peer, i as int, j, now, log) by {}
    }
    if i < e.sessions.len() {
        let s = e.sessions[i as int];
        if is_concerned(e, peer, i as int) {
            let t = engine::lost(e.desk, s, now, log);
            hearing_laws::law_a_lost_connection_pauses_the_session(e.desk, s, now, log);
            let g = e.landed(i as int, t).engine;
            lemma_lose(g, peer, i + 1, now, log);
            assert(grows(e.desk, g.desk) && grows(g.desk, f.desk));
            assert forall|j: int| 0 <= j < e.sessions.len() implies #[trigger] fares(
                e,
                f,
                peer,
                i as int,
                j,
                now,
                log,
            ) by {
                assert(fares(g, f, peer, i as int + 1, j, now, log));
                if j == i {
                    assert(f.sessions[j] == g.sessions[j]);
                    assert(is_lost_at(e, f, e.desk, j, now, log));
                } else {
                    assert(g.sessions[j] == e.sessions[j]);
                    assert(is_concerned(g, peer, j) == is_concerned(e, peer, j));
                    if j > i && is_concerned(e, peer, j) {
                        let m = choose|m: DeskView| #[trigger] is_lost_at(g, f, m, j, now, log);
                        assert(is_lost_at(e, f, m, j, now, log));
                    }
                }
            }
        } else {
            lemma_lose(e, peer, i + 1, now, log);
            assert forall|j: int| 0 <= j < e.sessions.len() implies #[trigger] fares(
                e,
                f,
                peer,
                i as int,
                j,
                now,
                log,
            ) by {
                assert(fares(e, f, peer, i as int + 1, j, now, log));
            }
        }
    }
}

/// A connection that is closed is gone, and only that; the program is told, and told that its
/// device is away, and every session with that device that is not over loses its connection.
pub proof fn law_a_closed_connection_is_gone(e: EngineView, connection: Seq<char>, k: int, now: u64, log: Seq<Reply>)
    requires
        desk::apart(e.desk.links),
        is_link(e.desk, connection, k),
    ensures
        ({
            let f = e.close(connection, now, log);
            let cut = e.at(DeskView { links: e.desk.links.remove(k), ..e.desk });
            &&& tells(cut.desk, f.desk, EventView::SocketClose { connection_id: connection })
            &&& signs::same_lines(cut.desk.links, f.desk.links)
            &&& f.desk.trust == e.desk.trust
            &&& match e.desk.links[k].channel.peer {
                Some(peer) => lose(cut, f, peer, 0, now, log) && tells_of(cut.desk, f.desk, peer, false),
                None => f.sessions == e.sessions,
            }
            &&& grows(cut.desk, f.desk)
            &&& types_none(cut.desk, f.desk)
        }),
{
    broadcast use signs::group_signs;

    reveal(EngineView::close);
    lemma_is_link(e.desk, connection, k);
    let cut = e.at(DeskView { links: e.desk.links.remove(k), ..e.desk });
    signs::lemma_grows_itself(cut.desk);
    let f = e.close(connection, now, log);
    assert(desk::apart(cut.desk.links)) by {
        assert forall|i: int, j: int| 0 <= i < j < cut.desk.links.len() implies (#[trigger] cut.desk.links[i]).id != (
        #[trigger] cut.desk.links[j]).id by {
            let a = if i < k { i } else { i + 1 };
            let b = if j < k { j } else { j + 1 };
            assert(e.desk.links[a].id != e.desk.links[b].id);
        }
    }
    let d = cut.desk.emit(EventView::SocketClose { connection_id: connection });
    match e.desk.links[k].channel.peer {
        Some(peer) => {
            lemma_tells_of(d, peer, false);
            let g = cut.at(d.peer_event(peer, false));
            lemma_lose(g, peer, 0, now, log);
            assert(grows(cut.desk, d) && grows(d, g.desk) && grows(g.desk, f.desk));
            lemma_tells_of_still(d, g.desk, f.desk, peer, false);
            assert(tells_of(cut.desk, f.desk, peer, false)) by {
                reveal(grows);
            }
            assert forall|j: int| 0 <= j < e.sessions.len() implies #[trigger] fares(cut, f, peer, 0, j, now, log) by {
                assert(fares(g, f, peer, 0, j, now, log));
                assert(is_concerned(g, peer, j) == is_concerned(cut, peer, j));
                if is_concerned(cut, peer, j) {
                    let m = choose|m: DeskView| #[trigger] is_lost_at(g, f, m, j, now, log);
                    assert(is_lost_at(cut, f, m, j, now, log));
                }
            }
        },
        None => {},
    }
    assert(grows(cut.desk, f.desk));
    assert(signs::same_lines(cut.desk.links, f.desk.links)) by {
        reveal(grows);
    }
}

/// The program says that a connection is gone, and it is closed.
pub proof fn law_a_lost_connection_is_closed(e: EngineView, v: JsonView, connection: Seq<char>, now: u64, wall: u64, log: Seq<Reply>)
    requires
        !e.desk.faulted,
        v.member("op"@) == Some(JsonView::Text("closed"@)),
        v.member("connection_id"@) == Some(JsonView::Text(connection)),
    ensures
        e.command(v, now, wall, log).engine == e.close(connection, now, log),
        e.command(v, now, wall, log).result == Ok::<Answer, Seq<char>>(Answer::Done),
{
    reveal(EngineView::command);
    lemma_device_ops();
}


} // verus!
