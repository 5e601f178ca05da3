//! What is told to the program and to other devices says what it should, word by word.
use crate::command;
use crate::config;
use crate::config::ConfigView;
use crate::crypto;
use crate::engine::EngineView;
use crate::event;
use crate::event::EventView;
use crate::ids;
use crate::journal::JournalView;
use crate::json;
use crate::json::JsonView;
use crate::orders::Answer;
use crate::outside::Reply;
use crate::protocol;
use crate::protocol::{Ack, BindingView, Mode, PayloadView, Phase, WireView};
use crate::text;
use crate::transport;
use crate::transport::{ChannelView, IdentityView};
use crate::trust;
use crate::trust::TrustView;
use crate::wire;
use vstd::prelude::*;
use vstd::utf8::*;

verus! {

// ---------------------------------------------------------------- members

/// Whether a value has a member of a name, with a value.
pub open spec fn says(j: JsonView, name: Seq<char>, value: JsonView) -> bool {
    j.member(name) == Some(value)
}

/// A member is what the first entry of its name says, and there is none where no entry has the
/// name; a string, a number and a truth value are read as what they are.
pub proof fn law_members_are_found(entries: Seq<(Seq<char>, JsonView)>, name: Seq<char>, i: int)
    ensures
        ({
            let j = JsonView::Object(entries);
            &&& 0 <= i < entries.len() && entries[i].0 == name && (forall|k: int|
                0 <= k < i ==> (#[trigger] entries[k]).0 != name) ==> says(j, name, entries[i].1)
            &&& (forall|k: int| 0 <= k < entries.len() ==> (#[trigger] entries[k]).0 != name) ==> j.member(name) is None
            &&& j.text_at(name) == (match j.member(name) {
                Some(JsonView::Text(s)) => Some(s),
                _ => None,
            })
            &&& j.number_at(name) == (match j.member(name) {
                Some(JsonView::Unsigned(n)) => Some(n),
                _ => None,
            })
            &&& j.flag_at(name) == (j.member(name) == Some(JsonView::Bool(true)))
        }),
    decreases entries.len(),
{
    json::lemma_entry(entries, name);
    if entries.len() > 0 && 0 < i < entries.len() {
        let rest = entries.drop_first();
        law_members_are_found(rest, name, i - 1);
        if entries[i].0 == name && forall|k: int| 0 <= k < i ==> (#[trigger] entries[k]).0 != name {
            assert(rest[i - 1] == entries[i]);
            assert forall|k: int| 0 <= k < i - 1 implies (#[trigger] rest[k]).0 != name by {
                assert(rest[k] == entries[k + 1]);
            }
            assert(entries[0].0 != name);
        }
    }
}

/// The value of a member of a record is the one that it was made with.
proof fn lemma_record_says(names: Seq<Seq<char>>, values: Seq<JsonView>, i: int)
    requires
        names.len() == values.len(),
        names.no_duplicates(),
        0 <= i < names.len(),
    ensures
        says(json::record(names, values), names[i], values[i]),
    decreases names.len(),
{
    let n = names.drop_last();
    let v = values.drop_last();
    let before = json::record_entries(n, v);
    json::lemma_set(before, names.last(), values.last(), names[i]);
    if i < names.len() - 1 {
        assert(n.no_duplicates());
        lemma_record_says(n, v, i);
        assert(n[i] == names[i] && v[i] == values[i]);
        assert(names[i] != names[names.len() - 1]);
    }
}

/// The value of a member of a listed object is the one that it was made with.
proof fn lemma_listed_says(names: Seq<Seq<char>>, values: Seq<JsonView>, i: int)
    requires
        names.len() == values.len(),
        names.no_duplicates(),
        0 <= i < names.len(),
    ensures
        says(json::listed(names, values), names[i], values[i]),
{
    let entries = Seq::new(names.len(), |k: int| (names[k], values[k]));
    assert(json::distinct(entries));
    json::lemma_entry_at(entries, i);
}

// ---------------------------------------------------------------- events

/// The names of members are told apart by a few marks.
proof fn lemma_keys()
    ensures
        text::mark("event"@).0 == 5 && text::mark("event"@).1 == 'e' && text::mark("event"@).2 == ' ',
        text::mark("connection_id"@).0 == 13 && text::mark("connection_id"@).1 == 'c' && text::mark("connection_id"@).2 == 'o',
        text::mark("data"@).0 == 4 && text::mark("data"@).1 == 'd' && text::mark("data"@).2 == ' ',
        text::mark("peer_id"@).0 == 7 && text::mark("peer_id"@).1 == 'p' && text::mark("peer_id"@).2 == ' ',
        text::mark("code"@).0 == 4 && text::mark("code"@).1 == 'c' && text::mark("code"@).2 == ' ',
        text::mark("name"@).0 == 4 && text::mark("name"@).1 == 'n' && text::mark("name"@).2 == ' ',
        text::mark("online"@).0 == 6 && text::mark("online"@).1 == 'o' && text::mark("online"@).2 == ' ',
        text::mark("paired"@).0 == 6 && text::mark("paired"@).1 == 'p' && text::mark("paired"@).2 == ' ',
        text::mark("allow_remote"@).0 == 12 && text::mark("allow_remote"@).1 == 'a' && text::mark("allow_remote"@).2 == 'm',
        text::mark("peers"@).0 == 5 && text::mark("peers"@).1 == 'p' && text::mark("peers"@).2 == ' ',
        text::mark("session_id"@).0 == 10 && text::mark("session_id"@).1 == 's' && text::mark("session_id"@).2 == 'i',
        text::mark("binding"@).0 == 7 && text::mark("binding"@).1 == 'b' && text::mark("binding"@).2 == ' ',
        text::mark("sequence"@).0 == 8 && text::mark("sequence"@).1 == 's' && text::mark("sequence"@).2 == ' ',
        text::mark("text"@).0 == 4 && text::mark("text"@).1 == 't' && text::mark("text"@).2 == ' ',
        text::mark("context_token"@).0 == 13 && text::mark("context_token"@).1 == 'c' && text::mark("context_token"@).2 == 't',
        text::mark("phase"@).0 == 5 && text::mark("phase"@).1 == 'p' && text::mark("phase"@).2 == ' ',
        text::mark("draft"@).0 == 5 && text::mark("draft"@).1 == 'd' && text::mark("draft"@).2 == ' ',
        text::mark("chunks"@).0 == 6 && text::mark("chunks"@).1 == 'c' && text::mark("chunks"@).2 == ' ',
        text::mark("stopped"@).0 == 7 && text::mark("stopped"@).1 == 's' && text::mark("stopped"@).2 == ' ',
        text::mark("cancelled"@).0 == 9 && text::mark("cancelled"@).1 == 'c' && text::mark("cancelled"@).2 == 'd',
        text::mark("status"@).0 == 6 && text::mark("status"@).1 == 's' && text::mark("status"@).2 == ' ',
{
    reveal_strlit("event");
    reveal_strlit("connection_id");
    reveal_strlit("data");
    reveal_strlit("peer_id");
    reveal_strlit("code");
    reveal_strlit("name");
    reveal_strlit("online");
    reveal_strlit("paired");
    reveal_strlit("allow_remote");
    reveal_strlit("peers");
    reveal_strlit("session_id");
    reveal_strlit("binding");
    reveal_strlit("sequence");
    reveal_strlit("text");
    reveal_strlit("context_token");
    reveal_strlit("phase");
    reveal_strlit("draft");
    reveal_strlit("chunks");
    reveal_strlit("stopped");
    reveal_strlit("cancelled");
    reveal_strlit("status");
}

/// The JSON of an event names the event and says, member by member, what the event says.
pub proof fn law_events_say_what_they_say(e: EventView)
    ensures
        ({
            let j = event::event_json(e);
            match e {
                EventView::SocketSend { connection_id, data } => {
                    &&& says(j, "event"@, JsonView::Text("socket_send"@))
                    &&& says(j, "connection_id"@, JsonView::Text(connection_id))
                    &&& says(j, "data"@, JsonView::Text(crypto::b64_text(data)))
                },
                EventView::SocketClose { connection_id } => {
                    &&& says(j, "event"@, JsonView::Text("socket_close"@))
                    &&& says(j, "connection_id"@, JsonView::Text(connection_id))
                },
                EventView::SecureChannel { peer_id, code } => {
                    &&& says(j, "event"@, JsonView::Text("secure_channel"@))
                    &&& says(j, "peer_id"@, JsonView::Text(peer_id))
                    &&& says(j, "code"@, JsonView::Text(code))
                },
                EventView::Peer { peer_id, name, online, paired, allow_remote, code } => {
                    &&& says(j, "event"@, JsonView::Text("peer"@))
                    &&& says(j, "peer_id"@, JsonView::Text(peer_id))
                    &&& says(j, "name"@, JsonView::Text(name))
                    &&& says(j, "online"@, JsonView::Bool(online))
                    &&& says(j, "paired"@, JsonView::Bool(paired))
                    &&& says(j, "allow_remote"@, JsonView::Bool(allow_remote))
                    &&& says(j, "code"@, JsonView::Text(code))
                },
                EventView::PairRequested { peer_id, code, name } => {
                    &&& says(j, "event"@, JsonView::Text("pair_requested"@))
                    &&& says(j, "peer_id"@, JsonView::Text(peer_id))
                    &&& says(j, "code"@, JsonView::Text(code))
                    &&& says(j, "name"@, JsonView::Text(name))
                },
                EventView::TrustChanged { peers } => {
                    &&& says(j, "event"@, JsonView::Text("trust_changed"@))
                    &&& says(j, "peers"@, event::trusts_json(peers))
                },
                EventView::BindTarget { session_id } => {
                    &&& says(j, "event"@, JsonView::Text("bind_target"@))
                    &&& says(j, "session_id"@, JsonView::Text(ids::id_text(session_id)))
                },
                EventView::PrepareInput { binding } => {
                    &&& says(j, "event"@, JsonView::Text("prepare_input"@))
                    &&& says(j, "binding"@, event::binding_json(binding))
                },
                EventView::StopInput { session_id } => {
                    &&& says(j, "event"@, JsonView::Text("stop_input"@))
                    &&& says(j, "session_id"@, JsonView::Text(ids::id_text(session_id)))
                },
                EventView::CancelInput { session_id } => {
                    &&& says(j, "event"@, JsonView::Text("cancel_input"@))
                    &&& says(j, "session_id"@, JsonView::Text(ids::id_text(session_id)))
                },
                EventView::AbortInput { session_id } => {
                    &&& says(j, "event"@, JsonView::Text("abort_input"@))
                    &&& says(j, "session_id"@, JsonView::Text(ids::id_text(session_id)))
                },
                EventView::Inject { session_id, sequence, text, context_token } => {
                    &&& says(j, "event"@, JsonView::Text("inject"@))
                    &&& says(j, "session_id"@, JsonView::Text(ids::id_text(session_id)))
                    &&& says(j, "sequence"@, JsonView::Unsigned(sequence))
                    &&& says(j, "text"@, JsonView::Text(text))
                    &&& says(j, "context_token"@, JsonView::Text(context_token))
                },
                EventView::Session { binding, phase, draft, chunks, stopped, cancelled } => {
                    &&& says(j, "event"@, JsonView::Text("session"@))
                    &&& says(j, "binding"@, event::binding_json(binding))
                    &&& says(j, "phase"@, JsonView::Text(protocol::phase_name(phase)))
                    &&& says(j, "draft"@, JsonView::Text(draft))
                    &&& says(j, "chunks"@, event::noteds_json(chunks))
                    &&& says(j, "stopped"@, JsonView::Bool(stopped))
                    &&& says(j, "cancelled"@, JsonView::Bool(cancelled))
                },
                EventView::RecoveryCleared { session_id } => {
                    &&& says(j, "event"@, JsonView::Text("recovery_cleared"@))
                    &&& says(j, "session_id"@, JsonView::Text(ids::id_text(session_id)))
                },
                EventView::Error { session_id, code } => {
                    &&& says(j, "event"@, JsonView::Text("error"@))
                    &&& says(j, "session_id"@, wire::maybe_id_json(session_id))
                    &&& says(j, "code"@, JsonView::Text(code))
                },
                EventView::Fatal { code } => {
                    &&& says(j, "event"@, JsonView::Text("fatal"@))
                    &&& says(j, "code"@, JsonView::Text(code))
                },
            }
        }),
{
    lemma_keys();
    match e {
        EventView::SocketSend { connection_id, data } => {
            let names = seq!["event"@, "connection_id"@, "data"@];
            let values = seq![JsonView::Text("socket_send"@), JsonView::Text(connection_id), JsonView::Text(crypto::b64_text(data))];
            assert(names.no_duplicates());
            lemma_record_says(names, values, 0);
            lemma_record_says(names, values, 1);
            lemma_record_says(names, values, 2);
        },
        EventView::SocketClose { connection_id } => {
            let names = seq!["event"@, "connection_id"@];
            let values = seq![JsonView::Text("socket_close"@), JsonView::Text(connection_id)];
            assert(names.no_duplicates());
            lemma_record_says(names, values, 0);
            lemma_record_says(names, values, 1);
        },
        EventView::SecureChannel { peer_id, code } => {
            let names = seq!["event"@, "peer_id"@, "code"@];
            let values = seq![JsonView::Text("secure_channel"@), JsonView::Text(peer_id), JsonView::Text(code)];
            assert(names.no_duplicates());
            lemma_record_says(names, values, 0);
            lemma_record_says(names, values, 1);
            lemma_record_says(names, values, 2);
        },
        EventView::Peer { peer_id, name, online, paired, allow_remote, code } => {
            let names = seq!["event"@, "peer_id"@, "name"@, "online"@, "paired"@, "allow_remote"@, "code"@];
            let values = seq![JsonView::Text("peer"@), JsonView::Text(peer_id), JsonView::Text(name), JsonView::Bool(online), JsonView::Bool(paired), JsonView::Bool(allow_remote), JsonView::Text(code)];
            assert(names.no_duplicates());
            lemma_record_says(names, values, 0);
            lemma_record_says(names, values, 1);
            lemma_record_says(names, values, 2);
            lemma_record_says(names, values, 3);
            lemma_record_says(names, values, 4);
            lemma_record_says(names, values, 5);
            lemma_record_says(names, values, 6);
        },
        EventView::PairRequested { peer_id, code, name } => {
            let names = seq!["event"@, "peer_id"@, "code"@, "name"@];
            let values = seq![JsonView::Text("pair_requested"@), JsonView::Text(peer_id), JsonView::Text(code), JsonView::Text(name)];
            assert(names.no_duplicates());
            lemma_record_says(names, values, 0);
            lemma_record_says(names, values, 1);
            lemma_record_says(names, values, 2);
            lemma_record_says(names, values, 3);
        },
        EventView::TrustChanged { peers } => {
            let names = seq!["event"@, "peers"@];
            let values = seq![JsonView::Text("trust_changed"@), event::trusts_json(peers)];
            assert(names.no_duplicates());
            lemma_record_says(names, values, 0);
            lemma_record_says(names, values, 1);
        },
        EventView::BindTarget { session_id } => {
            let names = seq!["event"@, "session_id"@];
            let values = seq![JsonView::Text("bind_target"@), JsonView::Text(ids::id_text(session_id))];
            assert(names.no_duplicates());
            lemma_record_says(names, values, 0);
            lemma_record_says(names, values, 1);
        },
        EventView::PrepareInput { binding } => {
            let names = seq!["event"@, "binding"@];
            let values = seq![JsonView::Text("prepare_input"@), event::binding_json(binding)];
            assert(names.no_duplicates());
            lemma_record_says(names, values, 0);
            lemma_record_says(names, values, 1);
        },
        EventView::StopInput { session_id } => {
            let names = seq!["event"@, "session_id"@];
            let values = seq![JsonView::Text("stop_input"@), JsonView::Text(ids::id_text(session_id))];
            assert(names.no_duplicates());
            lemma_record_says(names, values, 0);
            lemma_record_says(names, values, 1);
        },
        EventView::CancelInput { session_id } => {
            let names = seq!["event"@, "session_id"@];
            let values = seq![JsonView::Text("cancel_input"@), JsonView::Text(ids::id_text(session_id))];
            assert(names.no_duplicates());
            lemma_record_says(names, values, 0);
            lemma_record_says(names, values, 1);
        },
        EventView::AbortInput { session_id } => {
            let names = seq!["event"@, "session_id"@];
            let values = seq![JsonView::Text("abort_input"@), JsonView::Text(ids::id_text(session_id))];
            assert(names.no_duplicates());
            lemma_record_says(names, values, 0);
            lemma_record_says(names, values, 1);
        },
        EventView::Inject { session_id, sequence, text, context_token } => {
            let names = seq!["event"@, "session_id"@, "sequence"@, "text"@, "context_token"@];
            let values = seq![JsonView::Text("inject"@), JsonView::Text(ids::id_text(session_id)), JsonView::Unsigned(sequence), JsonView::Text(text), JsonView::Text(context_token)];
            assert(names.no_duplicates());
            lemma_record_says(names, values, 0);
            lemma_record_says(names, values, 1);
            lemma_record_says(names, values, 2);
            lemma_record_says(names, values, 3);
            lemma_record_says(names, values, 4);
        },
        EventView::Session { binding, phase, draft, chunks, stopped, cancelled } => {
            let names = seq!["event"@, "binding"@, "phase"@, "draft"@, "chunks"@, "stopped"@, "cancelled"@];
            let values = seq![JsonView::Text("session"@), event::binding_json(binding), JsonView::Text(protocol::phase_name(phase)), JsonView::Text(draft), event::noteds_json(chunks), JsonView::Bool(stopped), JsonView::Bool(cancelled)];
            assert(names.no_duplicates());
            lemma_record_says(names, values, 0);
            lemma_record_says(names, values, 1);
            lemma_record_says(names, values, 2);
            lemma_record_says(names, values, 3);
            lemma_record_says(names, values, 4);
            lemma_record_says(names, values, 5);
            lemma_record_says(names, values, 6);
        },
        EventView::RecoveryCleared { session_id } => {
            let names = seq!["event"@, "session_id"@];
            let values = seq![JsonView::Text("recovery_cleared"@), JsonView::Text(ids::id_text(session_id))];
            assert(names.no_duplicates());
            lemma_record_says(names, values, 0);
            lemma_record_says(names, values, 1);
        },
        EventView::Error { session_id, code } => {
            let names = seq!["event"@, "session_id"@, "code"@];
            let values = seq![JsonView::Text("error"@), wire::maybe_id_json(session_id), JsonView::Text(code)];
            assert(names.no_duplicates());
            lemma_record_says(names, values, 0);
            lemma_record_says(names, values, 1);
            lemma_record_says(names, values, 2);
        },
        EventView::Fatal { code } => {
            let names = seq!["event"@, "code"@];
            let values = seq![JsonView::Text("fatal"@), JsonView::Text(code)];
            assert(names.no_duplicates());
            lemma_record_says(names, values, 0);
            lemma_record_says(names, values, 1);
        },
    }
}

/// The JSON of a binding, of a paired device and of a piece says, member by member, what they
/// hold; lists say it of each in its turn.
pub proof fn law_parts_of_events_say_what_they_hold(
    b: BindingView,
    t: TrustView,
    n: event::NotedView,
    devices: Seq<TrustView>,
    pieces: Seq<event::NotedView>,
    i: int,
)
    ensures
        says(event::binding_json(b), "session_id"@, JsonView::Text(ids::id_text(b.session_id))),
        says(event::binding_json(b), "source_device_id"@, JsonView::Text(b.source_device_id)),
        says(event::binding_json(b), "target_device_id"@, JsonView::Text(b.target_device_id)),
        says(event::binding_json(b), "controller_device_id"@, JsonView::Text(b.controller_device_id)),
        says(event::binding_json(b), "input_mode"@, JsonView::Text(protocol::mode_name(b.input_mode))),
        says(event::binding_json(b), "context_token"@, JsonView::Text(b.context_token)),
        says(event::binding_json(b), "target_app"@, JsonView::Text(b.target_app)),
        says(event::binding_json(b), "created_ms"@, JsonView::Unsigned(b.created_ms)),
        says(event::trust_json(t), "peer_id"@, JsonView::Text(t.peer_id)),
        says(event::trust_json(t), "name"@, JsonView::Text(t.name)),
        says(event::trust_json(t), "allow_remote"@, JsonView::Bool(t.allow_remote)),
        says(event::noted_json(n), "sequence"@, JsonView::Unsigned(n.sequence)),
        says(event::noted_json(n), "text"@, JsonView::Text(n.text)),
        says(event::noted_json(n), "status"@, JsonView::Text(protocol::ack_name(n.status))),
        event::trusts_json(devices) matches JsonView::List(list) && list.len() == devices.len() && (0 <= i
            < devices.len() ==> list[i] == event::trust_json(devices[i])),
        event::noteds_json(pieces) matches JsonView::List(list) && list.len() == pieces.len() && (0 <= i < pieces.len()
            ==> list[i] == event::noted_json(pieces[i])),
{
    lemma_keys();
    wire::lemma_binding_names();
    let bn = wire::binding_names();
    let bv = wire::binding_values(b);
    lemma_record_says(bn, bv, 0);
    lemma_record_says(bn, bv, 1);
    lemma_record_says(bn, bv, 2);
    lemma_record_says(bn, bv, 3);
    lemma_record_says(bn, bv, 4);
    lemma_record_says(bn, bv, 5);
    lemma_record_says(bn, bv, 6);
    lemma_record_says(bn, bv, 7);
    let tn = seq!["peer_id"@, "name"@, "allow_remote"@];
    let tv = seq![JsonView::Text(t.peer_id), JsonView::Text(t.name), JsonView::Bool(t.allow_remote)];
    assert(tn.no_duplicates());
    lemma_record_says(tn, tv, 0);
    lemma_record_says(tn, tv, 1);
    lemma_record_says(tn, tv, 2);
    let nn = seq!["sequence"@, "text"@, "status"@];
    let nv = seq![
        JsonView::Unsigned(n.sequence),
        JsonView::Text(n.text),
        JsonView::Text(protocol::ack_name(n.status)),
    ];
    assert(nn.no_duplicates());
    lemma_record_says(nn, nv, 0);
    lemma_record_says(nn, nv, 1);
    lemma_record_says(nn, nv, 2);
}

/// The events that wait are given out each as its own text, in their order.
pub proof fn law_events_are_given_out_in_order(events: Seq<EventView>, i: int)
    ensures
        crate::event_texts(events).len() == events.len(),
        0 <= i < events.len() ==> crate::event_texts(events)[i] == json::json_text(event::event_json(events[i])),
{
}

/// What is known, where a session stands and how the source hears are named as the protocol names
/// them.
pub proof fn law_names_are_those_of_the_protocol()
    ensures
        protocol::ack_name(Ack::Received) == "received"@,
        protocol::ack_name(Ack::Applied) == "applied"@,
        protocol::ack_name(Ack::NotApplied) == "not_applied"@,
        protocol::ack_name(Ack::Unknown) == "unknown"@,
        protocol::mode_name(Mode::AppleLocal) == "apple_local"@,
        protocol::mode_name(Mode::DoubaoIme) == "doubao_ime"@,
        protocol::phase_name(Phase::Preparing) == "preparing"@,
        protocol::phase_name(Phase::Ready) == "ready"@,
        protocol::phase_name(Phase::Listening) == "listening"@,
        protocol::phase_name(Phase::Finalizing) == "finalizing"@,
        protocol::phase_name(Phase::AwaitingConfirmation) == "awaiting_confirmation"@,
        protocol::phase_name(Phase::Committing) == "committing"@,
        protocol::phase_name(Phase::Paused) == "paused"@,
        protocol::phase_name(Phase::Unknown) == "unknown"@,
        protocol::phase_name(Phase::Done) == "done"@,
        protocol::phase_name(Phase::Cancelled) == "cancelled"@,
        protocol::phase_name(Phase::StopFailed) == "stop_failed"@,
{
}

// ---------------------------------------------------------------- messages

/// The JSON of a message names its kind and says, member by member, what the message says.
pub proof fn law_messages_say_what_they_say(p: PayloadView)
    ensures
        ({
            let j = wire::payload_json(p);
            match p {
                PayloadView::Hello { device_id, name } => {
                    &&& says(j, "message_type"@, JsonView::Text("hello"@))
                    &&& says(j, "device_id"@, JsonView::Text(device_id))
                    &&& says(j, "name"@, JsonView::Text(name))
                },
                PayloadView::PairConfirm => {
                    &&& says(j, "message_type"@, JsonView::Text("pair_confirm"@))
                },
                PayloadView::BindRequest { binding } => {
                    &&& says(j, "message_type"@, JsonView::Text("bind_request"@))
                    &&& says(j, "binding"@, wire::binding_json(binding))
                },
                PayloadView::SessionBound { binding } => {
                    &&& says(j, "message_type"@, JsonView::Text("session_bound"@))
                    &&& says(j, "binding"@, wire::binding_json(binding))
                },
                PayloadView::SessionStart { binding } => {
                    &&& says(j, "message_type"@, JsonView::Text("session_start"@))
                    &&& says(j, "binding"@, wire::binding_json(binding))
                },
                PayloadView::SessionReady { session_id } => {
                    &&& says(j, "message_type"@, JsonView::Text("session_ready"@))
                    &&& says(j, "session_id"@, JsonView::Text(ids::id_text(session_id)))
                },
                PayloadView::SessionState { session_id, phase } => {
                    &&& says(j, "message_type"@, JsonView::Text("session_state"@))
                    &&& says(j, "session_id"@, JsonView::Text(ids::id_text(session_id)))
                    &&& says(j, "phase"@, JsonView::Text(protocol::phase_name(phase)))
                },
                PayloadView::SessionKeepalive { session_id } => {
                    &&& says(j, "message_type"@, JsonView::Text("session_keepalive"@))
                    &&& says(j, "session_id"@, JsonView::Text(ids::id_text(session_id)))
                },
                PayloadView::SessionStop { session_id } => {
                    &&& says(j, "message_type"@, JsonView::Text("session_stop"@))
                    &&& says(j, "session_id"@, JsonView::Text(ids::id_text(session_id)))
                },
                PayloadView::SessionCancel { session_id } => {
                    &&& says(j, "message_type"@, JsonView::Text("session_cancel"@))
                    &&& says(j, "session_id"@, JsonView::Text(ids::id_text(session_id)))
                },
                PayloadView::TextChunk { session_id, sequence, context_token, text, is_final } => {
                    &&& says(j, "message_type"@, JsonView::Text("text_chunk"@))
                    &&& says(j, "session_id"@, JsonView::Text(ids::id_text(session_id)))
                    &&& says(j, "sequence"@, JsonView::Unsigned(sequence))
                    &&& says(j, "context_token"@, JsonView::Text(context_token))
                    &&& says(j, "text"@, JsonView::Text(text))
                    &&& says(j, "is_final"@, JsonView::Bool(is_final))
                },
                PayloadView::ChunkAck { session_id, sequence, ack_status } => {
                    &&& says(j, "message_type"@, JsonView::Text("chunk_ack"@))
                    &&& says(j, "session_id"@, JsonView::Text(ids::id_text(session_id)))
                    &&& says(j, "sequence"@, JsonView::Unsigned(sequence))
                    &&& says(j, "ack_status"@, JsonView::Text(protocol::ack_name(ack_status)))
                },
                PayloadView::ChunkQuery { session_id, sequence } => {
                    &&& says(j, "message_type"@, JsonView::Text("chunk_query"@))
                    &&& says(j, "session_id"@, JsonView::Text(ids::id_text(session_id)))
                    &&& says(j, "sequence"@, JsonView::Unsigned(sequence))
                },
                PayloadView::SessionEnd { session_id, last_sequence } => {
                    &&& says(j, "message_type"@, JsonView::Text("session_end"@))
                    &&& says(j, "session_id"@, JsonView::Text(ids::id_text(session_id)))
                    &&& says(j, "last_sequence"@, JsonView::Unsigned(last_sequence))
                },
                PayloadView::SessionPause { session_id } => {
                    &&& says(j, "message_type"@, JsonView::Text("session_pause"@))
                    &&& says(j, "session_id"@, JsonView::Text(ids::id_text(session_id)))
                },
                PayloadView::SessionResume { session_id, context_token, target_app } => {
                    &&& says(j, "message_type"@, JsonView::Text("session_resume"@))
                    &&& says(j, "session_id"@, JsonView::Text(ids::id_text(session_id)))
                    &&& says(j, "context_token"@, JsonView::Text(context_token))
                    &&& says(j, "target_app"@, JsonView::Text(target_app))
                },
                PayloadView::Error { session_id, code } => {
                    &&& says(j, "message_type"@, JsonView::Text("error"@))
                    &&& says(j, "session_id"@, wire::maybe_id_json(session_id))
                    &&& says(j, "code"@, JsonView::Text(code))
                },
            }
        }),
{
    match p {
        PayloadView::Hello { device_id, name } => {
            let values = seq![JsonView::Text("hello"@), JsonView::Text(device_id), JsonView::Text(name)];
            wire::lemma_hello_names();
            lemma_listed_says(wire::hello_names(), values, 0);
            lemma_listed_says(wire::hello_names(), values, 1);
            lemma_listed_says(wire::hello_names(), values, 2);
        },
        PayloadView::PairConfirm => {
            let values = seq![JsonView::Text("pair_confirm"@)];
            wire::lemma_pair_confirm_names();
            lemma_listed_says(wire::pair_confirm_names(), values, 0);
        },
        PayloadView::BindRequest { binding } => {
            let values = seq![JsonView::Text("bind_request"@), wire::binding_json(binding)];
            wire::lemma_bind_request_names();
            lemma_listed_says(wire::bind_request_names(), values, 0);
            lemma_listed_says(wire::bind_request_names(), values, 1);
        },
        PayloadView::SessionBound { binding } => {
            let values = seq![JsonView::Text("session_bound"@), wire::binding_json(binding)];
            wire::lemma_session_bound_names();
            lemma_listed_says(wire::session_bound_names(), values, 0);
            lemma_listed_says(wire::session_bound_names(), values, 1);
        },
        PayloadView::SessionStart { binding } => {
            let values = seq![JsonView::Text("session_start"@), wire::binding_json(binding)];
            wire::lemma_session_start_names();
            lemma_listed_says(wire::session_start_names(), values, 0);
            lemma_listed_says(wire::session_start_names(), values, 1);
        },
        PayloadView::SessionReady { session_id } => {
            let values = seq![JsonView::Text("session_ready"@), JsonView::Text(ids::id_text(session_id))];
            wire::lemma_session_ready_names();
            lemma_listed_says(wire::session_ready_names(), values, 0);
            lemma_listed_says(wire::session_ready_names(), values, 1);
        },
        PayloadView::SessionState { session_id, phase } => {
            let values = seq![JsonView::Text("session_state"@), JsonView::Text(ids::id_text(session_id)), JsonView::Text(protocol::phase_name(phase))];
            wire::lemma_session_state_names();
            lemma_listed_says(wire::session_state_names(), values, 0);
            lemma_listed_says(wire::session_state_names(), values, 1);
            lemma_listed_says(wire::session_state_names(), values, 2);
        },
        PayloadView::SessionKeepalive { session_id } => {
            let values = seq![JsonView::Text("session_keepalive"@), JsonView::Text(ids::id_text(session_id))];
            wire::lemma_session_keepalive_names();
            lemma_listed_says(wire::session_keepalive_names(), values, 0);
            lemma_listed_says(wire::session_keepalive_names(), values, 1);
        },
        PayloadView::SessionStop { session_id } => {
            let values = seq![JsonView::Text("session_stop"@), JsonView::Text(ids::id_text(session_id))];
            wire::lemma_session_stop_names();
            lemma_listed_says(wire::session_stop_names(), values, 0);
            lemma_listed_says(wire::session_stop_names(), values, 1);
        },
        PayloadView::SessionCancel { session_id } => {
            let values = seq![JsonView::Text("session_cancel"@), JsonView::Text(ids::id_text(session_id))];
            wire::lemma_session_cancel_names();
            lemma_listed_says(wire::session_cancel_names(), values, 0);
            lemma_listed_says(wire::session_cancel_names(), values, 1);
        },
        PayloadView::TextChunk { session_id, sequence, context_token, text, is_final } => {
            let values = seq![JsonView::Text("text_chunk"@), JsonView::Text(ids::id_text(session_id)), JsonView::Unsigned(sequence), JsonView::Text(context_token), JsonView::Text(text), JsonView::Bool(is_final)];
            wire::lemma_text_chunk_names();
            lemma_listed_says(wire::text_chunk_names(), values, 0);
            lemma_listed_says(wire::text_chunk_names(), values, 1);
            lemma_listed_says(wire::text_chunk_names(), values, 2);
            lemma_listed_says(wire::text_chunk_names(), values, 3);
            lemma_listed_says(wire::text_chunk_names(), values, 4);
            lemma_listed_says(wire::text_chunk_names(), values, 5);
        },
        PayloadView::ChunkAck { session_id, sequence, ack_status } => {
            let values = seq![JsonView::Text("chunk_ack"@), JsonView::Text(ids::id_text(session_id)), JsonView::Unsigned(sequence), JsonView::Text(protocol::ack_name(ack_status))];
            wire::lemma_chunk_ack_names();
            lemma_listed_says(wire::chunk_ack_names(), values, 0);
            lemma_listed_says(wire::chunk_ack_names(), values, 1);
            lemma_listed_says(wire::chunk_ack_names(), values, 2);
            lemma_listed_says(wire::chunk_ack_names(), values, 3);
        },
        PayloadView::ChunkQuery { session_id, sequence } => {
            let values = seq![JsonView::Text("chunk_query"@), JsonView::Text(ids::id_text(session_id)), JsonView::Unsigned(sequence)];
            wire::lemma_chunk_query_names();
            lemma_listed_says(wire::chunk_query_names(), values, 0);
            lemma_listed_says(wire::chunk_query_names(), values, 1);
            lemma_listed_says(wire::chunk_query_names(), values, 2);
        },
        PayloadView::SessionEnd { session_id, last_sequence } => {
            let values = seq![JsonView::Text("session_end"@), JsonView::Text(ids::id_text(session_id)), JsonView::Unsigned(last_sequence)];
            wire::lemma_session_end_names();
            lemma_listed_says(wire::session_end_names(), values, 0);
            lemma_listed_says(wire::session_end_names(), values, 1);
            lemma_listed_says(wire::session_end_names(), values, 2);
        },
        PayloadView::SessionPause { session_id } => {
            let values = seq![JsonView::Text("session_pause"@), JsonView::Text(ids::id_text(session_id))];
            wire::lemma_session_pause_names();
            lemma_listed_says(wire::session_pause_names(), values, 0);
            lemma_listed_says(wire::session_pause_names(), values, 1);
        },
        PayloadView::SessionResume { session_id, context_token, target_app } => {
            let values = seq![JsonView::Text("session_resume"@), JsonView::Text(ids::id_text(session_id)), JsonView::Text(context_token), JsonView::Text(target_app)];
            wire::lemma_session_resume_names();
            lemma_listed_says(wire::session_resume_names(), values, 0);
            lemma_listed_says(wire::session_resume_names(), values, 1);
            lemma_listed_says(wire::session_resume_names(), values, 2);
            lemma_listed_says(wire::session_resume_names(), values, 3);
        },
        PayloadView::Error { session_id, code } => {
            let values = seq![JsonView::Text("error"@), wire::maybe_id_json(session_id), JsonView::Text(code)];
            wire::lemma_error_names();
            lemma_listed_says(wire::error_names(), values, 0);
            lemma_listed_says(wire::error_names(), values, 1);
            lemma_listed_says(wire::error_names(), values, 2);
        },
    }
}

/// What goes on the wire is a JSON text with the version, the identifier and the message, and it
/// is read as what it is; the binding in a message says what it holds.
pub proof fn law_the_wire_says_what_it_carries(x: WireView, b: BindingView)
    ensures
        wire::wire_bytes(x) == encode_utf8(json::json_text(wire::wire_json(x))),
        says(wire::wire_json(x), "protocol_version"@, JsonView::Unsigned(x.protocol_version as u64)),
        says(wire::wire_json(x), "request_id"@, JsonView::Text(ids::id_text(x.request_id))),
        says(wire::wire_json(x), "payload"@, wire::payload_json(x.payload)),
        wire::payload_read_back(x.payload) && ids::id_parsed(ids::id_text(x.request_id)) == Some(x.request_id)
            ==> wire::wire_of(wire::wire_json(x)) == Some(x),
        says(wire::binding_json(b), "session_id"@, JsonView::Text(ids::id_text(b.session_id))),
        says(wire::binding_json(b), "source_device_id"@, JsonView::Text(b.source_device_id)),
        says(wire::binding_json(b), "target_device_id"@, JsonView::Text(b.target_device_id)),
        says(wire::binding_json(b), "controller_device_id"@, JsonView::Text(b.controller_device_id)),
        says(wire::binding_json(b), "input_mode"@, JsonView::Text(protocol::mode_name(b.input_mode))),
        says(wire::binding_json(b), "context_token"@, JsonView::Text(b.context_token)),
        says(wire::binding_json(b), "target_app"@, JsonView::Text(b.target_app)),
        says(wire::binding_json(b), "created_ms"@, JsonView::Unsigned(b.created_ms)),
        wire::maybe_id_json(None) == JsonView::Null,
        wire::maybe_id_json(Some(x.request_id)) == JsonView::Text(ids::id_text(x.request_id)),
{
    let values = seq![
        JsonView::Unsigned(x.protocol_version as u64),
        JsonView::Text(ids::id_text(x.request_id)),
        wire::payload_json(x.payload),
    ];
    wire::lemma_wire_names();
    lemma_listed_says(wire::wire_names(), values, 0);
    lemma_listed_says(wire::wire_names(), values, 1);
    lemma_listed_says(wire::wire_names(), values, 2);
    wire::lemma_binding_names();
    lemma_listed_says(wire::binding_names(), wire::binding_values(b), 0);
    lemma_listed_says(wire::binding_names(), wire::binding_values(b), 1);
    lemma_listed_says(wire::binding_names(), wire::binding_values(b), 2);
    lemma_listed_says(wire::binding_names(), wire::binding_values(b), 3);
    lemma_listed_says(wire::binding_names(), wire::binding_values(b), 4);
    lemma_listed_says(wire::binding_names(), wire::binding_values(b), 5);
    lemma_listed_says(wire::binding_names(), wire::binding_values(b), 6);
    lemma_listed_says(wire::binding_names(), wire::binding_values(b), 7);
    if wire::payload_read_back(x.payload) && ids::id_parsed(ids::id_text(x.request_id)) == Some(x.request_id) {
        wire::lemma_wire(x);
    }
}

/// Bytes are taken for a message only if they are not too many, are read as one, name no member
/// twice where it matters, and are of this version with an identifier of their own.
pub proof fn law_only_sound_messages_are_taken(bytes: Seq<u8>, w: WireView)
    ensures
        wire::wire_decoded(bytes) == Ok::<WireView, Seq<char>>(w) <==> {
            &&& bytes.len() <= 61408
            &&& json::parsed(bytes) is Some
            &&& wire::wire_of(json::parsed(bytes)->0) == Some(w)
            &&& crate::once::read_once(bytes) is Some || (w.payload is PairConfirm && crate::once::named_once(
                bytes,
                json::parsed(bytes)->0,
                "message_type"@,
            ))
            &&& w.protocol_version == 1
            &&& w.request_id != 0
        },
        bytes.len() > 61408 ==> wire::wire_decoded(bytes) == Err::<WireView, Seq<char>>("message_too_large"@),
{
}

// ---------------------------------------------------------------- answers

/// A command that is carried out is answered with what it came to.
pub proof fn law_answers_say_what_was_done(id: u128, allowed: bool)
    ensures
        says(command::answer_json(Answer::Done), "ok"@, JsonView::Bool(true)),
        says(command::answer_json(Answer::Begun(id)), "session_id"@, JsonView::Text(ids::id_text(id))),
        says(command::answer_json(Answer::Allowed(allowed)), "allowed"@, JsonView::Bool(allowed)),
{
    assert(seq!["ok"@].no_duplicates());
    assert(seq!["session_id"@].no_duplicates());
    assert(seq!["allowed"@].no_duplicates());
    lemma_record_says(seq!["ok"@], seq![JsonView::Bool(true)], 0);
    lemma_record_says(seq!["session_id"@], seq![JsonView::Text(ids::id_text(id))], 0);
    lemma_record_says(seq!["allowed"@], seq![JsonView::Bool(allowed)], 0);
}

/// The text of a command is carried out as the JSON object that it is, and answered with the text
/// of the answer; one that is too long, or no object, changes nothing.
pub proof fn law_commands_are_carried_out(
    e: EngineView,
    said: Seq<char>,
    members: Seq<(Seq<char>, JsonView)>,
    now: u64,
    wall: u64,
    log: Seq<Reply>,
)
    ensures
        ({
            let m = e.dispatch(said, now, wall, log);
            let v = JsonView::Object(members);
            let c = e.command(crate::normalized(v), now, wall, log);
            let parsed = json::parsed(encode_utf8(said));
            &&& encode_utf8(said).len() > 200000 ==> m == e.refused::<Seq<char>>("command_limit"@)
            &&& encode_utf8(said).len() <= 200000 && !(parsed is Some && parsed->0 is Object) ==> m == e.refused::<
                Seq<char>,
            >("invalid_command"@)
            &&& encode_utf8(said).len() <= 200000 && parsed == Some(v) ==> {
                &&& m.engine == c.engine.enforce_event_limit()
                &&& c.result matches Ok(a) ==> m.result == Ok::<Seq<char>, Seq<char>>(
                    json::json_text(command::answer_json(a)),
                )
                &&& c.result matches Err(code) ==> m.result == Err::<Seq<char>, Seq<char>>(code)
            }
        }),
{
}

/// A refusal changes nothing and is answered with its code, a device that did not lose events
/// goes on as it is, and what is left as it is is well.
pub proof fn law_refusals_change_nothing(e: EngineView, code: Seq<char>)
    ensures
        e.refused::<Answer>(code).engine == e,
        e.refused::<Answer>(code).result == Err::<Answer, Seq<char>>(code),
        e.refused::<()>(code).engine == e,
        e.refused::<()>(code).result == Err::<(), Seq<char>>(code),
        e.kept().engine == e,
        e.kept().result is Ok,
        !e.desk.faulted ==> e.enforce_event_limit() == e,
{
}

// ---------------------------------------------------------------- who is who

/// Of two devices the other one is the one at the other end.
pub proof fn law_the_other_device(s: crate::session::SessionView, local: Seq<char>)
    ensures
        s.binding.source_device_id == local ==> s.other(local) == s.binding.target_device_id,
        s.binding.source_device_id != local ==> s.other(local) == s.binding.source_device_id,
{
}

/// A binding is acceptable just when it has a session, is between devices that can be, its names
/// are not too long, and it is of this minute.
pub proof fn law_which_bindings_are_acceptable(b: BindingView, now: u64)
    ensures
        protocol::binding_ok(b, now) <==> {
            &&& b.session_id != 0
            &&& protocol::is_valid_id(b.source_device_id)
            &&& protocol::is_valid_id(b.target_device_id)
            &&& protocol::is_valid_id(b.controller_device_id)
            &&& encode_utf8(b.target_app).len() <= 256
            &&& encode_utf8(b.context_token).len() <= 128
            &&& -60000 <= now - b.created_ms <= 60000
        },
{
}

/// The identifier of a device has sixty-four bytes, each a hexadecimal digit.
pub proof fn law_what_an_identifier_is(id: Seq<char>)
    ensures
        protocol::is_valid_id(id) <==> encode_utf8(id).len() == 64 && forall|i: int|
            0 <= i < 64 ==> is_hex_digit(#[trigger] encode_utf8(id)[i]),
{
    if protocol::is_valid_id(id) {
        assert forall|i: int| 0 <= i < 64 implies is_hex_digit(#[trigger] encode_utf8(id)[i]) by {
            assert(protocol::hexadecimal(encode_utf8(id)[i]));
        }
    }
    if encode_utf8(id).len() == 64 && forall|i: int| 0 <= i < 64 ==> is_hex_digit(#[trigger] encode_utf8(id)[i]) {
        assert forall|i: int| 0 <= i < 64 implies protocol::hexadecimal(#[trigger] encode_utf8(id)[i]) by {
            assert(is_hex_digit(encode_utf8(id)[i]));
        }
    }
}

/// Whether a byte is the character of a hexadecimal digit.
pub open spec fn is_hex_digit(b: u8) -> bool {
    ('0' as u32 <= b as u32 && b as u32 <= '9' as u32) || ('a' as u32 <= b as u32 && b as u32 <= 'f' as u32) || ('A'
        as u32 <= b as u32 && b as u32 <= 'F' as u32)
}

/// A device is known by the digest of its public key, in hexadecimal digits, two for each byte;
/// its private key is the one that its public key belongs to.
pub proof fn law_a_device_is_its_key(i: IdentityView, k: int)
    ensures
        ({
            let public = crypto::b64_bytes(i.public_key);
            let private = crypto::b64_bytes(i.private_key);
            let digest = crypto::sha256_of(public->0);
            &&& public is None ==> i.id() == Err::<Seq<char>, Seq<char>>("invalid_identity"@)
            &&& public is Some ==> i.id() is Ok && i.id()->Ok_0.len() == 2 * digest.len()
            &&& public is Some && 0 <= k < digest.len() ==> i.id()->Ok_0[2 * k] == text::hex_digit(
                (digest[k] as int / 16) as nat,
            ) && i.id()->Ok_0[2 * k + 1] == text::hex_digit((digest[k] as int % 16) as nat)
            &&& i.private() is Ok <==> private is Some && private->0.len() == 32 && crypto::b64_text(
                crypto::x25519_of(private->0, crypto::base_point()),
            ) == i.public_key
            &&& i.private() is Ok ==> i.private() == Ok::<Seq<u8>, Seq<char>>(private->0)
        }),
{
    if crypto::b64_bytes(i.public_key) is Some {
        let digest = crypto::sha256_of(crypto::b64_bytes(i.public_key)->0);
        if 0 <= k < digest.len() {
            assert((2 * k) / 2 == k && (2 * k) % 2 == 0);
            assert((2 * k + 1) / 2 == k && (2 * k + 1) % 2 == 1);
        }
    }
}

/// The pairing code is the number that the first four bytes of the digest of the handshake make,
/// down to its last six digits.
pub proof fn law_the_code_is_of_the_handshake(transcript: Seq<u8>)
    requires
        crypto::sha256_of(transcript).len() == 32,
    ensures
        ({
            let b = crypto::sha256_of(transcript);
            let n = (b[0] as int * 16777216 + b[1] as int * 65536 + b[2] as int * 256 + b[3] as int) % 1000000;
            let code = transport::pairing_code(transcript);
            &&& code.len() == 6
            &&& code[0] == text::digit((n / 100000) as nat)
            &&& code[1] == text::digit((n / 10000 % 10) as nat)
            &&& code[2] == text::digit((n / 1000 % 10) as nat)
            &&& code[3] == text::digit((n / 100 % 10) as nat)
            &&& code[4] == text::digit((n / 10 % 10) as nat)
            &&& code[5] == text::digit((n % 10) as nat)
        }),
{
}

/// Digits are the characters that they are.
pub proof fn law_digits_are_digits(n: nat)
    ensures
        n < 10 ==> text::digit(n) as int == '0' as int + n,
        n < 10 ==> text::hex_digit(n) as int == '0' as int + n,
        10 <= n < 16 ==> text::hex_digit(n) as int == 'a' as int + n - 10,
{
}

// ---------------------------------------------------------------- frames

/// A frame is the message after its length in four bytes, the highest first.
pub proof fn law_a_frame_begins_with_its_length(message: Seq<u8>)
    requires
        message.len() <= 61440,
    ensures
        ({
            let f = transport::framed(message);
            &&& f.len() == message.len() + 4
            &&& f[0] as int * 16777216 + f[1] as int * 65536 + f[2] as int * 256 + f[3] as int == message.len()
            &&& f.skip(4) == message
        }),
{
    transport::lemma_framed(message);
}

/// A channel counts the messages of each second, and takes no more than a hundred; a second later
/// it counts anew.
pub proof fn law_a_channel_counts_its_messages(c: ChannelView, now: u64)
    ensures
        now - c.window >= 1000000000 ==> c.counted(now).window == now && c.counted(now).messages == 1,
        now - c.window < 1000000000 && c.messages <= 100 ==> c.counted(now).window == c.window && c.counted(
            now,
        ).messages == c.messages + 1,
        now - c.window < 1000000000 && c.messages > 100 ==> c.counted(now).messages == 101,
        c.counted(now) == (ChannelView {
            window: c.counted(now).window,
            messages: c.counted(now).messages,
            ..c
        }),
{
}

/// Messages that come too fast, or bytes that are too many, are refused.
pub proof fn law_a_channel_takes_only_so_much(c: ChannelView, bytes: Seq<u8>, now: u64, wrote: Seq<transport::Wrote>)
    ensures
        bytes.len() > 61444 || c.buffer.len() + bytes.len() > 122888 ==> c.receive(bytes, now, wrote).result == Err::<
            Seq<transport::ChannelEventView>,
            Seq<char>,
        >("buffer_limit"@) && c.receive(bytes, now, wrote).channel == c,
        c.buffer.len() == 0 && 4 <= bytes.len() <= 61444 && 0 < transport::number_at_front(bytes) <= 61440
            && bytes.len() >= transport::number_at_front(bytes) + 4 && c.counted(now).messages > 100 ==> c.receive(
            bytes,
            now,
            wrote,
        ).result == Err::<Seq<transport::ChannelEventView>, Seq<char>>("rate_limit"@),
        c.buffer.len() == 0 && bytes.len() < 4 ==> c.receive(bytes, now, wrote).result == Ok::<
            Seq<transport::ChannelEventView>,
            Seq<char>,
        >(seq![]) && c.receive(bytes, now, wrote).channel.buffer == bytes,
{
    reveal(ChannelView::receive);
    if c.buffer.len() == 0 {
        assert(c.buffer + bytes =~= bytes);
    }
}

/// A channel seals a text if its handshake is over, the text is not too long, and it has sealed
/// fewer than there are numbers; it then counts one more.
pub proof fn law_what_a_channel_seals(c: ChannelView, len: nat)
    ensures
        c.mute(len) is None <==> len <= 61408 && (c.cipher matches transport::CipherView::Transport { sent, .. } && sent
            < u64::MAX),
        c.cipher matches transport::CipherView::Transport { send_key, sent, receive_key, received } ==> (sent < u64::MAX
            ==> c.spoke() == (ChannelView {
            cipher: transport::CipherView::Transport { send_key, sent: (sent + 1) as u64, receive_key, received },
            ..c
        })),
{
}

// ---------------------------------------------------------------- the journal

/// A digest is of the whole text, under the key of the journal and in its own context, and the
/// journal answers for a session for a day.
pub proof fn law_what_the_journal_keeps(j: JournalView, said: Seq<char>, now: u64)
    ensures
        j.digest(said) == crypto::hmac_of(j.key, encode_utf8("voice-keyboard/chunk/v1\0"@) + encode_utf8(said)),
        now + 86400000 <= u64::MAX ==> crate::journal::expiry(now) == now + 86400000,
{
}

// ---------------------------------------------------------------- setting up

/// A device is set up as its configuration says: with its name and keys, its spans of time in
/// nanoseconds, and nothing yet under way.
pub proof fn law_a_device_is_set_up_as_told(c: ConfigView, j: JournalView, now: u64)
    requires
        c.error() is None,
    ensures
        ({
            let e = c.device(j, now);
            &&& c.identity.id() == Ok::<Seq<char>, Seq<char>>(e.desk.id)
            &&& c.identity.private() == Ok::<Seq<u8>, Seq<char>>(e.desk.private)
            &&& e.desk.name == c.name
            &&& e.desk.journal == j
            &&& e.desk.lease == c.lease_ms * 1000000
            &&& e.desk.finalizing == c.finalizing_ms * 1000000
            &&& e.desk.max_session == c.max_session_ms * 1000000
            &&& e.desk.heartbeat == now
            &&& e.desk.trust == trust::gathered(c.peers)
            &&& e.desk.links.len() == 0 && e.desk.seen.len() == 0 && e.desk.events.len() == 0
            &&& !e.desk.faulted
            &&& e.sessions.len() == 0
            &&& e.active_source is None && e.active_target is None
        }),
{
}

/// A configuration is in order just when the name is there and not too long, every span of time
/// makes sense, and every paired device can be one, and not too many; and its keys are sound.
pub proof fn law_when_a_configuration_is_in_order(c: ConfigView)
    ensures
        ({
            let sound = 0 < encode_utf8(c.name).len() <= 128 && 1500 <= c.lease_ms <= 15000 && 1000 <= c.finalizing_ms
                <= 60000 && 10000 <= c.max_session_ms <= 600000 && c.peers.len() <= 100 && forall|i: int|
                0 <= i < c.peers.len() ==> protocol::is_valid_id((#[trigger] c.peers[i]).peer_id);
            &&& !sound ==> c.error() == Some("invalid_configuration"@)
            &&& sound ==> (c.error() is None <==> c.identity.id() is Ok && c.identity.private() is Ok)
            &&& sound && c.identity.id() is Err ==> c.error() == Some(c.identity.id()->Err_0)
            &&& sound && c.identity.id() is Ok && c.identity.private() is Err ==> c.error() == Some(
                c.identity.private()->Err_0,
            )
        }),
{
}

/// A configuration is read member by member; what is not said is as it is by default, and a
/// member that is not known is refused.
pub proof fn law_a_configuration_is_read_as_it_is_written(
    members: Seq<(Seq<char>, JsonView)>,
    id: JsonView,
    i: IdentityView,
    name: Seq<char>,
    path: Seq<char>,
)
    requires
        says(JsonView::Object(members), "identity"@, id),
        config::identity_of(id) == Some(i),
        says(JsonView::Object(members), "name"@, JsonView::Text(name)),
        says(JsonView::Object(members), "journal_path"@, JsonView::Text(path)),
        JsonView::Object(members).member("peers"@) is None,
        forall|k: int| 0 <= k < members.len() ==> config::config_names().contains((#[trigger] members[k]).0),
    ensures
        ({
            let j = JsonView::Object(members);
            let c = config::config_of(j);
            let number = |key: Seq<char>, n: u64| match j.member(key) {
                None => Some(n),
                Some(JsonView::Unsigned(m)) => Some(m),
                _ => None,
            };
            let lease = number("lease_ms"@, 3000);
            let finalizing = number("finalizing_ms"@, 5000);
            let max_session = number("max_session_ms"@, 120000);
            &&& lease is None || finalizing is None || max_session is None ==> c is None
            &&& lease is Some && finalizing is Some && max_session is Some ==> {
                &&& c is Some
                &&& c->0.identity == i
                &&& c->0.name == name
                &&& c->0.journal_path == path
                &&& c->0.peers.len() == 0
                &&& c->0.lease_ms == lease->0
                &&& c->0.finalizing_ms == finalizing->0
                &&& c->0.max_session_ms == max_session->0
            }
        }),
{
    let f = json::fields(JsonView::Object(members), config::config_names());
    assert(f is Some);
    assert(config::config_names()[0] == "identity"@);
    assert(config::config_names()[1] == "name"@);
    assert(config::config_names()[2] == "journal_path"@);
    assert(config::config_names()[3] == "peers"@);
    assert(config::config_names()[4] == "lease_ms"@);
    assert(config::config_names()[5] == "finalizing_ms"@);
    assert(config::config_names()[6] == "max_session_ms"@);
}

/// The paired devices of a configuration are read one by one, each with its name and its leave.
pub proof fn law_paired_devices_are_read_in_turn(items: Seq<JsonView>, members: Seq<(Seq<char>, JsonView)>, t: TrustView)
    requires
        says(JsonView::Object(members), "peer_id"@, JsonView::Text(t.peer_id)),
        says(JsonView::Object(members), "name"@, JsonView::Text(t.name)),
        says(JsonView::Object(members), "allow_remote"@, JsonView::Bool(t.allow_remote)),
        forall|k: int|
            0 <= k < members.len() ==> (#[trigger] members[k]).0 == "peer_id"@ || members[k].0 == "name"@ || members[k].0
                == "allow_remote"@,
    ensures
        config::trust_of(JsonView::Object(members)) == Some(t),
        config::trusts_of(seq![]) == Some(Seq::<TrustView>::empty()),
        config::trusts_of(items) matches Some(list) ==> config::trusts_of(items.push(JsonView::Object(members))) == Some(
            list.push(t),
        ),
        config::trusts_of(items) is None ==> config::trusts_of(items.push(JsonView::Object(members))) is None,
{
    let names = seq!["peer_id"@, "name"@, "allow_remote"@];
    assert(names[0] == "peer_id"@ && names[1] == "name"@ && names[2] == "allow_remote"@);
    assert forall|k: int| 0 <= k < members.len() implies names.contains((#[trigger] members[k]).0) by {
        if members[k].0 == "peer_id"@ {
            assert(names[0] == members[k].0);
        } else if members[k].0 == "name"@ {
            assert(names[1] == members[k].0);
        } else {
            assert(names[2] == members[k].0);
        }
    }
    assert(items.push(JsonView::Object(members)).drop_last() =~= items);
}

/// A session that is over after a step frees the microphone once its source has stopped, and the
/// keyboard once nothing is under way; the other sessions are as they were.
pub proof fn law_a_session_that_is_over_frees_its_device(e: EngineView, k: int, t: crate::steps::Turn<()>)
    requires
        0 <= k < e.sessions.len(),
    ensures
        crate::conduct_laws::touches_one(e, e.landed(k, t), k, t),
{
}

} // verus!
