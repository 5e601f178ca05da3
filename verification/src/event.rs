//! What the library tells the program around it, and the JSON of it.
use crate::crypto;
use crate::ids;
use crate::json;
use crate::json::{Json, JsonView};
use crate::protocol;
use crate::protocol::{Ack, Binding, BindingView, Phase};
use crate::text;
use crate::trust;
use crate::trust::{Trust, TrustView};
use crate::wire;
use vstd::prelude::*;

verus! {

/// What is told of a piece of text.
pub struct Noted {
    pub sequence: u64,
    pub text: String,
    pub status: Ack,
}

/// What is told of a piece of text, by its contents.
pub struct NotedView {
    pub sequence: u64,
    pub text: Seq<char>,
    pub status: Ack,
}

impl View for Noted {
    type V = NotedView;

    open spec fn view(&self) -> NotedView {
        NotedView { sequence: self.sequence, text: self.text@, status: self.status }
    }
}

/// What is told of pieces of text.
pub open spec fn noteds_view(v: Seq<Noted>) -> Seq<NotedView> {
    Seq::new(v.len(), |i: int| v[i]@)
}

/// What the library tells the program around it.
#[allow(inconsistent_fields)]
pub enum Event {
    /// Bytes to send on a connection.
    SocketSend { connection_id: String, data: Vec<u8> },
    /// A connection to close.
    SocketClose { connection_id: String },
    /// A connection is encrypted, and its pairing code is known.
    SecureChannel { peer_id: String, code: String },
    /// What is known of a device.
    Peer { peer_id: String, name: String, online: bool, paired: bool, allow_remote: bool, code: String },
    /// Another device wants to pair.
    PairRequested { peer_id: String, code: String, name: String },
    /// The paired devices, to be kept.
    TrustChanged { peers: Vec<Trust> },
    /// A place for the text is wanted.
    BindTarget { session_id: u128 },
    /// The source is to prepare to listen.
    PrepareInput { binding: Binding },
    /// The source is to stop listening.
    StopInput { session_id: u128 },
    /// The source is to stop listening and forget.
    CancelInput { session_id: u128 },
    /// The source did not stop in time.
    AbortInput { session_id: u128 },
    /// A piece of text to type.
    Inject { session_id: u128, sequence: u64, text: String, context_token: String },
    /// Where a session stands.
    Session { binding: Binding, phase: Phase, draft: String, chunks: Vec<Noted>, stopped: bool, cancelled: bool },
    /// A session was forgotten.
    RecoveryCleared { session_id: u128 },
    /// Something failed.
    Error { session_id: Option<u128>, code: String },
    /// Nothing works any more.
    Fatal { code: String },
}

/// What the library tells the program around it, by its contents.
#[allow(inconsistent_fields)]
pub enum EventView {
    SocketSend { connection_id: Seq<char>, data: Seq<u8> },
    SocketClose { connection_id: Seq<char> },
    SecureChannel { peer_id: Seq<char>, code: Seq<char> },
    Peer { peer_id: Seq<char>, name: Seq<char>, online: bool, paired: bool, allow_remote: bool, code: Seq<char> },
    PairRequested { peer_id: Seq<char>, code: Seq<char>, name: Seq<char> },
    TrustChanged { peers: Seq<TrustView> },
    BindTarget { session_id: u128 },
    PrepareInput { binding: BindingView },
    StopInput { session_id: u128 },
    CancelInput { session_id: u128 },
    AbortInput { session_id: u128 },
    Inject { session_id: u128, sequence: u64, text: Seq<char>, context_token: Seq<char> },
    Session { binding: BindingView, phase: Phase, draft: Seq<char>, chunks: Seq<NotedView>, stopped: bool, cancelled: bool },
    RecoveryCleared { session_id: u128 },
    Error { session_id: Option<u128>, code: Seq<char> },
    Fatal { code: Seq<char> },
}

impl View for Event {
    type V = EventView;

    open spec fn view(&self) -> EventView {
        match *self {
            Event::SocketSend { connection_id, data } => EventView::SocketSend { connection_id: connection_id@, data: data@ },
            Event::SocketClose { connection_id } => EventView::SocketClose { connection_id: connection_id@ },
            Event::SecureChannel { peer_id, code } => EventView::SecureChannel { peer_id: peer_id@, code: code@ },
            Event::Peer { peer_id, name, online, paired, allow_remote, code } => EventView::Peer { peer_id: peer_id@, name: name@, online, paired, allow_remote, code: code@ },
            Event::PairRequested { peer_id, code, name } => EventView::PairRequested { peer_id: peer_id@, code: code@, name: name@ },
            Event::TrustChanged { peers } => EventView::TrustChanged { peers: trust::trusts_view(peers@) },
            Event::BindTarget { session_id } => EventView::BindTarget { session_id },
            Event::PrepareInput { binding } => EventView::PrepareInput { binding: binding@ },
            Event::StopInput { session_id } => EventView::StopInput { session_id },
            Event::CancelInput { session_id } => EventView::CancelInput { session_id },
            Event::AbortInput { session_id } => EventView::AbortInput { session_id },
            Event::Inject { session_id, sequence, text, context_token } => EventView::Inject { session_id, sequence, text: text@, context_token: context_token@ },
            Event::Session { binding, phase, draft, chunks, stopped, cancelled } => EventView::Session { binding: binding@, phase, draft: draft@, chunks: noteds_view(chunks@), stopped, cancelled },
            Event::RecoveryCleared { session_id } => EventView::RecoveryCleared { session_id },
            Event::Error { session_id, code } => EventView::Error { session_id, code: code@ },
            Event::Fatal { code } => EventView::Fatal { code: code@ },
        }
    }
}

/// What events tell.
pub open spec fn events_view(v: Seq<Event>) -> Seq<EventView> {
    Seq::new(v.len(), |i: int| v[i]@)
}

// ---------------------------------------------------------------- JSON

/// The JSON of a paired device.
pub open spec fn trust_json(t: TrustView) -> JsonView {
    json::record(
        seq!["peer_id"@, "name"@, "allow_remote"@],
        seq![JsonView::Text(t.peer_id), JsonView::Text(t.name), JsonView::Bool(t.allow_remote)],
    )
}

/// The JSON of a binding, with its members in the order of their names.
pub open spec fn binding_json(b: BindingView) -> JsonView {
    json::record(wire::binding_names(), wire::binding_values(b))
}

/// The JSON of paired devices.
pub open spec fn trusts_json(list: Seq<TrustView>) -> JsonView {
    JsonView::List(Seq::new(list.len(), |i: int| trust_json(list[i])))
}

/// The JSON of what is told of a piece of text.
pub open spec fn noted_json(n: NotedView) -> JsonView {
    json::record(
        seq!["sequence"@, "text"@, "status"@],
        seq![
            JsonView::Unsigned(n.sequence),
            JsonView::Text(n.text),
            JsonView::Text(protocol::ack_name(n.status)),
        ],
    )
}

/// The JSON of what is told of pieces of text.
pub open spec fn noteds_json(list: Seq<NotedView>) -> JsonView {
    JsonView::List(Seq::new(list.len(), |i: int| noted_json(list[i])))
}

/// The JSON of an event.
pub open spec fn event_json(e: EventView) -> JsonView {
    match e {
        EventView::SocketSend { connection_id, data } => json::record(
            seq!["event"@, "connection_id"@, "data"@],
            seq![
                JsonView::Text("socket_send"@),
                JsonView::Text(connection_id),
                JsonView::Text(crypto::b64_text(data)),
            ],
        ),
        EventView::SocketClose { connection_id } => json::record(
            seq!["event"@, "connection_id"@],
            seq![JsonView::Text("socket_close"@), JsonView::Text(connection_id)],
        ),
        EventView::SecureChannel { peer_id, code } => json::record(
            seq!["event"@, "peer_id"@, "code"@],
            seq![JsonView::Text("secure_channel"@), JsonView::Text(peer_id), JsonView::Text(code)],
        ),
        EventView::Peer { peer_id, name, online, paired, allow_remote, code } => json::record(
            seq!["event"@, "peer_id"@, "name"@, "online"@, "paired"@, "allow_remote"@, "code"@],
            seq![
                JsonView::Text("peer"@),
                JsonView::Text(peer_id),
                JsonView::Text(name),
                JsonView::Bool(online),
                JsonView::Bool(paired),
                JsonView::Bool(allow_remote),
                JsonView::Text(code),
            ],
        ),
        EventView::PairRequested { peer_id, code, name } => json::record(
            seq!["event"@, "peer_id"@, "code"@, "name"@],
            seq![
                JsonView::Text("pair_requested"@),
                JsonView::Text(peer_id),
                JsonView::Text(code),
                JsonView::Text(name),
            ],
        ),
        EventView::TrustChanged { peers } => json::record(
            seq!["event"@, "peers"@],
            seq![JsonView::Text("trust_changed"@), trusts_json(peers)],
        ),
        EventView::BindTarget { session_id } => json::record(
            seq!["event"@, "session_id"@],
            seq![JsonView::Text("bind_target"@), JsonView::Text(ids::id_text(session_id))],
        ),
        EventView::PrepareInput { binding } => json::record(
            seq!["event"@, "binding"@],
            seq![JsonView::Text("prepare_input"@), binding_json(binding)],
        ),
        EventView::StopInput { session_id } => json::record(
            seq!["event"@, "session_id"@],
            seq![JsonView::Text("stop_input"@), JsonView::Text(ids::id_text(session_id))],
        ),
        EventView::CancelInput { session_id } => json::record(
            seq!["event"@, "session_id"@],
            seq![JsonView::Text("cancel_input"@), JsonView::Text(ids::id_text(session_id))],
        ),
        EventView::AbortInput { session_id } => json::record(
            seq!["event"@, "session_id"@],
            seq![JsonView::Text("abort_input"@), JsonView::Text(ids::id_text(session_id))],
        ),
        EventView::Inject { session_id, sequence, text, context_token } => json::record(
            seq!["event"@, "session_id"@, "sequence"@, "text"@, "context_token"@],
            seq![
                JsonView::Text("inject"@),
                JsonView::Text(ids::id_text(session_id)),
                JsonView::Unsigned(sequence),
                JsonView::Text(text),
                JsonView::Text(context_token),
            ],
        ),
        EventView::Session { binding, phase, draft, chunks, stopped, cancelled } => json::record(
            seq!["event"@, "binding"@, "phase"@, "draft"@, "chunks"@, "stopped"@, "cancelled"@],
            seq![
                JsonView::Text("session"@),
                binding_json(binding),
                JsonView::Text(protocol::phase_name(phase)),
                JsonView::Text(draft),
                noteds_json(chunks),
                JsonView::Bool(stopped),
                JsonView::Bool(cancelled),
            ],
        ),
        EventView::RecoveryCleared { session_id } => json::record(
            seq!["event"@, "session_id"@],
            seq![JsonView::Text("recovery_cleared"@), JsonView::Text(ids::id_text(session_id))],
        ),
        EventView::Error { session_id, code } => json::record(
            seq!["event"@, "session_id"@, "code"@],
            seq![JsonView::Text("error"@), wire::maybe_id_json(session_id), JsonView::Text(code)],
        ),
        EventView::Fatal { code } => json::record(
            seq!["event"@, "code"@],
            seq![JsonView::Text("fatal"@), JsonView::Text(code)],
        ),
    }
}

/// The JSON of a paired device.
fn show_trust(t: &Trust) -> (j: Json)
    ensures
        j@ == trust_json(t@),
        json::canonical(j@, 1),
{
    let names = vec!["peer_id", "name", "allow_remote"];
    let values = vec![
        Json::Text(text::copy(&t.peer_id)),
        Json::Text(text::copy(&t.name)),
        Json::Bool(t.allow_remote),
    ];
    proof {
        let n = seq!["peer_id"@, "name"@, "allow_remote"@];
        let v = seq![JsonView::Text(t@.peer_id), JsonView::Text(t@.name), JsonView::Bool(t@.allow_remote)];
        assert(json::names_view(names@) =~= n);
        assert(json::items_view(values@) =~= v);
        json::lemma_record_canonical(n, v, 0);
    }
    json::make_record(names, values)
}

/// The JSON of what is told of a piece of text.
fn show_noted(x: &Noted) -> (j: Json)
    ensures
        j@ == noted_json(x@),
        json::canonical(j@, 1),
{
    let names = vec!["sequence", "text", "status"];
    let values = vec![
        Json::Unsigned(x.sequence),
        Json::Text(text::copy(&x.text)),
        Json::Text(x.status.as_str().to_owned()),
    ];
    proof {
        let n = seq!["sequence"@, "text"@, "status"@];
        let v = seq![
            JsonView::Unsigned(x@.sequence),
            JsonView::Text(x@.text),
            JsonView::Text(protocol::ack_name(x@.status)),
        ];
        assert(json::names_view(names@) =~= n);
        assert(json::items_view(values@) =~= v);
        json::lemma_record_canonical(n, v, 0);
    }
    json::make_record(names, values)
}

/// The JSON of paired devices.
fn show_trusts(list: &Vec<Trust>) -> (j: Json)
    ensures
        j@ == trusts_json(trust::trusts_view(list@)),
        json::canonical(j@, 2),
{
    broadcast use json::lemma_list_view;

    let mut items: Vec<Json> = Vec::new();
    let mut i: usize = 0;
    while i < list.len()
        invariant
            i <= list@.len(),
            items@.len() == i,
            forall|k: int| 0 <= k < i ==> (#[trigger] items@[k])@ == trust_json(list@[k]@),
            forall|k: int| 0 <= k < i ==> json::canonical((#[trigger] items@[k])@, 1),
        decreases list.len() - i,
    {
        items.push(show_trust(&list[i]));
        i = i + 1;
    }
    proof {
        let shown = json::items_view(items@);
        assert(JsonView::List(shown) == trusts_json(trust::trusts_view(list@))) by {
            assert(shown =~= trusts_json(trust::trusts_view(list@))->List_0);
        }
        assert forall|k: int| 0 <= k < shown.len() implies json::canonical(#[trigger] shown[k], 1) by {
            assert(shown[k] == items@[k]@);
        }
    }
    Json::List(items)
}

/// The JSON of what is told of pieces of text.
fn show_noteds(list: &Vec<Noted>) -> (j: Json)
    ensures
        j@ == noteds_json(noteds_view(list@)),
        json::canonical(j@, 2),
{
    broadcast use json::lemma_list_view;

    let mut items: Vec<Json> = Vec::new();
    let mut i: usize = 0;
    while i < list.len()
        invariant
            i <= list@.len(),
            items@.len() == i,
            forall|k: int| 0 <= k < i ==> (#[trigger] items@[k])@ == noted_json(list@[k]@),
            forall|k: int| 0 <= k < i ==> json::canonical((#[trigger] items@[k])@, 1),
        decreases list.len() - i,
    {
        items.push(show_noted(&list[i]));
        i = i + 1;
    }
    proof {
        let shown = json::items_view(items@);
        assert(JsonView::List(shown) == noteds_json(noteds_view(list@))) by {
            assert(shown =~= noteds_json(noteds_view(list@))->List_0);
        }
        assert forall|k: int| 0 <= k < shown.len() implies json::canonical(#[trigger] shown[k], 1) by {
            assert(shown[k] == items@[k]@);
        }
    }
    Json::List(items)
}

/// The JSON of such an event: bytes to send on a connection.
fn show_socket_send(connection_id: &String, data: &Vec<u8>) -> (j: Json)
    ensures
        j@ == event_json(EventView::SocketSend { connection_id: connection_id@, data: data@ }),
        json::canonical(j@, 3),
{
    let names = vec!["event", "connection_id", "data"];
    let values = vec![
        Json::Text("socket_send".to_owned()),
        Json::Text(text::copy(connection_id)),
        Json::Text(crypto::encode64(data.as_slice())),
    ];
    proof {
        let n = seq!["event"@, "connection_id"@, "data"@];
        let v = seq![
            JsonView::Text("socket_send"@),
            JsonView::Text(connection_id@),
            JsonView::Text(crypto::b64_text(data@)),
        ];
        assert(json::names_view(names@) =~= n);
        assert(json::items_view(values@) =~= v);
        json::lemma_record_canonical(n, v, 2);
    }
    json::make_record(names, values)
}

/// The JSON of such an event: a connection to close.
fn show_socket_close(connection_id: &String) -> (j: Json)
    ensures
        j@ == event_json(EventView::SocketClose { connection_id: connection_id@ }),
        json::canonical(j@, 3),
{
    let names = vec!["event", "connection_id"];
    let values = vec![Json::Text("socket_close".to_owned()), Json::Text(text::copy(connection_id))];
    proof {
        let n = seq!["event"@, "connection_id"@];
        let v = seq![JsonView::Text("socket_close"@), JsonView::Text(connection_id@)];
        assert(json::names_view(names@) =~= n);
        assert(json::items_view(values@) =~= v);
        json::lemma_record_canonical(n, v, 2);
    }
    json::make_record(names, values)
}

/// The JSON of such an event: a connection is encrypted, and its pairing code is known.
fn show_secure_channel(peer_id: &String, code: &String) -> (j: Json)
    ensures
        j@ == event_json(EventView::SecureChannel { peer_id: peer_id@, code: code@ }),
        json::canonical(j@, 3),
{
    let names = vec!["event", "peer_id", "code"];
    let values = vec![
        Json::Text("secure_channel".to_owned()),
        Json::Text(text::copy(peer_id)),
        Json::Text(text::copy(code)),
    ];
    proof {
        let n = seq!["event"@, "peer_id"@, "code"@];
        let v = seq![JsonView::Text("secure_channel"@), JsonView::Text(peer_id@), JsonView::Text(code@)];
        assert(json::names_view(names@) =~= n);
        assert(json::items_view(values@) =~= v);
        json::lemma_record_canonical(n, v, 2);
    }
    json::make_record(names, values)
}

/// The JSON of such an event: what is known of a device.
fn show_peer(peer_id: &String, name: &String, online: bool, paired: bool, allow_remote: bool, code: &String) -> (j: Json)
    ensures
        j@ == event_json(EventView::Peer { peer_id: peer_id@, name: name@, online, paired, allow_remote, code: code@ }),
        json::canonical(j@, 3),
{
    let names = vec!["event", "peer_id", "name", "online", "paired", "allow_remote", "code"];
    let values = vec![
        Json::Text("peer".to_owned()),
        Json::Text(text::copy(peer_id)),
        Json::Text(text::copy(name)),
        Json::Bool(online),
        Json::Bool(paired),
        Json::Bool(allow_remote),
        Json::Text(text::copy(code)),
    ];
    proof {
        let n = seq!["event"@, "peer_id"@, "name"@, "online"@, "paired"@, "allow_remote"@, "code"@];
        let v = seq![
            JsonView::Text("peer"@),
            JsonView::Text(peer_id@),
            JsonView::Text(name@),
            JsonView::Bool(online),
            JsonView::Bool(paired),
            JsonView::Bool(allow_remote),
            JsonView::Text(code@),
        ];
        assert(json::names_view(names@) =~= n);
        assert(json::items_view(values@) =~= v);
        json::lemma_record_canonical(n, v, 2);
    }
    json::make_record(names, values)
}

/// The JSON of such an event: another device wants to pair.
fn show_pair_requested(peer_id: &String, code: &String, name: &String) -> (j: Json)
    ensures
        j@ == event_json(EventView::PairRequested { peer_id: peer_id@, code: code@, name: name@ }),
        json::canonical(j@, 3),
{
    let names = vec!["event", "peer_id", "code", "name"];
    let values = vec![
        Json::Text("pair_requested".to_owned()),
        Json::Text(text::copy(peer_id)),
        Json::Text(text::copy(code)),
        Json::Text(text::copy(name)),
    ];
    proof {
        let n = seq!["event"@, "peer_id"@, "code"@, "name"@];
        let v = seq![
            JsonView::Text("pair_requested"@),
            JsonView::Text(peer_id@),
            JsonView::Text(code@),
            JsonView::Text(name@),
        ];
        assert(json::names_view(names@) =~= n);
        assert(json::items_view(values@) =~= v);
        json::lemma_record_canonical(n, v, 2);
    }
    json::make_record(names, values)
}

/// The JSON of such an event: the paired devices, to be kept.
fn show_trust_changed(peers: &Vec<Trust>) -> (j: Json)
    ensures
        j@ == event_json(EventView::TrustChanged { peers: trust::trusts_view(peers@) }),
        json::canonical(j@, 3),
{
    let names = vec!["event", "peers"];
    let values = vec![Json::Text("trust_changed".to_owned()), show_trusts(peers)];
    proof {
        let n = seq!["event"@, "peers"@];
        let v = seq![JsonView::Text("trust_changed"@), trusts_json(trust::trusts_view(peers@))];
        assert(json::names_view(names@) =~= n);
        assert(json::items_view(values@) =~= v);
        json::lemma_record_canonical(n, v, 2);
    }
    json::make_record(names, values)
}

/// The JSON of such an event: a place for the text is wanted.
fn show_bind_target(session_id: u128) -> (j: Json)
    ensures
        j@ == event_json(EventView::BindTarget { session_id }),
        json::canonical(j@, 3),
{
    let names = vec!["event", "session_id"];
    let values = vec![Json::Text("bind_target".to_owned()), Json::Text(ids::show_id(session_id))];
    proof {
        let n = seq!["event"@, "session_id"@];
        let v = seq![JsonView::Text("bind_target"@), JsonView::Text(ids::id_text(session_id))];
        assert(json::names_view(names@) =~= n);
        assert(json::items_view(values@) =~= v);
        json::lemma_record_canonical(n, v, 2);
    }
    json::make_record(names, values)
}

/// The JSON of a binding.
fn show_binding(binding: &Binding) -> (j: Json)
    ensures
        j@ == binding_json(binding@),
        json::canonical(j@, 1),
{
    proof {
        json::lemma_record_canonical(wire::binding_names(), wire::binding_values(binding@), 0);
    }
    json::make_record(Binding::json_names(), binding.json_values())
}

/// The JSON of such an event: the source is to prepare to listen.
fn show_prepare_input(binding: &Binding) -> (j: Json)
    ensures
        j@ == event_json(EventView::PrepareInput { binding: binding@ }),
        json::canonical(j@, 3),
{
    let names = vec!["event", "binding"];
    let values = vec![Json::Text("prepare_input".to_owned()), show_binding(binding)];
    proof {
        let n = seq!["event"@, "binding"@];
        let v = seq![JsonView::Text("prepare_input"@), binding_json(binding@)];
        assert(json::names_view(names@) =~= n);
        assert(json::items_view(values@) =~= v);
        json::lemma_canonical_deeper(binding_json(binding@), 1, 2);
        json::lemma_record_canonical(n, v, 2);
    }
    json::make_record(names, values)
}

/// The JSON of such an event: the source is to stop listening.
fn show_stop_input(session_id: u128) -> (j: Json)
    ensures
        j@ == event_json(EventView::StopInput { session_id }),
        json::canonical(j@, 3),
{
    let names = vec!["event", "session_id"];
    let values = vec![Json::Text("stop_input".to_owned()), Json::Text(ids::show_id(session_id))];
    proof {
        let n = seq!["event"@, "session_id"@];
        let v = seq![JsonView::Text("stop_input"@), JsonView::Text(ids::id_text(session_id))];
        assert(json::names_view(names@) =~= n);
        assert(json::items_view(values@) =~= v);
        json::lemma_record_canonical(n, v, 2);
    }
    json::make_record(names, values)
}

/// The JSON of such an event: the source is to stop listening and forget.
fn show_cancel_input(session_id: u128) -> (j: Json)
    ensures
        j@ == event_json(EventView::CancelInput { session_id }),
        json::canonical(j@, 3),
{
    let names = vec!["event", "session_id"];
    let values = vec![Json::Text("cancel_input".to_owned()), Json::Text(ids::show_id(session_id))];
    proof {
        let n = seq!["event"@, "session_id"@];
        let v = seq![JsonView::Text("cancel_input"@), JsonView::Text(ids::id_text(session_id))];
        assert(json::names_view(names@) =~= n);
        assert(json::items_view(values@) =~= v);
        json::lemma_record_canonical(n, v, 2);
    }
    json::make_record(names, values)
}

/// The JSON of such an event: the source did not stop in time.
fn show_abort_input(session_id: u128) -> (j: Json)
    ensures
        j@ == event_json(EventView::AbortInput { session_id }),
        json::canonical(j@, 3),
{
    let names = vec!["event", "session_id"];
    let values = vec![Json::Text("abort_input".to_owned()), Json::Text(ids::show_id(session_id))];
    proof {
        let n = seq!["event"@, "session_id"@];
        let v = seq![JsonView::Text("abort_input"@), JsonView::Text(ids::id_text(session_id))];
        assert(json::names_view(names@) =~= n);
        assert(json::items_view(values@) =~= v);
        json::lemma_record_canonical(n, v, 2);
    }
    json::make_record(names, values)
}

/// The JSON of such an event: a piece of text to type.
fn show_inject(session_id: u128, sequence: u64, text: &String, context_token: &String) -> (j: Json)
    ensures
        j@ == event_json(EventView::Inject { session_id, sequence, text: text@, context_token: context_token@ }),
        json::canonical(j@, 3),
{
    let names = vec!["event", "session_id", "sequence", "text", "context_token"];
    let values = vec![
        Json::Text("inject".to_owned()),
        Json::Text(ids::show_id(session_id)),
        Json::Unsigned(sequence),
        Json::Text(text::copy(text)),
        Json::Text(text::copy(context_token)),
    ];
    proof {
        let n = seq!["event"@, "session_id"@, "sequence"@, "text"@, "context_token"@];
        let v = seq![
            JsonView::Text("inject"@),
            JsonView::Text(ids::id_text(session_id)),
            JsonView::Unsigned(sequence),
            JsonView::Text(text@),
            JsonView::Text(context_token@),
        ];
        assert(json::names_view(names@) =~= n);
        assert(json::items_view(values@) =~= v);
        json::lemma_record_canonical(n, v, 2);
    }
    json::make_record(names, values)
}

/// The JSON of such an event: where a session stands.
fn show_session(binding: &Binding, phase: Phase, draft: &String, chunks: &Vec<Noted>, stopped: bool, cancelled: bool) -> (j: Json)
    ensures
        j@ == event_json(EventView::Session { binding: binding@, phase, draft: draft@, chunks: noteds_view(chunks@), stopped, cancelled }),
        json::canonical(j@, 3),
{
    let names = vec!["event", "binding", "phase", "draft", "chunks", "stopped", "cancelled"];
    let values = vec![
        Json::Text("session".to_owned()),
        show_binding(binding),
        Json::Text(phase.as_str().to_owned()),
        Json::Text(text::copy(draft)),
        show_noteds(chunks),
        Json::Bool(stopped),
        Json::Bool(cancelled),
    ];
    proof {
        let n = seq!["event"@, "binding"@, "phase"@, "draft"@, "chunks"@, "stopped"@, "cancelled"@];
        let v = seq![
            JsonView::Text("session"@),
            binding_json(binding@),
            JsonView::Text(protocol::phase_name(phase)),
            JsonView::Text(draft@),
            noteds_json(noteds_view(chunks@)),
            JsonView::Bool(stopped),
            JsonView::Bool(cancelled),
        ];
        assert(json::names_view(names@) =~= n);
        assert(json::items_view(values@) =~= v);
        json::lemma_canonical_deeper(binding_json(binding@), 1, 2);
        json::lemma_record_canonical(n, v, 2);
    }
    json::make_record(names, values)
}

/// The JSON of such an event: a session was forgotten.
fn show_recovery_cleared(session_id: u128) -> (j: Json)
    ensures
        j@ == event_json(EventView::RecoveryCleared { session_id }),
        json::canonical(j@, 3),
{
    let names = vec!["event", "session_id"];
    let values = vec![Json::Text("recovery_cleared".to_owned()), Json::Text(ids::show_id(session_id))];
    proof {
        let n = seq!["event"@, "session_id"@];
        let v = seq![JsonView::Text("recovery_cleared"@), JsonView::Text(ids::id_text(session_id))];
        assert(json::names_view(names@) =~= n);
        assert(json::items_view(values@) =~= v);
        json::lemma_record_canonical(n, v, 2);
    }
    json::make_record(names, values)
}

/// The JSON of such an event: something failed.
fn show_error(session_id: &Option<u128>, code: &String) -> (j: Json)
    ensures
        j@ == event_json(EventView::Error { session_id: *session_id, code: code@ }),
        json::canonical(j@, 3),
{
    let names = vec!["event", "session_id", "code"];
    let values = vec![
        Json::Text("error".to_owned()),
        wire::maybe_id(session_id),
        Json::Text(text::copy(code)),
    ];
    proof {
        let n = seq!["event"@, "session_id"@, "code"@];
        let v = seq![JsonView::Text("error"@), wire::maybe_id_json(*session_id), JsonView::Text(code@)];
        assert(json::names_view(names@) =~= n);
        assert(json::items_view(values@) =~= v);
        json::lemma_record_canonical(n, v, 2);
    }
    json::make_record(names, values)
}

/// The JSON of such an event: nothing works any more.
fn show_fatal(code: &String) -> (j: Json)
    ensures
        j@ == event_json(EventView::Fatal { code: code@ }),
        json::canonical(j@, 3),
{
    let names = vec!["event", "code"];
    let values = vec![Json::Text("fatal".to_owned()), Json::Text(text::copy(code))];
    proof {
        let n = seq!["event"@, "code"@];
        let v = seq![JsonView::Text("fatal"@), JsonView::Text(code@)];
        assert(json::names_view(names@) =~= n);
        assert(json::items_view(values@) =~= v);
        json::lemma_record_canonical(n, v, 2);
    }
    json::make_record(names, values)
}

impl Event {
    /// The JSON of the event.
    pub fn to_json(&self) -> (j: Json)
        ensures
            j@ == event_json(self@),
            json::canonical(j@, 3),
    {
        match self {
            Event::SocketSend { connection_id, data } => show_socket_send(connection_id, data),
            Event::SocketClose { connection_id } => show_socket_close(connection_id),
            Event::SecureChannel { peer_id, code } => show_secure_channel(peer_id, code),
            Event::Peer { peer_id, name, online, paired, allow_remote, code } => show_peer(peer_id, name, *online, *paired, *allow_remote, code),
            Event::PairRequested { peer_id, code, name } => show_pair_requested(peer_id, code, name),
            Event::TrustChanged { peers } => show_trust_changed(peers),
            Event::BindTarget { session_id } => show_bind_target(*session_id),
            Event::PrepareInput { binding } => show_prepare_input(binding),
            Event::StopInput { session_id } => show_stop_input(*session_id),
            Event::CancelInput { session_id } => show_cancel_input(*session_id),
            Event::AbortInput { session_id } => show_abort_input(*session_id),
            Event::Inject { session_id, sequence, text, context_token } => show_inject(*session_id, *sequence, text, context_token),
            Event::Session { binding, phase, draft, chunks, stopped, cancelled } => show_session(binding, *phase, draft, chunks, *stopped, *cancelled),
            Event::RecoveryCleared { session_id } => show_recovery_cleared(*session_id),
            Event::Error { session_id, code } => show_error(session_id, code),
            Event::Fatal { code } => show_fatal(code),
        }
    }
}

} // verus!
