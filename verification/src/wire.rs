//! The JSON in which messages travel.
use crate::ids;
use crate::json;
use crate::json::{Json, JsonView};
use crate::once;
use crate::protocol;
use crate::protocol::{
    Ack, Binding, BindingView, Mode, Payload, PayloadView, Phase, Wire, WireView, MAX_FRAME, VERSION,
};
use crate::text;
use crate::{fail, CoreError};
use vstd::prelude::*;
use vstd::utf8::*;

verus! {

// ---------------------------------------------------------------- the JSON of messages

/// An identifier that may be absent.
pub open spec fn maybe_id_json(id: Option<u128>) -> JsonView {
    match id {
        Some(id) => JsonView::Text(ids::id_text(id)),
        None => JsonView::Null,
    }
}

/// The members of a binding.
pub open spec fn binding_names() -> Seq<Seq<char>> {
    seq![
        "session_id"@,
        "source_device_id"@,
        "target_device_id"@,
        "controller_device_id"@,
        "input_mode"@,
        "context_token"@,
        "target_app"@,
        "created_ms"@,
    ]
}

/// No name occurs twice.
pub proof fn lemma_binding_names()
    ensures
        binding_names().no_duplicates(),
{
    reveal_strlit("session_id");
    reveal_strlit("source_device_id");
    reveal_strlit("target_device_id");
    reveal_strlit("controller_device_id");
    reveal_strlit("input_mode");
    reveal_strlit("context_token");
    reveal_strlit("target_app");
    reveal_strlit("created_ms");
    assert(text::mark("session_id"@) == (10nat, 's', 'i', ' '));
    assert(text::mark("source_device_id"@) == (16nat, 's', 'e', 'c'));
    assert(text::mark("target_device_id"@) == (16nat, 't', 'e', 'c'));
    assert(text::mark("controller_device_id"@) == (20nat, 'c', 'e', 'd'));
    assert(text::mark("input_mode"@) == (10nat, 'i', 'd', ' '));
    assert(text::mark("context_token"@) == (13nat, 'c', 't', 'e'));
    assert(text::mark("target_app"@) == (10nat, 't', 'p', ' '));
    assert(text::mark("created_ms"@) == (10nat, 'c', 'm', ' '));
}

/// The values of the members of a binding.
pub open spec fn binding_values(b: BindingView) -> Seq<JsonView> {
    seq![
        JsonView::Text(ids::id_text(b.session_id)),
        JsonView::Text(b.source_device_id),
        JsonView::Text(b.target_device_id),
        JsonView::Text(b.controller_device_id),
        JsonView::Text(protocol::mode_name(b.input_mode)),
        JsonView::Text(b.context_token),
        JsonView::Text(b.target_app),
        JsonView::Unsigned(b.created_ms),
    ]
}

/// The JSON of a binding.
pub open spec fn binding_json(b: BindingView) -> JsonView {
    json::listed(binding_names(), binding_values(b))
}

/// The members of such a message: a device names itself.
pub open spec fn hello_names() -> Seq<Seq<char>> {
    seq!["message_type"@, "device_id"@, "name"@]
}

/// No name occurs twice.
pub proof fn lemma_hello_names()
    ensures
        hello_names().no_duplicates(),
{
    reveal_strlit("message_type");
    reveal_strlit("device_id");
    reveal_strlit("name");
    assert("message_type"@.len() != "device_id"@.len());
    assert("message_type"@.len() != "name"@.len());
    assert("device_id"@.len() != "name"@.len());
}

/// The members of such a message: the other side's user has confirmed the pairing code.
pub open spec fn pair_confirm_names() -> Seq<Seq<char>> {
    seq!["message_type"@]
}

/// No name occurs twice.
pub proof fn lemma_pair_confirm_names()
    ensures
        pair_confirm_names().no_duplicates(),
{
    reveal_strlit("message_type");
}

/// The members of such a message: the source asks the target to prepare an input context.
pub open spec fn bind_request_names() -> Seq<Seq<char>> {
    seq!["message_type"@, "binding"@]
}

/// No name occurs twice.
pub proof fn lemma_bind_request_names()
    ensures
        bind_request_names().no_duplicates(),
{
    reveal_strlit("message_type");
    reveal_strlit("binding");
    assert("message_type"@.len() != "binding"@.len());
}

/// The members of such a message: the target has prepared one.
pub open spec fn session_bound_names() -> Seq<Seq<char>> {
    seq!["message_type"@, "binding"@]
}

/// No name occurs twice.
pub proof fn lemma_session_bound_names()
    ensures
        session_bound_names().no_duplicates(),
{
    reveal_strlit("message_type");
    reveal_strlit("binding");
    assert("message_type"@.len() != "binding"@.len());
}

/// The members of such a message: the target asks the source to listen.
pub open spec fn session_start_names() -> Seq<Seq<char>> {
    seq!["message_type"@, "binding"@]
}

/// No name occurs twice.
pub proof fn lemma_session_start_names()
    ensures
        session_start_names().no_duplicates(),
{
    reveal_strlit("message_type");
    reveal_strlit("binding");
    assert("message_type"@.len() != "binding"@.len());
}

/// The members of such a message: the source is ready to listen.
pub open spec fn session_ready_names() -> Seq<Seq<char>> {
    seq!["message_type"@, "session_id"@]
}

/// No name occurs twice.
pub proof fn lemma_session_ready_names()
    ensures
        session_ready_names().no_duplicates(),
{
    reveal_strlit("message_type");
    reveal_strlit("session_id");
    assert("message_type"@.len() != "session_id"@.len());
}

/// The members of such a message: the source's phase.
pub open spec fn session_state_names() -> Seq<Seq<char>> {
    seq!["message_type"@, "session_id"@, "phase"@]
}

/// No name occurs twice.
pub proof fn lemma_session_state_names()
    ensures
        session_state_names().no_duplicates(),
{
    reveal_strlit("message_type");
    reveal_strlit("session_id");
    reveal_strlit("phase");
    assert("message_type"@.len() != "session_id"@.len());
    assert("message_type"@.len() != "phase"@.len());
    assert("session_id"@.len() != "phase"@.len());
}

/// The members of such a message: the controller still holds the key.
pub open spec fn session_keepalive_names() -> Seq<Seq<char>> {
    seq!["message_type"@, "session_id"@]
}

/// No name occurs twice.
pub proof fn lemma_session_keepalive_names()
    ensures
        session_keepalive_names().no_duplicates(),
{
    reveal_strlit("message_type");
    reveal_strlit("session_id");
    assert("message_type"@.len() != "session_id"@.len());
}

/// The members of such a message: the controller let go of the key.
pub open spec fn session_stop_names() -> Seq<Seq<char>> {
    seq!["message_type"@, "session_id"@]
}

/// No name occurs twice.
pub proof fn lemma_session_stop_names()
    ensures
        session_stop_names().no_duplicates(),
{
    reveal_strlit("message_type");
    reveal_strlit("session_id");
    assert("message_type"@.len() != "session_id"@.len());
}

/// The members of such a message: the session is called off.
pub open spec fn session_cancel_names() -> Seq<Seq<char>> {
    seq!["message_type"@, "session_id"@]
}

/// No name occurs twice.
pub proof fn lemma_session_cancel_names()
    ensures
        session_cancel_names().no_duplicates(),
{
    reveal_strlit("message_type");
    reveal_strlit("session_id");
    assert("message_type"@.len() != "session_id"@.len());
}

/// The members of such a message: a piece of text to type.
pub open spec fn text_chunk_names() -> Seq<Seq<char>> {
    seq!["message_type"@, "session_id"@, "sequence"@, "context_token"@, "text"@, "is_final"@]
}

/// No name occurs twice.
pub proof fn lemma_text_chunk_names()
    ensures
        text_chunk_names().no_duplicates(),
{
    reveal_strlit("message_type");
    reveal_strlit("session_id");
    reveal_strlit("sequence");
    reveal_strlit("context_token");
    reveal_strlit("text");
    reveal_strlit("is_final");
    assert(text::mark("message_type"@) == (12nat, 'm', 't', 'e'));
    assert(text::mark("session_id"@) == (10nat, 's', 'i', ' '));
    assert(text::mark("sequence"@) == (8nat, 's', ' ', ' '));
    assert(text::mark("context_token"@) == (13nat, 'c', 't', 'e'));
    assert(text::mark("text"@) == (4nat, 't', ' ', ' '));
    assert(text::mark("is_final"@) == (8nat, 'i', ' ', ' '));
}

/// The members of such a message: what became of a piece.
pub open spec fn chunk_ack_names() -> Seq<Seq<char>> {
    seq!["message_type"@, "session_id"@, "sequence"@, "ack_status"@]
}

/// No name occurs twice.
pub proof fn lemma_chunk_ack_names()
    ensures
        chunk_ack_names().no_duplicates(),
{
    reveal_strlit("message_type");
    reveal_strlit("session_id");
    reveal_strlit("sequence");
    reveal_strlit("ack_status");
    assert(text::mark("message_type"@) == (12nat, 'm', 't', 'e'));
    assert(text::mark("session_id"@) == (10nat, 's', 'i', ' '));
    assert(text::mark("sequence"@) == (8nat, 's', ' ', ' '));
    assert(text::mark("ack_status"@) == (10nat, 'a', 'u', ' '));
}

/// The members of such a message: asks what became of a piece.
pub open spec fn chunk_query_names() -> Seq<Seq<char>> {
    seq!["message_type"@, "session_id"@, "sequence"@]
}

/// No name occurs twice.
pub proof fn lemma_chunk_query_names()
    ensures
        chunk_query_names().no_duplicates(),
{
    reveal_strlit("message_type");
    reveal_strlit("session_id");
    reveal_strlit("sequence");
    assert("message_type"@.len() != "session_id"@.len());
    assert("message_type"@.len() != "sequence"@.len());
    assert("session_id"@.len() != "sequence"@.len());
}

/// The members of such a message: no piece after the given one will follow.
pub open spec fn session_end_names() -> Seq<Seq<char>> {
    seq!["message_type"@, "session_id"@, "last_sequence"@]
}

/// No name occurs twice.
pub proof fn lemma_session_end_names()
    ensures
        session_end_names().no_duplicates(),
{
    reveal_strlit("message_type");
    reveal_strlit("session_id");
    reveal_strlit("last_sequence");
    assert("message_type"@.len() != "session_id"@.len());
    assert("message_type"@.len() != "last_sequence"@.len());
    assert("session_id"@.len() != "last_sequence"@.len());
}

/// The members of such a message: the session is held up.
pub open spec fn session_pause_names() -> Seq<Seq<char>> {
    seq!["message_type"@, "session_id"@]
}

/// No name occurs twice.
pub proof fn lemma_session_pause_names()
    ensures
        session_pause_names().no_duplicates(),
{
    reveal_strlit("message_type");
    reveal_strlit("session_id");
    assert("message_type"@.len() != "session_id"@.len());
}

/// The members of such a message: the target has a new input context.
pub open spec fn session_resume_names() -> Seq<Seq<char>> {
    seq!["message_type"@, "session_id"@, "context_token"@, "target_app"@]
}

/// No name occurs twice.
pub proof fn lemma_session_resume_names()
    ensures
        session_resume_names().no_duplicates(),
{
    reveal_strlit("message_type");
    reveal_strlit("session_id");
    reveal_strlit("context_token");
    reveal_strlit("target_app");
    assert(text::mark("message_type"@) == (12nat, 'm', 't', 'e'));
    assert(text::mark("session_id"@) == (10nat, 's', 'i', ' '));
    assert(text::mark("context_token"@) == (13nat, 'c', 't', 'e'));
    assert(text::mark("target_app"@) == (10nat, 't', 'p', ' '));
}

/// The members of such a message: something went wrong.
pub open spec fn error_names() -> Seq<Seq<char>> {
    seq!["message_type"@, "session_id"@, "code"@]
}

/// No name occurs twice.
pub proof fn lemma_error_names()
    ensures
        error_names().no_duplicates(),
{
    reveal_strlit("message_type");
    reveal_strlit("session_id");
    reveal_strlit("code");
    assert("message_type"@.len() != "session_id"@.len());
    assert("message_type"@.len() != "code"@.len());
    assert("session_id"@.len() != "code"@.len());
}

/// The JSON of a message.
pub open spec fn payload_json(p: PayloadView) -> JsonView {
    match p {
        PayloadView::Hello { device_id, name } => json::listed(
            hello_names(),
            seq![JsonView::Text("hello"@), JsonView::Text(device_id), JsonView::Text(name)],
        ),
        PayloadView::PairConfirm => json::listed(pair_confirm_names(), seq![JsonView::Text("pair_confirm"@)]),
        PayloadView::BindRequest { binding } => json::listed(
            bind_request_names(),
            seq![JsonView::Text("bind_request"@), binding_json(binding)],
        ),
        PayloadView::SessionBound { binding } => json::listed(
            session_bound_names(),
            seq![JsonView::Text("session_bound"@), binding_json(binding)],
        ),
        PayloadView::SessionStart { binding } => json::listed(
            session_start_names(),
            seq![JsonView::Text("session_start"@), binding_json(binding)],
        ),
        PayloadView::SessionReady { session_id } => json::listed(
            session_ready_names(),
            seq![JsonView::Text("session_ready"@), JsonView::Text(ids::id_text(session_id))],
        ),
        PayloadView::SessionState { session_id, phase } => json::listed(
            session_state_names(),
            seq![
                JsonView::Text("session_state"@),
                JsonView::Text(ids::id_text(session_id)),
                JsonView::Text(protocol::phase_name(phase)),
            ],
        ),
        PayloadView::SessionKeepalive { session_id } => json::listed(
            session_keepalive_names(),
            seq![JsonView::Text("session_keepalive"@), JsonView::Text(ids::id_text(session_id))],
        ),
        PayloadView::SessionStop { session_id } => json::listed(
            session_stop_names(),
            seq![JsonView::Text("session_stop"@), JsonView::Text(ids::id_text(session_id))],
        ),
        PayloadView::SessionCancel { session_id } => json::listed(
            session_cancel_names(),
            seq![JsonView::Text("session_cancel"@), JsonView::Text(ids::id_text(session_id))],
        ),
        PayloadView::TextChunk { session_id, sequence, context_token, text, is_final } => json::listed(
            text_chunk_names(),
            seq![
                JsonView::Text("text_chunk"@),
                JsonView::Text(ids::id_text(session_id)),
                JsonView::Unsigned(sequence),
                JsonView::Text(context_token),
                JsonView::Text(text),
                JsonView::Bool(is_final),
            ],
        ),
        PayloadView::ChunkAck { session_id, sequence, ack_status } => json::listed(
            chunk_ack_names(),
            seq![
                JsonView::Text("chunk_ack"@),
                JsonView::Text(ids::id_text(session_id)),
                JsonView::Unsigned(sequence),
                JsonView::Text(protocol::ack_name(ack_status)),
            ],
        ),
        PayloadView::ChunkQuery { session_id, sequence } => json::listed(
            chunk_query_names(),
            seq![
                JsonView::Text("chunk_query"@),
                JsonView::Text(ids::id_text(session_id)),
                JsonView::Unsigned(sequence),
            ],
        ),
        PayloadView::SessionEnd { session_id, last_sequence } => json::listed(
            session_end_names(),
            seq![
                JsonView::Text("session_end"@),
                JsonView::Text(ids::id_text(session_id)),
                JsonView::Unsigned(last_sequence),
            ],
        ),
        PayloadView::SessionPause { session_id } => json::listed(
            session_pause_names(),
            seq![JsonView::Text("session_pause"@), JsonView::Text(ids::id_text(session_id))],
        ),
        PayloadView::SessionResume { session_id, context_token, target_app } => json::listed(
            session_resume_names(),
            seq![
                JsonView::Text("session_resume"@),
                JsonView::Text(ids::id_text(session_id)),
                JsonView::Text(context_token),
                JsonView::Text(target_app),
            ],
        ),
        PayloadView::Error { session_id, code } => json::listed(
            error_names(),
            seq![JsonView::Text("error"@), maybe_id_json(session_id), JsonView::Text(code)],
        ),
    }
}

/// The members of what goes on the wire.
pub open spec fn wire_names() -> Seq<Seq<char>> {
    seq!["protocol_version"@, "request_id"@, "payload"@]
}

/// No name occurs twice.
pub proof fn lemma_wire_names()
    ensures
        wire_names().no_duplicates(),
{
    reveal_strlit("protocol_version");
    reveal_strlit("request_id");
    reveal_strlit("payload");
    assert("protocol_version"@.len() != "request_id"@.len());
    assert("protocol_version"@.len() != "payload"@.len());
    assert("request_id"@.len() != "payload"@.len());
}

/// The JSON of what goes on the wire.
pub open spec fn wire_json(x: WireView) -> JsonView {
    json::listed(
        wire_names(),
        seq![
            JsonView::Unsigned(x.protocol_version as u64),
            JsonView::Text(ids::id_text(x.request_id)),
            payload_json(x.payload),
        ],
    )
}

/// The bytes of what goes on the wire.
pub open spec fn wire_bytes(x: WireView) -> Seq<u8> {
    encode_utf8(json::json_text(wire_json(x)))
}

// ---------------------------------------------------------------- reading fields

/// A field that is a string.
pub open spec fn text_field(f: Option<JsonView>) -> Option<Seq<char>> {
    match f {
        Some(JsonView::Text(s)) => Some(s),
        _ => None,
    }
}

/// A field that is an identifier.
pub open spec fn id_field(f: Option<JsonView>) -> Option<u128> {
    match f {
        Some(JsonView::Text(s)) => ids::id_parsed(s),
        _ => None,
    }
}

/// A field that is an identifier, null or absent.
pub open spec fn maybe_id_field(f: Option<JsonView>) -> Option<Option<u128>> {
    match f {
        None | Some(JsonView::Null) => Some(None),
        Some(JsonView::Text(s)) => match ids::id_parsed(s) {
            Some(id) => Some(Some(id)),
            None => None,
        },
        _ => None,
    }
}

/// A field that is an unsigned number.
pub open spec fn number_field(f: Option<JsonView>) -> Option<u64> {
    match f {
        Some(JsonView::Unsigned(n)) => Some(n),
        _ => None,
    }
}

/// A field that is a truth value.
pub open spec fn flag_field(f: Option<JsonView>) -> Option<bool> {
    match f {
        Some(JsonView::Bool(b)) => Some(b),
        _ => None,
    }
}

/// Whether a value holds nothing: null and, inside a message, the empty object.
pub open spec fn holds_nothing(j: JsonView, inside: bool) -> bool {
    match j {
        JsonView::Null => true,
        JsonView::Object(entries) => inside && entries.len() == 0,
        _ => false,
    }
}

/// The name that a value gives: a string, or an object whose one member has the name
/// and holds nothing.
pub open spec fn name_given(j: JsonView, inside: bool) -> Option<Seq<char>> {
    match j {
        JsonView::Text(s) => Some(s),
        JsonView::Object(entries) => if entries.len() == 1 && holds_nothing(entries[0].1, inside) {
            Some(entries[0].0)
        } else {
            None
        },
        _ => None,
    }
}

/// The name that a field gives.
pub open spec fn name_field(f: Option<JsonView>) -> Option<Seq<char>> {
    match f {
        Some(j) => name_given(j, true),
        None => None,
    }
}

/// A field that names an acknowledgement.
pub open spec fn ack_field(f: Option<JsonView>) -> Option<Ack> {
    match name_field(f) {
        Some(s) => protocol::ack_named(s),
        None => None,
    }
}

/// A field that names a phase.
pub open spec fn phase_field(f: Option<JsonView>) -> Option<Phase> {
    match name_field(f) {
        Some(s) => protocol::phase_named(s),
        None => None,
    }
}

/// A field that names a mode.
pub open spec fn mode_field(f: Option<JsonView>) -> Option<Mode> {
    match name_field(f) {
        Some(s) => protocol::mode_named(s),
        None => None,
    }
}

/// The binding that a JSON value stands for.
pub open spec fn binding_of(j: JsonView) -> Option<BindingView> {
    match json::fields(j, binding_names()) {
        Some(f) => match (id_field(f[0]), text_field(f[1]), text_field(f[2]), text_field(f[3]), mode_field(f[4]), text_field(f[5]), text_field(f[6]), number_field(f[7])) {
            (Some(session_id), Some(source_device_id), Some(target_device_id), Some(controller_device_id), Some(input_mode), Some(context_token), Some(target_app), Some(created_ms)) => Some(
                BindingView { session_id, source_device_id, target_device_id, controller_device_id, input_mode, context_token, target_app, created_ms },
            ),
            _ => None,
        },
        None => None,
    }
}

/// A field that is a binding.
pub open spec fn binding_field(f: Option<JsonView>) -> Option<BindingView> {
    match f {
        Some(j) => binding_of(j),
        None => None,
    }
}

/// The kind that a message says it is of: the member `message_type`, or the first of a
/// list.
pub open spec fn kind_of(j: JsonView) -> Option<Seq<char>> {
    match j {
        JsonView::Object(_) => j.text_at("message_type"@),
        JsonView::List(items) => if items.len() > 0 {
            text_field(Some(items[0]))
        } else {
            None
        },
        _ => None,
    }
}

/// What such a message says: a device names itself.
pub open spec fn hello_of(j: JsonView) -> Option<PayloadView> {
    match json::fields(j, hello_names()) {
        Some(f) => match (text_field(f[1]), text_field(f[2])) {
            (Some(device_id), Some(name)) => Some(PayloadView::Hello { device_id, name }),
            _ => None,
        },
        None => None,
    }
}

/// What such a message says: the other side's user has confirmed the pairing code.
pub open spec fn pair_confirm_of(j: JsonView) -> Option<PayloadView> {
    match j {
        JsonView::Object(_) => Some(PayloadView::PairConfirm),
        JsonView::List(items) => if items.len() == 1 {
            Some(PayloadView::PairConfirm)
        } else {
            None
        },
        _ => None,
    }
}

/// What such a message says: the source asks the target to prepare an input context.
pub open spec fn bind_request_of(j: JsonView) -> Option<PayloadView> {
    match json::fields(j, bind_request_names()) {
        Some(f) => match binding_field(f[1]) {
            Some(binding) => Some(PayloadView::BindRequest { binding }),
            _ => None,
        },
        None => None,
    }
}

/// What such a message says: the target has prepared one.
pub open spec fn session_bound_of(j: JsonView) -> Option<PayloadView> {
    match json::fields(j, session_bound_names()) {
        Some(f) => match binding_field(f[1]) {
            Some(binding) => Some(PayloadView::SessionBound { binding }),
            _ => None,
        },
        None => None,
    }
}

/// What such a message says: the target asks the source to listen.
pub open spec fn session_start_of(j: JsonView) -> Option<PayloadView> {
    match json::fields(j, session_start_names()) {
        Some(f) => match binding_field(f[1]) {
            Some(binding) => Some(PayloadView::SessionStart { binding }),
            _ => None,
        },
        None => None,
    }
}

/// What such a message says: the source is ready to listen.
pub open spec fn session_ready_of(j: JsonView) -> Option<PayloadView> {
    match json::fields(j, session_ready_names()) {
        Some(f) => match id_field(f[1]) {
            Some(session_id) => Some(PayloadView::SessionReady { session_id }),
            _ => None,
        },
        None => None,
    }
}

/// What such a message says: the source's phase.
pub open spec fn session_state_of(j: JsonView) -> Option<PayloadView> {
    match json::fields(j, session_state_names()) {
        Some(f) => match (id_field(f[1]), phase_field(f[2])) {
            (Some(session_id), Some(phase)) => Some(PayloadView::SessionState { session_id, phase }),
            _ => None,
        },
        None => None,
    }
}

/// What such a message says: the controller still holds the key.
pub open spec fn session_keepalive_of(j: JsonView) -> Option<PayloadView> {
    match json::fields(j, session_keepalive_names()) {
        Some(f) => match id_field(f[1]) {
            Some(session_id) => Some(PayloadView::SessionKeepalive { session_id }),
            _ => None,
        },
        None => None,
    }
}

/// What such a message says: the controller let go of the key.
pub open spec fn session_stop_of(j: JsonView) -> Option<PayloadView> {
    match json::fields(j, session_stop_names()) {
        Some(f) => match id_field(f[1]) {
            Some(session_id) => Some(PayloadView::SessionStop { session_id }),
            _ => None,
        },
        None => None,
    }
}

/// What such a message says: the session is called off.
pub open spec fn session_cancel_of(j: JsonView) -> Option<PayloadView> {
    match json::fields(j, session_cancel_names()) {
        Some(f) => match id_field(f[1]) {
            Some(session_id) => Some(PayloadView::SessionCancel { session_id }),
            _ => None,
        },
        None => None,
    }
}

/// What such a message says: a piece of text to type.
pub open spec fn text_chunk_of(j: JsonView) -> Option<PayloadView> {
    match json::fields(j, text_chunk_names()) {
        Some(f) => match (id_field(f[1]), number_field(f[2]), text_field(f[3]), text_field(f[4]), flag_field(f[5])) {
            (Some(session_id), Some(sequence), Some(context_token), Some(text), Some(is_final)) => Some(PayloadView::TextChunk { session_id, sequence, context_token, text, is_final }),
            _ => None,
        },
        None => None,
    }
}

/// What such a message says: what became of a piece.
pub open spec fn chunk_ack_of(j: JsonView) -> Option<PayloadView> {
    match json::fields(j, chunk_ack_names()) {
        Some(f) => match (id_field(f[1]), number_field(f[2]), ack_field(f[3])) {
            (Some(session_id), Some(sequence), Some(ack_status)) => Some(PayloadView::ChunkAck { session_id, sequence, ack_status }),
            _ => None,
        },
        None => None,
    }
}

/// What such a message says: asks what became of a piece.
pub open spec fn chunk_query_of(j: JsonView) -> Option<PayloadView> {
    match json::fields(j, chunk_query_names()) {
        Some(f) => match (id_field(f[1]), number_field(f[2])) {
            (Some(session_id), Some(sequence)) => Some(PayloadView::ChunkQuery { session_id, sequence }),
            _ => None,
        },
        None => None,
    }
}

/// What such a message says: no piece after the given one will follow.
pub open spec fn session_end_of(j: JsonView) -> Option<PayloadView> {
    match json::fields(j, session_end_names()) {
        Some(f) => match (id_field(f[1]), number_field(f[2])) {
            (Some(session_id), Some(last_sequence)) => Some(PayloadView::SessionEnd { session_id, last_sequence }),
            _ => None,
        },
        None => None,
    }
}

/// What such a message says: the session is held up.
pub open spec fn session_pause_of(j: JsonView) -> Option<PayloadView> {
    match json::fields(j, session_pause_names()) {
        Some(f) => match id_field(f[1]) {
            Some(session_id) => Some(PayloadView::SessionPause { session_id }),
            _ => None,
        },
        None => None,
    }
}

/// What such a message says: the target has a new input context.
pub open spec fn session_resume_of(j: JsonView) -> Option<PayloadView> {
    match json::fields(j, session_resume_names()) {
        Some(f) => match (id_field(f[1]), text_field(f[2]), text_field(f[3])) {
            (Some(session_id), Some(context_token), Some(target_app)) => Some(PayloadView::SessionResume { session_id, context_token, target_app }),
            _ => None,
        },
        None => None,
    }
}

/// What such a message says: something went wrong.
pub open spec fn error_of(j: JsonView) -> Option<PayloadView> {
    match json::fields(j, error_names()) {
        Some(f) => match (maybe_id_field(f[1]), text_field(f[2])) {
            (Some(session_id), Some(code)) => Some(PayloadView::Error { session_id, code }),
            _ => None,
        },
        None => None,
    }
}

/// The message that a JSON value stands for.
pub open spec fn payload_of(j: JsonView) -> Option<PayloadView> {
    match kind_of(j) {
        Some(kind) => if kind == "hello"@ {
            hello_of(j)
        } else if kind == "pair_confirm"@ {
            pair_confirm_of(j)
        } else if kind == "bind_request"@ {
            bind_request_of(j)
        } else if kind == "session_bound"@ {
            session_bound_of(j)
        } else if kind == "session_start"@ {
            session_start_of(j)
        } else if kind == "session_ready"@ {
            session_ready_of(j)
        } else if kind == "session_state"@ {
            session_state_of(j)
        } else if kind == "session_keepalive"@ {
            session_keepalive_of(j)
        } else if kind == "session_stop"@ {
            session_stop_of(j)
        } else if kind == "session_cancel"@ {
            session_cancel_of(j)
        } else if kind == "text_chunk"@ {
            text_chunk_of(j)
        } else if kind == "chunk_ack"@ {
            chunk_ack_of(j)
        } else if kind == "chunk_query"@ {
            chunk_query_of(j)
        } else if kind == "session_end"@ {
            session_end_of(j)
        } else if kind == "session_pause"@ {
            session_pause_of(j)
        } else if kind == "session_resume"@ {
            session_resume_of(j)
        } else if kind == "error"@ {
            error_of(j)
        } else {
            None
        },
        None => None,
    }
}

/// What on the wire a JSON value stands for.
pub open spec fn wire_of(j: JsonView) -> Option<WireView> {
    match json::fields(j, wire_names()) {
        Some(f) => match (number_field(f[0]), id_field(f[1]), f[2]) {
            (Some(version), Some(request_id), Some(p)) => match payload_of(p) {
                Some(payload) => if version <= u16::MAX {
                    Some(WireView { protocol_version: version as u16, request_id, payload })
                } else {
                    None
                },
                None => None,
            },
            _ => None,
        },
        None => None,
    }
}

/// What the bytes on the wire say. No object may name a member twice; a confirmation that a
/// device pairs may say more, and there only its kind may not come twice.
pub open spec fn wire_read(bytes: Seq<u8>) -> Option<WireView> {
    match json::parsed(bytes) {
        Some(j) => match wire_of(j) {
            Some(x) => if once::read_once(bytes) is Some || (x.payload is PairConfirm && once::named_once(
                bytes,
                j,
                "message_type"@,
            )) {
                Some(x)
            } else {
                None
            },
            None => None,
        },
        None => None,
    }
}

/// What the bytes on the wire say, or the code of the refusal.
pub open spec fn wire_decoded(bytes: Seq<u8>) -> Result<WireView, Seq<char>> {
    if bytes.len() > MAX_FRAME - 32 {
        Err("message_too_large"@)
    } else {
        match wire_read(bytes) {
            Some(x) => if x.protocol_version != VERSION || x.request_id == 0 {
                Err("protocol_version"@)
            } else {
                Ok(x)
            },
            None => Err("invalid_message"@),
        }
    }
}

// ---------------------------------------------------------------- what is known

/// The text of the binding's identifier is read as that identifier.
pub open spec fn binding_read_back(b: BindingView) -> bool {
    ids::id_parsed(ids::id_text(b.session_id)) == Some(b.session_id)
}

/// The texts of the message's identifiers are read as those identifiers.
pub open spec fn payload_read_back(p: PayloadView) -> bool {
    match p {
        PayloadView::BindRequest { binding } => binding_read_back(binding),
        PayloadView::SessionBound { binding } => binding_read_back(binding),
        PayloadView::SessionStart { binding } => binding_read_back(binding),
        PayloadView::SessionReady { session_id, .. } => ids::id_parsed(ids::id_text(session_id)) == Some(session_id),
        PayloadView::SessionState { session_id, .. } => ids::id_parsed(ids::id_text(session_id)) == Some(session_id),
        PayloadView::SessionKeepalive { session_id, .. } => ids::id_parsed(ids::id_text(session_id)) == Some(session_id),
        PayloadView::SessionStop { session_id, .. } => ids::id_parsed(ids::id_text(session_id)) == Some(session_id),
        PayloadView::SessionCancel { session_id, .. } => ids::id_parsed(ids::id_text(session_id)) == Some(session_id),
        PayloadView::TextChunk { session_id, .. } => ids::id_parsed(ids::id_text(session_id)) == Some(session_id),
        PayloadView::ChunkAck { session_id, .. } => ids::id_parsed(ids::id_text(session_id)) == Some(session_id),
        PayloadView::ChunkQuery { session_id, .. } => ids::id_parsed(ids::id_text(session_id)) == Some(session_id),
        PayloadView::SessionEnd { session_id, .. } => ids::id_parsed(ids::id_text(session_id)) == Some(session_id),
        PayloadView::SessionPause { session_id, .. } => ids::id_parsed(ids::id_text(session_id)) == Some(session_id),
        PayloadView::SessionResume { session_id, .. } => ids::id_parsed(ids::id_text(session_id)) == Some(session_id),
        PayloadView::Error { session_id, .. } => match session_id {
            Some(id) => ids::id_parsed(ids::id_text(id)) == Some(id),
            None => true,
        },
        _ => true,
    }
}

/// The JSON of a binding is canonical, and stands for the binding.
pub proof fn lemma_binding(b: BindingView)
    requires
        binding_read_back(b),
    ensures
        json::canonical(binding_json(b), 1),
        binding_of(binding_json(b)) == Some(b),
{
    let values = binding_values(b);
    lemma_binding_names();
    protocol::lemma_mode_names(b.input_mode);
    json::lemma_listed(binding_names(), values, 0);
    let f = json::fields(binding_json(b), binding_names())->0;
    assert(f[0] == Some(values[0]));
    assert(f[1] == Some(values[1]));
    assert(f[2] == Some(values[2]));
    assert(f[3] == Some(values[3]));
    assert(f[4] == Some(values[4]));
    assert(f[5] == Some(values[5]));
    assert(f[6] == Some(values[6]));
    assert(f[7] == Some(values[7]));
    assert(binding_of(binding_json(b))->0 =~= b);
}

/// The marks of the kinds of messages: no two kinds have the same.
pub proof fn lemma_kinds()
    ensures
        text::mark("hello"@) == (5nat, 'h', ' ', ' '),
        text::mark("pair_confirm"@) == (12nat, 'p', 'f', 'm'),
        text::mark("bind_request"@) == (12nat, 'b', 'u', 't'),
        text::mark("session_bound"@) == (13nat, 's', 'b', 'n'),
        text::mark("session_start"@) == (13nat, 's', 's', 'r'),
        text::mark("session_ready"@) == (13nat, 's', 'r', 'd'),
        text::mark("session_state"@) == (13nat, 's', 's', 't'),
        text::mark("session_keepalive"@) == (17nat, 's', 'k', 'p'),
        text::mark("session_stop"@) == (12nat, 's', 's', 'p'),
        text::mark("session_cancel"@) == (14nat, 's', 'c', 'c'),
        text::mark("text_chunk"@) == (10nat, 't', 'n', ' '),
        text::mark("chunk_ack"@) == (9nat, 'c', 'k', ' '),
        text::mark("chunk_query"@) == (11nat, 'c', 'e', ' '),
        text::mark("session_end"@) == (11nat, 's', 'e', ' '),
        text::mark("session_pause"@) == (13nat, 's', 'p', 's'),
        text::mark("session_resume"@) == (14nat, 's', 'r', 'u'),
        text::mark("error"@) == (5nat, 'e', ' ', ' '),
{
    reveal_strlit("hello");
    reveal_strlit("pair_confirm");
    reveal_strlit("bind_request");
    reveal_strlit("session_bound");
    reveal_strlit("session_start");
    reveal_strlit("session_ready");
    reveal_strlit("session_state");
    reveal_strlit("session_keepalive");
    reveal_strlit("session_stop");
    reveal_strlit("session_cancel");
    reveal_strlit("text_chunk");
    reveal_strlit("chunk_ack");
    reveal_strlit("chunk_query");
    reveal_strlit("session_end");
    reveal_strlit("session_pause");
    reveal_strlit("session_resume");
    reveal_strlit("error");
}

/// The JSON of such a message is canonical, and stands for it: a device names itself.
proof fn lemma_hello(device_id: Seq<char>, name: Seq<char>)
    requires
        payload_read_back(PayloadView::Hello { device_id, name }),
    ensures
        json::canonical(payload_json(PayloadView::Hello { device_id, name }), 2),
        payload_of(payload_json(PayloadView::Hello { device_id, name })) == Some(PayloadView::Hello { device_id, name }),
{
    let p = PayloadView::Hello { device_id, name };
    let j = payload_json(p);
    let values = seq![JsonView::Text("hello"@), JsonView::Text(device_id), JsonView::Text(name)];
    lemma_hello_names();
    json::lemma_listed(hello_names(), values, 1);
    assert(j == json::listed(hello_names(), values));
    assert(hello_names()[0] == "message_type"@);
    assert(kind_of(j) == Some("hello"@));
    let f = json::fields(j, hello_names())->0;
    assert(f[1] == Some(values[1]));
    assert(f[2] == Some(values[2]));
    lemma_kinds();
    assert(payload_of(j) == hello_of(j));
}

/// The JSON of such a message is canonical, and stands for it: the other side's user has confirmed the pairing code.
proof fn lemma_pair_confirm()
    requires
        payload_read_back(PayloadView::PairConfirm),
    ensures
        json::canonical(payload_json(PayloadView::PairConfirm), 2),
        payload_of(payload_json(PayloadView::PairConfirm)) == Some(PayloadView::PairConfirm),
{
    let p = PayloadView::PairConfirm;
    let j = payload_json(p);
    let values = seq![JsonView::Text("pair_confirm"@)];
    lemma_pair_confirm_names();
    json::lemma_listed(pair_confirm_names(), values, 1);
    assert(j == json::listed(pair_confirm_names(), values));
    assert(pair_confirm_names()[0] == "message_type"@);
    assert(kind_of(j) == Some("pair_confirm"@));
    lemma_kinds();
    assert(payload_of(j) == pair_confirm_of(j));
}

/// The JSON of such a message is canonical, and stands for it: the source asks the target to prepare an input context.
proof fn lemma_bind_request(binding: BindingView)
    requires
        payload_read_back(PayloadView::BindRequest { binding }),
    ensures
        json::canonical(payload_json(PayloadView::BindRequest { binding }), 2),
        payload_of(payload_json(PayloadView::BindRequest { binding })) == Some(PayloadView::BindRequest { binding }),
{
    let p = PayloadView::BindRequest { binding };
    let j = payload_json(p);
    let values = seq![JsonView::Text("bind_request"@), binding_json(binding)];
    lemma_bind_request_names();
    lemma_binding(binding);
    json::lemma_listed(bind_request_names(), values, 1);
    assert(j == json::listed(bind_request_names(), values));
    assert(bind_request_names()[0] == "message_type"@);
    assert(kind_of(j) == Some("bind_request"@));
    let f = json::fields(j, bind_request_names())->0;
    assert(f[1] == Some(values[1]));
    lemma_kinds();
    assert(payload_of(j) == bind_request_of(j));
}

/// The JSON of such a message is canonical, and stands for it: the target has prepared one.
proof fn lemma_session_bound(binding: BindingView)
    requires
        payload_read_back(PayloadView::SessionBound { binding }),
    ensures
        json::canonical(payload_json(PayloadView::SessionBound { binding }), 2),
        payload_of(payload_json(PayloadView::SessionBound { binding })) == Some(PayloadView::SessionBound { binding }),
{
    let p = PayloadView::SessionBound { binding };
    let j = payload_json(p);
    let values = seq![JsonView::Text("session_bound"@), binding_json(binding)];
    lemma_session_bound_names();
    lemma_binding(binding);
    json::lemma_listed(session_bound_names(), values, 1);
    assert(j == json::listed(session_bound_names(), values));
    assert(session_bound_names()[0] == "message_type"@);
    assert(kind_of(j) == Some("session_bound"@));
    let f = json::fields(j, session_bound_names())->0;
    assert(f[1] == Some(values[1]));
    lemma_kinds();
    assert(payload_of(j) == session_bound_of(j));
}

/// The JSON of such a message is canonical, and stands for it: the target asks the source to listen.
proof fn lemma_session_start(binding: BindingView)
    requires
        payload_read_back(PayloadView::SessionStart { binding }),
    ensures
        json::canonical(payload_json(PayloadView::SessionStart { binding }), 2),
        payload_of(payload_json(PayloadView::SessionStart { binding })) == Some(PayloadView::SessionStart { binding }),
{
    let p = PayloadView::SessionStart { binding };
    let j = payload_json(p);
    let values = seq![JsonView::Text("session_start"@), binding_json(binding)];
    lemma_session_start_names();
    lemma_binding(binding);
    json::lemma_listed(session_start_names(), values, 1);
    assert(j == json::listed(session_start_names(), values));
    assert(session_start_names()[0] == "message_type"@);
    assert(kind_of(j) == Some("session_start"@));
    let f = json::fields(j, session_start_names())->0;
    assert(f[1] == Some(values[1]));
    lemma_kinds();
    assert(payload_of(j) == session_start_of(j));
}

/// The JSON of such a message is canonical, and stands for it: the source is ready to listen.
proof fn lemma_session_ready(session_id: u128)
    requires
        payload_read_back(PayloadView::SessionReady { session_id }),
    ensures
        json::canonical(payload_json(PayloadView::SessionReady { session_id }), 2),
        payload_of(payload_json(PayloadView::SessionReady { session_id })) == Some(PayloadView::SessionReady { session_id }),
{
    let p = PayloadView::SessionReady { session_id };
    let j = payload_json(p);
    let values = seq![JsonView::Text("session_ready"@), JsonView::Text(ids::id_text(session_id))];
    lemma_session_ready_names();
    json::lemma_listed(session_ready_names(), values, 1);
    assert(j == json::listed(session_ready_names(), values));
    assert(session_ready_names()[0] == "message_type"@);
    assert(kind_of(j) == Some("session_ready"@));
    let f = json::fields(j, session_ready_names())->0;
    assert(f[1] == Some(values[1]));
    lemma_kinds();
    assert(payload_of(j) == session_ready_of(j));
}

/// The JSON of such a message is canonical, and stands for it: the source's phase.
proof fn lemma_session_state(session_id: u128, phase: Phase)
    requires
        payload_read_back(PayloadView::SessionState { session_id, phase }),
    ensures
        json::canonical(payload_json(PayloadView::SessionState { session_id, phase }), 2),
        payload_of(payload_json(PayloadView::SessionState { session_id, phase })) == Some(PayloadView::SessionState { session_id, phase }),
{
    let p = PayloadView::SessionState { session_id, phase };
    let j = payload_json(p);
    let values = seq![
        JsonView::Text("session_state"@),
        JsonView::Text(ids::id_text(session_id)),
        JsonView::Text(protocol::phase_name(phase)),
    ];
    lemma_session_state_names();
    protocol::lemma_phase_names(phase);
    json::lemma_listed(session_state_names(), values, 1);
    assert(j == json::listed(session_state_names(), values));
    assert(session_state_names()[0] == "message_type"@);
    assert(kind_of(j) == Some("session_state"@));
    let f = json::fields(j, session_state_names())->0;
    assert(f[1] == Some(values[1]));
    assert(f[2] == Some(values[2]));
    lemma_kinds();
    assert(payload_of(j) == session_state_of(j));
}

/// The JSON of such a message is canonical, and stands for it: the controller still holds the key.
proof fn lemma_session_keepalive(session_id: u128)
    requires
        payload_read_back(PayloadView::SessionKeepalive { session_id }),
    ensures
        json::canonical(payload_json(PayloadView::SessionKeepalive { session_id }), 2),
        payload_of(payload_json(PayloadView::SessionKeepalive { session_id })) == Some(PayloadView::SessionKeepalive { session_id }),
{
    let p = PayloadView::SessionKeepalive { session_id };
    let j = payload_json(p);
    let values = seq![JsonView::Text("session_keepalive"@), JsonView::Text(ids::id_text(session_id))];
    lemma_session_keepalive_names();
    json::lemma_listed(session_keepalive_names(), values, 1);
    assert(j == json::listed(session_keepalive_names(), values));
    assert(session_keepalive_names()[0] == "message_type"@);
    assert(kind_of(j) == Some("session_keepalive"@));
    let f = json::fields(j, session_keepalive_names())->0;
    assert(f[1] == Some(values[1]));
    lemma_kinds();
    assert(payload_of(j) == session_keepalive_of(j));
}

/// The JSON of such a message is canonical, and stands for it: the controller let go of the key.
proof fn lemma_session_stop(session_id: u128)
    requires
        payload_read_back(PayloadView::SessionStop { session_id }),
    ensures
        json::canonical(payload_json(PayloadView::SessionStop { session_id }), 2),
        payload_of(payload_json(PayloadView::SessionStop { session_id })) == Some(PayloadView::SessionStop { session_id }),
{
    let p = PayloadView::SessionStop { session_id };
    let j = payload_json(p);
    let values = seq![JsonView::Text("session_stop"@), JsonView::Text(ids::id_text(session_id))];
    lemma_session_stop_names();
    json::lemma_listed(session_stop_names(), values, 1);
    assert(j == json::listed(session_stop_names(), values));
    assert(session_stop_names()[0] == "message_type"@);
    assert(kind_of(j) == Some("session_stop"@));
    let f = json::fields(j, session_stop_names())->0;
    assert(f[1] == Some(values[1]));
    lemma_kinds();
    assert(payload_of(j) == session_stop_of(j));
}

/// The JSON of such a message is canonical, and stands for it: the session is called off.
proof fn lemma_session_cancel(session_id: u128)
    requires
        payload_read_back(PayloadView::SessionCancel { session_id }),
    ensures
        json::canonical(payload_json(PayloadView::SessionCancel { session_id }), 2),
        payload_of(payload_json(PayloadView::SessionCancel { session_id })) == Some(PayloadView::SessionCancel { session_id }),
{
    let p = PayloadView::SessionCancel { session_id };
    let j = payload_json(p);
    let values = seq![JsonView::Text("session_cancel"@), JsonView::Text(ids::id_text(session_id))];
    lemma_session_cancel_names();
    json::lemma_listed(session_cancel_names(), values, 1);
    assert(j == json::listed(session_cancel_names(), values));
    assert(session_cancel_names()[0] == "message_type"@);
    assert(kind_of(j) == Some("session_cancel"@));
    let f = json::fields(j, session_cancel_names())->0;
    assert(f[1] == Some(values[1]));
    lemma_kinds();
    assert(payload_of(j) == session_cancel_of(j));
}

/// The JSON of such a message is canonical, and stands for it: a piece of text to type.
proof fn lemma_text_chunk(session_id: u128, sequence: u64, context_token: Seq<char>, text: Seq<char>, is_final: bool)
    requires
        payload_read_back(PayloadView::TextChunk { session_id, sequence, context_token, text, is_final }),
    ensures
        json::canonical(payload_json(PayloadView::TextChunk { session_id, sequence, context_token, text, is_final }), 2),
        payload_of(payload_json(PayloadView::TextChunk { session_id, sequence, context_token, text, is_final })) == Some(PayloadView::TextChunk { session_id, sequence, context_token, text, is_final }),
{
    let p = PayloadView::TextChunk { session_id, sequence, context_token, text, is_final };
    let j = payload_json(p);
    let values = seq![
        JsonView::Text("text_chunk"@),
        JsonView::Text(ids::id_text(session_id)),
        JsonView::Unsigned(sequence),
        JsonView::Text(context_token),
        JsonView::Text(text),
        JsonView::Bool(is_final),
    ];
    lemma_text_chunk_names();
    json::lemma_listed(text_chunk_names(), values, 1);
    assert(j == json::listed(text_chunk_names(), values));
    assert(text_chunk_names()[0] == "message_type"@);
    assert(kind_of(j) == Some("text_chunk"@));
    let f = json::fields(j, text_chunk_names())->0;
    assert(f[1] == Some(values[1]));
    assert(f[2] == Some(values[2]));
    assert(f[3] == Some(values[3]));
    assert(f[4] == Some(values[4]));
    assert(f[5] == Some(values[5]));
    lemma_kinds();
    assert(payload_of(j) == text_chunk_of(j));
}

/// The JSON of such a message is canonical, and stands for it: what became of a piece.
proof fn lemma_chunk_ack(session_id: u128, sequence: u64, ack_status: Ack)
    requires
        payload_read_back(PayloadView::ChunkAck { session_id, sequence, ack_status }),
    ensures
        json::canonical(payload_json(PayloadView::ChunkAck { session_id, sequence, ack_status }), 2),
        payload_of(payload_json(PayloadView::ChunkAck { session_id, sequence, ack_status })) == Some(PayloadView::ChunkAck { session_id, sequence, ack_status }),
{
    let p = PayloadView::ChunkAck { session_id, sequence, ack_status };
    let j = payload_json(p);
    let values = seq![
        JsonView::Text("chunk_ack"@),
        JsonView::Text(ids::id_text(session_id)),
        JsonView::Unsigned(sequence),
        JsonView::Text(protocol::ack_name(ack_status)),
    ];
    lemma_chunk_ack_names();
    protocol::lemma_ack_names(ack_status);
    json::lemma_listed(chunk_ack_names(), values, 1);
    assert(j == json::listed(chunk_ack_names(), values));
    assert(chunk_ack_names()[0] == "message_type"@);
    assert(kind_of(j) == Some("chunk_ack"@));
    let f = json::fields(j, chunk_ack_names())->0;
    assert(f[1] == Some(values[1]));
    assert(f[2] == Some(values[2]));
    assert(f[3] == Some(values[3]));
    lemma_kinds();
    assert(payload_of(j) == chunk_ack_of(j));
}

/// The JSON of such a message is canonical, and stands for it: asks what became of a piece.
proof fn lemma_chunk_query(session_id: u128, sequence: u64)
    requires
        payload_read_back(PayloadView::ChunkQuery { session_id, sequence }),
    ensures
        json::canonical(payload_json(PayloadView::ChunkQuery { session_id, sequence }), 2),
        payload_of(payload_json(PayloadView::ChunkQuery { session_id, sequence })) == Some(PayloadView::ChunkQuery { session_id, sequence }),
{
    let p = PayloadView::ChunkQuery { session_id, sequence };
    let j = payload_json(p);
    let values = seq![
        JsonView::Text("chunk_query"@),
        JsonView::Text(ids::id_text(session_id)),
        JsonView::Unsigned(sequence),
    ];
    lemma_chunk_query_names();
    json::lemma_listed(chunk_query_names(), values, 1);
    assert(j == json::listed(chunk_query_names(), values));
    assert(chunk_query_names()[0] == "message_type"@);
    assert(kind_of(j) == Some("chunk_query"@));
    let f = json::fields(j, chunk_query_names())->0;
    assert(f[1] == Some(values[1]));
    assert(f[2] == Some(values[2]));
    lemma_kinds();
    assert(payload_of(j) == chunk_query_of(j));
}

/// The JSON of such a message is canonical, and stands for it: no piece after the given one will follow.
proof fn lemma_session_end(session_id: u128, last_sequence: u64)
    requires
        payload_read_back(PayloadView::SessionEnd { session_id, last_sequence }),
    ensures
        json::canonical(payload_json(PayloadView::SessionEnd { session_id, last_sequence }), 2),
        payload_of(payload_json(PayloadView::SessionEnd { session_id, last_sequence })) == Some(PayloadView::SessionEnd { session_id, last_sequence }),
{
    let p = PayloadView::SessionEnd { session_id, last_sequence };
    let j = payload_json(p);
    let values = seq![
        JsonView::Text("session_end"@),
        JsonView::Text(ids::id_text(session_id)),
        JsonView::Unsigned(last_sequence),
    ];
    lemma_session_end_names();
    json::lemma_listed(session_end_names(), values, 1);
    assert(j == json::listed(session_end_names(), values));
    assert(session_end_names()[0] == "message_type"@);
    assert(kind_of(j) == Some("session_end"@));
    let f = json::fields(j, session_end_names())->0;
    assert(f[1] == Some(values[1]));
    assert(f[2] == Some(values[2]));
    lemma_kinds();
    assert(payload_of(j) == session_end_of(j));
}

/// The JSON of such a message is canonical, and stands for it: the session is held up.
proof fn lemma_session_pause(session_id: u128)
    requires
        payload_read_back(PayloadView::SessionPause { session_id }),
    ensures
        json::canonical(payload_json(PayloadView::SessionPause { session_id }), 2),
        payload_of(payload_json(PayloadView::SessionPause { session_id })) == Some(PayloadView::SessionPause { session_id }),
{
    let p = PayloadView::SessionPause { session_id };
    let j = payload_json(p);
    let values = seq![JsonView::Text("session_pause"@), JsonView::Text(ids::id_text(session_id))];
    lemma_session_pause_names();
    json::lemma_listed(session_pause_names(), values, 1);
    assert(j == json::listed(session_pause_names(), values));
    assert(session_pause_names()[0] == "message_type"@);
    assert(kind_of(j) == Some("session_pause"@));
    let f = json::fields(j, session_pause_names())->0;
    assert(f[1] == Some(values[1]));
    lemma_kinds();
    assert(payload_of(j) == session_pause_of(j));
}

/// The JSON of such a message is canonical, and stands for it: the target has a new input context.
proof fn lemma_session_resume(session_id: u128, context_token: Seq<char>, target_app: Seq<char>)
    requires
        payload_read_back(PayloadView::SessionResume { session_id, context_token, target_app }),
    ensures
        json::canonical(payload_json(PayloadView::SessionResume { session_id, context_token, target_app }), 2),
        payload_of(payload_json(PayloadView::SessionResume { session_id, context_token, target_app })) == Some(PayloadView::SessionResume { session_id, context_token, target_app }),
{
    let p = PayloadView::SessionResume { session_id, context_token, target_app };
    let j = payload_json(p);
    let values = seq![
        JsonView::Text("session_resume"@),
        JsonView::Text(ids::id_text(session_id)),
        JsonView::Text(context_token),
        JsonView::Text(target_app),
    ];
    lemma_session_resume_names();
    json::lemma_listed(session_resume_names(), values, 1);
    assert(j == json::listed(session_resume_names(), values));
    assert(session_resume_names()[0] == "message_type"@);
    assert(kind_of(j) == Some("session_resume"@));
    let f = json::fields(j, session_resume_names())->0;
    assert(f[1] == Some(values[1]));
    assert(f[2] == Some(values[2]));
    assert(f[3] == Some(values[3]));
    lemma_kinds();
    assert(payload_of(j) == session_resume_of(j));
}

/// The JSON of such a message is canonical, and stands for it: something went wrong.
proof fn lemma_error(session_id: Option<u128>, code: Seq<char>)
    requires
        payload_read_back(PayloadView::Error { session_id, code }),
    ensures
        json::canonical(payload_json(PayloadView::Error { session_id, code }), 2),
        payload_of(payload_json(PayloadView::Error { session_id, code })) == Some(PayloadView::Error { session_id, code }),
{
    let p = PayloadView::Error { session_id, code };
    let j = payload_json(p);
    let values = seq![JsonView::Text("error"@), maybe_id_json(session_id), JsonView::Text(code)];
    lemma_error_names();
    json::lemma_listed(error_names(), values, 1);
    assert(j == json::listed(error_names(), values));
    assert(error_names()[0] == "message_type"@);
    assert(kind_of(j) == Some("error"@));
    let f = json::fields(j, error_names())->0;
    assert(f[1] == Some(values[1]));
    assert(f[2] == Some(values[2]));
    lemma_kinds();
    assert(payload_of(j) == error_of(j));
}

/// The JSON of a message is canonical, and stands for the message.
pub proof fn lemma_payload(p: PayloadView)
    requires
        payload_read_back(p),
    ensures
        json::canonical(payload_json(p), 2),
        payload_of(payload_json(p)) == Some(p),
{
    match p {
        PayloadView::Hello { device_id, name } => lemma_hello(device_id, name),
        PayloadView::PairConfirm => lemma_pair_confirm(),
        PayloadView::BindRequest { binding } => lemma_bind_request(binding),
        PayloadView::SessionBound { binding } => lemma_session_bound(binding),
        PayloadView::SessionStart { binding } => lemma_session_start(binding),
        PayloadView::SessionReady { session_id } => lemma_session_ready(session_id),
        PayloadView::SessionState { session_id, phase } => lemma_session_state(session_id, phase),
        PayloadView::SessionKeepalive { session_id } => lemma_session_keepalive(session_id),
        PayloadView::SessionStop { session_id } => lemma_session_stop(session_id),
        PayloadView::SessionCancel { session_id } => lemma_session_cancel(session_id),
        PayloadView::TextChunk { session_id, sequence, context_token, text, is_final } => lemma_text_chunk(session_id, sequence, context_token, text, is_final),
        PayloadView::ChunkAck { session_id, sequence, ack_status } => lemma_chunk_ack(session_id, sequence, ack_status),
        PayloadView::ChunkQuery { session_id, sequence } => lemma_chunk_query(session_id, sequence),
        PayloadView::SessionEnd { session_id, last_sequence } => lemma_session_end(session_id, last_sequence),
        PayloadView::SessionPause { session_id } => lemma_session_pause(session_id),
        PayloadView::SessionResume { session_id, context_token, target_app } => lemma_session_resume(session_id, context_token, target_app),
        PayloadView::Error { session_id, code } => lemma_error(session_id, code),
    }
}

/// The JSON of what goes on the wire is canonical, and stands for it.
pub proof fn lemma_wire(x: WireView)
    requires
        payload_read_back(x.payload),
        ids::id_parsed(ids::id_text(x.request_id)) == Some(x.request_id),
    ensures
        json::canonical(wire_json(x), 3),
        wire_of(wire_json(x)) == Some(x),
{
    let values = seq![
        JsonView::Unsigned(x.protocol_version as u64),
        JsonView::Text(ids::id_text(x.request_id)),
        payload_json(x.payload),
    ];
    lemma_wire_names();
    lemma_payload(x.payload);
    json::lemma_listed(wire_names(), values, 2);
    assert(wire_json(x) == json::listed(wire_names(), values));
    let f = json::fields(wire_json(x), wire_names())->0;
    assert(f[0] == Some(values[0]));
    assert(f[1] == Some(values[1]));
    assert(f[2] == Some(values[2]));
}

// ---------------------------------------------------------------- writing

/// An identifier that may be absent.
pub fn maybe_id(id: &Option<u128>) -> (j: Json)
    ensures
        j@ == maybe_id_json(*id),
        match *id {
            Some(id) => ids::id_parsed(ids::id_text(id)) == Some(id),
            None => true,
        },
{
    match id {
        Some(id) => Json::Text(ids::show_id(*id)),
        None => Json::Null,
    }
}

impl Binding {
    /// The names of the members of a binding.
    pub fn json_names() -> (names: Vec<&'static str>)
        ensures
            names@.len() == 8,
            json::names_view(names@) == binding_names(),
    {
        let names = vec![
            "session_id",
            "source_device_id",
            "target_device_id",
            "controller_device_id",
            "input_mode",
            "context_token",
            "target_app",
            "created_ms",
        ];
        assert(json::names_view(names@) =~= binding_names());
        names
    }

    /// The values of the members of the binding.
    pub fn json_values(&self) -> (values: Vec<Json>)
        ensures
            values@.len() == 8,
            json::items_view(values@) == binding_values(self@),
            binding_read_back(self@),
    {
        let values = vec![
            Json::Text(ids::show_id(self.session_id)),
            Json::Text(text::copy(&self.source_device_id)),
            Json::Text(text::copy(&self.target_device_id)),
            Json::Text(text::copy(&self.controller_device_id)),
            Json::Text(self.input_mode.as_str().to_owned()),
            Json::Text(text::copy(&self.context_token)),
            Json::Text(text::copy(&self.target_app)),
            Json::Unsigned(self.created_ms),
        ];
        assert(json::items_view(values@) =~= binding_values(self@));
        values
    }

    /// The JSON of the binding.
    pub fn to_json(&self) -> (j: Json)
        ensures
            j@ == binding_json(self@),
            binding_read_back(self@),
    {
        json::make_listed(Binding::json_names(), self.json_values())
    }
}

/// The JSON of such a message: a device names itself.
fn hello_to_json(device_id: &String, name: &String) -> (j: Json)
    ensures
        j@ == payload_json(PayloadView::Hello { device_id: device_id@, name: name@ }),
        payload_read_back(PayloadView::Hello { device_id: device_id@, name: name@ }),
{
    let names = vec!["message_type", "device_id", "name"];
    let values = vec![
        Json::Text("hello".to_owned()),
        Json::Text(text::copy(device_id)),
        Json::Text(text::copy(name)),
    ];
    proof {
        assert(json::names_view(names@) =~= hello_names());
        assert(json::items_view(values@) =~= seq![
            JsonView::Text("hello"@),
            JsonView::Text(device_id@),
            JsonView::Text(name@),
        ]);
    }
    json::make_listed(names, values)
}

/// The JSON of such a message: the other side's user has confirmed the pairing code.
fn pair_confirm_to_json() -> (j: Json)
    ensures
        j@ == payload_json(PayloadView::PairConfirm),
        payload_read_back(PayloadView::PairConfirm),
{
    let names = vec!["message_type"];
    let values = vec![Json::Text("pair_confirm".to_owned())];
    proof {
        assert(json::names_view(names@) =~= pair_confirm_names());
        assert(json::items_view(values@) =~= seq![JsonView::Text("pair_confirm"@)]);
    }
    json::make_listed(names, values)
}

/// The JSON of such a message: the source asks the target to prepare an input context.
fn bind_request_to_json(binding: &Binding) -> (j: Json)
    ensures
        j@ == payload_json(PayloadView::BindRequest { binding: binding@ }),
        payload_read_back(PayloadView::BindRequest { binding: binding@ }),
{
    let names = vec!["message_type", "binding"];
    let values = vec![Json::Text("bind_request".to_owned()), binding.to_json()];
    proof {
        assert(json::names_view(names@) =~= bind_request_names());
        assert(json::items_view(values@) =~= seq![JsonView::Text("bind_request"@), binding_json(binding@)]);
    }
    json::make_listed(names, values)
}

/// The JSON of such a message: the target has prepared one.
fn session_bound_to_json(binding: &Binding) -> (j: Json)
    ensures
        j@ == payload_json(PayloadView::SessionBound { binding: binding@ }),
        payload_read_back(PayloadView::SessionBound { binding: binding@ }),
{
    let names = vec!["message_type", "binding"];
    let values = vec![Json::Text("session_bound".to_owned()), binding.to_json()];
    proof {
        assert(json::names_view(names@) =~= session_bound_names());
        assert(json::items_view(values@) =~= seq![JsonView::Text("session_bound"@), binding_json(binding@)]);
    }
    json::make_listed(names, values)
}

/// The JSON of such a message: the target asks the source to listen.
fn session_start_to_json(binding: &Binding) -> (j: Json)
    ensures
        j@ == payload_json(PayloadView::SessionStart { binding: binding@ }),
        payload_read_back(PayloadView::SessionStart { binding: binding@ }),
{
    let names = vec!["message_type", "binding"];
    let values = vec![Json::Text("session_start".to_owned()), binding.to_json()];
    proof {
        assert(json::names_view(names@) =~= session_start_names());
        assert(json::items_view(values@) =~= seq![JsonView::Text("session_start"@), binding_json(binding@)]);
    }
    json::make_listed(names, values)
}

/// The JSON of such a message: the source is ready to listen.
fn session_ready_to_json(session_id: u128) -> (j: Json)
    ensures
        j@ == payload_json(PayloadView::SessionReady { session_id: session_id }),
        payload_read_back(PayloadView::SessionReady { session_id: session_id }),
{
    let names = vec!["message_type", "session_id"];
    let values = vec![Json::Text("session_ready".to_owned()), Json::Text(ids::show_id(session_id))];
    proof {
        assert(json::names_view(names@) =~= session_ready_names());
        assert(json::items_view(values@) =~= seq![
            JsonView::Text("session_ready"@),
            JsonView::Text(ids::id_text(session_id)),
        ]);
    }
    json::make_listed(names, values)
}

/// The JSON of such a message: the source's phase.
fn session_state_to_json(session_id: u128, phase: Phase) -> (j: Json)
    ensures
        j@ == payload_json(PayloadView::SessionState { session_id: session_id, phase: phase }),
        payload_read_back(PayloadView::SessionState { session_id: session_id, phase: phase }),
{
    let names = vec!["message_type", "session_id", "phase"];
    let values = vec![
        Json::Text("session_state".to_owned()),
        Json::Text(ids::show_id(session_id)),
        Json::Text(phase.as_str().to_owned()),
    ];
    proof {
        assert(json::names_view(names@) =~= session_state_names());
        assert(json::items_view(values@) =~= seq![
            JsonView::Text("session_state"@),
            JsonView::Text(ids::id_text(session_id)),
            JsonView::Text(protocol::phase_name(phase)),
        ]);
    }
    json::make_listed(names, values)
}

/// The JSON of such a message: the controller still holds the key.
fn session_keepalive_to_json(session_id: u128) -> (j: Json)
    ensures
        j@ == payload_json(PayloadView::SessionKeepalive { session_id: session_id }),
        payload_read_back(PayloadView::SessionKeepalive { session_id: session_id }),
{
    let names = vec!["message_type", "session_id"];
    let values = vec![Json::Text("session_keepalive".to_owned()), Json::Text(ids::show_id(session_id))];
    proof {
        assert(json::names_view(names@) =~= session_keepalive_names());
        assert(json::items_view(values@) =~= seq![
            JsonView::Text("session_keepalive"@),
            JsonView::Text(ids::id_text(session_id)),
        ]);
    }
    json::make_listed(names, values)
}

/// The JSON of such a message: the controller let go of the key.
fn session_stop_to_json(session_id: u128) -> (j: Json)
    ensures
        j@ == payload_json(PayloadView::SessionStop { session_id: session_id }),
        payload_read_back(PayloadView::SessionStop { session_id: session_id }),
{
    let names = vec!["message_type", "session_id"];
    let values = vec![Json::Text("session_stop".to_owned()), Json::Text(ids::show_id(session_id))];
    proof {
        assert(json::names_view(names@) =~= session_stop_names());
        assert(json::items_view(values@) =~= seq![
            JsonView::Text("session_stop"@),
            JsonView::Text(ids::id_text(session_id)),
        ]);
    }
    json::make_listed(names, values)
}

/// The JSON of such a message: the session is called off.
fn session_cancel_to_json(session_id: u128) -> (j: Json)
    ensures
        j@ == payload_json(PayloadView::SessionCancel { session_id: session_id }),
        payload_read_back(PayloadView::SessionCancel { session_id: session_id }),
{
    let names = vec!["message_type", "session_id"];
    let values = vec![Json::Text("session_cancel".to_owned()), Json::Text(ids::show_id(session_id))];
    proof {
        assert(json::names_view(names@) =~= session_cancel_names());
        assert(json::items_view(values@) =~= seq![
            JsonView::Text("session_cancel"@),
            JsonView::Text(ids::id_text(session_id)),
        ]);
    }
    json::make_listed(names, values)
}

/// The JSON of such a message: a piece of text to type.
fn text_chunk_to_json(session_id: u128, sequence: u64, context_token: &String, text: &String, is_final: bool) -> (j: Json)
    ensures
        j@ == payload_json(PayloadView::TextChunk { session_id: session_id, sequence: sequence, context_token: context_token@, text: text@, is_final: is_final }),
        payload_read_back(PayloadView::TextChunk { session_id: session_id, sequence: sequence, context_token: context_token@, text: text@, is_final: is_final }),
{
    let names = vec!["message_type", "session_id", "sequence", "context_token", "text", "is_final"];
    let values = vec![
        Json::Text("text_chunk".to_owned()),
        Json::Text(ids::show_id(session_id)),
        Json::Unsigned(sequence),
        Json::Text(text::copy(context_token)),
        Json::Text(text::copy(text)),
        Json::Bool(is_final),
    ];
    proof {
        assert(json::names_view(names@) =~= text_chunk_names());
        assert(json::items_view(values@) =~= seq![
            JsonView::Text("text_chunk"@),
            JsonView::Text(ids::id_text(session_id)),
            JsonView::Unsigned(sequence),
            JsonView::Text(context_token@),
            JsonView::Text(text@),
            JsonView::Bool(is_final),
        ]);
    }
    json::make_listed(names, values)
}

/// The JSON of such a message: what became of a piece.
fn chunk_ack_to_json(session_id: u128, sequence: u64, ack_status: Ack) -> (j: Json)
    ensures
        j@ == payload_json(PayloadView::ChunkAck { session_id: session_id, sequence: sequence, ack_status: ack_status }),
        payload_read_back(PayloadView::ChunkAck { session_id: session_id, sequence: sequence, ack_status: ack_status }),
{
    let names = vec!["message_type", "session_id", "sequence", "ack_status"];
    let values = vec![
        Json::Text("chunk_ack".to_owned()),
        Json::Text(ids::show_id(session_id)),
        Json::Unsigned(sequence),
        Json::Text(ack_status.as_str().to_owned()),
    ];
    proof {
        assert(json::names_view(names@) =~= chunk_ack_names());
        assert(json::items_view(values@) =~= seq![
            JsonView::Text("chunk_ack"@),
            JsonView::Text(ids::id_text(session_id)),
            JsonView::Unsigned(sequence),
            JsonView::Text(protocol::ack_name(ack_status)),
        ]);
    }
    json::make_listed(names, values)
}

/// The JSON of such a message: asks what became of a piece.
fn chunk_query_to_json(session_id: u128, sequence: u64) -> (j: Json)
    ensures
        j@ == payload_json(PayloadView::ChunkQuery { session_id: session_id, sequence: sequence }),
        payload_read_back(PayloadView::ChunkQuery { session_id: session_id, sequence: sequence }),
{
    let names = vec!["message_type", "session_id", "sequence"];
    let values = vec![
        Json::Text("chunk_query".to_owned()),
        Json::Text(ids::show_id(session_id)),
        Json::Unsigned(sequence),
    ];
    proof {
        assert(json::names_view(names@) =~= chunk_query_names());
        assert(json::items_view(values@) =~= seq![
            JsonView::Text("chunk_query"@),
            JsonView::Text(ids::id_text(session_id)),
            JsonView::Unsigned(sequence),
        ]);
    }
    json::make_listed(names, values)
}

/// The JSON of such a message: no piece after the given one will follow.
fn session_end_to_json(session_id: u128, last_sequence: u64) -> (j: Json)
    ensures
        j@ == payload_json(PayloadView::SessionEnd { session_id: session_id, last_sequence: last_sequence }),
        payload_read_back(PayloadView::SessionEnd { session_id: session_id, last_sequence: last_sequence }),
{
    let names = vec!["message_type", "session_id", "last_sequence"];
    let values = vec![
        Json::Text("session_end".to_owned()),
        Json::Text(ids::show_id(session_id)),
        Json::Unsigned(last_sequence),
    ];
    proof {
        assert(json::names_view(names@) =~= session_end_names());
        assert(json::items_view(values@) =~= seq![
            JsonView::Text("session_end"@),
            JsonView::Text(ids::id_text(session_id)),
            JsonView::Unsigned(last_sequence),
        ]);
    }
    json::make_listed(names, values)
}

/// The JSON of such a message: the session is held up.
fn session_pause_to_json(session_id: u128) -> (j: Json)
    ensures
        j@ == payload_json(PayloadView::SessionPause { session_id: session_id }),
        payload_read_back(PayloadView::SessionPause { session_id: session_id }),
{
    let names = vec!["message_type", "session_id"];
    let values = vec![Json::Text("session_pause".to_owned()), Json::Text(ids::show_id(session_id))];
    proof {
        assert(json::names_view(names@) =~= session_pause_names());
        assert(json::items_view(values@) =~= seq![
            JsonView::Text("session_pause"@),
            JsonView::Text(ids::id_text(session_id)),
        ]);
    }
    json::make_listed(names, values)
}

/// The JSON of such a message: the target has a new input context.
fn session_resume_to_json(session_id: u128, context_token: &String, target_app: &String) -> (j: Json)
    ensures
        j@ == payload_json(PayloadView::SessionResume { session_id: session_id, context_token: context_token@, target_app: target_app@ }),
        payload_read_back(PayloadView::SessionResume { session_id: session_id, context_token: context_token@, target_app: target_app@ }),
{
    let names = vec!["message_type", "session_id", "context_token", "target_app"];
    let values = vec![
        Json::Text("session_resume".to_owned()),
        Json::Text(ids::show_id(session_id)),
        Json::Text(text::copy(context_token)),
        Json::Text(text::copy(target_app)),
    ];
    proof {
        assert(json::names_view(names@) =~= session_resume_names());
        assert(json::items_view(values@) =~= seq![
            JsonView::Text("session_resume"@),
            JsonView::Text(ids::id_text(session_id)),
            JsonView::Text(context_token@),
            JsonView::Text(target_app@),
        ]);
    }
    json::make_listed(names, values)
}

/// The JSON of such a message: something went wrong.
fn error_to_json(session_id: &Option<u128>, code: &String) -> (j: Json)
    ensures
        j@ == payload_json(PayloadView::Error { session_id: *session_id, code: code@ }),
        payload_read_back(PayloadView::Error { session_id: *session_id, code: code@ }),
{
    let names = vec!["message_type", "session_id", "code"];
    let values = vec![Json::Text("error".to_owned()), maybe_id(session_id), Json::Text(text::copy(code))];
    proof {
        assert(json::names_view(names@) =~= error_names());
        assert(json::items_view(values@) =~= seq![
            JsonView::Text("error"@),
            maybe_id_json(*session_id),
            JsonView::Text(code@),
        ]);
    }
    json::make_listed(names, values)
}

impl Payload {
    /// The JSON of the message.
    pub fn to_json(&self) -> (j: Json)
        ensures
            j@ == payload_json(self@),
            payload_read_back(self@),
    {
        match self {
            Payload::Hello { device_id, name } => hello_to_json(device_id, name),
            Payload::PairConfirm => pair_confirm_to_json(),
            Payload::BindRequest { binding } => bind_request_to_json(binding),
            Payload::SessionBound { binding } => session_bound_to_json(binding),
            Payload::SessionStart { binding } => session_start_to_json(binding),
            Payload::SessionReady { session_id } => session_ready_to_json(*session_id),
            Payload::SessionState { session_id, phase } => session_state_to_json(*session_id, *phase),
            Payload::SessionKeepalive { session_id } => session_keepalive_to_json(*session_id),
            Payload::SessionStop { session_id } => session_stop_to_json(*session_id),
            Payload::SessionCancel { session_id } => session_cancel_to_json(*session_id),
            Payload::TextChunk { session_id, sequence, context_token, text, is_final } => text_chunk_to_json(*session_id, *sequence, context_token, text, *is_final),
            Payload::ChunkAck { session_id, sequence, ack_status } => chunk_ack_to_json(*session_id, *sequence, *ack_status),
            Payload::ChunkQuery { session_id, sequence } => chunk_query_to_json(*session_id, *sequence),
            Payload::SessionEnd { session_id, last_sequence } => session_end_to_json(*session_id, *last_sequence),
            Payload::SessionPause { session_id } => session_pause_to_json(*session_id),
            Payload::SessionResume { session_id, context_token, target_app } => session_resume_to_json(*session_id, context_token, target_app),
            Payload::Error { session_id, code } => error_to_json(session_id, code),
        }
    }
}

// ---------------------------------------------------------------- reading

/// The value of a field.
pub open spec fn seen(f: Option<&Json>) -> Option<JsonView> {
    match f {
        Some(j) => Some(j@),
        None => None,
    }
}

/// Reads a string.
pub fn read_text(f: Option<&Json>) -> (r: Option<String>)
    ensures
        match r {
            Some(s) => text_field(seen(f)) == Some(s@),
            None => text_field(seen(f)) is None,
        },
{
    match f {
        Some(Json::Text(s)) => Some(text::copy(s)),
        _ => None,
    }
}

/// Reads an identifier.
fn read_id(f: Option<&Json>) -> (r: Option<u128>)
    ensures
        r == id_field(seen(f)),
{
    match f {
        Some(Json::Text(s)) => ids::parse_id(s.as_str()),
        _ => None,
    }
}

/// Reads an identifier that may be absent.
fn read_maybe_id(f: Option<&Json>) -> (r: Option<Option<u128>>)
    ensures
        r == maybe_id_field(seen(f)),
{
    match f {
        None | Some(Json::Null) => Some(None),
        Some(Json::Text(s)) => match ids::parse_id(s.as_str()) {
            Some(id) => Some(Some(id)),
            None => None,
        },
        _ => None,
    }
}

/// Reads an unsigned number.
fn read_number(f: Option<&Json>) -> (r: Option<u64>)
    ensures
        r == number_field(seen(f)),
{
    match f {
        Some(Json::Unsigned(n)) => Some(*n),
        _ => None,
    }
}

/// Reads a truth value.
pub fn read_flag(f: Option<&Json>) -> (r: Option<bool>)
    ensures
        r == flag_field(seen(f)),
{
    match f {
        Some(Json::Bool(b)) => Some(*b),
        _ => None,
    }
}

/// Whether a value holds nothing.
fn is_nothing(j: &Json, inside: bool) -> (r: bool)
    ensures
        r == holds_nothing(j@, inside),
{
    broadcast use json::lemma_object_view;

    match j {
        Json::Null => true,
        Json::Object(entries) => inside && entries.len() == 0,
        _ => false,
    }
}

/// The name that a value gives.
pub fn read_name(j: &Json, inside: bool) -> (r: Option<String>)
    ensures
        match r {
            Some(s) => name_given(j@, inside) == Some(s@),
            None => name_given(j@, inside) is None,
        },
{
    broadcast use json::lemma_object_view;

    match j {
        Json::Text(s) => Some(text::copy(s)),
        Json::Object(entries) => {
            if entries.len() == 1 && is_nothing(&entries[0].1, inside) {
                Some(text::copy(&entries[0].0))
            } else {
                None
            }
        },
        _ => None,
    }
}

/// Reads an acknowledgement.
fn read_ack(f: Option<&Json>) -> (r: Option<Ack>)
    ensures
        r == ack_field(seen(f)),
{
    match f {
        Some(j) => match read_name(j, true) {
            Some(s) => Ack::named(s.as_str()),
            None => None,
        },
        None => None,
    }
}

/// Reads a phase.
fn read_phase(f: Option<&Json>) -> (r: Option<Phase>)
    ensures
        r == phase_field(seen(f)),
{
    match f {
        Some(j) => match read_name(j, true) {
            Some(s) => Phase::named(s.as_str()),
            None => None,
        },
        None => None,
    }
}

/// Reads a mode.
fn read_mode(f: Option<&Json>) -> (r: Option<Mode>)
    ensures
        r == mode_field(seen(f)),
{
    match f {
        Some(j) => match read_name(j, true) {
            Some(s) => Mode::named(s.as_str()),
            None => None,
        },
        None => None,
    }
}

impl Binding {
    /// The binding that a JSON value stands for.
    pub fn from_json(j: &Json) -> (r: Option<Binding>)
        ensures
            match r {
                Some(b) => binding_of(j@) == Some(b@),
                None => binding_of(j@) is None,
            },
    {
        let names = vec![
            "session_id",
            "source_device_id",
            "target_device_id",
            "controller_device_id",
            "input_mode",
            "context_token",
            "target_app",
            "created_ms",
        ];
        assert(json::names_view(names@) =~= binding_names());
        let f = match json::take_fields(j, &names) {
            Some(f) => f,
            None => return None,
        };
        let ghost g = json::fields_view(f@);
        assert(g[0] == seen(f@[0]));
        assert(g[1] == seen(f@[1]));
        assert(g[2] == seen(f@[2]));
        assert(g[3] == seen(f@[3]));
        assert(g[4] == seen(f@[4]));
        assert(g[5] == seen(f@[5]));
        assert(g[6] == seen(f@[6]));
        assert(g[7] == seen(f@[7]));
        match (read_id(f[0]), read_text(f[1]), read_text(f[2]), read_text(f[3]), read_mode(f[4]), read_text(f[5]), read_text(f[6]), read_number(f[7])) {
            (Some(session_id), Some(source_device_id), Some(target_device_id), Some(controller_device_id), Some(input_mode), Some(context_token), Some(target_app), Some(created_ms)) => {
                let b = Binding { session_id, source_device_id, target_device_id, controller_device_id, input_mode, context_token, target_app, created_ms };
                assert(binding_of(j@)->0 =~= b@);
                Some(b)
            },
            _ => None,
        }
    }
}

/// Reads a binding.
fn read_binding(f: Option<&Json>) -> (r: Option<Binding>)
    ensures
        match r {
            Some(b) => binding_field(seen(f)) == Some(b@),
            None => binding_field(seen(f)) is None,
        },
{
    match f {
        Some(j) => Binding::from_json(j),
        None => None,
    }
}

/// The kind that a message says it is of.
fn read_kind(j: &Json) -> (r: Option<String>)
    ensures
        match r {
            Some(s) => kind_of(j@) == Some(s@),
            None => kind_of(j@) is None,
        },
{
    broadcast use {json::lemma_object_view, json::lemma_list_view};

    match j {
        Json::Object(_) => j.text_at("message_type"),
        Json::List(items) => {
            if items.len() > 0 {
                read_text(Some(&items[0]))
            } else {
                None
            }
        },
        _ => None,
    }
}

/// Reads such a message: a device names itself.
fn read_hello(j: &Json) -> (r: Option<Payload>)
    ensures
        match r {
            Some(p) => hello_of(j@) == Some(p@),
            None => hello_of(j@) is None,
        },
{
    let names = vec!["message_type", "device_id", "name"];
    assert(json::names_view(names@) =~= hello_names());
    let f = match json::take_fields(j, &names) {
        Some(f) => f,
        None => return None,
    };
    let ghost g = json::fields_view(f@);
    assert(g[1] == seen(f@[1]));
    assert(g[2] == seen(f@[2]));
    match (read_text(f[1]), read_text(f[2])) {
        (Some(device_id), Some(name)) => Some(Payload::Hello { device_id, name }),
        _ => None,
    }
}

/// Reads such a message: the other side's user has confirmed the pairing code.
fn read_pair_confirm(j: &Json) -> (r: Option<Payload>)
    ensures
        match r {
            Some(p) => pair_confirm_of(j@) == Some(p@),
            None => pair_confirm_of(j@) is None,
        },
{
    broadcast use {json::lemma_object_view, json::lemma_list_view};

    match j {
        Json::Object(_) => Some(Payload::PairConfirm),
        Json::List(items) => {
            if items.len() == 1 {
                Some(Payload::PairConfirm)
            } else {
                None
            }
        },
        _ => None,
    }
}

/// Reads such a message: the source asks the target to prepare an input context.
fn read_bind_request(j: &Json) -> (r: Option<Payload>)
    ensures
        match r {
            Some(p) => bind_request_of(j@) == Some(p@),
            None => bind_request_of(j@) is None,
        },
{
    let names = vec!["message_type", "binding"];
    assert(json::names_view(names@) =~= bind_request_names());
    let f = match json::take_fields(j, &names) {
        Some(f) => f,
        None => return None,
    };
    let ghost g = json::fields_view(f@);
    assert(g[1] == seen(f@[1]));
    match read_binding(f[1]) {
        Some(binding) => Some(Payload::BindRequest { binding }),
        _ => None,
    }
}

/// Reads such a message: the target has prepared one.
fn read_session_bound(j: &Json) -> (r: Option<Payload>)
    ensures
        match r {
            Some(p) => session_bound_of(j@) == Some(p@),
            None => session_bound_of(j@) is None,
        },
{
    let names = vec!["message_type", "binding"];
    assert(json::names_view(names@) =~= session_bound_names());
    let f = match json::take_fields(j, &names) {
        Some(f) => f,
        None => return None,
    };
    let ghost g = json::fields_view(f@);
    assert(g[1] == seen(f@[1]));
    match read_binding(f[1]) {
        Some(binding) => Some(Payload::SessionBound { binding }),
        _ => None,
    }
}

/// Reads such a message: the target asks the source to listen.
fn read_session_start(j: &Json) -> (r: Option<Payload>)
    ensures
        match r {
            Some(p) => session_start_of(j@) == Some(p@),
            None => session_start_of(j@) is None,
        },
{
    let names = vec!["message_type", "binding"];
    assert(json::names_view(names@) =~= session_start_names());
    let f = match json::take_fields(j, &names) {
        Some(f) => f,
        None => return None,
    };
    let ghost g = json::fields_view(f@);
    assert(g[1] == seen(f@[1]));
    match read_binding(f[1]) {
        Some(binding) => Some(Payload::SessionStart { binding }),
        _ => None,
    }
}

/// Reads such a message: the source is ready to listen.
fn read_session_ready(j: &Json) -> (r: Option<Payload>)
    ensures
        match r {
            Some(p) => session_ready_of(j@) == Some(p@),
            None => session_ready_of(j@) is None,
        },
{
    let names = vec!["message_type", "session_id"];
    assert(json::names_view(names@) =~= session_ready_names());
    let f = match json::take_fields(j, &names) {
        Some(f) => f,
        None => return None,
    };
    let ghost g = json::fields_view(f@);
    assert(g[1] == seen(f@[1]));
    match read_id(f[1]) {
        Some(session_id) => Some(Payload::SessionReady { session_id }),
        _ => None,
    }
}

/// Reads such a message: the source's phase.
fn read_session_state(j: &Json) -> (r: Option<Payload>)
    ensures
        match r {
            Some(p) => session_state_of(j@) == Some(p@),
            None => session_state_of(j@) is None,
        },
{
    let names = vec!["message_type", "session_id", "phase"];
    assert(json::names_view(names@) =~= session_state_names());
    let f = match json::take_fields(j, &names) {
        Some(f) => f,
        None => return None,
    };
    let ghost g = json::fields_view(f@);
    assert(g[1] == seen(f@[1]));
    assert(g[2] == seen(f@[2]));
    match (read_id(f[1]), read_phase(f[2])) {
        (Some(session_id), Some(phase)) => Some(Payload::SessionState { session_id, phase }),
        _ => None,
    }
}

/// Reads such a message: the controller still holds the key.
fn read_session_keepalive(j: &Json) -> (r: Option<Payload>)
    ensures
        match r {
            Some(p) => session_keepalive_of(j@) == Some(p@),
            None => session_keepalive_of(j@) is None,
        },
{
    let names = vec!["message_type", "session_id"];
    assert(json::names_view(names@) =~= session_keepalive_names());
    let f = match json::take_fields(j, &names) {
        Some(f) => f,
        None => return None,
    };
    let ghost g = json::fields_view(f@);
    assert(g[1] == seen(f@[1]));
    match read_id(f[1]) {
        Some(session_id) => Some(Payload::SessionKeepalive { session_id }),
        _ => None,
    }
}

/// Reads such a message: the controller let go of the key.
fn read_session_stop(j: &Json) -> (r: Option<Payload>)
    ensures
        match r {
            Some(p) => session_stop_of(j@) == Some(p@),
            None => session_stop_of(j@) is None,
        },
{
    let names = vec!["message_type", "session_id"];
    assert(json::names_view(names@) =~= session_stop_names());
    let f = match json::take_fields(j, &names) {
        Some(f) => f,
        None => return None,
    };
    let ghost g = json::fields_view(f@);
    assert(g[1] == seen(f@[1]));
    match read_id(f[1]) {
        Some(session_id) => Some(Payload::SessionStop { session_id }),
        _ => None,
    }
}

/// Reads such a message: the session is called off.
fn read_session_cancel(j: &Json) -> (r: Option<Payload>)
    ensures
        match r {
            Some(p) => session_cancel_of(j@) == Some(p@),
            None => session_cancel_of(j@) is None,
        },
{
    let names = vec!["message_type", "session_id"];
    assert(json::names_view(names@) =~= session_cancel_names());
    let f = match json::take_fields(j, &names) {
        Some(f) => f,
        None => return None,
    };
    let ghost g = json::fields_view(f@);
    assert(g[1] == seen(f@[1]));
    match read_id(f[1]) {
        Some(session_id) => Some(Payload::SessionCancel { session_id }),
        _ => None,
    }
}

/// Reads such a message: a piece of text to type.
fn read_text_chunk(j: &Json) -> (r: Option<Payload>)
    ensures
        match r {
            Some(p) => text_chunk_of(j@) == Some(p@),
            None => text_chunk_of(j@) is None,
        },
{
    let names = vec!["message_type", "session_id", "sequence", "context_token", "text", "is_final"];
    assert(json::names_view(names@) =~= text_chunk_names());
    let f = match json::take_fields(j, &names) {
        Some(f) => f,
        None => return None,
    };
    let ghost g = json::fields_view(f@);
    assert(g[1] == seen(f@[1]));
    assert(g[2] == seen(f@[2]));
    assert(g[3] == seen(f@[3]));
    assert(g[4] == seen(f@[4]));
    assert(g[5] == seen(f@[5]));
    match (read_id(f[1]), read_number(f[2]), read_text(f[3]), read_text(f[4]), read_flag(f[5])) {
        (Some(session_id), Some(sequence), Some(context_token), Some(text), Some(is_final)) => Some(Payload::TextChunk { session_id, sequence, context_token, text, is_final }),
        _ => None,
    }
}

/// Reads such a message: what became of a piece.
fn read_chunk_ack(j: &Json) -> (r: Option<Payload>)
    ensures
        match r {
            Some(p) => chunk_ack_of(j@) == Some(p@),
            None => chunk_ack_of(j@) is None,
        },
{
    let names = vec!["message_type", "session_id", "sequence", "ack_status"];
    assert(json::names_view(names@) =~= chunk_ack_names());
    let f = match json::take_fields(j, &names) {
        Some(f) => f,
        None => return None,
    };
    let ghost g = json::fields_view(f@);
    assert(g[1] == seen(f@[1]));
    assert(g[2] == seen(f@[2]));
    assert(g[3] == seen(f@[3]));
    match (read_id(f[1]), read_number(f[2]), read_ack(f[3])) {
        (Some(session_id), Some(sequence), Some(ack_status)) => Some(Payload::ChunkAck { session_id, sequence, ack_status }),
        _ => None,
    }
}

/// Reads such a message: asks what became of a piece.
fn read_chunk_query(j: &Json) -> (r: Option<Payload>)
    ensures
        match r {
            Some(p) => chunk_query_of(j@) == Some(p@),
            None => chunk_query_of(j@) is None,
        },
{
    let names = vec!["message_type", "session_id", "sequence"];
    assert(json::names_view(names@) =~= chunk_query_names());
    let f = match json::take_fields(j, &names) {
        Some(f) => f,
        None => return None,
    };
    let ghost g = json::fields_view(f@);
    assert(g[1] == seen(f@[1]));
    assert(g[2] == seen(f@[2]));
    match (read_id(f[1]), read_number(f[2])) {
        (Some(session_id), Some(sequence)) => Some(Payload::ChunkQuery { session_id, sequence }),
        _ => None,
    }
}

/// Reads such a message: no piece after the given one will follow.
fn read_session_end(j: &Json) -> (r: Option<Payload>)
    ensures
        match r {
            Some(p) => session_end_of(j@) == Some(p@),
            None => session_end_of(j@) is None,
        },
{
    let names = vec!["message_type", "session_id", "last_sequence"];
    assert(json::names_view(names@) =~= session_end_names());
    let f = match json::take_fields(j, &names) {
        Some(f) => f,
        None => return None,
    };
    let ghost g = json::fields_view(f@);
    assert(g[1] == seen(f@[1]));
    assert(g[2] == seen(f@[2]));
    match (read_id(f[1]), read_number(f[2])) {
        (Some(session_id), Some(last_sequence)) => Some(Payload::SessionEnd { session_id, last_sequence }),
        _ => None,
    }
}

/// Reads such a message: the session is held up.
fn read_session_pause(j: &Json) -> (r: Option<Payload>)
    ensures
        match r {
            Some(p) => session_pause_of(j@) == Some(p@),
            None => session_pause_of(j@) is None,
        },
{
    let names = vec!["message_type", "session_id"];
    assert(json::names_view(names@) =~= session_pause_names());
    let f = match json::take_fields(j, &names) {
        Some(f) => f,
        None => return None,
    };
    let ghost g = json::fields_view(f@);
    assert(g[1] == seen(f@[1]));
    match read_id(f[1]) {
        Some(session_id) => Some(Payload::SessionPause { session_id }),
        _ => None,
    }
}

/// Reads such a message: the target has a new input context.
fn read_session_resume(j: &Json) -> (r: Option<Payload>)
    ensures
        match r {
            Some(p) => session_resume_of(j@) == Some(p@),
            None => session_resume_of(j@) is None,
        },
{
    let names = vec!["message_type", "session_id", "context_token", "target_app"];
    assert(json::names_view(names@) =~= session_resume_names());
    let f = match json::take_fields(j, &names) {
        Some(f) => f,
        None => return None,
    };
    let ghost g = json::fields_view(f@);
    assert(g[1] == seen(f@[1]));
    assert(g[2] == seen(f@[2]));
    assert(g[3] == seen(f@[3]));
    match (read_id(f[1]), read_text(f[2]), read_text(f[3])) {
        (Some(session_id), Some(context_token), Some(target_app)) => Some(Payload::SessionResume { session_id, context_token, target_app }),
        _ => None,
    }
}

/// Reads such a message: something went wrong.
fn read_error(j: &Json) -> (r: Option<Payload>)
    ensures
        match r {
            Some(p) => error_of(j@) == Some(p@),
            None => error_of(j@) is None,
        },
{
    let names = vec!["message_type", "session_id", "code"];
    assert(json::names_view(names@) =~= error_names());
    let f = match json::take_fields(j, &names) {
        Some(f) => f,
        None => return None,
    };
    let ghost g = json::fields_view(f@);
    assert(g[1] == seen(f@[1]));
    assert(g[2] == seen(f@[2]));
    match (read_maybe_id(f[1]), read_text(f[2])) {
        (Some(session_id), Some(code)) => Some(Payload::Error { session_id, code }),
        _ => None,
    }
}

impl Payload {
    /// The message that a JSON value stands for.
    pub fn from_json(j: &Json) -> (r: Option<Payload>)
        ensures
            match r {
                Some(p) => payload_of(j@) == Some(p@),
                None => payload_of(j@) is None,
            },
    {
        let kind = match read_kind(j) {
            Some(k) => k,
            None => return None,
        };
        let k = kind.as_str();
        if text::same(k, "hello") {
            read_hello(j)
        } else if text::same(k, "pair_confirm") {
            read_pair_confirm(j)
        } else if text::same(k, "bind_request") {
            read_bind_request(j)
        } else if text::same(k, "session_bound") {
            read_session_bound(j)
        } else if text::same(k, "session_start") {
            read_session_start(j)
        } else if text::same(k, "session_ready") {
            read_session_ready(j)
        } else if text::same(k, "session_state") {
            read_session_state(j)
        } else if text::same(k, "session_keepalive") {
            read_session_keepalive(j)
        } else if text::same(k, "session_stop") {
            read_session_stop(j)
        } else if text::same(k, "session_cancel") {
            read_session_cancel(j)
        } else if text::same(k, "text_chunk") {
            read_text_chunk(j)
        } else if text::same(k, "chunk_ack") {
            read_chunk_ack(j)
        } else if text::same(k, "chunk_query") {
            read_chunk_query(j)
        } else if text::same(k, "session_end") {
            read_session_end(j)
        } else if text::same(k, "session_pause") {
            read_session_pause(j)
        } else if text::same(k, "session_resume") {
            read_session_resume(j)
        } else if text::same(k, "error") {
            read_error(j)
        } else {
            None
        }
    }
}

impl Wire {
    /// What on the wire a JSON value stands for.
    pub fn from_json(j: &Json) -> (r: Option<Wire>)
        ensures
            match r {
                Some(x) => wire_of(j@) == Some(x@),
                None => wire_of(j@) is None,
            },
    {
        let names = vec!["protocol_version", "request_id", "payload"];
        assert(json::names_view(names@) =~= wire_names());
        let f = match json::take_fields(j, &names) {
            Some(f) => f,
            None => return None,
        };
        let ghost g = json::fields_view(f@);
        assert(g[0] == seen(f@[0]));
        assert(g[1] == seen(f@[1]));
        assert(g[2] == seen(f@[2]));
        match (read_number(f[0]), read_id(f[1]), f[2]) {
            (Some(version), Some(request_id), Some(p)) => match Payload::from_json(p) {
                Some(payload) => {
                    if version <= 65535 {
                        Some(Wire { protocol_version: version as u16, request_id, payload })
                    } else {
                        None
                    }
                },
                None => None,
            },
            _ => None,
        }
    }

    /// Puts a message on the wire, under an identifier of its own.
    pub fn new(payload: Payload) -> (x: Self)
        ensures
            x@.protocol_version == VERSION,
            x@.request_id != 0,
            x@.payload == payload@,
    {
        let request_id = ids::fresh_id();
        proof {
            ids::lemma_fresh_not_nil(request_id);
        }
        Wire { protocol_version: VERSION, request_id, payload }
    }

    /// The bytes on the wire. Whoever reads them as messages are read gets the message
    /// back, unless they are too many.
    pub fn encode(&self) -> (bytes: Vec<u8>)
        ensures
            bytes@ == wire_bytes(self@),
            self@.protocol_version == VERSION && self@.request_id != 0 && bytes@.len() <= MAX_FRAME - 32
                ==> wire_decoded(bytes@) == Ok::<WireView, Seq<char>>(self@),
    {
        let names = vec!["protocol_version", "request_id", "payload"];
        let values = vec![
            Json::Unsigned(self.protocol_version as u64),
            Json::Text(ids::show_id(self.request_id)),
            self.payload.to_json(),
        ];
        proof {
            assert(json::names_view(names@) =~= wire_names());
            assert(json::items_view(values@) =~= seq![
                JsonView::Unsigned(self@.protocol_version as u64),
                JsonView::Text(ids::id_text(self@.request_id)),
                payload_json(self@.payload),
            ]);
            lemma_wire(self@);
            json::lemma_canonical_deeper(wire_json(self@), 3, 100);
        }
        let j = json::make_listed(names, values);
        let s = json::render(&j);
        proof {
            once::law_written_names_are_apart(j@);
        }
        vstd::slice::slice_to_vec(s.as_str().as_bytes())
    }

    /// Reads what came on the wire.
    pub fn decode(bytes: &[u8]) -> (r: Result<Self, CoreError>)
        ensures
            match r {
                Ok(x) => wire_decoded(bytes@) == Ok::<WireView, Seq<char>>(x@),
                Err(e) => wire_decoded(bytes@) == Err::<WireView, Seq<char>>(e.spec_code()),
            },
    {
        if bytes.len() > MAX_FRAME - 32 {
            return fail("message_too_large");
        }
        match json::parse(bytes) {
            Some(j) => match Wire::from_json(&j) {
                Some(x) => {
                    let confirms = match &x.payload {
                        Payload::PairConfirm => true,
                        _ => false,
                    };
                    if !once::is_once(bytes, &j) && !(confirms && once::is_named_once(bytes, &j, "message_type")) {
                        fail("invalid_message")
                    } else if x.protocol_version != VERSION || x.request_id == 0 {
                        fail("protocol_version")
                    } else {
                        Ok(x)
                    }
                },
                None => fail("invalid_message"),
            },
            None => fail("invalid_message"),
        }
    }
}

} // verus!
