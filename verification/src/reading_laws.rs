//! What comes as JSON is read as what it says, whatever the order of its members.
use crate::ids;
use crate::json;
use crate::json::JsonView;
use crate::protocol;
use crate::protocol::{Ack, BindingView, Mode, PayloadView, Phase, WireView};
use crate::telling_laws::says;
use crate::text;
use crate::wire;
use vstd::prelude::*;
use vstd::utf8::*;

verus! {

/// Whether a member is the text of an identifier.
pub open spec fn spells(j: JsonView, name: Seq<char>, id: u128) -> bool {
    j.member(name) matches Some(JsonView::Text(s)) && ids::id_parsed(s) == Some(id)
}

/// The name that a member gives, if it gives one: a string, or an object whose one member has
/// the name and holds null or an empty object.
pub open spec fn given(j: JsonView, name: Seq<char>) -> Option<Seq<char>> {
    match j.member(name) {
        Some(JsonView::Text(s)) => Some(s),
        Some(JsonView::Object(inner)) => if inner.len() == 1 && (inner[0].1 is Null || inner[0].1 == JsonView::Object(
            seq![],
        )) {
            Some(inner[0].0)
        } else {
            None
        },
        _ => None,
    }
}

/// Whether an object has no members but those of some names.
pub open spec fn has_only(entries: Seq<(Seq<char>, JsonView)>, names: Seq<Seq<char>>) -> bool {
    forall|i: int| 0 <= i < entries.len() ==> names.contains((#[trigger] entries[i]).0)
}

/// Whether a member stands for a binding.
pub open spec fn holds_binding(j: JsonView, name: Seq<char>, b: BindingView) -> bool {
    j.member(name) matches Some(v) && wire::binding_of(v) == Some(b)
}

/// Whether an object is a message, member by member.
pub open spec fn is_read_as(entries: Seq<(Seq<char>, JsonView)>, p: PayloadView) -> bool {
    let j = JsonView::Object(entries);
    match p {
        PayloadView::PairConfirm => says(j, "message_type"@, JsonView::Text("pair_confirm"@)),
        PayloadView::Hello { device_id, name } => {
            &&& says(j, "message_type"@, JsonView::Text("hello"@))
            &&& has_only(entries, seq!["message_type"@, "device_id"@, "name"@])
            &&& says(j, "device_id"@, JsonView::Text(device_id))
            &&& says(j, "name"@, JsonView::Text(name))
        },
        PayloadView::BindRequest { binding } => {
            &&& says(j, "message_type"@, JsonView::Text("bind_request"@))
            &&& has_only(entries, seq!["message_type"@, "binding"@])
            &&& holds_binding(j, "binding"@, binding)
        },
        PayloadView::SessionBound { binding } => {
            &&& says(j, "message_type"@, JsonView::Text("session_bound"@))
            &&& has_only(entries, seq!["message_type"@, "binding"@])
            &&& holds_binding(j, "binding"@, binding)
        },
        PayloadView::SessionStart { binding } => {
            &&& says(j, "message_type"@, JsonView::Text("session_start"@))
            &&& has_only(entries, seq!["message_type"@, "binding"@])
            &&& holds_binding(j, "binding"@, binding)
        },
        PayloadView::SessionReady { session_id } => {
            &&& says(j, "message_type"@, JsonView::Text("session_ready"@))
            &&& has_only(entries, seq!["message_type"@, "session_id"@])
            &&& spells(j, "session_id"@, session_id)
        },
        PayloadView::SessionState { session_id, phase } => {
            &&& says(j, "message_type"@, JsonView::Text("session_state"@))
            &&& has_only(entries, seq!["message_type"@, "session_id"@, "phase"@])
            &&& spells(j, "session_id"@, session_id)
            &&& given(j, "phase"@) matches Some(n) && protocol::phase_named(n) == Some(phase)
        },
        PayloadView::SessionKeepalive { session_id } => {
            &&& says(j, "message_type"@, JsonView::Text("session_keepalive"@))
            &&& has_only(entries, seq!["message_type"@, "session_id"@])
            &&& spells(j, "session_id"@, session_id)
        },
        PayloadView::SessionStop { session_id } => {
            &&& says(j, "message_type"@, JsonView::Text("session_stop"@))
            &&& has_only(entries, seq!["message_type"@, "session_id"@])
            &&& spells(j, "session_id"@, session_id)
        },
        PayloadView::SessionCancel { session_id } => {
            &&& says(j, "message_type"@, JsonView::Text("session_cancel"@))
            &&& has_only(entries, seq!["message_type"@, "session_id"@])
            &&& spells(j, "session_id"@, session_id)
        },
        PayloadView::TextChunk { session_id, sequence, context_token, text, is_final } => {
            &&& says(j, "message_type"@, JsonView::Text("text_chunk"@))
            &&& has_only(entries, seq!["message_type"@, "session_id"@, "sequence"@, "context_token"@, "text"@, "is_final"@])
            &&& spells(j, "session_id"@, session_id)
            &&& says(j, "sequence"@, JsonView::Unsigned(sequence))
            &&& says(j, "context_token"@, JsonView::Text(context_token))
            &&& says(j, "text"@, JsonView::Text(text))
            &&& says(j, "is_final"@, JsonView::Bool(is_final))
        },
        PayloadView::ChunkAck { session_id, sequence, ack_status } => {
            &&& says(j, "message_type"@, JsonView::Text("chunk_ack"@))
            &&& has_only(entries, seq!["message_type"@, "session_id"@, "sequence"@, "ack_status"@])
            &&& spells(j, "session_id"@, session_id)
            &&& says(j, "sequence"@, JsonView::Unsigned(sequence))
            &&& given(j, "ack_status"@) matches Some(n) && protocol::ack_named(n) == Some(ack_status)
        },
        PayloadView::ChunkQuery { session_id, sequence } => {
            &&& says(j, "message_type"@, JsonView::Text("chunk_query"@))
            &&& has_only(entries, seq!["message_type"@, "session_id"@, "sequence"@])
            &&& spells(j, "session_id"@, session_id)
            &&& says(j, "sequence"@, JsonView::Unsigned(sequence))
        },
        PayloadView::SessionEnd { session_id, last_sequence } => {
            &&& says(j, "message_type"@, JsonView::Text("session_end"@))
            &&& has_only(entries, seq!["message_type"@, "session_id"@, "last_sequence"@])
            &&& spells(j, "session_id"@, session_id)
            &&& says(j, "last_sequence"@, JsonView::Unsigned(last_sequence))
        },
        PayloadView::SessionPause { session_id } => {
            &&& says(j, "message_type"@, JsonView::Text("session_pause"@))
            &&& has_only(entries, seq!["message_type"@, "session_id"@])
            &&& spells(j, "session_id"@, session_id)
        },
        PayloadView::SessionResume { session_id, context_token, target_app } => {
            &&& says(j, "message_type"@, JsonView::Text("session_resume"@))
            &&& has_only(entries, seq!["message_type"@, "session_id"@, "context_token"@, "target_app"@])
            &&& spells(j, "session_id"@, session_id)
            &&& says(j, "context_token"@, JsonView::Text(context_token))
            &&& says(j, "target_app"@, JsonView::Text(target_app))
        },
        PayloadView::Error { session_id, code } => {
            &&& says(j, "message_type"@, JsonView::Text("error"@))
            &&& has_only(entries, seq!["message_type"@, "session_id"@, "code"@])
            &&& match session_id {
                Some(id) => spells(j, "session_id"@, id),
                None => j.member("session_id"@) is None || says(j, "session_id"@, JsonView::Null),
            }
            &&& says(j, "code"@, JsonView::Text(code))
        },
    }
}

/// An empty object is one without members.
proof fn lemma_empty(entries: Seq<(Seq<char>, JsonView)>)
    requires
        entries.len() == 0,
    ensures
        JsonView::Object(entries) == JsonView::Object(seq![]),
{
    assert(entries =~= seq![]);
}

/// The name that a member gives is the name that its field gives.
proof fn lemma_given(j: JsonView, name: Seq<char>)
    ensures
        wire::name_field(j.member(name)) == given(j, name),
{
    match j.member(name) {
        Some(JsonView::Object(inner)) => {
            if inner.len() == 1 {
                match inner[0].1 {
                    JsonView::Object(nothing) => {
                        if nothing.len() == 0 {
                            lemma_empty(nothing);
                        }
                    },
                    _ => {},
                }
            }
        },
        _ => {},
    }
}

/// An object is read as a message just when it is that message, member by member and in whatever
/// order: with the kind that it names, all that such a message says, and nothing else.
pub proof fn law_messages_are_read_as_they_say(entries: Seq<(Seq<char>, JsonView)>, p: PayloadView)
    ensures
        wire::payload_of(JsonView::Object(entries)) == Some(p) <==> is_read_as(entries, p),
{
    let j = JsonView::Object(entries);
    wire::lemma_kinds();
    lemma_given(j, "phase"@);
    lemma_given(j, "ack_status"@);
    match p {
        PayloadView::PairConfirm => {},
        PayloadView::Hello { .. } => {
            let names = wire::hello_names();
            assert(names == seq!["message_type"@, "device_id"@, "name"@]);
            if json::fields(j, names) is Some {
                let f = json::fields(j, names)->0;
                assert(f[1] == j.member("device_id"@));
                assert(f[2] == j.member("name"@));
            }
        },
        PayloadView::BindRequest { .. } => {
            let names = wire::bind_request_names();
            assert(names == seq!["message_type"@, "binding"@]);
            if json::fields(j, names) is Some {
                let f = json::fields(j, names)->0;
                assert(f[1] == j.member("binding"@));
            }
        },
        PayloadView::SessionBound { .. } => {
            let names = wire::session_bound_names();
            assert(names == seq!["message_type"@, "binding"@]);
            if json::fields(j, names) is Some {
                let f = json::fields(j, names)->0;
                assert(f[1] == j.member("binding"@));
            }
        },
        PayloadView::SessionStart { .. } => {
            let names = wire::session_start_names();
            assert(names == seq!["message_type"@, "binding"@]);
            if json::fields(j, names) is Some {
                let f = json::fields(j, names)->0;
                assert(f[1] == j.member("binding"@));
            }
        },
        PayloadView::SessionReady { .. } => {
            let names = wire::session_ready_names();
            assert(names == seq!["message_type"@, "session_id"@]);
            if json::fields(j, names) is Some {
                let f = json::fields(j, names)->0;
                assert(f[1] == j.member("session_id"@));
            }
        },
        PayloadView::SessionState { .. } => {
            let names = wire::session_state_names();
            assert(names == seq!["message_type"@, "session_id"@, "phase"@]);
            if json::fields(j, names) is Some {
                let f = json::fields(j, names)->0;
                assert(f[1] == j.member("session_id"@));
                assert(f[2] == j.member("phase"@));
            }
        },
        PayloadView::SessionKeepalive { .. } => {
            let names = wire::session_keepalive_names();
            assert(names == seq!["message_type"@, "session_id"@]);
            if json::fields(j, names) is Some {
                let f = json::fields(j, names)->0;
                assert(f[1] == j.member("session_id"@));
            }
        },
        PayloadView::SessionStop { .. } => {
            let names = wire::session_stop_names();
            assert(names == seq!["message_type"@, "session_id"@]);
            if json::fields(j, names) is Some {
                let f = json::fields(j, names)->0;
                assert(f[1] == j.member("session_id"@));
            }
        },
        PayloadView::SessionCancel { .. } => {
            let names = wire::session_cancel_names();
            assert(names == seq!["message_type"@, "session_id"@]);
            if json::fields(j, names) is Some {
                let f = json::fields(j, names)->0;
                assert(f[1] == j.member("session_id"@));
            }
        },
        PayloadView::TextChunk { .. } => {
            let names = wire::text_chunk_names();
            assert(names == seq!["message_type"@, "session_id"@, "sequence"@, "context_token"@, "text"@, "is_final"@]);
            if json::fields(j, names) is Some {
                let f = json::fields(j, names)->0;
                assert(f[1] == j.member("session_id"@));
                assert(f[2] == j.member("sequence"@));
                assert(f[3] == j.member("context_token"@));
                assert(f[4] == j.member("text"@));
                assert(f[5] == j.member("is_final"@));
            }
        },
        PayloadView::ChunkAck { .. } => {
            let names = wire::chunk_ack_names();
            assert(names == seq!["message_type"@, "session_id"@, "sequence"@, "ack_status"@]);
            if json::fields(j, names) is Some {
                let f = json::fields(j, names)->0;
                assert(f[1] == j.member("session_id"@));
                assert(f[2] == j.member("sequence"@));
                assert(f[3] == j.member("ack_status"@));
            }
        },
        PayloadView::ChunkQuery { .. } => {
            let names = wire::chunk_query_names();
            assert(names == seq!["message_type"@, "session_id"@, "sequence"@]);
            if json::fields(j, names) is Some {
                let f = json::fields(j, names)->0;
                assert(f[1] == j.member("session_id"@));
                assert(f[2] == j.member("sequence"@));
            }
        },
        PayloadView::SessionEnd { .. } => {
            let names = wire::session_end_names();
            assert(names == seq!["message_type"@, "session_id"@, "last_sequence"@]);
            if json::fields(j, names) is Some {
                let f = json::fields(j, names)->0;
                assert(f[1] == j.member("session_id"@));
                assert(f[2] == j.member("last_sequence"@));
            }
        },
        PayloadView::SessionPause { .. } => {
            let names = wire::session_pause_names();
            assert(names == seq!["message_type"@, "session_id"@]);
            if json::fields(j, names) is Some {
                let f = json::fields(j, names)->0;
                assert(f[1] == j.member("session_id"@));
            }
        },
        PayloadView::SessionResume { .. } => {
            let names = wire::session_resume_names();
            assert(names == seq!["message_type"@, "session_id"@, "context_token"@, "target_app"@]);
            if json::fields(j, names) is Some {
                let f = json::fields(j, names)->0;
                assert(f[1] == j.member("session_id"@));
                assert(f[2] == j.member("context_token"@));
                assert(f[3] == j.member("target_app"@));
            }
        },
        PayloadView::Error { .. } => {
            let names = wire::error_names();
            assert(names == seq!["message_type"@, "session_id"@, "code"@]);
            if json::fields(j, names) is Some {
                let f = json::fields(j, names)->0;
                assert(f[1] == j.member("session_id"@));
                assert(f[2] == j.member("code"@));
            }
        },
    }
}

/// An object is read as a binding just when it says what the binding holds, and nothing else.
pub proof fn law_bindings_are_read_as_they_say(entries: Seq<(Seq<char>, JsonView)>, b: BindingView)
    ensures
        wire::binding_of(JsonView::Object(entries)) == Some(b) <==> {
            let j = JsonView::Object(entries);
            &&& spells(j, "session_id"@, b.session_id)
            &&& says(j, "source_device_id"@, JsonView::Text(b.source_device_id))
            &&& says(j, "target_device_id"@, JsonView::Text(b.target_device_id))
            &&& says(j, "controller_device_id"@, JsonView::Text(b.controller_device_id))
            &&& given(j, "input_mode"@) matches Some(n) && protocol::mode_named(n) == Some(b.input_mode)
            &&& says(j, "context_token"@, JsonView::Text(b.context_token))
            &&& says(j, "target_app"@, JsonView::Text(b.target_app))
            &&& says(j, "created_ms"@, JsonView::Unsigned(b.created_ms))
            &&& has_only(
                entries,
                seq!["session_id"@, "source_device_id"@, "target_device_id"@, "controller_device_id"@, "input_mode"@, "context_token"@, "target_app"@, "created_ms"@],
            )
        },
{
    let j = JsonView::Object(entries);
    let names = wire::binding_names();
    lemma_given(j, "input_mode"@);
    if json::fields(j, names) is Some {
        let f = json::fields(j, names)->0;
        assert(f[0] == j.member("session_id"@));
        assert(f[1] == j.member("source_device_id"@));
        assert(f[2] == j.member("target_device_id"@));
        assert(f[3] == j.member("controller_device_id"@));
        assert(f[4] == j.member("input_mode"@));
        assert(f[5] == j.member("context_token"@));
        assert(f[6] == j.member("target_app"@));
        assert(f[7] == j.member("created_ms"@));
    }
}

/// An object is read as what goes on the wire just when it says the version, the identifier and
/// the message, and nothing else.
pub proof fn law_the_wire_is_read_as_it_says(entries: Seq<(Seq<char>, JsonView)>, w: WireView)
    ensures
        wire::wire_of(JsonView::Object(entries)) == Some(w) <==> {
            let j = JsonView::Object(entries);
            &&& says(j, "protocol_version"@, JsonView::Unsigned(w.protocol_version as u64))
            &&& spells(j, "request_id"@, w.request_id)
            &&& j.member("payload"@) matches Some(v) && wire::payload_of(v) == Some(w.payload)
            &&& has_only(entries, seq!["protocol_version"@, "request_id"@, "payload"@])
        },
{
    let j = JsonView::Object(entries);
    let names = wire::wire_names();
    if json::fields(j, names) is Some {
        let f = json::fields(j, names)->0;
        assert(f[0] == j.member("protocol_version"@));
        assert(f[1] == j.member("request_id"@));
        assert(f[2] == j.member("payload"@));
    }
}

/// A list is read as the record with its items by place; what is neither an object nor a list, or
/// has too many items, is not read.
pub proof fn law_lists_are_read_by_place(items: Seq<JsonView>, names: Seq<Seq<char>>, i: int)
    requires
        0 <= i < names.len(),
    ensures
        items.len() > names.len() <==> json::fields(JsonView::List(items), names) is None,
        items.len() <= names.len() && i < items.len() ==> json::fields(JsonView::List(items), names)->0[i] == Some(
            items[i],
        ),
        items.len() <= i ==> json::fields(JsonView::List(items), names)->0[i] is None,
        json::fields(JsonView::Null, names) is None,
        forall|s: Seq<char>| (#[trigger] json::fields(JsonView::Text(s), names)) is None,
        forall|n: u64| (#[trigger] json::fields(JsonView::Unsigned(n), names)) is None,
        forall|b: bool| (#[trigger] json::fields(JsonView::Bool(b), names)) is None,
{
}


/// A name stands for what is named so, and no other name does.
pub proof fn law_names_stand_for_what_is_named_so(s: Seq<char>, ack: Ack, phase: Phase, mode: Mode)
    ensures
        protocol::ack_named(s) == Some(ack) <==> s == protocol::ack_name(ack),
        protocol::phase_named(s) == Some(phase) <==> s == protocol::phase_name(phase),
        protocol::mode_named(s) == Some(mode) <==> s == protocol::mode_name(mode),
{
    protocol::lemma_ack_names(ack);
    protocol::lemma_phase_names(phase);
    protocol::lemma_mode_names(mode);
}

/// The length of a text is that of its bytes; a control character is one of the first thirty-two
/// of Unicode, or the delete character or one of the thirty-two after it.
pub proof fn law_how_texts_are_measured(s: Seq<char>)
    ensures
        text::size(s) == encode_utf8(s).len(),
        protocol::has_control(s) <==> exists|i: int|
            0 <= i < s.len() && ((#[trigger] s[i]) as u32 <= 31 || 127 <= s[i] as u32 <= 159),
{
    if protocol::has_control(s) {
        let i = choose|i: int| 0 <= i < s.len() && protocol::control(#[trigger] s[i]);
        assert(s[i] as u32 <= 31 || 127 <= s[i] as u32 <= 159);
    }
    if exists|i: int| 0 <= i < s.len() && ((#[trigger] s[i]) as u32 <= 31 || 127 <= s[i] as u32 <= 159) {
        let i = choose|i: int| 0 <= i < s.len() && ((#[trigger] s[i]) as u32 <= 31 || 127 <= s[i] as u32 <= 159);
        assert(protocol::control(s[i]));
    }
}

/// A text is refused for its length before it is refused for what it holds.
pub proof fn law_why_a_text_is_refused(s: Seq<char>)
    ensures
        protocol::text_error(s) matches Some(e) ==> e == (if s.len() == 0 || encode_utf8(s).len() > 16384 {
            "invalid_text_length"@
        } else {
            "unsafe_control_character"@
        }),
        s.len() == 0 || encode_utf8(s).len() > 16384 ==> protocol::text_error(s) is Some,
{
}

} // verus!
