//! Messages, and the JSON in which they travel.
use voice_keyboard_core::json::{parse, render, Json};
use voice_keyboard_core::protocol::{
    valid_id, validate_text, Ack, Binding, Mode, Payload, Phase, Wire, MAX_FRAME, MAX_TEXT, VERSION,
};

fn code<T>(r: Result<T, voice_keyboard_core::CoreError>) -> String {
    match r {
        Ok(_) => "ok".to_owned(),
        Err(e) => e.code().to_owned(),
    }
}

fn binding() -> Binding {
    Binding {
        session_id: 0x0011_2233_4455_4677_8899_aabb_ccdd_eeff,
        source_device_id: "a".repeat(64),
        target_device_id: "B".repeat(64),
        controller_device_id: "0".repeat(64),
        input_mode: Mode::AppleLocal,
        context_token: String::new(),
        target_app: "Text \"Edit\"".to_owned(),
        created_ms: 100_000,
    }
}

fn every_payload() -> Vec<Payload> {
    let id = 0x0011_2233_4455_4677_8899_aabb_ccdd_eeff;
    vec![
        Payload::Hello { device_id: "d".to_owned(), name: "é\n".to_owned() },
        Payload::PairConfirm,
        Payload::BindRequest { binding: binding() },
        Payload::SessionBound { binding: binding() },
        Payload::SessionStart { binding: binding() },
        Payload::SessionReady { session_id: id },
        Payload::SessionState { session_id: id, phase: Phase::AwaitingConfirmation },
        Payload::SessionKeepalive { session_id: id },
        Payload::SessionStop { session_id: id },
        Payload::SessionCancel { session_id: id },
        Payload::TextChunk {
            session_id: id,
            sequence: u64::MAX,
            context_token: "t".to_owned(),
            text: "帮我".to_owned(),
            is_final: true,
        },
        Payload::ChunkAck { session_id: id, sequence: 1, ack_status: Ack::NotApplied },
        Payload::ChunkQuery { session_id: id, sequence: 2 },
        Payload::SessionEnd { session_id: id, last_sequence: 3 },
        Payload::SessionPause { session_id: id },
        Payload::SessionResume { session_id: id, context_token: "t".to_owned(), target_app: "x".to_owned() },
        Payload::Error { session_id: Some(id), code: "busy".to_owned() },
        Payload::Error { session_id: None, code: "busy".to_owned() },
    ]
}

fn show(p: &Payload) -> String {
    render(&p.to_json())
}

fn decode(text: &str) -> Result<Wire, voice_keyboard_core::CoreError> {
    Wire::decode(text.as_bytes())
}

#[test]
fn every_message_is_read_back() {
    for p in every_payload() {
        let before = show(&p);
        let wire = Wire::new(p);
        assert_ne!(wire.request_id, 0);
        let read = Wire::decode(&wire.encode()).unwrap();
        assert_eq!(read.protocol_version, VERSION);
        assert_eq!(read.request_id, wire.request_id);
        assert_eq!(show(&read.payload), before);
    }
}

#[test]
fn a_message_has_this_text() {
    let wire = Wire {
        protocol_version: 1,
        request_id: 0xffff_ffff_ffff_4fff_bfff_ffff_ffff_ffff,
        payload: Payload::ChunkAck {
            session_id: 0x0011_2233_4455_4677_8899_aabb_ccdd_eeff,
            sequence: 7,
            ack_status: Ack::Applied,
        },
    };
    let expected = "{\"protocol_version\":1,\"request_id\":\"ffffffff-ffff-4fff-bfff-ffffffffffff\",\
\"payload\":{\"message_type\":\"chunk_ack\",\"session_id\":\"00112233-4455-4677-8899-aabbccddeeff\",\
\"sequence\":7,\"ack_status\":\"applied\"}}";
    assert_eq!(String::from_utf8(wire.encode()).unwrap(), expected);
}

#[test]
fn identifiers_of_requests_are_drawn_anew() {
    let a = Wire::new(Payload::PairConfirm);
    let b = Wire::new(Payload::PairConfirm);
    assert_ne!(a.request_id, b.request_id);
    assert_eq!((a.request_id >> 76) & 0xf, 4);
    assert_eq!((a.request_id >> 62) & 3, 2);
}

#[test]
fn messages_that_make_no_sense_are_refused() {
    let id = "00112233-4455-4677-8899-aabbccddeeff";
    let wire = |version: &str, request: &str, payload: &str| {
        format!("{{\"protocol_version\":{version},\"request_id\":\"{request}\",\"payload\":{payload}}}")
    };
    let pair = "{\"message_type\":\"pair_confirm\"}";
    assert_eq!(code(decode(&wire("1", id, pair))), "ok");
    assert_eq!(code(decode(&wire("2", id, pair))), "protocol_version");
    assert_eq!(code(decode(&wire("1", "00000000-0000-0000-0000-000000000000", pair))), "protocol_version");
    assert_eq!(code(decode(&wire("65536", id, pair))), "invalid_message");
    assert_eq!(code(decode(&wire("-1", id, pair))), "invalid_message");
    assert_eq!(code(decode(&wire("1.0", id, pair))), "invalid_message");
    assert_eq!(code(decode(&wire("1", "nobody", pair))), "invalid_message");
    assert_eq!(code(decode(&wire("1", id, "{\"message_type\":\"run_script\"}"))), "invalid_message");
    assert_eq!(code(decode(&wire("1", id, "{}"))), "invalid_message");
    assert_eq!(code(decode("[]")), "invalid_message");
    assert_eq!(code(decode("{")), "invalid_message");
    let stop = format!("{{\"message_type\":\"session_stop\",\"session_id\":\"{id}\"}}");
    assert_eq!(code(decode(&wire("1", id, &stop))), "ok");
    let more = format!("{{\"message_type\":\"session_stop\",\"session_id\":\"{id}\",\"audio\":1}}");
    assert_eq!(code(decode(&wire("1", id, &more))), "invalid_message");
    let error = "{\"message_type\":\"error\",\"code\":\"x\"}";
    assert!(matches!(decode(&wire("1", id, error)).unwrap().payload, Payload::Error { session_id: None, .. }));
    let extra = format!("{{\"protocol_version\":1,\"request_id\":\"{id}\",\"payload\":{pair},\"more\":0}}");
    assert_eq!(code(decode(&extra)), "invalid_message");
    let twice = format!("{{\"message_type\":\"session_stop\",\"session_id\":\"{id}\",\"session_id\":\"{id}\"}}");
    assert_eq!(code(decode(&wire("1", id, &twice))), "invalid_message");
    let twice = format!("{{\"protocol_version\":1,\"protocol_version\":1,\"request_id\":\"{id}\",\"payload\":{pair}}}");
    assert_eq!(code(decode(&twice)), "invalid_message");
    let colons = "{\"message_type\":\"error\",\"code\":\"a:\\\"b:\\\\\"}";
    assert!(matches!(decode(&wire("1", id, colons)).unwrap().payload, Payload::Error { code, .. } if code == "a:\"b:\\"));
    let short = format!("[1,\"{id}\",{pair}]");
    assert_eq!(code(decode(&short)), "ok");
}

#[test]
fn a_message_has_a_limit() {
    assert_eq!(code(Wire::decode(&vec![b' '; MAX_FRAME - 31])), "message_too_large");
    assert_eq!(code(Wire::decode(&vec![b' '; MAX_FRAME - 32])), "invalid_message");
}

#[test]
fn names_and_what_they_name() {
    for a in [Ack::Received, Ack::Applied, Ack::NotApplied, Ack::Unknown] {
        assert_eq!(Ack::parse(a.as_str()), a);
    }
    assert_eq!(Ack::NotApplied.as_str(), "not_applied");
    assert_eq!(Ack::parse("anything else"), Ack::Unknown);
    assert_eq!(Mode::DoubaoIme.as_str(), "doubao_ime");
    assert_eq!(Mode::named("apple_local"), Some(Mode::AppleLocal));
    assert_eq!(Mode::named("Apple"), None);
    let phases = [
        (Phase::Preparing, "preparing"),
        (Phase::Ready, "ready"),
        (Phase::Listening, "listening"),
        (Phase::Finalizing, "finalizing"),
        (Phase::AwaitingConfirmation, "awaiting_confirmation"),
        (Phase::Committing, "committing"),
        (Phase::Paused, "paused"),
        (Phase::Unknown, "unknown"),
        (Phase::Done, "done"),
        (Phase::Cancelled, "cancelled"),
        (Phase::StopFailed, "stop_failed"),
    ];
    for (p, name) in phases {
        assert_eq!(p.as_str(), name);
        assert_eq!(Phase::named(name), Some(p));
        assert_eq!(p.terminal(), name == "done" || name == "cancelled");
        assert_eq!(p.accepts_text(), name == "listening" || name == "finalizing");
    }
}

#[test]
fn identifiers_of_devices() {
    assert!(valid_id(&"0123456789abcdefABCDEF".repeat(3)[..64]));
    assert!(!valid_id(&"a".repeat(63)));
    assert!(!valid_id(&"a".repeat(65)));
    assert!(!valid_id(&"g".repeat(64)));
    assert!(!valid_id(&"é".repeat(32)));
    assert!(!valid_id(""));
}

#[test]
fn texts_that_are_refused() {
    assert_eq!(code(validate_text("a\tb\r\nc")), "ok");
    assert_eq!(code(validate_text("")), "invalid_text_length");
    assert_eq!(code(validate_text(&"a".repeat(MAX_TEXT))), "ok");
    assert_eq!(code(validate_text(&"a".repeat(MAX_TEXT + 1))), "invalid_text_length");
    assert_eq!(code(validate_text(&"帮".repeat(MAX_TEXT / 3 + 1))), "invalid_text_length");
    assert_eq!(code(validate_text("a\u{0}")), "unsafe_control_character");
    assert_eq!(code(validate_text("a\u{1b}")), "unsafe_control_character");
    assert_eq!(code(validate_text("a\u{7f}")), "unsafe_control_character");
    assert_eq!(code(validate_text("a\u{9f}")), "unsafe_control_character");
    assert_eq!(code(validate_text("a\u{a0}")), "ok");
}

#[test]
fn bindings_that_are_refused() {
    assert_eq!(code(binding().validate(100_000)), "ok");
    assert_eq!(code(binding().validate(160_000)), "ok");
    assert_eq!(code(binding().validate(160_001)), "invalid_binding");
    assert_eq!(code(binding().validate(40_000)), "ok");
    assert_eq!(code(binding().validate(39_999)), "invalid_binding");
    let bad = |change: fn(&mut Binding)| {
        let mut b = binding();
        change(&mut b);
        code(b.validate(100_000))
    };
    assert_eq!(bad(|b| b.session_id = 0), "invalid_binding");
    assert_eq!(bad(|b| b.source_device_id = "x".to_owned()), "invalid_binding");
    assert_eq!(bad(|b| b.target_device_id = String::new()), "invalid_binding");
    assert_eq!(bad(|b| b.controller_device_id = "é".repeat(32)), "invalid_binding");
    assert_eq!(bad(|b| b.target_app = "a".repeat(257)), "invalid_binding");
    assert_eq!(bad(|b| b.target_app = "a".repeat(256)), "ok");
    assert_eq!(bad(|b| b.context_token = "a".repeat(129)), "invalid_binding");
    assert_eq!(bad(|b| b.context_token = "a".repeat(128)), "ok");
}

#[test]
fn json_is_read_and_written() {
    let text = "{\"b\":[1,true,null,\"x\\\"\\\\\\n\\u0001é\"],\"a\":{}}";
    let spaced = text.replace(':', " : ").replace(',', " ,\n");
    assert_eq!(render(&parse(spaced.as_bytes()).unwrap()), text);
    assert!(parse(b"{\"a\":").is_none());
    assert!(parse(b"\xff").is_none());
    assert!(matches!(parse(b"-1").unwrap(), Json::Other));
    assert!(matches!(parse(b"18446744073709551615").unwrap(), Json::Unsigned(u64::MAX)));
    let with = parse(b"{\"b\":1}").unwrap().with("a", Json::Bool(false)).with("b", Json::Null);
    assert_eq!(render(&with), "{\"a\":false,\"b\":null}");
}

#[test]
fn a_pairing_confirmation_may_say_more_but_its_kind_once() {
    let id = "00112233-4455-4677-8899-aabbccddeeff";
    let wire = |payload: &str| format!("{{\"protocol_version\":1,\"request_id\":\"{id}\",\"payload\":{payload}}}");
    let reads = |payload: &str| code(decode(&wire(payload)));
    assert_eq!(reads("{\"message_type\":\"pair_confirm\",\"x\":1}"), "ok");
    assert_eq!(reads("{\"x\":1,\"message_type\":\"pair_confirm\",\"x\":{\"a:\":[{\"b\":1,\"b\":2}],\"a:\":0}}"), "ok");
    assert_eq!(reads("{\"x\":{\"message_type\":1,\"message_type\":2},\"message_type\":\"pair_confirm\"}"), "ok");
    assert_eq!(reads("{\"message_type\":\"pair_confirm\",\"message_type\":\"pair_confirm\"}"), "invalid_message");
    assert_eq!(reads("{\"message\\u005ftype\":\"hello\",\"message_type\":\"pair_confirm\"}"), "invalid_message");
    assert_eq!(reads("{\"message_type\":\"session_stop\",\"x\":1}"), "invalid_message");
    let twice = wire("{\"message_type\":\"pair_confirm\"}").replacen('{', "{\"payload\":0,", 1);
    assert_eq!(code(decode(&twice)), "invalid_message");
    let short = format!("[1,\"{id}\",{{\"message_type\":\"pair_confirm\",\"x\":1,\"x\":2}}]");
    assert_eq!(code(decode(&short)), "ok");
}
