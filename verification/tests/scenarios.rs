//! Two devices, from end to end.
use serde_json::Value;
use uuid::Uuid;
use voice_keyboard_core::{generate_identity, Core};

const MILLISECOND: u64 = 1_000_000;
const WALL: u64 = 1_700_000_000_000;

fn object(members: &[(&str, Value)]) -> Value {
    let mut m = serde_json::Map::new();
    for (k, v) in members {
        m.insert((*k).to_owned(), v.clone());
    }
    Value::Object(m)
}

fn text(s: &str) -> Value {
    Value::String(s.to_owned())
}

fn token() -> Value {
    text(&Uuid::new_v4().to_string())
}

struct Lab {
    a: Core,
    b: Core,
    a_events: Vec<Value>,
    b_events: Vec<Value>,
    now: u64,
    _dir: tempfile::TempDir,
}

fn call_at(core: &mut Core, command: &Value, now: u64) -> Result<Value, String> {
    match core.dispatch_at(command.to_string(), now, WALL) {
        Ok(s) => Ok(serde_json::from_str(&s).unwrap()),
        Err(e) => Err(e.code().to_owned()),
    }
}

fn is(e: &Value, name: &str) -> bool {
    e["event"] == name
}

impl Lab {
    fn new() -> Self {
        let dir = tempfile::tempdir().unwrap();
        let make = |name: &str| {
            let identity: Value = serde_json::from_str(&generate_identity().unwrap()).unwrap();
            let path = dir.path().join(format!("{name}.db"));
            let config = object(&[
                ("identity", identity),
                ("name", text(name)),
                ("journal_path", text(path.to_str().unwrap())),
                ("lease_ms", Value::from(1500)),
                ("finalizing_ms", Value::from(1000)),
            ]);
            Core::new(config.to_string()).unwrap()
        };
        let a = make("A");
        let b = make("B");
        let mut lab = Self { a, b, a_events: vec![], b_events: vec![], now: MILLISECOND, _dir: dir };
        lab.on_b(&[("op", text("open")), ("connection_id", text("b")), ("initiator", Value::Bool(false))]);
        let peer = text(&lab.b.device_id().unwrap());
        lab.on_a(&[
            ("op", text("open")),
            ("connection_id", text("a")),
            ("initiator", Value::Bool(true)),
            ("expected_peer", peer),
        ]);
        lab.pump();
        lab
    }

    fn on_a(&mut self, members: &[(&str, Value)]) -> Value {
        call_at(&mut self.a, &object(members), self.now).unwrap()
    }

    fn on_b(&mut self, members: &[(&str, Value)]) -> Value {
        call_at(&mut self.b, &object(members), self.now).unwrap()
    }

    fn refused_by_a(&mut self, members: &[(&str, Value)]) -> String {
        call_at(&mut self.a, &object(members), self.now).unwrap_err()
    }

    fn refused_by_b(&mut self, members: &[(&str, Value)]) -> String {
        call_at(&mut self.b, &object(members), self.now).unwrap_err()
    }

    fn peer_a(&self) -> Value {
        text(&self.a.device_id().unwrap())
    }

    fn peer_b(&self) -> Value {
        text(&self.b.device_id().unwrap())
    }

    fn pump(&mut self) {
        for _ in 0..100 {
            let mut moved = false;
            for event in self.a.poll_events().unwrap() {
                moved = true;
                let e: Value = serde_json::from_str(&event).unwrap();
                if is(&e, "socket_send") {
                    self.on_b(&[("op", text("bytes")), ("connection_id", text("b")), ("data", e["data"].clone())]);
                } else {
                    self.a_events.push(e);
                }
            }
            for event in self.b.poll_events().unwrap() {
                moved = true;
                let e: Value = serde_json::from_str(&event).unwrap();
                if is(&e, "socket_send") {
                    self.on_a(&[("op", text("bytes")), ("connection_id", text("a")), ("data", e["data"].clone())]);
                } else {
                    self.b_events.push(e);
                }
            }
            if !moved {
                return;
            }
        }
        panic!("non-quiescent core");
    }

    fn pair(&mut self) {
        let a_code = self.a_events.iter().find(|e| is(e, "secure_channel")).unwrap()["code"].clone();
        let b_code = self.b_events.iter().find(|e| is(e, "secure_channel")).unwrap()["code"].clone();
        assert_eq!(a_code, b_code);
        let (a, b) = (self.peer_a(), self.peer_b());
        self.on_a(&[("op", text("pair")), ("peer_id", b)]);
        self.pump();
        assert!(!self.a_events.iter().any(|e| is(e, "trust_changed")));
        self.on_b(&[("op", text("pair")), ("peer_id", a)]);
        self.pump();
        assert!(self.a_events.iter().any(|e| is(e, "trust_changed")));
        assert!(self.b_events.iter().any(|e| is(e, "trust_changed")));
    }

    fn local(&mut self, mode: &str) -> Value {
        let b = self.peer_b();
        let id = self.on_a(&[
            ("op", text("begin")),
            ("peer_id", b),
            ("mode", text(mode)),
            ("remote", Value::Bool(false)),
        ])["session_id"]
            .clone();
        self.pump();
        self.on_b(&[
            ("op", text("bound")),
            ("session_id", id.clone()),
            ("context_token", token()),
            ("target_app", text("TextEdit")),
        ]);
        self.pump();
        self.on_a(&[("op", text("ready")), ("session_id", id.clone())]);
        self.on_a(&[("op", text("listening")), ("session_id", id.clone())]);
        self.pump();
        id
    }

    fn heard(&mut self, id: &Value, start: u64, end: u64, until: u64, said: &str) {
        self.on_a(&[
            ("op", text("apple_result")),
            ("session_id", id.clone()),
            ("start", Value::from(start)),
            ("end", Value::from(end)),
            ("finalized_until", Value::from(until)),
            ("text", text(said)),
        ]);
    }

    fn apple(&mut self, id: &Value, start: u64, end: u64, said: &str) {
        self.heard(id, start, end, end, said);
        self.pump();
    }

    fn claim(&mut self, id: &Value, sequence: u64) -> Value {
        self.on_b(&[
            ("op", text("claim_injection")),
            ("session_id", id.clone()),
            ("sequence", Value::from(sequence)),
        ])["allowed"]
            .clone()
    }

    fn result(&mut self, id: &Value, sequence: u64, status: &str) {
        self.on_b(&[
            ("op", text("injection_result")),
            ("session_id", id.clone()),
            ("sequence", Value::from(sequence)),
            ("status", text(status)),
        ]);
        self.pump();
    }

    fn apply(&mut self, id: &Value, sequence: u64, status: &str) {
        assert_eq!(self.claim(id, sequence), true);
        self.result(id, sequence, status);
    }

    fn last<'a>(events: &'a [Value], id: &Value) -> &'a Value {
        events.iter().rev().find(|e| is(e, "session") && &e["binding"]["session_id"] == id).unwrap()
    }

    fn injections(&self) -> usize {
        self.b_events.iter().filter(|e| is(e, "inject")).count()
    }

    fn simple(op: &str, id: &Value) -> Vec<(&'static str, Value)> {
        vec![("op", text(op)), ("session_id", id.clone())]
    }
}

#[test]
fn unpaired_device_cannot_begin_and_pairing_needs_both_parties() {
    let mut l = Lab::new();
    let b = l.peer_b();
    let refusal = l.refused_by_a(&[
        ("op", text("begin")),
        ("peer_id", b),
        ("mode", text("apple_local")),
        ("remote", Value::Bool(false)),
    ]);
    assert_eq!(refusal, "unpaired_device");
    l.pair();
}

#[test]
fn apple_streams_ordered_chunks_and_only_applied_means_done() {
    let mut l = Lab::new();
    l.pair();
    let id = l.local("apple_local");
    l.apple(&id, 0, 10, "帮我修改");
    l.apple(&id, 10, 20, " login button。");
    assert_eq!(l.injections(), 1);
    l.apply(&id, 1, "applied");
    assert_eq!(l.injections(), 2);
    l.on_a(&Lab::simple("stop", &id));
    l.on_a(&[("op", text("source_stopped")), ("session_id", id.clone()), ("verified", Value::Bool(true))]);
    l.pump();
    assert_ne!(Lab::last(&l.a_events, &id)["phase"], "done");
    l.apply(&id, 2, "applied");
    assert_eq!(Lab::last(&l.a_events, &id)["phase"], "done");
    assert_eq!(Lab::last(&l.b_events, &id)["phase"], "done");
}

#[test]
fn partial_revisions_never_reach_receiver() {
    let mut l = Lab::new();
    l.pair();
    let id = l.local("apple_local");
    for said in ["登陆", "登录"] {
        l.heard(&id, 0, 10, 0, said);
        l.pump();
    }
    assert_eq!(l.injections(), 0);
    l.apple(&id, 0, 10, "登录");
    assert_eq!(l.injections(), 1);
    assert_eq!(Lab::last(&l.b_events, &id)["chunks"][0]["text"], "登录");
}

#[test]
fn unknown_blocks_next_chunk_and_query_does_not_reinject() {
    let mut l = Lab::new();
    l.pair();
    let id = l.local("apple_local");
    l.apple(&id, 0, 10, "first");
    l.apple(&id, 10, 20, "second");
    l.apply(&id, 1, "unknown");
    assert_eq!(l.injections(), 1);
    l.on_a(&Lab::simple("query", &id));
    l.pump();
    assert_eq!(l.injections(), 1);
    assert_eq!(Lab::last(&l.a_events, &id)["phase"], "unknown");
    let refusal = l.refused_by_b(&[
        ("op", text("resume")),
        ("session_id", id),
        ("context_token", token()),
        ("target_app", text("TextEdit")),
    ]);
    assert_eq!(refusal, "unsafe_resume");
}

#[test]
fn escape_prevents_unclaimed_actions_and_late_callbacks() {
    let mut l = Lab::new();
    l.pair();
    let id = l.local("apple_local");
    l.apple(&id, 0, 10, "keep in recovery");
    l.on_b(&Lab::simple("cancel", &id));
    l.pump();
    assert_eq!(l.claim(&id, 1), false);
    let refusal = l.refused_by_a(&[
        ("op", text("apple_result")),
        ("session_id", id.clone()),
        ("start", Value::from(10)),
        ("end", Value::from(20)),
        ("finalized_until", Value::from(20)),
        ("text", text("late")),
    ]);
    assert_eq!(refusal, "stale_input_callback");
    assert_eq!(Lab::last(&l.b_events, &id)["chunks"][0]["status"], "not_applied");
}

#[test]
fn cancellation_preserves_actual_inflight_result() {
    let mut l = Lab::new();
    l.pair();
    let id = l.local("apple_local");
    l.apple(&id, 0, 10, "already attempted");
    assert_eq!(l.claim(&id, 1), true);
    l.on_b(&Lab::simple("cancel", &id));
    l.pump();
    l.result(&id, 1, "applied");
    assert_eq!(Lab::last(&l.b_events, &id)["phase"], "cancelled");
    assert_eq!(Lab::last(&l.b_events, &id)["chunks"][0]["status"], "applied");
}

#[test]
fn doubao_waits_for_verified_stop_and_explicit_confirmation_once() {
    let mut l = Lab::new();
    l.pair();
    let id = l.local("doubao_ime");
    let confirm = [("op", text("confirm")), ("session_id", id.clone()), ("text", text("完整段落"))];
    l.on_a(&[("op", text("draft")), ("session_id", id.clone()), ("text", text("完整段落"))]);
    l.on_a(&Lab::simple("stop", &id));
    l.on_a(&[("op", text("source_stopped")), ("session_id", id.clone()), ("verified", Value::Bool(false))]);
    l.pump();
    assert_eq!(l.injections(), 0);
    assert_eq!(l.refused_by_a(&confirm), "unsafe_confirmation");
    l.on_a(&Lab::simple("confirm_stopped", &id));
    l.on_a(&confirm);
    l.pump();
    assert_eq!(l.injections(), 1);
    assert_eq!(l.refused_by_a(&confirm), "unsafe_confirmation");
}

#[test]
fn pairing_does_not_grant_remote_microphone_permission() {
    let mut l = Lab::new();
    l.pair();
    let a = l.peer_a();
    let id = l.on_b(&[
        ("op", text("begin")),
        ("peer_id", a),
        ("mode", text("apple_local")),
        ("remote", Value::Bool(true)),
        ("context_token", token()),
        ("target_app", text("TextEdit")),
    ])["session_id"]
        .clone();
    l.pump();
    assert!(!l.a_events.iter().any(|e| is(e, "prepare_input")));
    assert_eq!(Lab::last(&l.b_events, &id)["phase"], "paused");
}

#[test]
fn remote_lease_loss_stops_source_and_stop_is_idempotent() {
    let mut l = Lab::new();
    l.pair();
    let (a, b) = (l.peer_a(), l.peer_b());
    l.on_a(&[("op", text("remote_permission")), ("peer_id", b), ("allowed", Value::Bool(true))]);
    l.pump();
    let id = l.on_b(&[
        ("op", text("begin")),
        ("peer_id", a),
        ("mode", text("apple_local")),
        ("remote", Value::Bool(true)),
        ("context_token", token()),
        ("target_app", text("TextEdit")),
    ])["session_id"]
        .clone();
    l.pump();
    l.on_a(&Lab::simple("ready", &id));
    l.on_a(&Lab::simple("listening", &id));
    l.pump();
    l.now += 1600 * MILLISECOND;
    l.on_a(&[("op", text("tick"))]);
    l.pump();
    assert_eq!(l.a_events.iter().filter(|e| is(e, "stop_input")).count(), 1);
    l.on_a(&Lab::simple("stop", &id));
    l.pump();
    assert_eq!(l.a_events.iter().filter(|e| is(e, "stop_input")).count(), 1);
}

#[test]
fn focus_loss_requires_explicit_new_context_before_retry() {
    let mut l = Lab::new();
    l.pair();
    let id = l.local("apple_local");
    l.apple(&id, 0, 10, "pending");
    l.on_b(&Lab::simple("focus_invalid", &id));
    l.pump();
    assert_eq!(l.injections(), 1);
    l.on_b(&[
        ("op", text("resume")),
        ("session_id", id.clone()),
        ("context_token", token()),
        ("target_app", text("TextEdit")),
    ]);
    l.pump();
    assert_eq!(l.injections(), 2);
    l.apply(&id, 1, "applied");
}

#[test]
fn finalization_timeout_retains_draft_without_premature_send() {
    let mut l = Lab::new();
    l.pair();
    let id = l.local("apple_local");
    l.heard(&id, 0, 10, 0, "未确定尾部");
    l.on_a(&Lab::simple("stop", &id));
    l.now += 1100 * MILLISECOND;
    l.on_a(&[("op", text("tick"))]);
    l.pump();
    assert_eq!(l.injections(), 0);
    assert_eq!(Lab::last(&l.a_events, &id)["draft"], "未确定尾部");
    assert_eq!(Lab::last(&l.a_events, &id)["phase"], "awaiting_confirmation");
}

#[test]
fn active_session_prevents_target_or_mode_switch() {
    let mut l = Lab::new();
    l.pair();
    let _id = l.local("apple_local");
    let b = l.peer_b();
    let refusal = l.refused_by_a(&[
        ("op", text("begin")),
        ("peer_id", b),
        ("mode", text("doubao_ime")),
        ("remote", Value::Bool(false)),
    ]);
    assert_eq!(refusal, "busy");
}

#[test]
fn a_piece_in_doubt_is_resolved_by_a_person_and_then_the_next_one_can_come() {
    let mut l = Lab::new();
    l.pair();
    let id = l.local("apple_local");
    l.apple(&id, 0, 10, "first");
    l.apple(&id, 10, 20, "second");
    l.apply(&id, 1, "unknown");
    let wrong = [
        ("op", text("resolve_unknown")),
        ("session_id", id.clone()),
        ("sequence", Value::from(2)),
        ("applied", Value::Bool(true)),
    ];
    assert_eq!(l.refused_by_b(&wrong), "not_unknown");
    assert_eq!(l.refused_by_a(&wrong), "resolve_on_target");
    l.on_b(&[
        ("op", text("resolve_unknown")),
        ("session_id", id.clone()),
        ("sequence", Value::from(1)),
        ("applied", Value::Bool(true)),
    ]);
    l.pump();
    assert_eq!(Lab::last(&l.a_events, &id)["chunks"][0]["status"], "applied");
    assert_eq!(Lab::last(&l.b_events, &id)["phase"], "paused");
    assert_eq!(l.injections(), 1);
}

#[test]
fn losing_the_connection_pauses_both_sides() {
    let mut l = Lab::new();
    l.pair();
    let id = l.local("apple_local");
    l.apple(&id, 0, 10, "first");
    l.on_a(&[("op", text("closed")), ("connection_id", text("a"))]);
    l.on_b(&[("op", text("closed")), ("connection_id", text("b"))]);
    for event in l.a.poll_events().unwrap() {
        l.a_events.push(serde_json::from_str(&event).unwrap());
    }
    for event in l.b.poll_events().unwrap() {
        l.b_events.push(serde_json::from_str(&event).unwrap());
    }
    assert_eq!(Lab::last(&l.a_events, &id)["phase"], "unknown");
    assert_eq!(Lab::last(&l.a_events, &id)["chunks"][0]["status"], "unknown");
    assert_eq!(Lab::last(&l.b_events, &id)["phase"], "paused");
    assert_eq!(Lab::last(&l.b_events, &id)["chunks"][0]["status"], "not_applied");
    assert!(l.a_events.iter().any(|e| is(e, "stop_input")));
    assert!(l.a_events.iter().any(|e| is(e, "peer") && e["online"] == false));
}

#[test]
fn revoking_cancels_closes_and_forgets() {
    let mut l = Lab::new();
    l.pair();
    let id = l.local("apple_local");
    let b = l.peer_b();
    l.on_a(&[("op", text("revoke")), ("peer_id", b.clone())]);
    for event in l.a.poll_events().unwrap() {
        l.a_events.push(serde_json::from_str(&event).unwrap());
    }
    assert_eq!(Lab::last(&l.a_events, &id)["phase"], "cancelled");
    assert!(l.a_events.iter().any(|e| is(e, "cancel_input")));
    assert!(l.a_events.iter().any(|e| is(e, "socket_close")));
    let kept = l.a_events.iter().rev().find(|e| is(e, "trust_changed")).unwrap();
    assert_eq!(kept["peers"], Value::Array(vec![]));
    let refusal = l.refused_by_a(&[("op", text("begin")), ("peer_id", b), ("mode", text("apple_local"))]);
    assert_eq!(refusal, "unpaired_device");
}

#[test]
fn a_session_is_forgotten_only_when_it_is_over() {
    let mut l = Lab::new();
    l.pair();
    let id = l.local("apple_local");
    assert_eq!(l.refused_by_a(&Lab::simple("forget_recovery", &id)), "session_still_active");
    l.on_a(&Lab::simple("cancel", &id));
    l.on_a(&[("op", text("source_stopped")), ("session_id", id.clone()), ("verified", Value::Bool(true))]);
    l.pump();
    l.on_a(&Lab::simple("forget_recovery", &id));
    assert_eq!(l.refused_by_a(&Lab::simple("stop", &id)), "unknown_session");
    l.pump();
    assert!(l.a_events.iter().any(|e| is(e, "recovery_cleared") && e["session_id"] == id));
}

#[test]
fn messages_of_the_paired_device_are_greeted_again_after_a_while() {
    let mut l = Lab::new();
    l.pair();
    l.now += 11_000 * MILLISECOND;
    let before = l.b_events.iter().filter(|e| is(e, "peer")).count();
    l.on_a(&[("op", text("tick"))]);
    l.pump();
    assert_eq!(l.b_events.iter().filter(|e| is(e, "peer")).count(), before + 1);
    l.now += 46_000 * MILLISECOND;
    l.on_a(&[("op", text("tick"))]);
    for event in l.a.poll_events().unwrap() {
        l.a_events.push(serde_json::from_str(&event).unwrap());
    }
    assert!(l.a_events.iter().any(|e| is(e, "socket_close")));
}

#[test]
fn bytes_that_make_no_sense_close_the_connection() {
    let mut l = Lab::new();
    l.pair();
    assert_eq!(l.refused_by_a(&[("op", text("bytes")), ("connection_id", text("a")), ("data", text("*"))]), "invalid_frame");
    assert_eq!(
        l.refused_by_a(&[("op", text("bytes")), ("connection_id", text("nobody")), ("data", text(""))]),
        "target_offline"
    );
    assert_eq!(
        l.refused_by_a(&[("op", text("bytes")), ("connection_id", text("a")), ("data", text("AAAAAA=="))]),
        "frame_limit"
    );
    assert_eq!(
        l.refused_by_a(&[("op", text("bytes")), ("connection_id", text("a")), ("data", text("AAAAAA=="))]),
        "target_offline"
    );
}

#[test]
fn real_clocks_drive_a_device_too() {
    let dir = tempfile::tempdir().unwrap();
    let identity: Value = serde_json::from_str(&generate_identity().unwrap()).unwrap();
    let path = dir.path().join("c.db");
    let config = object(&[
        ("identity", identity),
        ("name", text("C")),
        ("journal_path", text(path.to_str().unwrap())),
    ]);
    let mut core = Core::new(config.to_string()).unwrap();
    assert_eq!(core.dispatch("{\"op\":\"tick\"}".to_owned()).unwrap(), "{\"ok\":true}");
    assert!(core.poll_events().unwrap().is_empty());
}
