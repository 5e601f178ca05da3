//! A device on its own: how it is set up, and what it refuses.
use serde_json::Value;
use voice_keyboard_core::config::{default_finalizing, default_lease, default_max_session, Config};
use voice_keyboard_core::engine::Engine;
use voice_keyboard_core::journal::Journal;
use voice_keyboard_core::json::{parse, render};
use voice_keyboard_core::{clock, err, fail, generate_identity, normalize_local_command, Core, CoreError};

fn object(members: &[(&str, Value)]) -> Value {
    let mut m = serde_json::Map::new();
    for (k, v) in members {
        m.insert((*k).to_owned(), v.clone());
    }
    Value::Object(m)
}

fn text(s: &str) -> Value {
    Value::String(s.to_owned())
}

fn code<T>(r: Result<T, CoreError>) -> String {
    match r {
        Ok(_) => "ok".to_owned(),
        Err(e) => e.code().to_owned(),
    }
}

fn setup(change: &[(&str, Value)]) -> String {
    let identity: Value = serde_json::from_str(&generate_identity().unwrap()).unwrap();
    let mut config = object(&[("identity", identity), ("name", text("A")), ("journal_path", text(":memory:"))]);
    for (k, v) in change {
        config[*k] = v.clone();
    }
    config.to_string()
}

fn device() -> Core {
    Core::new(setup(&[])).unwrap()
}

fn ask(core: &mut Core, command: &str) -> String {
    match core.dispatch_at(command.to_owned(), 1_000_000, 1_700_000_000_000) {
        Ok(s) => s,
        Err(e) => e.code().to_owned(),
    }
}

fn peer(id: &str) -> Value {
    object(&[("peer_id", text(id)), ("name", text("P")), ("allow_remote", Value::Bool(false))])
}

#[test]
fn explicit_stop_confirmation_uses_canonical_transition() {
    let id = uuid::Uuid::new_v4().to_string();
    let command = format!("{{\"op\":\"confirm_stopped\",\"session_id\":\"{id}\"}}");
    let normal = normalize_local_command(parse(command.as_bytes()).unwrap()).unwrap();
    assert_eq!(render(&normal), format!("{{\"op\":\"source_stopped\",\"session_id\":\"{id}\",\"verified\":true}}"));
}

#[test]
fn ordinary_commands_cannot_gain_verified_stop_by_normalization() {
    let command = "{\"op\":\"stop\",\"session_id\":\"example\"}";
    assert_eq!(render(&normalize_local_command(parse(command.as_bytes()).unwrap()).unwrap()), command);
    assert!(normalize_local_command(parse(b"[]").unwrap()).is_err());
}

#[test]
fn defaults_of_a_configuration() {
    assert_eq!((default_lease(), default_finalizing(), default_max_session()), (3000, 5000, 120_000));
    let c = Config::read(&setup(&[])).unwrap();
    assert_eq!((c.lease_ms, c.finalizing_ms, c.max_session_ms), (3000, 5000, 120_000));
    assert!(c.peers.is_empty());
    assert_eq!(c.name, "A");
    assert_eq!(c.journal_path, ":memory:");
}

#[test]
fn configurations_that_are_refused() {
    let bad = |k: &str, v: Value| code(Core::new(setup(&[(k, v)])));
    assert_eq!(code(Core::new(setup(&[]))), "ok");
    assert_eq!(code(Core::new("{".to_owned())), "invalid_configuration");
    assert_eq!(code(Core::new("{}".to_owned())), "invalid_configuration");
    assert_eq!(bad("more", Value::Null), "invalid_configuration");
    assert_eq!(bad("journal_path", text("")), "invalid_journal_path");
    let twice = setup(&[]).replacen('{', "{\"name\":\"B\",", 1);
    assert_eq!(code(Core::new(twice)), "invalid_configuration");
    assert_eq!(bad("name", text("")), "invalid_configuration");
    assert_eq!(bad("name", text(&"a".repeat(129))), "invalid_configuration");
    assert_eq!(bad("name", text(&"a".repeat(128))), "ok");
    assert_eq!(bad("lease_ms", Value::from(1499)), "invalid_configuration");
    assert_eq!(bad("lease_ms", Value::from(1500)), "ok");
    assert_eq!(bad("lease_ms", Value::from(15_000)), "ok");
    assert_eq!(bad("lease_ms", Value::from(15_001)), "invalid_configuration");
    assert_eq!(bad("lease_ms", Value::Null), "invalid_configuration");
    assert_eq!(bad("finalizing_ms", Value::from(999)), "invalid_configuration");
    assert_eq!(bad("finalizing_ms", Value::from(60_001)), "invalid_configuration");
    assert_eq!(bad("max_session_ms", Value::from(9_999)), "invalid_configuration");
    assert_eq!(bad("max_session_ms", Value::from(600_001)), "invalid_configuration");
    assert_eq!(bad("peers", Value::Array(vec![peer("x")])), "invalid_configuration");
    assert_eq!(bad("peers", Value::Array(vec![peer(&"a".repeat(64))])), "ok");
    assert_eq!(bad("peers", Value::Array(vec![peer(&"a".repeat(64)); 101])), "invalid_configuration");
    assert_eq!(bad("peers", Value::Array(vec![Value::Null])), "invalid_configuration");
    assert_eq!(bad("identity", object(&[("private_key", text("*")), ("public_key", text("*"))])), "invalid_identity");
    assert_eq!(bad("journal_path", text("/no/such/directory/journal.db")), "storage_error");
    let a: Value = serde_json::from_str(&generate_identity().unwrap()).unwrap();
    let mut b: Value = serde_json::from_str(&generate_identity().unwrap()).unwrap();
    b["public_key"] = a["public_key"].clone();
    assert_eq!(bad("identity", b), "identity_key_mismatch");
}

#[test]
fn paired_devices_of_a_configuration_are_kept_in_order_and_the_last_word_counts() {
    let (a, b) = ("a".repeat(64), "b".repeat(64));
    let mut again = peer(&a);
    again["name"] = text("again");
    let core = Core::new(setup(&[("peers", Value::Array(vec![peer(&b), peer(&a), again]))])).unwrap();
    let names: Vec<(&str, &str)> =
        core.engine.desk.trust.iter().map(|t| (t.peer_id.as_str(), t.name.as_str())).collect();
    assert_eq!(names, vec![(a.as_str(), "again"), (b.as_str(), "P")]);
}

#[test]
fn commands_that_are_refused() {
    let mut c = device();
    let mut refused = |command: &str| ask(&mut c, command);
    assert_eq!(refused("{"), "invalid_command");
    assert_eq!(refused("[]"), "invalid_command");
    assert_eq!(refused("{}"), "invalid_command");
    assert_eq!(refused("{\"op\":1}"), "invalid_command");
    assert_eq!(refused(&" ".repeat(200_001)), "command_limit");
    assert_eq!(refused(&" ".repeat(200_000)), "invalid_command");
    assert_eq!(refused("{\"op\":\"dance\"}"), "invalid_command");
    assert_eq!(refused("{\"op\":\"dance\",\"session_id\":\"x\"}"), "invalid_session_id");
    let id = uuid::Uuid::new_v4();
    assert_eq!(refused(&format!("{{\"op\":\"dance\",\"session_id\":\"{id}\"}}")), "unknown_session");
    assert_eq!(refused("{\"op\":\"open\"}"), "invalid_command");
    assert_eq!(
        refused("{\"op\":\"open\",\"connection_id\":\"c\",\"expected_peer\":\"me\"}"),
        "invalid_peer_identity"
    );
    assert_eq!(refused("{\"op\":\"pair\",\"peer_id\":\"nobody\"}"), "target_offline");
    assert_eq!(refused("{\"op\":\"begin\",\"peer_id\":\"nobody\"}"), "unpaired_device");
    assert_eq!(refused("{\"op\":\"remote_permission\",\"peer_id\":\"nobody\"}"), "unpaired_device");
    assert_eq!(refused("{\"op\":\"revoke\",\"peer_id\":\"nobody\"}"), "{\"ok\":true}");
    assert_eq!(refused("{\"op\":\"closed\",\"connection_id\":\"nobody\"}"), "{\"ok\":true}");
    assert_eq!(refused(&format!("{{\"op\":\"forget_recovery\",\"session_id\":\"{id}\"}}")), "{\"ok\":true}");
}

#[test]
fn a_paired_device_must_be_there_and_the_mode_known() {
    let a = "a".repeat(64);
    let mut c = Core::new(setup(&[("peers", Value::Array(vec![peer(&a)]))])).unwrap();
    assert_eq!(ask(&mut c, &format!("{{\"op\":\"begin\",\"peer_id\":\"{a}\",\"mode\":\"none\"}}")), "target_offline");
}

#[test]
fn there_are_eight_connections_at_most() {
    let mut c = device();
    for i in 0..8 {
        assert_eq!(ask(&mut c, &format!("{{\"op\":\"open\",\"connection_id\":\"{i}\"}}")), "{\"ok\":true}");
    }
    assert_eq!(ask(&mut c, "{\"op\":\"open\",\"connection_id\":\"8\"}"), "connection_limit");
    assert_eq!(ask(&mut c, "{\"op\":\"closed\",\"connection_id\":\"3\"}"), "{\"ok\":true}");
    assert_eq!(ask(&mut c, "{\"op\":\"open\",\"connection_id\":\"0\"}"), "connection_limit");
    assert_eq!(ask(&mut c, "{\"op\":\"open\",\"connection_id\":\"8\",\"initiator\":true}"), "{\"ok\":true}");
    let events = c.poll_events().unwrap();
    assert_eq!(events[0], "{\"connection_id\":\"3\",\"event\":\"socket_close\"}");
    assert!(events[1].starts_with("{\"connection_id\":\"8\",\"data\":\"AAAAI"));
    assert!(c.poll_events().unwrap().is_empty());
}

#[test]
fn a_connection_that_never_says_who_it_is_is_closed() {
    let mut c = device();
    ask(&mut c, "{\"op\":\"open\",\"connection_id\":\"x\"}");
    let tick = "{\"op\":\"tick\"}".to_owned();
    c.dispatch_at(tick.clone(), 1_000_000 + 10_000_000_000, 1_700_000_000_000).unwrap();
    assert!(c.poll_events().unwrap().is_empty());
    c.dispatch_at(tick, 1_000_001 + 10_000_000_000, 1_700_000_000_000).unwrap();
    assert_eq!(c.poll_events().unwrap(), vec!["{\"connection_id\":\"x\",\"event\":\"socket_close\"}"]);
}

#[test]
fn a_device_that_loses_events_is_done_for() {
    let mut c = device();
    ask(&mut c, "{\"op\":\"open\",\"connection_id\":\"x\"}");
    for _ in 0..512 {
        assert_eq!(ask(&mut c, "{\"op\":\"closed\",\"connection_id\":\"nobody\"}"), "{\"ok\":true}");
    }
    assert_eq!(ask(&mut c, "{\"op\":\"closed\",\"connection_id\":\"nobody\"}"), "{\"ok\":true}");
    assert_eq!(ask(&mut c, "{\"op\":\"tick\"}"), "core_restart_required");
    assert_eq!(
        c.poll_events().unwrap(),
        vec![
            "{\"code\":\"event_overflow_restart_required\",\"event\":\"fatal\"}",
        ]
    );
}

#[test]
fn identities_are_json_and_the_device_knows_its_own() {
    let text = generate_identity().unwrap();
    let v: Value = serde_json::from_str(&text).unwrap();
    assert_eq!(v.as_object().unwrap().len(), 2);
    let i = voice_keyboard_core::transport::Identity {
        private_key: v["private_key"].as_str().unwrap().to_owned(),
        public_key: v["public_key"].as_str().unwrap().to_owned(),
    };
    let config = object(&[("identity", v), ("name", Value::String("A".into())), ("journal_path", Value::String(":memory:".into()))]);
    assert_eq!(Core::new(config.to_string()).unwrap().device_id().unwrap(), i.id().unwrap());
}

#[test]
fn errors_carry_their_code() {
    assert_eq!(err("some_code").code(), "some_code");
    assert_eq!(code(fail::<u8>("other_code")), "other_code");
}

#[test]
fn an_engine_can_be_set_up_at_any_time() {
    let config = Config::read(&setup(&[("lease_ms", Value::from(2000))])).unwrap();
    let e = Engine::new(config, 77, 0).unwrap();
    assert_eq!(e.desk.heartbeat, 77);
    assert_eq!(e.desk.lease, 2_000_000_000);
    assert_eq!(e.desk.finalizing, 5_000_000_000);
    assert_eq!(e.desk.max_session, 120_000_000_000);
}

#[test]
fn an_engine_is_put_together_with_the_journal_it_is_given() {
    let config = Config::read(&setup(&[("name", Value::from("Desk"))])).unwrap();
    let id = config.identity.id().unwrap();
    let private = config.identity.private_bytes().unwrap();
    let mut journal = Journal::open(":memory:", b"key", 0).unwrap();
    journal.session(7, "peer", 0).unwrap();
    let mut e = Engine::with_journal(config, id.clone(), private, journal, 78);
    assert_eq!(e.desk.id, id);
    assert_eq!(e.desk.name, "Desk");
    assert_eq!(e.desk.heartbeat, 78);
    assert_eq!(e.desk.lease, 3_000_000_000);
    assert!(e.sessions.is_empty() && e.desk.links.is_empty() && e.desk.events.is_empty());
    assert_eq!(code(e.desk.note(7, "peer", 0)), "session_replay");
}

#[test]
fn the_calendar_is_past_the_year_two_thousand_and_the_clock_moves_forward() {
    assert!(clock::now_ms() > 946_684_800_000);
    let c = clock::Clock::new();
    let a = c.now();
    assert!(c.now() >= a);
}

#[test]
fn clocks_show_how_long_it_is_to_a_given_time() {
    let start = std::time::Instant::now();
    let c = clock::Clock::starting(start);
    assert_eq!(c.at(&start), 0);
    assert_eq!(c.at(&(start + std::time::Duration::new(2, 5))), 2_000_000_005);
    let later = clock::Clock::starting(start + std::time::Duration::new(1, 0));
    assert_eq!(later.at(&(start + std::time::Duration::new(2, 5))), 1_000_000_005);
}

#[test]
fn the_calendar_counts_whole_milliseconds_from_the_epoch() {
    let epoch = std::time::UNIX_EPOCH;
    assert_eq!(clock::ms_at(&epoch), 0);
    assert_eq!(clock::ms_at(&(epoch + std::time::Duration::new(1_700_000_000, 1_999_999))), 1_700_000_000_001);
    assert_eq!(clock::ms_at(&(epoch - std::time::Duration::new(1, 0))), 0);
}
