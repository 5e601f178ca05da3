//! What a device makes of the answers of its journal.
use voice_keyboard_core::config::Config;
use voice_keyboard_core::engine::Engine;
use voice_keyboard_core::event::Event;
use voice_keyboard_core::journal::Journal;
use voice_keyboard_core::protocol::{Ack, Binding, Mode, Phase};
use voice_keyboard_core::session::{Chunk, Session};
use voice_keyboard_core::{err, generate_identity, CoreError};

const PLACE: &str = "6f0d4c1e-8a3b-4c5d-9e7f-001122334455";

fn code<T>(r: Result<T, CoreError>) -> String {
    match r {
        Ok(_) => "ok".to_owned(),
        Err(e) => e.code().to_owned(),
    }
}

fn device() -> Engine {
    let identity = generate_identity().unwrap();
    let config = Config::read(&format!("{{\"identity\":{identity},\"name\":\"D\",\"journal_path\":\":memory:\"}}")).unwrap();
    let id = config.identity.id().unwrap();
    let private = config.identity.private_bytes().unwrap();
    Engine::with_journal(config, id, private, Journal::open(":memory:", b"key", 0).unwrap(), 0)
}

fn binding(e: &Engine, source: bool) -> Binding {
    let (me, other) = (e.desk.id.clone(), "ab".repeat(32));
    let (from, to) = if source { (me, other) } else { (other, me) };
    Binding {
        session_id: 9,
        source_device_id: from.clone(),
        target_device_id: to,
        controller_device_id: from,
        input_mode: Mode::AppleLocal,
        context_token: PLACE.to_owned(),
        target_app: "editor".to_owned(),
        created_ms: 0,
    }
}

fn typing(e: &Engine) -> Session {
    let mut s = Session::new(binding(e, false), 0);
    s.phase = Phase::Ready;
    for sequence in 1..3 {
        s.chunks.push(Chunk { sequence, text: "word ".to_owned(), status: Ack::Received, is_final: true });
    }
    s.inflight = Some((1, true));
    s
}

#[test]
fn a_session_that_is_noted_is_kept_and_one_that_is_not_is_refused() {
    let mut e = device();
    let b = binding(&e, true);
    assert_eq!(code(e.added(Err(err("storage_error")), b, true, 5)), "storage_error");
    assert!(e.sessions.is_empty() && e.active_source.is_none() && e.desk.events.is_empty());
    let b = binding(&e, true);
    assert_eq!(e.added(Ok(()), b, true, 5).unwrap(), 9);
    assert_eq!(e.sessions.len(), 1);
    assert_eq!(e.sessions[0].started, 5);
    assert_eq!((e.active_source, e.active_target), (Some(9), None));
    assert!(matches!(e.desk.events[..], [Event::Session { .. }]));

    let mut e = device();
    let b = binding(&e, false);
    assert_eq!(e.added(Ok(()), b, false, 5).unwrap(), 9);
    assert_eq!((e.active_source, e.active_target), (None, Some(9)));
}

#[test]
fn a_typed_piece_that_is_recorded_lets_the_next_follow() {
    let mut e = device();
    let mut s = typing(&e);
    assert_eq!(code(e.desk.settled(&mut s, 1, Ack::Applied, Ok(()))), "ok");
    assert_eq!(s.chunks[0].status, Ack::Applied);
    assert_eq!(s.next_receive, 2);
    assert_eq!(s.inflight, Some((2, false)));
    assert_eq!(s.phase, Phase::Ready);
    assert!(e.desk.events.iter().any(|x| matches!(x, Event::Inject { sequence: 2, .. })));
}

#[test]
fn a_piece_that_could_not_be_recorded_is_in_doubt() {
    let mut e = device();
    let mut s = typing(&e);
    assert_eq!(code(e.desk.settled(&mut s, 1, Ack::Applied, Err(err("storage_error")))), "ok");
    assert_eq!(s.chunks[0].status, Ack::Unknown);
    assert_eq!(s.next_receive, 1);
    assert_eq!(s.inflight, None);
    assert_eq!(s.phase, Phase::Unknown);
    assert!(!e.desk.events.iter().any(|x| matches!(x, Event::Inject { .. })));
}

#[test]
fn a_piece_is_taken_in_as_the_journal_knows_it() {
    let mut e = device();
    let fresh = |e: &Engine| {
        let mut s = Session::new(binding(e, false), 0);
        s.phase = Phase::Ready;
        s
    };
    let peer = "ab".repeat(32);

    let mut s = fresh(&e);
    let failed = Err(err("chunk_content_conflict"));
    assert_eq!(code(e.desk.registered(&mut s, &peer, 1, PLACE, "a".to_owned(), true, failed)), "chunk_content_conflict");
    assert!(s.chunks.is_empty());

    // The other device is not paired, so the acknowledgement cannot be sent.
    assert_eq!(code(e.desk.registered(&mut s, &peer, 1, PLACE, "a".to_owned(), true, Ok(None))), "unpaired_device");
    assert_eq!(s.chunks.len(), 1);
    assert_eq!((s.chunks[0].sequence, s.chunks[0].status), (1, Ack::Received));

    let mut s = fresh(&e);
    let known = Ok(Some(Ack::Applied));
    assert_eq!(code(e.desk.registered(&mut s, &peer, 1, PLACE, "a".to_owned(), true, known)), "unpaired_device");
    assert!(s.chunks.is_empty());
}

#[test]
fn a_piece_that_is_not_to_be_typed_is_kept_once_that_is_recorded() {
    let mut e = device();
    let peer = "ab".repeat(32);
    let mut s = Session::new(binding(&e, false), 0);
    let failed = Err(err("storage_error"));
    let r = e.desk.keep_piece(&mut s, &peer, 3, "a".to_owned(), true, Ack::NotApplied, failed);
    assert_eq!(code(r), "storage_error");
    assert!(s.chunks.is_empty());
    let r = e.desk.keep_piece(&mut s, &peer, 3, "a".to_owned(), true, Ack::NotApplied, Ok(()));
    assert_eq!(code(r), "unpaired_device");
    assert_eq!((s.chunks[0].sequence, s.chunks[0].status), (3, Ack::NotApplied));
}
