//! The journal answers for what a target was asked to type.
use voice_keyboard_core::journal::{admitted, changed_one, judged, located, noted, room_for, told, Journal};
use voice_keyboard_core::protocol::{Ack, RETENTION_MS};

fn code<T>(r: Result<T, voice_keyboard_core::CoreError>) -> String {
    match r {
        Ok(_) => "ok".to_owned(),
        Err(e) => e.code().to_owned(),
    }
}

fn new_id() -> u128 {
    uuid::Uuid::new_v4().as_u128()
}

#[test]
fn duplicate_and_conflicting_content() {
    let mut j = Journal::open(":memory:", b"test", 0).unwrap();
    let id = new_id();
    j.session(id, "peer", 0).unwrap();
    assert_eq!(j.register(id, 1, "中文").unwrap(), None);
    j.record(id, 1, Ack::Applied).unwrap();
    assert_eq!(j.register(id, 1, "中文").unwrap(), Some(Ack::Applied));
    assert!(j.register(id, 1, "different").is_err());
    assert!(j.session(id, "peer", 0).is_err());
}

#[test]
fn expiry_and_unknown_query_are_fail_closed() {
    let mut j = Journal::open(":memory:", b"key", 0).unwrap();
    let id = new_id();
    j.session(id, "peer", 0).unwrap();
    assert!(j.authorize(id, "attacker", 0).is_err());
    assert!(j.authorize(id, "peer", RETENTION_MS + 1).is_err());
    assert_eq!(j.query(id, 99).unwrap(), Ack::Unknown);
}

#[test]
fn journal_refusals_have_their_codes() {
    let mut j = Journal::open(":memory:", b"key", 0).unwrap();
    let id = new_id();
    assert_eq!(code(j.authorize(id, "peer", 0)), "expired_session");
    assert_eq!(code(j.session(id, "peer", 5)), "ok");
    assert_eq!(code(j.session(id, "other", 6)), "session_replay");
    assert_eq!(code(j.authorize(id, "peer", 5 + RETENTION_MS)), "ok");
    assert_eq!(code(j.authorize(id, "peer", 6 + RETENTION_MS)), "expired_session");
    assert_eq!(code(j.authorize(id, "other", 5)), "expired_session");
    assert_eq!(code(j.record(id, 1, Ack::Applied)), "unknown_chunk");
    assert_eq!(code(j.register(id, 1, "a")), "ok");
    assert_eq!(code(j.register(id, 1, "b")), "chunk_content_conflict");
    assert_eq!(code(j.register(id, u64::MAX, "b")), "storage_error");
    assert_eq!(code(Journal::open("", b"key", 0)), "invalid_journal_path");
    assert_eq!(code(Journal::open("/", b"key", 0)), "invalid_journal_path");
    assert_eq!(code(Journal::open("/no/such/directory/journal.db", b"key", 0)), "storage_error");
}

#[test]
fn registered_piece_is_received_and_leaves_the_others_alone() {
    let mut j = Journal::open(":memory:", b"key", 0).unwrap();
    let (a, b) = (new_id(), new_id());
    j.session(a, "peer", 0).unwrap();
    j.session(b, "peer", 0).unwrap();
    assert_eq!(j.register(a, 1, "text").unwrap(), None);
    assert_eq!(j.register(a, 1, "text").unwrap(), Some(Ack::Received));
    assert_eq!(j.register(b, 1, "text").unwrap(), None);
    j.record(a, 1, Ack::NotApplied).unwrap();
    assert_eq!(j.query(a, 1).unwrap(), Ack::NotApplied);
    assert_eq!(j.query(b, 1).unwrap(), Ack::Received);
    assert_eq!(j.query(a, 2).unwrap(), Ack::Unknown);
}

#[test]
fn unsettled_piece_is_unknown_after_reopening_and_no_text_is_kept() {
    let dir = tempfile::tempdir().unwrap();
    let path = dir.path().join("ledger.db");
    let path = path.to_str().unwrap();
    let id = new_id();
    {
        let mut j = Journal::open(path, b"key", 0).unwrap();
        j.session(id, "peer", 0).unwrap();
        j.register(id, 1, "SECRET_DICTATION_NEVER_PERSIST").unwrap();
        j.register(id, 2, "settled").unwrap();
        j.record(id, 2, Ack::Applied).unwrap();
    }
    let j = Journal::open(path, b"key", 1).unwrap();
    assert_eq!(j.query(id, 1).unwrap(), Ack::Unknown);
    assert_eq!(j.query(id, 2).unwrap(), Ack::Applied);
    let db = rusqlite::Connection::open(path).unwrap();
    let texts: i64 = db
        .query_row(
            "SELECT COUNT(*) FROM chunks WHERE instr(digest, CAST('SECRET' AS BLOB)) > 0 OR instr(status, 'SECRET') > 0",
            [],
            |r| r.get(0),
        )
        .unwrap();
    assert_eq!(texts, 0);
    let digests: i64 = db.query_row("SELECT COUNT(*) FROM chunks WHERE length(digest) = 32", [], |r| r.get(0)).unwrap();
    assert_eq!(digests, 2);
}

#[test]
fn reopening_forgets_pieces_of_expired_sessions_but_not_the_sessions() {
    let dir = tempfile::tempdir().unwrap();
    let path = dir.path().join("ledger.db");
    let path = path.to_str().unwrap();
    let id = new_id();
    {
        let mut j = Journal::open(path, b"key", 0).unwrap();
        j.session(id, "peer", 0).unwrap();
        j.register(id, 1, "text").unwrap();
        j.record(id, 1, Ack::Applied).unwrap();
    }
    {
        let j = Journal::open(path, b"key", RETENTION_MS).unwrap();
        assert_eq!(j.query(id, 1).unwrap(), Ack::Applied);
    }
    let mut j = Journal::open(path, b"key", RETENTION_MS + 1).unwrap();
    assert_eq!(j.query(id, 1).unwrap(), Ack::Unknown);
    assert_eq!(code(j.session(id, "peer", RETENTION_MS + 1)), "session_replay");
}

#[test]
fn digests_depend_on_the_key_and_on_the_text() {
    let dir = tempfile::tempdir().unwrap();
    let path = dir.path().join("ledger.db");
    let path = path.to_str().unwrap();
    let id = new_id();
    {
        let mut j = Journal::open(path, b"key", 0).unwrap();
        j.session(id, "peer", 0).unwrap();
        j.register(id, 1, "text").unwrap();
    }
    let mut other = Journal::open(path, b"another key", 0).unwrap();
    assert_eq!(code(other.register(id, 1, "text")), "chunk_content_conflict");
    let mut same = Journal::open(path, b"key", 0).unwrap();
    assert_eq!(same.register(id, 1, "text").unwrap(), Some(Ack::Unknown));
    assert_eq!(code(same.register(id, 1, "texT")), "chunk_content_conflict");
}

#[test]
fn decisions_on_what_the_tables_hold() {
    assert_eq!(code(located(":memory:", false)), "ok");
    assert_eq!(code(located("journal.db", true)), "ok");
    assert_eq!(code(located("journal.db", false)), "invalid_journal_path");
    assert_eq!(code(room_for(99_999)), "ok");
    assert_eq!(code(room_for(100_000)), "journal_capacity");
    assert_eq!(code(noted(Ok(1))), "ok");
    assert_eq!(code(noted(Err(rusqlite::Error::InvalidQuery))), "session_replay");
    assert_eq!(code(admitted(Some(7), 7)), "ok");
    assert_eq!(code(admitted(Some(7), 8)), "expired_session");
    assert_eq!(code(admitted(None, 0)), "expired_session");
    assert_eq!(judged(None, b"d").unwrap(), None);
    assert_eq!(judged(Some((b"d".to_vec(), "applied".to_owned())), b"d").unwrap(), Some(Ack::Applied));
    assert_eq!(judged(Some((b"d".to_vec(), "other".to_owned())), b"d").unwrap(), Some(Ack::Unknown));
    assert_eq!(code(judged(Some((b"d".to_vec(), "applied".to_owned())), b"e")), "chunk_content_conflict");
    assert_eq!(code(changed_one(1)), "ok");
    assert_eq!(code(changed_one(0)), "unknown_chunk");
    assert_eq!(code(changed_one(2)), "unknown_chunk");
    assert_eq!(told(None), Ack::Unknown);
    assert_eq!(told(Some("not_applied".to_owned())), Ack::NotApplied);
}

#[test]
fn a_session_is_noted_by_how_many_are_counted() {
    let mut j = Journal::open(":memory:", b"key", 0).unwrap();
    let (a, b) = (new_id(), new_id());
    assert_eq!(code(j.session_counted(0, a, "peer", 5)), "ok");
    assert_eq!(code(j.session_counted(1, a, "peer", 5)), "session_replay");
    assert_eq!(code(j.session_counted(1, a, "other", 9)), "session_replay");
    assert_eq!(code(j.session_counted(100_000, b, "peer", 5)), "journal_capacity");
    assert_eq!(code(j.authorize(b, "peer", 5)), "expired_session");
    assert_eq!(code(j.session_counted(99_999, b, "peer", 5)), "ok");
    assert_eq!(code(j.authorize(a, "peer", 5 + RETENTION_MS)), "ok");
    assert_eq!(code(j.authorize(b, "peer", 6 + RETENTION_MS)), "expired_session");
}

#[test]
fn opening_again_keeps_what_was_settled_and_every_session() {
    let dir = tempfile::tempdir().unwrap();
    let path = dir.path().join("ledger.db");
    let path = path.to_str().unwrap();
    let id = new_id();
    {
        let mut j = Journal::open(path, b"key", 0).unwrap();
        j.session(id, "peer", 0).unwrap();
        for (n, status) in [(1, Ack::Applied), (2, Ack::NotApplied), (3, Ack::Unknown), (4, Ack::Received)] {
            j.register(id, n, "text").unwrap();
            j.record(id, n, status).unwrap();
        }
    }
    let mut j = Journal::open(path, b"key", RETENTION_MS).unwrap();
    assert_eq!(code(j.session(id, "peer", 1)), "session_replay");
    assert_eq!(j.query(id, 1).unwrap(), Ack::Applied);
    assert_eq!(j.query(id, 2).unwrap(), Ack::NotApplied);
    assert_eq!(j.query(id, 3).unwrap(), Ack::Unknown);
    assert_eq!(j.query(id, 4).unwrap(), Ack::Unknown);
    assert_eq!(j.register(id, 1, "text").unwrap(), Some(Ack::Applied));
    assert_eq!(code(j.register(id, 2, "other")), "chunk_content_conflict");
    drop(j);
    let mut j = Journal::open(path, b"key", RETENTION_MS + 1).unwrap();
    assert_eq!(code(j.session(id, "peer", 1)), "session_replay");
    assert_eq!(j.query(id, 1).unwrap(), Ack::Unknown);
    assert_eq!(j.register(id, 1, "other").unwrap(), None);
}
