//! The journal of what a target was asked to type, which outlives the process. It
//! holds no text, only keyed digests.
use crate::crypto;
use crate::crypto::Secret;
use crate::ids;
use crate::protocol;
use crate::protocol::{Ack, RETENTION_MS};
use crate::store;
use crate::{fail, CoreError};
use vstd::prelude::*;
use vstd::utf8::*;

verus! {

/// How many sessions a journal holds at most.
pub const MAX_SESSIONS: i64 = 100000;

/// What a digest of a text begins with.
pub const DIGEST_CONTEXT: &'static str = "voice-keyboard/chunk/v1\0";

/// A journal on a database, with the key of its digests.
pub struct Journal {
    pub db: rusqlite::Connection,
    pub key: Secret,
}

/// A journal by its contents. They are known only where nobody else reaches the
/// database.
pub struct JournalView {
    pub exclusive: bool,
    pub sessions: Map<Seq<char>, (Seq<char>, u64)>,
    pub chunks: Map<(Seq<char>, u64), (Seq<u8>, Seq<char>)>,
    pub key: Seq<u8>,
}

impl View for Journal {
    type V = JournalView;

    open spec fn view(&self) -> JournalView {
        JournalView {
            exclusive: store::exclusive(self.db),
            sessions: if store::exclusive(self.db) {
                store::session_rows(self.db)
            } else {
                Map::empty()
            },
            chunks: if store::exclusive(self.db) {
                store::chunk_rows(self.db)
            } else {
                Map::empty()
            },
            key: self.key@,
        }
    }
}

/// When a session expires that is noted at the given time.
pub open spec fn expiry(now: u64) -> u64 {
    if now + RETENTION_MS > u64::MAX {
        u64::MAX
    } else {
        (now + RETENTION_MS) as u64
    }
}

/// The pieces that are left of a database once it is opened again: those of expired sessions
/// are gone, and what was not settled is unknown.
pub open spec fn left_of(c: rusqlite::Connection, now: u64) -> Map<(Seq<char>, u64), (Seq<u8>, Seq<char>)> {
    store::unexpired(
        store::restated(
            store::chunk_rows(c),
            protocol::ack_name(Ack::Received),
            protocol::ack_name(Ack::Unknown),
        ),
        store::session_rows(c),
        now,
    )
}

/// Whether a journal is what is left of a database that was found: all its sessions, and the
/// pieces that stay.
pub open spec fn recovered(c: rusqlite::Connection, now: u64, j: JournalView) -> bool {
    &&& j.exclusive == store::exclusive(c)
    &&& j.exclusive ==> j.sessions == store::session_rows(c)
    &&& j.exclusive ==> j.chunks == left_of(c, now)
}

/// Whether a journal may be the one that is opened at a path under a key at a time.
pub open spec fn opened(path: Seq<char>, key: Seq<u8>, now: u64, j: JournalView) -> bool {
    &&& j.key == key
    &&& exists|c: rusqlite::Connection| #[trigger] store::reached(path, c) && recovered(c, now, j)
}

/// Whether a journal may so be refused at a path: the path leads to nothing in a directory, or
/// the database fails.
pub open spec fn unopened(path: Seq<char>, code: Seq<char>) -> bool {
    ||| code == "invalid_journal_path"@ && path != ":memory:"@ && !store::leads_somewhere(path)
    ||| code == "storage_error"@ && !store::leads_nowhere(path)
}

/// Whether no piece of a journal is still to be settled, and none is of an expired session.
pub open spec fn nothing_pending(j: JournalView, now: u64) -> bool {
    j.exclusive ==> forall|key: (Seq<char>, u64)| #[trigger]
        j.chunks.contains_key(key) ==> protocol::ack_parsed(j.chunks[key].1) != Ack::Received
            && !store::expired_before(j.sessions, key.0, now)
}

impl JournalView {
    /// The digest of a text.
    pub open spec fn digest(self, text: Seq<char>) -> Seq<u8> {
        crypto::hmac_of(self.key, encode_utf8(DIGEST_CONTEXT@) + encode_utf8(text))
    }

    /// The journal after it was asked to note a session, with what it answered.
    pub open spec fn after_session(self, id: u128, peer: Seq<char>, now: u64, r: Result<(), Seq<char>>) -> JournalView {
        if self.exclusive && r is Ok {
            JournalView { sessions: self.sessions.insert(ids::id_text(id), (peer, expiry(now))), ..self }
        } else {
            self
        }
    }

    /// Whether the journal may so answer when it is asked to note a session.
    pub open spec fn may_note(self, id: u128, r: Result<(), Seq<char>>) -> bool {
        match r {
            Ok(_) => self.exclusive ==> !self.sessions.contains_key(ids::id_text(id)) && self.sessions.dom().len()
                < MAX_SESSIONS,
            Err(e) => {
                ||| e == "storage_error"@
                ||| e == "journal_capacity"@ && (self.exclusive ==> self.sessions.dom().len() >= MAX_SESSIONS)
                ||| e == "session_replay"@ && (self.exclusive ==> self.sessions.dom().len() < MAX_SESSIONS)
            },
        }
    }

    /// Whether the journal may so answer when it is asked to note a session and so many are
    /// counted. Where there is room, a session is refused as one that came before, and in no
    /// other way.
    pub open spec fn may_note_counted(self, count: i64, id: u128, r: Result<(), Seq<char>>) -> bool {
        if count >= MAX_SESSIONS {
            r == Err::<(), Seq<char>>("journal_capacity"@)
        } else {
            match r {
                Ok(_) => self.exclusive ==> !self.sessions.contains_key(ids::id_text(id)),
                Err(e) => e == "session_replay"@,
            }
        }
    }

    /// Whether a session with a peer is known and has not expired.
    pub open spec fn knows(self, id: u128, peer: Seq<char>, now: u64) -> bool {
        &&& self.sessions.contains_key(ids::id_text(id))
        &&& self.sessions[ids::id_text(id)].0 == peer
        &&& now <= self.sessions[ids::id_text(id)].1
    }

    /// Whether the journal may so answer when it is asked whether a peer may speak of a
    /// session.
    pub open spec fn may_authorize(self, id: u128, peer: Seq<char>, now: u64, r: Result<(), Seq<char>>) -> bool {
        match r {
            Ok(_) => self.exclusive ==> self.knows(id, peer, now),
            Err(e) => e == "storage_error"@ || (e == "expired_session"@ && (self.exclusive ==> !self.knows(
                id,
                peer,
                now,
            ))),
        }
    }

    /// The journal after it was asked to register a piece, with what it answered.
    pub open spec fn after_register(
        self,
        id: u128,
        seq: u64,
        text: Seq<char>,
        r: Result<Option<Ack>, Seq<char>>,
    ) -> JournalView {
        if self.exclusive && r == Ok::<Option<Ack>, Seq<char>>(None) {
            JournalView {
                chunks: self.chunks.insert(
                    (ids::id_text(id), seq),
                    (self.digest(text), protocol::ack_name(Ack::Received)),
                ),
                ..self
            }
        } else {
            self
        }
    }

    /// Whether the journal may so answer when it is asked to register a piece.
    pub open spec fn may_register(
        self,
        id: u128,
        seq: u64,
        text: Seq<char>,
        r: Result<Option<Ack>, Seq<char>>,
    ) -> bool {
        match r {
            Ok(None) => self.exclusive ==> !self.chunks.contains_key((ids::id_text(id), seq)),
            Ok(Some(status)) => self.exclusive ==> {
                &&& self.chunks.contains_key((ids::id_text(id), seq))
                &&& self.chunks[(ids::id_text(id), seq)].0 == self.digest(text)
                &&& status == protocol::ack_parsed(self.chunks[(ids::id_text(id), seq)].1)
            },
            Err(e) => e == "storage_error"@ || (e == "chunk_content_conflict"@ && (self.exclusive ==> {
                &&& self.chunks.contains_key((ids::id_text(id), seq))
                &&& self.chunks[(ids::id_text(id), seq)].0 != self.digest(text)
            })),
        }
    }

    /// The journal after it was asked to record a status, with what it answered.
    pub open spec fn after_record(self, id: u128, seq: u64, status: Ack, r: Result<(), Seq<char>>) -> JournalView {
        if self.exclusive && r is Ok {
            JournalView {
                chunks: self.chunks.insert(
                    (ids::id_text(id), seq),
                    (self.chunks[(ids::id_text(id), seq)].0, protocol::ack_name(status)),
                ),
                ..self
            }
        } else {
            self
        }
    }

    /// Whether the journal may so answer when it is asked to record a status.
    pub open spec fn may_record(self, id: u128, seq: u64, r: Result<(), Seq<char>>) -> bool {
        match r {
            Ok(_) => self.exclusive ==> self.chunks.contains_key((ids::id_text(id), seq)),
            Err(e) => e == "storage_error"@ || (e == "unknown_chunk"@ && (self.exclusive ==> !self.chunks.contains_key(
                (ids::id_text(id), seq),
            ))),
        }
    }

    /// What the journal holds of a piece: that of one it does not hold is not known.
    pub open spec fn status(self, id: u128, seq: u64) -> Ack {
        if self.chunks.contains_key((ids::id_text(id), seq)) {
            protocol::ack_parsed(self.chunks[(ids::id_text(id), seq)].1)
        } else {
            Ack::Unknown
        }
    }

    /// Whether the journal may so answer when it is asked for the status of a piece.
    pub open spec fn may_tell(self, id: u128, seq: u64, r: Result<Ack, Seq<char>>) -> bool {
        match r {
            Ok(status) => self.exclusive ==> status == self.status(id, seq),
            Err(e) => e == "storage_error"@,
        }
    }
}

impl Journal {
    /// Opens the journal at a path, whose directory is there. What was not settled when it was last closed is now
    /// unknown, and the pieces of expired sessions are gone; the sessions stay, so that
    /// none comes twice.
    pub fn open(path: &str, key: &[u8], now: u64) -> (r: Result<Self, CoreError>)
        ensures
            r matches Ok(j) ==> opened(path@, key@, now, j@),
            r matches Ok(j) ==> nothing_pending(j@, now),
            r matches Ok(j) ==> (path@ == ":memory:"@ ==> j@.exclusive && j@.sessions == Map::<
                Seq<char>,
                (Seq<char>, u64),
            >::empty() && j@.chunks == Map::<(Seq<char>, u64), (Seq<u8>, Seq<char>)>::empty()),
            r is Ok ==> !store::leads_nowhere(path@),
            r matches Err(e) ==> unopened(path@, e.spec_code()),
    {
        match located(path, store::has_directory(path)) {
            Ok(_) => {},
            Err(e) => return Err(e),
        }
        proof {
            reveal_strlit(":memory:");
            assert(path@ == ":memory:"@ ==> path@.len() == 8);
        }
        let mut db = match store::open(path) {
            Ok(db) => db,
            Err(_) => return fail("storage_error"),
        };
        let ghost found = db;
        if store::make_tables(&mut db).is_err() {
            return fail("storage_error");
        }
        match recover(&mut db, now) {
            Ok(_) => {},
            Err(e) => return Err(e),
        }
        let j = Journal { db, key: crypto::keep_secret(vstd::slice::slice_to_vec(key)) };
        proof {
            assert(store::reached(path@, found) && recovered(found, now, j@));
            law_nothing_is_pending_after_opening(found, now, j@);
            if path@ == ":memory:"@ {
                assert(j@.chunks =~= Map::<(Seq<char>, u64), (Seq<u8>, Seq<char>)>::empty());
            }
        }
        Ok(j)
    }

    /// Notes a session with a peer. There is one with an identifier only once.
    pub fn session(&mut self, id: u128, peer: &str, now: u64) -> (r: Result<(), CoreError>)
        ensures
            final(self)@ == old(self)@.after_session(id, peer@, now, crate::outcome(r)),
            old(self)@.may_note(id, crate::outcome(r)),
    {
        let count = match store::count_sessions(&self.db) {
            Ok(n) => n,
            Err(_) => return fail("storage_error"),
        };
        self.session_counted(count, id, peer, now)
    }

    /// Notes a session with a peer where so many sessions are counted.
    pub fn session_counted(&mut self, count: i64, id: u128, peer: &str, now: u64) -> (r: Result<(), CoreError>)
        ensures
            final(self)@ == old(self)@.after_session(id, peer@, now, crate::outcome(r)),
            old(self)@.may_note_counted(count, id, crate::outcome(r)),
    {
        match room_for(count) {
            Ok(_) => {},
            Err(e) => return Err(e),
        }
        let name = ids::show_id(id);
        noted(store::insert_session(&mut self.db, name.as_str(), peer, now.saturating_add(RETENTION_MS)))
    }

    /// Refuses a peer that may not speak of a session, or no longer.
    pub fn authorize(&self, id: u128, peer: &str, now: u64) -> (r: Result<(), CoreError>)
        ensures
            self@.may_authorize(id, peer@, now, crate::outcome(r)),
    {
        let name = ids::show_id(id);
        match store::find_expiry(&self.db, name.as_str(), peer) {
            Ok(expires) => admitted(expires, now),
            Err(_) => fail("storage_error"),
        }
    }

    /// The digest of a text under the key of the journal.
    fn digest(&self, text: &str) -> (d: Vec<u8>)
        ensures
            d@ == self@.digest(text@),
    {
        let mut message = vstd::slice::slice_to_vec(DIGEST_CONTEXT.as_bytes());
        message.extend_from_slice(text.as_bytes());
        assert(message@ =~= encode_utf8(DIGEST_CONTEXT@) + encode_utf8(text@));
        crypto::hmac_sha256(self.key.as_slice(), message.as_slice())
    }

    /// Registers a piece before anything is done with it. Of one that was registered
    /// before, with the same text, it gives what became of it.
    pub fn register(&mut self, id: u128, seq: u64, text: &str) -> (r: Result<Option<Ack>, CoreError>)
        ensures
            final(self)@ == old(self)@.after_register(id, seq, text@, crate::outcome(r)),
            old(self)@.may_register(id, seq, text@, crate::outcome(r)),
    {
        let digest = self.digest(text);
        let name = ids::show_id(id);
        let row = match store::find_chunk(&self.db, name.as_str(), seq) {
            Ok(row) => row,
            Err(_) => return fail("storage_error"),
        };
        match judged(row, digest.as_slice()) {
            Err(e) => Err(e),
            Ok(Some(status)) => Ok(Some(status)),
            Ok(None) => match store::insert_chunk(
                &mut self.db,
                name.as_str(),
                seq,
                &digest,
                Ack::Received.as_str(),
            ) {
                Ok(_) => Ok(None),
                Err(_) => fail("storage_error"),
            },
        }
    }

    /// Records what became of a piece.
    pub fn record(&mut self, id: u128, seq: u64, status: Ack) -> (r: Result<(), CoreError>)
        ensures
            final(self)@ == old(self)@.after_record(id, seq, status, crate::outcome(r)),
            old(self)@.may_record(id, seq, crate::outcome(r)),
    {
        let name = ids::show_id(id);
        match store::set_status(&mut self.db, name.as_str(), seq, status.as_str()) {
            Ok(n) => changed_one(n),
            Err(_) => fail("storage_error"),
        }
    }

    /// What became of a piece. That there is none is no proof that it was not typed.
    pub fn query(&self, id: u128, seq: u64) -> (r: Result<Ack, CoreError>)
        ensures
            self@.may_tell(id, seq, crate::outcome(r)),
    {
        let name = ids::show_id(id);
        match store::find_status(&self.db, name.as_str(), seq) {
            Ok(status) => Ok(told(status)),
            Err(_) => fail("storage_error"),
        }
    }
}

/// Refuses a path that leads to nothing in a directory. A journal in memory needs none.
pub fn located(path: &str, has_directory: bool) -> (r: Result<(), CoreError>)
    ensures
        crate::outcome(r) == (if path@ == ":memory:"@ || has_directory {
            Ok(())
        } else {
            Err::<(), Seq<char>>("invalid_journal_path"@)
        }),
{
    if !crate::text::same(path, ":memory:") && !has_directory {
        return fail("invalid_journal_path");
    }
    Ok(())
}

/// Refuses a session where so many are noted that there is room for no more.
pub fn room_for(count: i64) -> (r: Result<(), CoreError>)
    ensures
        crate::outcome(r) == (if count >= MAX_SESSIONS {
            Err::<(), Seq<char>>("journal_capacity"@)
        } else {
            Ok(())
        }),
{
    if count >= MAX_SESSIONS {
        fail("journal_capacity")
    } else {
        Ok(())
    }
}

/// Refuses, as one that came before, a session whose row could not be inserted.
pub fn noted(inserted: Result<usize, rusqlite::Error>) -> (r: Result<(), CoreError>)
    ensures
        crate::outcome(r) == (if inserted is Ok {
            Ok(())
        } else {
            Err::<(), Seq<char>>("session_replay"@)
        }),
{
    match inserted {
        Ok(_) => Ok(()),
        Err(_) => fail("session_replay"),
    }
}

/// Refuses a session that was not found, or that expired before the given time.
pub fn admitted(expires: Option<u64>, now: u64) -> (r: Result<(), CoreError>)
    ensures
        crate::outcome(r) == (match expires {
            Some(t) => if now <= t {
                Ok(())
            } else {
                Err::<(), Seq<char>>("expired_session"@)
            },
            None => Err("expired_session"@),
        }),
{
    match expires {
        Some(t) => {
            if now > t {
                fail("expired_session")
            } else {
                Ok(())
            }
        },
        None => fail("expired_session"),
    }
}

/// What the row of a piece, if there is one, says of a piece that comes with a digest: it is
/// new, its text is another one, or that became of it.
pub fn judged(row: Option<(Vec<u8>, String)>, digest: &[u8]) -> (r: Result<Option<Ack>, CoreError>)
    ensures
        crate::outcome(r) == (match store::row_found(row) {
            None => Ok(None),
            Some((previous, status)) => if previous == digest@ {
                Ok(Some(protocol::ack_parsed(status)))
            } else {
                Err::<Option<Ack>, Seq<char>>("chunk_content_conflict"@)
            },
        }),
{
    match row {
        Some((previous, status)) => {
            if !crate::text::same_bytes(previous.as_slice(), digest) {
                return fail("chunk_content_conflict");
            }
            Ok(Some(Ack::parse(status.as_str())))
        },
        None => Ok(None),
    }
}

/// Refuses a change that did not change one row.
pub fn changed_one(n: usize) -> (r: Result<(), CoreError>)
    ensures
        crate::outcome(r) == (if n == 1 {
            Ok(())
        } else {
            Err::<(), Seq<char>>("unknown_chunk"@)
        }),
{
    if n != 1 {
        return fail("unknown_chunk");
    }
    Ok(())
}

/// What the status of a piece, if there is one, tells of it. That there is none is no proof
/// that it was not typed.
pub fn told(status: Option<String>) -> (a: Ack)
    ensures
        a == (match store::status_found(status) {
            Some(s) => protocol::ack_parsed(s),
            None => Ack::Unknown,
        }),
{
    match status {
        Some(s) => Ack::parse(s.as_str()),
        None => Ack::Unknown,
    }
}

/// Makes unknown what was not settled, and forgets the pieces of expired sessions.
pub fn recover(db: &mut rusqlite::Connection, now: u64) -> (r: Result<(), CoreError>)
    ensures
        store::exclusive(*final(db)) == store::exclusive(*old(db)),
        store::exclusive(*old(db)) ==> store::session_rows(*final(db)) == store::session_rows(*old(db)),
        r is Ok && store::exclusive(*old(db)) ==> store::chunk_rows(*final(db)) == left_of(*old(db), now),
        r matches Err(e) ==> e.spec_code() == "storage_error"@,
{
    if store::restate(db, Ack::Received.as_str(), Ack::Unknown.as_str()).is_err() {
        return fail("storage_error");
    }
    if store::forget_expired(db, now).is_err() {
        return fail("storage_error");
    }
    Ok(())
}

// ---------------------------------------------------------------- laws

/// A session that was noted is not noted again.
pub proof fn law_a_session_comes_once(j: JournalView, id: u128, peer: Seq<char>, now: u64)
    requires
        j.exclusive,
        j.may_note(id, Ok(())),
    ensures
        !j.after_session(id, peer, now, Ok(())).may_note(id, Ok(())),
{
}

/// A session that was noted is refused as one that came before when it comes again and there
/// is room for it, whoever brings it.
pub proof fn law_a_replay_is_told_as_such(
    j: JournalView,
    id: u128,
    peer: Seq<char>,
    now: u64,
    count: i64,
    r: Result<(), Seq<char>>,
)
    requires
        j.exclusive,
        j.may_note(id, Ok(())),
        count < MAX_SESSIONS,
        j.after_session(id, peer, now, Ok(())).may_note_counted(count, id, r),
    ensures
        r == Err::<(), Seq<char>>("session_replay"@),
{
}

/// A session that was noted is open to its peer, and to no other, until it expires.
pub proof fn law_a_session_is_its_peers(j: JournalView, id: u128, peer: Seq<char>, now: u64, other: Seq<char>, later: u64)
    requires
        j.exclusive,
        j.may_note(id, Ok(())),
    ensures
        j.after_session(id, peer, now, Ok(())).knows(id, other, later) <==> other == peer && later <= expiry(now),
{
}

/// A piece that was registered is not new a second time: it has been received.
pub proof fn law_a_piece_is_new_once(
    j: JournalView,
    id: u128,
    seq: u64,
    text: Seq<char>,
    r: Result<Option<Ack>, Seq<char>>,
)
    requires
        j.exclusive,
        j.may_register(id, seq, text, Ok(None)),
        j.after_register(id, seq, text, Ok(None)).may_register(id, seq, text, r),
        r is Ok,
    ensures
        r == Ok::<Option<Ack>, Seq<char>>(Some(Ack::Received)),
{
    protocol::lemma_ack_parsed(Ack::Received);
}

/// A piece that was registered cannot come with a text of another digest.
pub proof fn law_a_piece_keeps_its_text(
    j: JournalView,
    id: u128,
    seq: u64,
    text: Seq<char>,
    other: Seq<char>,
    r: Result<Option<Ack>, Seq<char>>,
)
    requires
        j.exclusive,
        j.may_register(id, seq, text, Ok(None)),
        j.after_register(id, seq, text, Ok(None)).may_register(id, seq, other, r),
        j.digest(other) != j.digest(text),
    ensures
        r is Err,
{
}

/// What was recorded of a piece is what the journal tells of it, to who asks and to who
/// brings the piece again.
pub proof fn law_recorded_status_is_told(j: JournalView, id: u128, seq: u64, status: Ack, text: Seq<char>)
    requires
        j.exclusive,
        j.may_record(id, seq, Ok(())),
    ensures
        j.after_record(id, seq, status, Ok(())).status(id, seq) == status,
        forall|r: Result<Ack, Seq<char>>|
            j.after_record(id, seq, status, Ok(())).may_tell(id, seq, r) && r is Ok ==> r == Ok::<Ack, Seq<char>>(
                status,
            ),
        forall|r: Result<Option<Ack>, Seq<char>>|
            j.after_record(id, seq, status, Ok(())).may_register(id, seq, text, r) && r is Ok ==> r == Ok::<
                Option<Ack>,
                Seq<char>,
            >(Some(status)),
{
    protocol::lemma_ack_parsed(status);
}

/// To register or to record a piece leaves what is known of the others.
pub proof fn law_other_pieces_stay(
    j: JournalView,
    id: u128,
    seq: u64,
    text: Seq<char>,
    status: Ack,
    other: u128,
    number: u64,
    registered: Result<Option<Ack>, Seq<char>>,
    recorded: Result<(), Seq<char>>,
)
    requires
        other != id || number != seq,
    ensures
        j.after_register(id, seq, text, registered).status(other, number) == j.status(other, number),
        j.after_record(id, seq, status, recorded).status(other, number) == j.status(other, number),
{
    if ids::id_text(other) == ids::id_text(id) {
        ids::lemma_id_text_tells(other, id);
    }
}

/// No text is kept, only its digest: texts with the same digest leave the same journal.
pub proof fn law_no_text_is_kept(
    j: JournalView,
    id: u128,
    seq: u64,
    text: Seq<char>,
    other: Seq<char>,
    r: Result<Option<Ack>, Seq<char>>,
)
    requires
        j.digest(text) == j.digest(other),
    ensures
        j.after_register(id, seq, text, r) == j.after_register(id, seq, other, r),
        j.may_register(id, seq, text, r) == j.may_register(id, seq, other, r),
{
}

/// Of a piece that the journal does not hold, nothing is known.
pub proof fn law_absence_proves_nothing(j: JournalView, id: u128, seq: u64, r: Result<Ack, Seq<char>>)
    requires
        j.exclusive,
        !j.chunks.contains_key((ids::id_text(id), seq)),
        j.may_tell(id, seq, r),
    ensures
        r == Ok::<Ack, Seq<char>>(Ack::Unknown) || r is Err,
{
}

/// When a journal is opened no piece is still to be settled, and none of an expired session
/// is left.
pub proof fn law_nothing_is_pending_after_opening(c: rusqlite::Connection, now: u64, j: JournalView)
    requires
        recovered(c, now, j),
    ensures
        nothing_pending(j, now),
{
    protocol::lemma_ack_parsed(Ack::Received);
    protocol::lemma_ack_parsed(Ack::Unknown);
    reveal_strlit("received");
    reveal_strlit("unknown");
    assert("received"@.len() != "unknown"@.len());
}

/// To open a journal loses no session: one that was noted before is not noted again, whether
/// it has expired or not.
pub proof fn law_opening_keeps_sessions(c: rusqlite::Connection, now: u64, j: JournalView, id: u128)
    requires
        recovered(c, now, j),
        j.exclusive,
        store::session_rows(c).contains_key(ids::id_text(id)),
    ensures
        j.sessions == store::session_rows(c),
        !j.may_note(id, Ok(())),
{
}

/// To open a journal keeps of a piece what was settled, with its digest; what was not settled
/// is unknown, and so is what became of a piece of a session that has expired.
pub proof fn law_opening_keeps_what_was_settled(c: rusqlite::Connection, now: u64, j: JournalView, id: u128, seq: u64)
    requires
        recovered(c, now, j),
        j.exclusive,
    ensures
        ({
            let key = (ids::id_text(id), seq);
            let rows = store::chunk_rows(c);
            let gone = store::expired_before(store::session_rows(c), ids::id_text(id), now);
            let before = protocol::ack_parsed(rows[key].1);
            &&& j.chunks.contains_key(key) <==> rows.contains_key(key) && !gone
            &&& j.chunks.contains_key(key) ==> j.chunks[key].0 == rows[key].0
            &&& j.status(id, seq) == (if !rows.contains_key(key) || gone || before == Ack::Received {
                Ack::Unknown
            } else {
                before
            })
        }),
{
    let key = (ids::id_text(id), seq);
    protocol::lemma_ack_parsed(Ack::Received);
    protocol::lemma_ack_parsed(Ack::Unknown);
    reveal_strlit("received");
    reveal_strlit("unknown");
    assert("received"@.len() != "unknown"@.len());
    let rows = store::chunk_rows(c);
    if rows.contains_key(key) && protocol::ack_parsed(rows[key].1) == Ack::Received {
        assert(rows[key].1 == protocol::ack_name(Ack::Received));
    }
}

/// A piece that was registered and not settled when the journal was left is told as unknown
/// once it is opened again.
pub proof fn law_an_unsettled_piece_is_unknown_after_reopening(
    before: JournalView,
    id: u128,
    seq: u64,
    text: Seq<char>,
    c: rusqlite::Connection,
    now: u64,
    after: JournalView,
    r: Result<Ack, Seq<char>>,
)
    requires
        before.exclusive,
        before.may_register(id, seq, text, Ok(None)),
        store::session_rows(c) == before.after_register(id, seq, text, Ok(None)).sessions,
        store::chunk_rows(c) == before.after_register(id, seq, text, Ok(None)).chunks,
        recovered(c, now, after),
        after.exclusive,
        after.may_tell(id, seq, r),
    ensures
        r == Ok::<Ack, Seq<char>>(Ack::Unknown) || r == Err::<Ack, Seq<char>>("storage_error"@),
{
    protocol::lemma_ack_parsed(Ack::Received);
    law_opening_keeps_what_was_settled(c, now, after, id, seq);
}

/// Unless the database fails, a session that was noted is open to its peer until it expires,
/// and every other asking is refused, also one for a session that was never noted.
pub proof fn law_only_the_peer_is_let_in(
    j: JournalView,
    id: u128,
    peer: Seq<char>,
    now: u64,
    other: Seq<char>,
    later: u64,
    r: Result<(), Seq<char>>,
)
    requires
        j.exclusive,
        r != Err::<(), Seq<char>>("storage_error"@),
    ensures
        j.may_note(id, Ok(())) && j.after_session(id, peer, now, Ok(())).may_authorize(id, other, later, r) ==> r
            == (if other == peer && later <= expiry(now) {
            Ok(())
        } else {
            Err::<(), Seq<char>>("expired_session"@)
        }),
        !j.sessions.contains_key(ids::id_text(id)) && j.may_authorize(id, other, later, r) ==> r == Err::<(), Seq<char>>(
            "expired_session"@,
        ),
{
    let after = j.after_session(id, peer, now, Ok(()));
    if j.may_note(id, Ok(())) {
        assert(after.knows(id, other, later) <==> other == peer && later <= expiry(now));
        match r {
            Ok(u) => {
                assert(u == ());
            },
            Err(e) => {},
        }
    }
}

/// What is known of a session stays, whatever else the journal is asked.
pub proof fn law_noted_sessions_stay(
    j: JournalView,
    id: u128,
    peer: Seq<char>,
    now: u64,
    noted: u128,
    seq: u64,
    text: Seq<char>,
    status: Ack,
    other: Seq<char>,
    later: u64,
    registered: Result<Option<Ack>, Seq<char>>,
    recorded: Result<(), Seq<char>>,
)
    requires
        j.sessions.contains_key(ids::id_text(id)),
        j.may_note(noted, Ok(())),
    ensures
        j.after_session(noted, other, later, Ok(())).knows(id, peer, now) == j.knows(id, peer, now),
        j.after_register(noted, seq, text, registered).knows(id, peer, now) == j.knows(id, peer, now),
        j.after_record(noted, seq, status, recorded).knows(id, peer, now) == j.knows(id, peer, now),
{
}

} // verus!
