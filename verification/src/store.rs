//! The tables behind the journal, as the `rusqlite` library keeps them.
use vstd::prelude::*;

verus! {

#[verifier::external_type_specification]
#[verifier::external_body]
pub struct ExConnection(rusqlite::Connection);

#[verifier::external_type_specification]
#[verifier::external_body]
pub struct ExStoreError(rusqlite::Error);

/// Whether nobody but this connection reaches the database.
pub uninterp spec fn exclusive(c: rusqlite::Connection) -> bool;

/// The table of sessions: for each identifier the peer, and when the session expires.
pub uninterp spec fn session_rows(c: rusqlite::Connection) -> Map<Seq<char>, (Seq<char>, u64)>;

/// The table of pieces: for each session and sequence number the digest of the text,
/// and its status.
pub uninterp spec fn chunk_rows(c: rusqlite::Connection) -> Map<(Seq<char>, u64), (Seq<u8>, Seq<char>)>;

/// Whether a connection is one that was opened on a path, as the database there was when it
/// was opened. That depends on what is on disk, so one path may give many.
pub uninterp spec fn reached(path: Seq<char>, c: rusqlite::Connection) -> bool;

/// The pieces with one status in place of another.
pub open spec fn restated(
    rows: Map<(Seq<char>, u64), (Seq<u8>, Seq<char>)>,
    from: Seq<char>,
    to: Seq<char>,
) -> Map<(Seq<char>, u64), (Seq<u8>, Seq<char>)> {
    rows.map_values(
        |row: (Seq<u8>, Seq<char>)|
            if row.1 == from {
                (row.0, to)
            } else {
                row
            },
    )
}

/// Whether a session has expired before the given time.
pub open spec fn expired_before(rows: Map<Seq<char>, (Seq<char>, u64)>, id: Seq<char>, now: u64) -> bool {
    rows.contains_key(id) && rows[id].1 < now
}

/// The pieces of the sessions that have not expired before the given time.
pub open spec fn unexpired(
    rows: Map<(Seq<char>, u64), (Seq<u8>, Seq<char>)>,
    sessions: Map<Seq<char>, (Seq<char>, u64)>,
    now: u64,
) -> Map<(Seq<char>, u64), (Seq<u8>, Seq<char>)> {
    rows.remove_keys(
        Set::new(|key: (Seq<char>, u64)| rows.contains_key(key) && expired_before(sessions, key.0, now)),
    )
}

/// Whether a character stands between the parts of a path, on some machine.
pub open spec fn parts_path(c: char) -> bool {
    c == '/' || c == '\\'
}

/// Whether a path leads to nothing that can be in a directory, on any machine.
pub open spec fn leads_nowhere(path: Seq<char>) -> bool {
    path == Seq::<char>::empty() || path == seq!['/']
}

/// Whether a path leads to something in a directory, on any machine: it begins with no drive
/// and no share, and some part of it has a name.
pub open spec fn leads_somewhere(path: Seq<char>) -> bool {
    &&& !path.contains(':')
    &&& !(path.len() >= 2 && parts_path(path[0]) && parts_path(path[1]))
    &&& exists|i: int| 0 <= i < path.len() && !parts_path(#[trigger] path[i]) && path[i] != '.'
}

/// Calls `std::path::Path::parent`, and says whether there is a parent. There is none of the
/// empty path, nor of one that ends in a root or a prefix. Which prefixes there are depends on
/// the machine, so of paths that may be one nothing is said.
#[verifier::external_body]
pub(crate) fn has_directory(path: &str) -> (r: bool)
    ensures
        leads_nowhere(path@) ==> !r,
        leads_somewhere(path@) ==> r,
{
    std::path::Path::new(path).parent().is_some()
}

/// Calls `rusqlite::Connection::open` with a path. What the connection finds there is a
/// matter of the disk. The database `:memory:` belongs to the connection alone, and is
/// empty.
#[verifier::external_body]
pub(crate) fn open(path: &str) -> (r: Result<rusqlite::Connection, rusqlite::Error>)
    ensures
        r matches Ok(c) ==> reached(path@, c),
        r matches Ok(c) ==> (path@ == ":memory:"@ ==> exclusive(c)),
        r matches Ok(c) ==> (path@ == ":memory:"@ ==> session_rows(c) == Map::<Seq<char>, (Seq<char>, u64)>::empty()),
        r matches Ok(c) ==> (path@ == ":memory:"@ ==> chunk_rows(c) == Map::<
            (Seq<char>, u64),
            (Seq<u8>, Seq<char>),
        >::empty()),
{
    rusqlite::Connection::open(path)
}

/// Calls `rusqlite::Connection::execute_batch` to choose how the database writes and to
/// make the two tables where they are not there yet. The rows stay.
#[verifier::external_body]
pub(crate) fn make_tables(c: &mut rusqlite::Connection) -> (r: Result<(), rusqlite::Error>)
    ensures
        exclusive(*final(c)) == exclusive(*old(c)),
        exclusive(*old(c)) ==> session_rows(*final(c)) == session_rows(*old(c)),
        exclusive(*old(c)) ==> chunk_rows(*final(c)) == chunk_rows(*old(c)),
{
    c.execute_batch(
        "PRAGMA journal_mode=WAL; PRAGMA synchronous=FULL;
         CREATE TABLE IF NOT EXISTS sessions(id TEXT PRIMARY KEY, peer TEXT NOT NULL, expires INTEGER NOT NULL);
         CREATE TABLE IF NOT EXISTS chunks(session TEXT NOT NULL, seq INTEGER NOT NULL, digest BLOB NOT NULL,
         status TEXT NOT NULL, PRIMARY KEY(session,seq));",
    )
}

/// Calls `rusqlite::Connection::execute` with an update of every piece of one status to
/// another. Where it fails, it changes nothing.
#[verifier::external_body]
pub(crate) fn restate(c: &mut rusqlite::Connection, from: &str, to: &str) -> (r: Result<usize, rusqlite::Error>)
    ensures
        exclusive(*final(c)) == exclusive(*old(c)),
        exclusive(*old(c)) ==> session_rows(*final(c)) == session_rows(*old(c)),
        exclusive(*old(c)) ==> chunk_rows(*final(c)) == (if r is Ok {
            restated(chunk_rows(*old(c)), from@, to@)
        } else {
            chunk_rows(*old(c))
        }),
{
    c.execute("UPDATE chunks SET status=?2 WHERE status=?1", [from, to])
}

/// Calls `rusqlite::Connection::execute` to delete the pieces of the sessions that
/// expired before a time. Where it fails, it changes nothing.
#[verifier::external_body]
pub(crate) fn forget_expired(c: &mut rusqlite::Connection, now: u64) -> (r: Result<usize, rusqlite::Error>)
    ensures
        exclusive(*final(c)) == exclusive(*old(c)),
        exclusive(*old(c)) ==> session_rows(*final(c)) == session_rows(*old(c)),
        exclusive(*old(c)) ==> chunk_rows(*final(c)) == (if r is Ok {
            unexpired(chunk_rows(*old(c)), session_rows(*old(c)), now)
        } else {
            chunk_rows(*old(c))
        }),
{
    c.execute("DELETE FROM chunks WHERE session IN (SELECT id FROM sessions WHERE expires < ?1)", [now])
}

/// Calls `rusqlite::Connection::query_row` to count the sessions.
#[verifier::external_body]
pub(crate) fn count_sessions(c: &rusqlite::Connection) -> (r: Result<i64, rusqlite::Error>)
    ensures
        r matches Ok(n) ==> (exclusive(*c) ==> n == session_rows(*c).dom().len()),
{
    c.query_row("SELECT COUNT(*) FROM sessions", [], |r| r.get(0))
}

/// Calls `rusqlite::Connection::execute` to insert a session. It fails where there is
/// one with that identifier; where it fails, it changes nothing.
#[verifier::external_body]
pub(crate) fn insert_session(c: &mut rusqlite::Connection, id: &str, peer: &str, expires: u64) -> (r: Result<
    usize,
    rusqlite::Error,
>)
    ensures
        exclusive(*final(c)) == exclusive(*old(c)),
        exclusive(*old(c)) && session_rows(*old(c)).contains_key(id@) ==> r is Err,
        exclusive(*old(c)) ==> session_rows(*final(c)) == (if r is Ok {
            session_rows(*old(c)).insert(id@, (peer@, expires))
        } else {
            session_rows(*old(c))
        }),
        exclusive(*old(c)) ==> chunk_rows(*final(c)) == chunk_rows(*old(c)),
{
    c.execute("INSERT INTO sessions VALUES(?1,?2,?3)", (id, peer, expires))
}

/// Calls `rusqlite::Connection::query_row` to look up when a session with a peer
/// expires.
#[verifier::external_body]
pub(crate) fn find_expiry(c: &rusqlite::Connection, id: &str, peer: &str) -> (r: Result<Option<u64>, rusqlite::Error>)
    ensures
        r matches Ok(t) ==> (exclusive(*c) ==> t == (if session_rows(*c).contains_key(id@) && session_rows(*c)[id@].0
            == peer@ {
            Some(session_rows(*c)[id@].1)
        } else {
            None
        })),
{
    rusqlite::OptionalExtension::optional(
        c.query_row("SELECT expires FROM sessions WHERE id=?1 AND peer=?2", [id, peer], |r| r.get(0)),
    )
}

/// What a look-up of a piece gave, by its contents.
pub open spec fn row_found(r: Option<(Vec<u8>, String)>) -> Option<(Seq<u8>, Seq<char>)> {
    match r {
        Some((digest, status)) => Some((digest@, status@)),
        None => None,
    }
}

/// The row of a piece, if there is one.
pub open spec fn row_of(rows: Map<(Seq<char>, u64), (Seq<u8>, Seq<char>)>, id: Seq<char>, seq: u64) -> Option<
    (Seq<u8>, Seq<char>),
> {
    if rows.contains_key((id, seq)) {
        Some(rows[(id, seq)])
    } else {
        None
    }
}

/// Calls `rusqlite::Connection::query_row` to look up the digest and the status of a
/// piece.
#[verifier::external_body]
pub(crate) fn find_chunk(c: &rusqlite::Connection, id: &str, seq: u64) -> (r: Result<
    Option<(Vec<u8>, String)>,
    rusqlite::Error,
>)
    ensures
        r matches Ok(row) ==> (exclusive(*c) ==> row_found(row) == row_of(chunk_rows(*c), id@, seq)),
{
    rusqlite::OptionalExtension::optional(
        c.query_row(
            "SELECT digest,status FROM chunks WHERE session=?1 AND seq=?2",
            (id, seq),
            |r| Ok((r.get(0)?, r.get(1)?)),
        ),
    )
}

/// Calls `rusqlite::Connection::execute` to insert a piece. It fails where there is one
/// with that session and number; where it fails, it changes nothing.
#[verifier::external_body]
pub(crate) fn insert_chunk(c: &mut rusqlite::Connection, id: &str, seq: u64, digest: &Vec<u8>, status: &str) -> (r:
    Result<usize, rusqlite::Error>)
    ensures
        exclusive(*final(c)) == exclusive(*old(c)),
        exclusive(*old(c)) && chunk_rows(*old(c)).contains_key((id@, seq)) ==> r is Err,
        exclusive(*old(c)) ==> session_rows(*final(c)) == session_rows(*old(c)),
        exclusive(*old(c)) ==> chunk_rows(*final(c)) == (if r is Ok {
            chunk_rows(*old(c)).insert((id@, seq), (digest@, status@))
        } else {
            chunk_rows(*old(c))
        }),
{
    c.execute("INSERT INTO chunks VALUES(?1,?2,?3,?4)", (id, seq, digest, status))
}

/// Calls `rusqlite::Connection::execute` to set the status of a piece, and gives how
/// many rows it changed. Where it fails, it changes nothing.
#[verifier::external_body]
pub(crate) fn set_status(c: &mut rusqlite::Connection, id: &str, seq: u64, status: &str) -> (r: Result<
    usize,
    rusqlite::Error,
>)
    ensures
        exclusive(*final(c)) == exclusive(*old(c)),
        exclusive(*old(c)) ==> session_rows(*final(c)) == session_rows(*old(c)),
        r matches Ok(n) ==> (exclusive(*old(c)) ==> n == (if chunk_rows(*old(c)).contains_key((id@, seq)) {
            1int
        } else {
            0int
        })),
        exclusive(*old(c)) ==> chunk_rows(*final(c)) == (if r is Ok && chunk_rows(*old(c)).contains_key((id@, seq)) {
            chunk_rows(*old(c)).insert((id@, seq), (chunk_rows(*old(c))[(id@, seq)].0, status@))
        } else {
            chunk_rows(*old(c))
        }),
{
    c.execute("UPDATE chunks SET status=?3 WHERE session=?1 AND seq=?2", (id, seq, status))
}

/// What a look-up of a status gave, by its contents.
pub open spec fn status_found(r: Option<String>) -> Option<Seq<char>> {
    match r {
        Some(s) => Some(s@),
        None => None,
    }
}

/// The status of a piece, if there is one.
pub open spec fn status_of(rows: Map<(Seq<char>, u64), (Seq<u8>, Seq<char>)>, id: Seq<char>, seq: u64) -> Option<
    Seq<char>,
> {
    if rows.contains_key((id, seq)) {
        Some(rows[(id, seq)].1)
    } else {
        None
    }
}

/// Calls `rusqlite::Connection::query_row` to look up the status of a piece.
#[verifier::external_body]
pub(crate) fn find_status(c: &rusqlite::Connection, id: &str, seq: u64) -> (r: Result<Option<String>, rusqlite::Error>)
    ensures
        r matches Ok(s) ==> (exclusive(*c) ==> status_found(s) == status_of(chunk_rows(*c), id@, seq)),
{
    rusqlite::OptionalExtension::optional(
        c.query_row("SELECT status FROM chunks WHERE session=?1 AND seq=?2", (id, seq), |r| r.get(0)),
    )
}

} // verus!
