//! How a device is set up.
use crate::crypto::Secret;
use crate::desk::{Desk, DeskView};
use crate::engine::{Engine, EngineView};
use crate::journal;
use crate::journal::{Journal, JournalView};
use crate::json;
use crate::json::{Json, JsonView};
use crate::once;
use crate::outside::History;
use crate::protocol;
use crate::store;
use crate::text;
use crate::transport::{Identity, IdentityView};
use crate::trust;
use crate::trust::{Trust, TrustView};
use crate::wire;
use crate::{fail, CoreError};
use vstd::prelude::*;
use vstd::utf8::*;

verus! {

/// How many paired devices a device can be set up with.
pub const MAX_PEERS: usize = 100;

/// How a device is set up: who it is, what it is called, where its journal is, whom it
/// is paired with, and how long, in milliseconds, it listens without a word from the
/// controller, waits for the source to stop, and lets a session last.
pub struct Config {
    pub identity: Identity,
    pub name: String,
    pub journal_path: String,
    pub peers: Vec<Trust>,
    pub lease_ms: u64,
    pub finalizing_ms: u64,
    pub max_session_ms: u64,
}

/// How a device is set up, by its contents.
pub struct ConfigView {
    pub identity: IdentityView,
    pub name: Seq<char>,
    pub journal_path: Seq<char>,
    pub peers: Seq<TrustView>,
    pub lease_ms: u64,
    pub finalizing_ms: u64,
    pub max_session_ms: u64,
}

impl View for Config {
    type V = ConfigView;

    open spec fn view(&self) -> ConfigView {
        ConfigView {
            identity: self.identity@,
            name: self.name@,
            journal_path: self.journal_path@,
            peers: trust::trusts_view(self.peers@),
            lease_ms: self.lease_ms,
            finalizing_ms: self.finalizing_ms,
            max_session_ms: self.max_session_ms,
        }
    }
}

/// How long a source listens without a word from the controller, if nothing is said.
pub fn default_lease() -> (n: u64)
    ensures
        n == 3000,
{
    3000
}

/// How long a device waits for the source to stop, if nothing is said.
pub fn default_finalizing() -> (n: u64)
    ensures
        n == 5000,
{
    5000
}

/// How long a session lasts at most, if nothing is said.
pub fn default_max_session() -> (n: u64)
    ensures
        n == 120000,
{
    120000
}

// ---------------------------------------------------------------- reading

/// The names of the members of an identity.
pub open spec fn identity_names() -> Seq<Seq<char>> {
    seq!["private_key"@, "public_key"@]
}

/// The JSON of an identity.
pub open spec fn identity_json(i: IdentityView) -> JsonView {
    json::record(identity_names(), seq![JsonView::Text(i.private_key), JsonView::Text(i.public_key)])
}

/// The identity that a JSON value stands for.
pub open spec fn identity_of(j: JsonView) -> Option<IdentityView> {
    match json::fields(j, identity_names()) {
        Some(f) => match (wire::text_field(f[0]), wire::text_field(f[1])) {
            (Some(private_key), Some(public_key)) => Some(IdentityView { private_key, public_key }),
            _ => None,
        },
        None => None,
    }
}

/// The paired device that a JSON value stands for.
pub open spec fn trust_of(j: JsonView) -> Option<TrustView> {
    match json::fields(j, seq!["peer_id"@, "name"@, "allow_remote"@]) {
        Some(f) => match (wire::text_field(f[0]), wire::text_field(f[1]), wire::flag_field(f[2])) {
            (Some(peer_id), Some(name), Some(allow_remote)) => Some(TrustView { peer_id, name, allow_remote }),
            _ => None,
        },
        None => None,
    }
}

/// The paired devices that JSON values stand for.
pub open spec fn trusts_of(items: Seq<JsonView>) -> Option<Seq<TrustView>>
    decreases items.len(),
{
    if items.len() == 0 {
        Some(seq![])
    } else {
        match (trusts_of(items.drop_last()), trust_of(items.last())) {
            (Some(list), Some(t)) => Some(list.push(t)),
            _ => None,
        }
    }
}

/// The paired devices in a field, none if it is absent.
pub open spec fn peers_field(f: Option<JsonView>) -> Option<Seq<TrustView>> {
    match f {
        None => Some(seq![]),
        Some(JsonView::List(items)) => trusts_of(items),
        _ => None,
    }
}

/// The number in a field, or another if it is absent.
pub open spec fn number_or(f: Option<JsonView>, n: u64) -> Option<u64> {
    match f {
        None => Some(n),
        Some(JsonView::Unsigned(m)) => Some(m),
        _ => None,
    }
}

/// The names of the members of a configuration.
pub open spec fn config_names() -> Seq<Seq<char>> {
    seq![
        "identity"@,
        "name"@,
        "journal_path"@,
        "peers"@,
        "lease_ms"@,
        "finalizing_ms"@,
        "max_session_ms"@,
    ]
}

/// The identity in a field.
pub open spec fn identity_field(f: Option<JsonView>) -> Option<IdentityView> {
    match f {
        Some(j) => identity_of(j),
        None => None,
    }
}

/// The configuration that a JSON value stands for.
pub open spec fn config_of(j: JsonView) -> Option<ConfigView> {
    match json::fields(j, config_names()) {
        Some(f) => match (
            identity_field(f[0]),
            wire::text_field(f[1]),
            wire::text_field(f[2]),
            peers_field(f[3]),
            number_or(f[4], 3000),
            number_or(f[5], 5000),
            number_or(f[6], 120000),
        ) {
            (
                Some(identity),
                Some(name),
                Some(journal_path),
                Some(peers),
                Some(lease_ms),
                Some(finalizing_ms),
                Some(max_session_ms),
            ) => Some(
                ConfigView { identity, name, journal_path, peers, lease_ms, finalizing_ms, max_session_ms },
            ),
            _ => None,
        },
        None => None,
    }
}

/// The configuration that a text stands for.
pub open spec fn config_read(s: Seq<char>) -> Option<ConfigView> {
    match once::read_once(encode_utf8(s)) {
        Some(j) => config_of(j),
        None => None,
    }
}

impl ConfigView {
    /// Whether a device can be set up so: it has a name that is not too long, its spans
    /// of time make sense, and its paired devices can be devices.
    pub open spec fn ok(self) -> bool {
        &&& 0 < text::size(self.name) <= 128
        &&& 1500 <= self.lease_ms <= 15000
        &&& 1000 <= self.finalizing_ms <= 60000
        &&& 10000 <= self.max_session_ms <= 600000
        &&& self.peers.len() <= MAX_PEERS
        &&& forall|i: int| 0 <= i < self.peers.len() ==> protocol::is_valid_id((#[trigger] self.peers[i]).peer_id)
    }

    /// Why no device can be set up so, if none can.
    pub open spec fn error(self) -> Option<Seq<char>> {
        if !self.ok() {
            Some("invalid_configuration"@)
        } else {
            match (self.identity.id(), self.identity.private()) {
                (Err(e), _) => Some(e),
                (Ok(_), Err(e)) => Some(e),
                _ => None,
            }
        }
    }

    /// The device that is set up so, with its journal, at a time.
    pub open spec fn device(self, journal: JournalView, now: u64) -> EngineView {
        EngineView {
            desk: DeskView {
                id: self.identity.id()->Ok_0,
                name: self.name,
                private: self.identity.private()->Ok_0,
                journal,
                links: seq![],
                trust: trust::gathered(self.peers),
                seen: seq![],
                events: seq![],
                faulted: false,
                lease: (self.lease_ms * 1000000) as u64,
                finalizing: (self.finalizing_ms * 1000000) as u64,
                max_session: (self.max_session_ms * 1000000) as u64,
                heartbeat: now,
                asked: seq![],
            },
            sessions: seq![],
            active_source: None,
            active_target: None,
        }
    }
}

/// Reads an identity.
fn read_identity(f: Option<&Json>) -> (r: Option<Identity>)
    ensures
        match r {
            Some(i) => identity_field(wire::seen(f)) == Some(i@),
            None => identity_field(wire::seen(f)) is None,
        },
{
    let names = vec!["private_key", "public_key"];
    assert(json::names_view(names@) =~= identity_names());
    let j = match f {
        Some(j) => j,
        None => return None,
    };
    let f = match json::take_fields(j, &names) {
        Some(f) => f,
        None => return None,
    };
    let ghost g = json::fields_view(f@);
    assert(g[0] == wire::seen(f@[0]));
    assert(g[1] == wire::seen(f@[1]));
    match (wire::read_text(f[0]), wire::read_text(f[1])) {
        (Some(private_key), Some(public_key)) => Some(Identity { private_key, public_key }),
        _ => None,
    }
}

/// Reads a paired device.
fn read_trust(j: &Json) -> (r: Option<Trust>)
    ensures
        match r {
            Some(t) => trust_of(j@) == Some(t@),
            None => trust_of(j@) is None,
        },
{
    let names = vec!["peer_id", "name", "allow_remote"];
    assert(json::names_view(names@) =~= seq!["peer_id"@, "name"@, "allow_remote"@]);
    let f = match json::take_fields(j, &names) {
        Some(f) => f,
        None => return None,
    };
    let ghost g = json::fields_view(f@);
    assert(g[0] == wire::seen(f@[0]));
    assert(g[1] == wire::seen(f@[1]));
    assert(g[2] == wire::seen(f@[2]));
    match (wire::read_text(f[0]), wire::read_text(f[1]), wire::read_flag(f[2])) {
        (Some(peer_id), Some(name), Some(allow_remote)) => Some(Trust { peer_id, name, allow_remote }),
        _ => None,
    }
}

/// If one of the first values stands for no device, the values stand for no devices.
proof fn lemma_trusts_of(items: Seq<JsonView>, i: int)
    requires
        0 <= i <= items.len(),
        trusts_of(items.take(i)) is None,
    ensures
        trusts_of(items) is None,
    decreases items.len() - i,
{
    if i < items.len() {
        assert(items.take(i + 1).drop_last() =~= items.take(i));
        lemma_trusts_of(items, i + 1);
    } else {
        assert(items.take(i) =~= items);
    }
}

/// Reads paired devices.
fn read_peers(f: Option<&Json>) -> (r: Option<Vec<Trust>>)
    ensures
        match r {
            Some(v) => peers_field(wire::seen(f)) == Some(trust::trusts_view(v@)),
            None => peers_field(wire::seen(f)) is None,
        },
{
    broadcast use json::lemma_list_view;

    let mut v: Vec<Trust> = Vec::new();
    assert(trust::trusts_view(v@) =~= seq![]);
    match f {
        None => Some(v),
        Some(Json::List(items)) => {
            let ghost all = json::items_view(items@);
            let mut i: usize = 0;
            assert(trusts_of(all.take(0)) == Some(trust::trusts_view(v@)));
            while i < items.len()
                invariant
                    all == json::items_view(items@),
                    i <= items@.len(),
                    trusts_of(all.take(i as int)) == Some(trust::trusts_view(v@)),
                    wire::seen(f) == Some(JsonView::List(all)),
                decreases items.len() - i,
            {
                assert(all.take(i + 1).drop_last() =~= all.take(i as int));
                assert(all.take(i + 1).last() == items@[i as int]@);
                let ghost list = trust::trusts_view(v@);
                match read_trust(&items[i]) {
                    Some(t) => {
                        v.push(t);
                        assert(trust::trusts_view(v@) =~= list.push(t@));
                    },
                    None => {
                        proof {
                            lemma_trusts_of(all, i + 1);
                        }
                        return None;
                    },
                }
                i = i + 1;
            }
            assert(all.take(i as int) =~= all);
            Some(v)
        },
        _ => None,
    }
}

/// Reads a number that may be absent.
fn read_number_or(f: Option<&Json>, n: u64) -> (r: Option<u64>)
    ensures
        r == number_or(wire::seen(f), n),
{
    match f {
        None => Some(n),
        Some(Json::Unsigned(m)) => Some(*m),
        _ => None,
    }
}

impl Config {
    /// The configuration that a JSON value stands for.
    pub fn from_json(j: &Json) -> (r: Option<Config>)
        ensures
            match r {
                Some(c) => config_of(j@) == Some(c@),
                None => config_of(j@) is None,
            },
    {
        let names = vec![
            "identity",
            "name",
            "journal_path",
            "peers",
            "lease_ms",
            "finalizing_ms",
            "max_session_ms",
        ];
        assert(json::names_view(names@) =~= config_names());
        let f = match json::take_fields(j, &names) {
            Some(f) => f,
            None => return None,
        };
        let ghost g = json::fields_view(f@);
        assert(g[0] == wire::seen(f@[0]));
        assert(g[1] == wire::seen(f@[1]));
        assert(g[2] == wire::seen(f@[2]));
        assert(g[3] == wire::seen(f@[3]));
        assert(g[4] == wire::seen(f@[4]));
        assert(g[5] == wire::seen(f@[5]));
        assert(g[6] == wire::seen(f@[6]));
        match (
            read_identity(f[0]),
            wire::read_text(f[1]),
            wire::read_text(f[2]),
            read_peers(f[3]),
            read_number_or(f[4], default_lease()),
            read_number_or(f[5], default_finalizing()),
            read_number_or(f[6], default_max_session()),
        ) {
            (
                Some(identity),
                Some(name),
                Some(journal_path),
                Some(peers),
                Some(lease_ms),
                Some(finalizing_ms),
                Some(max_session_ms),
            ) => Some(Config { identity, name, journal_path, peers, lease_ms, finalizing_ms, max_session_ms }),
            _ => None,
        }
    }

    /// The configuration that a text stands for.
    pub fn read(s: &str) -> (r: Result<Config, CoreError>)
        ensures
            match r {
                Ok(c) => config_read(s@) == Some(c@),
                Err(e) => config_read(s@) is None && e.spec_code() == "invalid_configuration"@,
            },
    {
        match once::parse_once(s.as_bytes()) {
            Some(j) => match Config::from_json(&j) {
                Some(c) => Ok(c),
                None => fail("invalid_configuration"),
            },
            None => fail("invalid_configuration"),
        }
    }

    /// Refuses a configuration that makes no sense.
    pub fn check(&self) -> (r: Result<(), CoreError>)
        ensures
            r is Ok <==> self@.ok(),
            r matches Err(e) ==> e.spec_code() == "invalid_configuration"@,
    {
        let n = text::byte_len(self.name.as_str());
        if n == 0 || n > 128 || self.lease_ms < 1500 || self.lease_ms > 15000 || self.finalizing_ms < 1000
            || self.finalizing_ms > 60000 || self.max_session_ms < 10000 || self.max_session_ms > 600000
            || self.peers.len() > MAX_PEERS {
            return fail("invalid_configuration");
        }
        let mut i: usize = 0;
        while i < self.peers.len()
            invariant
                i <= self.peers@.len(),
                forall|k: int| 0 <= k < i ==> protocol::is_valid_id((#[trigger] self@.peers[k]).peer_id),
            decreases self.peers.len() - i,
        {
            if !protocol::valid_id(self.peers[i].peer_id.as_str()) {
                assert(!protocol::is_valid_id(self@.peers[i as int].peer_id));
                return fail("invalid_configuration");
            }
            i = i + 1;
        }
        Ok(())
    }
}

impl Engine {
    /// A device that is set up so, at the given times. Where the configuration is in
    /// order, only its journal can fail.
    pub fn new(config: Config, now: u64, wall: u64) -> (r: Result<Self, CoreError>)
        ensures
            match r {
                Ok(e) => {
                    &&& e.wf()
                    &&& config@.error() is None
                    &&& e@ == config@.device(e@.desk.journal, now)
                    &&& journal::opened(config@.journal_path, e@.desk.private, wall, e@.desk.journal)
                    &&& journal::nothing_pending(e@.desk.journal, wall)
                    &&& !store::leads_nowhere(config@.journal_path)
                    &&& config@.journal_path == ":memory:"@ ==> e@.desk.journal.exclusive
                        && e@.desk.journal.sessions.dom() == Set::<Seq<char>>::empty()
                        && e@.desk.journal.chunks.dom() == Set::<(Seq<char>, u64)>::empty()
                },
                Err(e) => match config@.error() {
                    Some(code) => e.spec_code() == code,
                    None => journal::unopened(config@.journal_path, e.spec_code()),
                },
            },
    {
        match config.check() {
            Ok(_) => {},
            Err(e) => return Err(e),
        }
        let id = match config.identity.id() {
            Ok(id) => id,
            Err(e) => return Err(e),
        };
        let private = match config.identity.private_bytes() {
            Ok(k) => k,
            Err(e) => return Err(e),
        };
        let journal = match Journal::open(config.journal_path.as_str(), private.as_slice(), wall) {
            Ok(j) => j,
            Err(e) => return Err(e),
        };
        Ok(Engine::with_journal(config, id, private, journal, now))
    }

    /// The device that is set up so, with its identifier, its private key and its journal, at
    /// the given time.
    pub fn with_journal(config: Config, id: String, private: Secret, journal: Journal, now: u64) -> (e: Engine)
        requires
            config@.error() is None,
            config@.identity.id() == Ok::<Seq<char>, Seq<char>>(id@),
            config@.identity.private() == Ok::<Seq<u8>, Seq<char>>(private@),
        ensures
            e.wf(),
            e@ == config@.device(journal@, now),
    {
        let ghost peers = trust::trusts_view(config.peers@);
        let mut left = config.peers;
        let mut list: Vec<Trust> = Vec::new();
        let ghost mut taken: int = 0;
        assert(trust::trusts_view(list@) =~= trust::gathered(peers.take(0)));
        assert(peers.skip(0) =~= peers);
        while left.len() > 0
            invariant
                0 <= taken <= peers.len(),
                trust::trusts_view(left@) == peers.skip(taken),
                trust::trusts_view(list@) == trust::gathered(peers.take(taken)),
            decreases left@.len(),
        {
            let ghost before = trust::trusts_view(left@);
            let t = left.remove(0);
            proof {
                assert(before[0] == t@);
                assert(before.drop_first() =~= trust::trusts_view(left@));
                assert(peers.skip(taken).drop_first() =~= peers.skip(taken + 1));
                assert(peers.take(taken + 1).drop_last() =~= peers.take(taken));
                assert(peers.take(taken + 1).last() == t@);
                taken = taken + 1;
            }
            trust::put(&mut list, t);
        }
        let e = Engine {
            desk: Desk {
                id,
                name: config.name,
                private,
                links: Vec::new(),
                trust: list,
                seen: Vec::new(),
                events: Vec::new(),
                faulted: false,
                lease: config.lease_ms * 1000000,
                finalizing: config.finalizing_ms * 1000000,
                max_session: config.max_session_ms * 1000000,
                heartbeat: now,
                history: History::new(journal),
            },
            sessions: Vec::new(),
            active_source: None,
            active_target: None,
        };
        proof {
            assert(peers.skip(taken).len() == 0);
            assert(peers.take(taken) =~= peers);
            trust::lemma_gathered(peers);
            let d = config@.device(e@.desk.journal, now);
            assert(e@.desk.links =~= d.desk.links);
            assert(e@.desk.seen =~= d.desk.seen);
            assert(e@.desk.events =~= d.desk.events);
            assert(e@.desk.asked =~= d.desk.asked);
            assert(e@.sessions =~= d.sessions);
        }
        e
    }
}

} // verus!
