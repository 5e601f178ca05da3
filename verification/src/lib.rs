//! The core of a keyboard that one device dictates into and another types from.
use crate::clock::Clock;
use crate::config::Config;
use crate::engine::{Engine, EngineView, Move};
use crate::event::EventView;
use crate::json::{Json, JsonView};
use crate::outside::Reply;
use crate::transport::{Identity, IdentityView};
use vstd::prelude::*;
use vstd::utf8::*;

pub mod clock;
pub mod command;
pub mod conduct_laws;
pub mod config;
pub mod crypto;
pub mod desk;
pub mod device_laws;
pub mod engine;
pub mod event;
pub mod hearing_laws;
pub mod ids;
pub mod inbound;
pub mod journal;
pub mod json;
pub mod manner_laws;
pub mod network;
pub mod noise;
pub mod once;
pub mod orders;
pub mod outside;
pub mod protocol;
pub mod reading_laws;
pub mod service_laws;
pub mod session;
pub mod session_laws;
pub mod signs;
pub mod stable;
pub mod steps;
pub mod store;
pub mod telling_laws;
pub mod tending_laws;
pub mod text;
pub mod transport;
pub mod trust;
pub mod upkeep;
pub mod wire;

verus! {

/// The one error of the library: a short code that callers show or translate.
#[derive(Debug)]
pub enum CoreError {
    Failure { code: String },
}

impl CoreError {
    /// The code that the error carries.
    pub open spec fn spec_code(self) -> Seq<char> {
        match self {
            CoreError::Failure { code } => code@,
        }
    }

    /// The code as a string.
    pub fn code(&self) -> (code: &str)
        ensures
            code@ == self.spec_code(),
    {
        match self {
            CoreError::Failure { code } => code.as_str(),
        }
    }
}

/// What a call came to, with the code in place of the error.
pub open spec fn outcome<T>(r: Result<T, CoreError>) -> Result<T, Seq<char>> {
    match r {
        Ok(t) => Ok(t),
        Err(e) => Err(e.spec_code()),
    }
}

/// The error with the given code.
pub fn err(code: &str) -> (e: CoreError)
    ensures
        e.spec_code() == code@,
{
    CoreError::Failure { code: code.to_owned() }
}

/// Fails with the given code.
pub fn fail<T>(code: &str) -> (r: Result<T, CoreError>)
    ensures
        r matches Err(e) && e.spec_code() == code@,
{
    Err(err(code))
}

// ---------------------------------------------------------------- identities

/// The JSON text of new keys for a device.
pub fn generate_identity() -> (r: Result<String, CoreError>)
    ensures
        r matches Ok(s) && exists|i: IdentityView|
            i.private() is Ok && i.id() is Ok && s@ == json::json_text(#[trigger] config::identity_json(i))
                && json::parsed(encode_utf8(s@)) == Some(config::identity_json(i)),
{
    let i = match Identity::generate() {
        Ok(i) => i,
        Err(e) => return Err(e),
    };
    let names = vec!["private_key", "public_key"];
    let values = vec![Json::Text(text::copy(&i.private_key)), Json::Text(text::copy(&i.public_key))];
    proof {
        let v = seq![JsonView::Text(i@.private_key), JsonView::Text(i@.public_key)];
        assert(json::names_view(names@) =~= config::identity_names());
        assert(json::items_view(values@) =~= v);
        json::lemma_record_canonical(config::identity_names(), v, 0);
        json::lemma_canonical_deeper(config::identity_json(i@), 1, 100);
    }
    Ok(json::render(&json::make_record(names, values)))
}

// ---------------------------------------------------------------- commands

/// The longest text of a command, in bytes.
pub const MAX_COMMAND: usize = 200000;

/// A command as the device takes it. Where a person says that the source has stopped,
/// the device does what it does when the program has made sure of it, so that the other
/// side learns of it too.
pub open spec fn normalized(command: JsonView) -> JsonView {
    if command.text_at("op"@) == Some("confirm_stopped"@) {
        command.with("op"@, JsonView::Text("source_stopped"@)).with("verified"@, JsonView::Bool(true))
    } else {
        command
    }
}

/// A command as the device takes it. It must be an object.
pub fn normalize_local_command(command: Json) -> (r: Result<Json, CoreError>)
    ensures
        match r {
            Ok(v) => command@ is Object && v@ == normalized(command@),
            Err(e) => !(command@ is Object) && e.spec_code() == "invalid_command"@,
        },
{
    broadcast use json::lemma_object_view;

    match &command {
        Json::Object(_) => {},
        _ => return fail("invalid_command"),
    }
    let confirmed = match command.text_at("op") {
        Some(op) => text::same(op.as_str(), "confirm_stopped"),
        None => false,
    };
    if confirmed {
        return Ok(command.with("op", Json::Text("source_stopped".to_owned())).with("verified", Json::Bool(true)));
    }
    Ok(command)
}

impl EngineView {
    /// The device is given the text of a command, and answers with a text.
    pub open spec fn dispatch(self, command: Seq<char>, now: u64, wall: u64, log: Seq<Reply>) -> Move<Seq<char>> {
        if text::size(command) > MAX_COMMAND {
            self.refused("command_limit"@)
        } else {
            match json::parsed(encode_utf8(command)) {
                Some(JsonView::Object(members)) => {
                    let m = self.command(normalized(JsonView::Object(members)), now, wall, log);
                    Move {
                        engine: m.engine.enforce_event_limit(),
                        result: match m.result {
                            Ok(a) => Ok(json::json_text(command::answer_json(a))),
                            Err(e) => Err(e),
                        },
                    }
                },
                _ => self.refused("invalid_command"@),
            }
        }
    }
}

/// What a call came to that gives a text.
pub open spec fn said(r: Result<String, CoreError>) -> Result<Seq<char>, Seq<char>> {
    match r {
        Ok(s) => Ok(s@),
        Err(e) => Err(e.spec_code()),
    }
}

/// Whether the text of a command, given to a device at some times, comes to something,
/// with the given replies from outside and whatever comes after them.
pub open spec fn dispatched(
    e: EngineView,
    command: Seq<char>,
    now: u64,
    wall: u64,
    replies: Seq<Reply>,
    m: Move<Seq<char>>,
) -> bool {
    forall|log: Seq<Reply>| #[trigger]
        outside::continues(log, replies) ==> e.dispatch(command, now, wall, log) == m
}

/// Whether the journal of a device is the one that was opened at a path at a time, under the
/// device's private key, with nothing in it still to be settled.
pub open spec fn opened_at(path: Seq<char>, d: desk::DeskView, wall: u64) -> bool {
    &&& journal::opened(path, d.private, wall, d.journal)
    &&& journal::nothing_pending(d.journal, wall)
}

/// The texts of events.
pub open spec fn event_texts(events: Seq<EventView>) -> Seq<Seq<char>> {
    Seq::new(events.len(), |i: int| json::json_text(event::event_json(events[i])))
}

/// The one way in and out: commands and events as JSON texts. Sound never passes here.
pub struct Core {
    pub engine: Engine,
    pub clock: Clock,
}

impl View for Core {
    type V = EngineView;

    open spec fn view(&self) -> EngineView {
        self.engine@
    }
}

impl Core {
    /// What holds at all times.
    pub open spec fn wf(&self) -> bool {
        self.engine.wf()
    }

    /// A device that is set up as a JSON text says. Where that is in order, only its
    /// journal can fail.
    pub fn new(config_json: String) -> (r: Result<Self, CoreError>)
        ensures
            match r {
                Ok(c) => {
                    &&& c.wf()
                    &&& config::config_read(config_json@) matches Some(config)
                    &&& config.error() is None
                    &&& c@ == config.device(c@.desk.journal, c@.desk.heartbeat)
                    &&& exists|at: std::time::Instant| #[trigger] c.clock.reading(at) == c@.desk.heartbeat
                    &&& exists|t: std::time::SystemTime| #[trigger]
                        opened_at(config.journal_path, c@.desk, clock::calendar_ms(t))
                    &&& !store::leads_nowhere(config.journal_path)
                    &&& config.journal_path == ":memory:"@ ==> c@.desk.journal.exclusive
                        && c@.desk.journal.sessions.dom() == Set::<Seq<char>>::empty()
                        && c@.desk.journal.chunks.dom() == Set::<(Seq<char>, u64)>::empty()
                },
                Err(e) => match config::config_read(config_json@) {
                    None => e.spec_code() == "invalid_configuration"@,
                    Some(config) => match config.error() {
                        Some(code) => e.spec_code() == code,
                        None => journal::unopened(config.journal_path, e.spec_code()),
                    },
                },
            },
    {
        let config = match Config::read(config_json.as_str()) {
            Ok(c) => c,
            Err(e) => return Err(e),
        };
        let clock = Clock::new();
        let now = clock.now();
        let wall = clock::now_ms();
        let ghost path = config@.journal_path;
        match Engine::new(config, now, wall) {
            Ok(engine) => {
                let ghost at = choose|at: std::time::Instant| #[trigger] clock.reading(at) == now;
                let ghost t = choose|t: std::time::SystemTime| #[trigger] clock::calendar_ms(t) == wall;
                let core = Core { engine, clock };
                assert(core.clock.reading(at) == core@.desk.heartbeat);
                assert(opened_at(path, core@.desk, clock::calendar_ms(t)));
                Ok(core)
            },
            Err(e) => Err(e),
        }
    }

    /// The identifier of the device.
    pub fn device_id(&self) -> (r: Result<String, CoreError>)
        ensures
            r matches Ok(id) && id@ == self@.desk.id,
    {
        Ok(text::copy(&self.engine.desk.id))
    }

    /// Carries out a command now: at what the core's clock and the calendar show.
    pub fn dispatch(&mut self, command_json: String) -> (r: Result<String, CoreError>)
        requires
            old(self).wf(),
        ensures
            final(self).wf(),
            outside::continues(final(self).engine.desk.history.replies(), old(self).engine.desk.history.replies()),
            final(self).clock == old(self).clock,
            exists|at: std::time::Instant, t: std::time::SystemTime| #[trigger]
                dispatched(
                    old(self)@,
                    command_json@,
                    old(self).clock.reading(at),
                    clock::calendar_ms(t),
                    final(self).engine.desk.history.replies(),
                    Move { engine: final(self)@, result: said(r) },
                ),
    {
        let now = self.clock.now();
        let wall = clock::now_ms();
        let ghost at = choose|at: std::time::Instant| #[trigger] self.clock.reading(at) == now;
        let ghost t = choose|t: std::time::SystemTime| #[trigger] clock::calendar_ms(t) == wall;
        let r = self.dispatch_at(command_json, now, wall);
        assert(dispatched(
            old(self)@,
            command_json@,
            old(self).clock.reading(at),
            clock::calendar_ms(t),
            self.engine.desk.history.replies(),
            Move { engine: self@, result: said(r) },
        ));
        r
    }

    /// Carries out a command at the given times: nanoseconds on the clock that only moves
    /// forward, and milliseconds on the calendar.
    pub fn dispatch_at(&mut self, command_json: String, now: u64, wall: u64) -> (r: Result<String, CoreError>)
        requires
            old(self).wf(),
        ensures
            final(self).wf(),
            outside::continues(final(self).engine.desk.history.replies(), old(self).engine.desk.history.replies()),
            final(self).clock == old(self).clock,
            dispatched(
                old(self)@,
                command_json@,
                now,
                wall,
                final(self).engine.desk.history.replies(),
                Move { engine: final(self)@, result: said(r) },
            ),
    {
        broadcast use {outside::group_continues, json::lemma_object_view};

        assert(outside::continues(self.engine.desk.history.replies(), self.engine.desk.history.replies()));
        if text::byte_len(command_json.as_str()) > MAX_COMMAND {
            return fail("command_limit");
        }
        let command = match json::parse(command_json.as_str().as_bytes()) {
            Some(j) => j,
            None => return fail("invalid_command"),
        };
        let command = match normalize_local_command(command) {
            Ok(j) => j,
            Err(e) => return Err(e),
        };
        let r = self.engine.command(&command, now, wall);
        self.engine.enforce_event_limit();
        match r {
            Ok(a) => {
                let j = a.to_json();
                proof {
                    json::lemma_canonical_deeper(j@, 1, 100);
                }
                Ok(json::render(&j))
            },
            Err(e) => Err(e),
        }
    }

    /// Gives out the events that wait, oldest first.
    pub fn poll_events(&mut self) -> (r: Result<Vec<String>, CoreError>)
        requires
            old(self).wf(),
        ensures
            final(self).wf(),
            final(self).engine.desk.history.replies() == old(self).engine.desk.history.replies(),
            final(self).clock == old(self).clock,
            r matches Ok(v) && stable::texts_view(v@) == event_texts(
                old(self)@.enforce_event_limit().desk.events,
            ),
            final(self)@ == old(self)@.enforce_event_limit().at(
                desk::DeskView { events: seq![], ..old(self)@.enforce_event_limit().desk },
            ),
    {
        self.engine.enforce_event_limit();
        let ghost before = self@;
        let mut events: Vec<event::Event> = Vec::new();
        std::mem::swap(&mut self.engine.desk.events, &mut events);
        assert(self@.desk.events =~= seq![]);
        let mut texts: Vec<String> = Vec::new();
        let mut i: usize = 0;
        while i < events.len()
            invariant
                i <= events@.len(),
                texts@.len() == i,
                forall|k: int|
                    0 <= k < i ==> (#[trigger] texts@[k])@ == json::json_text(event::event_json(events@[k]@)),
            decreases events.len() - i,
        {
            let j = events[i].to_json();
            proof {
                json::lemma_canonical_deeper(j@, 3, 100);
            }
            texts.push(json::render(&j));
            i = i + 1;
        }
        assert(stable::texts_view(texts@) =~= event_texts(before.desk.events));
        Ok(texts)
    }
}

} // verus!
