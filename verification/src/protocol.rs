//! The messages that devices exchange, and what of them is acceptable.
use crate::text;
use crate::{fail, CoreError};
use vstd::prelude::*;
use vstd::utf8::*;

verus! {

/// The version of the protocol that this library speaks.
pub const VERSION: u16 = 1;

/// The longest text of one piece, in bytes.
pub const MAX_TEXT: usize = 16384;

/// The longest frame between devices, in bytes.
pub const MAX_FRAME: usize = 61440;

/// How many pieces ahead of the next one to type a target takes.
pub const MAX_QUEUE: usize = 32;

/// How long the journal answers for a session, in milliseconds.
pub const RETENTION_MS: u64 = 86400000;

/// How the source hears.
#[derive(Clone, Copy, Debug, PartialEq, Eq, Structural)]
pub enum Mode {
    AppleLocal,
    DoubaoIme,
}

/// The name of a mode in messages.
pub open spec fn mode_name(x: Mode) -> Seq<char> {
    match x {
        Mode::AppleLocal => "apple_local"@,
        Mode::DoubaoIme => "doubao_ime"@,
    }
}

/// A mode of the given name.
pub open spec fn mode_named(s: Seq<char>) -> Option<Mode> {
    if s == "apple_local"@ {
        Some(Mode::AppleLocal)
    } else if s == "doubao_ime"@ {
        Some(Mode::DoubaoIme)
    } else {
        None
    }
}

/// Every name names what it is the name of.
pub proof fn lemma_mode_names(x: Mode)
    ensures
        mode_named(mode_name(x)) == Some(x),
{
    reveal_strlit("apple_local");
    reveal_strlit("doubao_ime");
    assert("apple_local"@.len() != "doubao_ime"@.len());
}

/// What is known of a piece of text.
#[derive(Clone, Copy, Debug, PartialEq, Eq, Structural)]
pub enum Ack {
    Received,
    Applied,
    NotApplied,
    Unknown,
}

/// The name of an acknowledgement in messages.
pub open spec fn ack_name(x: Ack) -> Seq<char> {
    match x {
        Ack::Received => "received"@,
        Ack::Applied => "applied"@,
        Ack::NotApplied => "not_applied"@,
        Ack::Unknown => "unknown"@,
    }
}

/// An acknowledgement of the given name.
pub open spec fn ack_named(s: Seq<char>) -> Option<Ack> {
    if s == "received"@ {
        Some(Ack::Received)
    } else if s == "applied"@ {
        Some(Ack::Applied)
    } else if s == "not_applied"@ {
        Some(Ack::NotApplied)
    } else if s == "unknown"@ {
        Some(Ack::Unknown)
    } else {
        None
    }
}

/// Every name names what it is the name of.
pub proof fn lemma_ack_names(x: Ack)
    ensures
        ack_named(ack_name(x)) == Some(x),
{
    reveal_strlit("received");
    reveal_strlit("applied");
    reveal_strlit("not_applied");
    reveal_strlit("unknown");
    assert(text::mark("received"@) == (8nat, 'r', ' ', ' '));
    assert(text::mark("applied"@) == (7nat, 'a', ' ', ' '));
    assert(text::mark("not_applied"@) == (11nat, 'n', 'i', ' '));
    assert(text::mark("unknown"@) == (7nat, 'u', ' ', ' '));
}

/// Every name is parsed as what it is the name of.
pub proof fn lemma_ack_parsed(x: Ack)
    ensures
        ack_parsed(ack_name(x)) == x,
{
    lemma_ack_names(x);
}

/// Where a session stands.
#[derive(Clone, Copy, Debug, PartialEq, Eq, Structural)]
pub enum Phase {
    Preparing,
    Ready,
    Listening,
    Finalizing,
    AwaitingConfirmation,
    Committing,
    Paused,
    Unknown,
    Done,
    Cancelled,
    StopFailed,
}

/// The name of a phase in messages.
pub open spec fn phase_name(x: Phase) -> Seq<char> {
    match x {
        Phase::Preparing => "preparing"@,
        Phase::Ready => "ready"@,
        Phase::Listening => "listening"@,
        Phase::Finalizing => "finalizing"@,
        Phase::AwaitingConfirmation => "awaiting_confirmation"@,
        Phase::Committing => "committing"@,
        Phase::Paused => "paused"@,
        Phase::Unknown => "unknown"@,
        Phase::Done => "done"@,
        Phase::Cancelled => "cancelled"@,
        Phase::StopFailed => "stop_failed"@,
    }
}

/// A phase of the given name.
pub open spec fn phase_named(s: Seq<char>) -> Option<Phase> {
    if s == "preparing"@ {
        Some(Phase::Preparing)
    } else if s == "ready"@ {
        Some(Phase::Ready)
    } else if s == "listening"@ {
        Some(Phase::Listening)
    } else if s == "finalizing"@ {
        Some(Phase::Finalizing)
    } else if s == "awaiting_confirmation"@ {
        Some(Phase::AwaitingConfirmation)
    } else if s == "committing"@ {
        Some(Phase::Committing)
    } else if s == "paused"@ {
        Some(Phase::Paused)
    } else if s == "unknown"@ {
        Some(Phase::Unknown)
    } else if s == "done"@ {
        Some(Phase::Done)
    } else if s == "cancelled"@ {
        Some(Phase::Cancelled)
    } else if s == "stop_failed"@ {
        Some(Phase::StopFailed)
    } else {
        None
    }
}

/// Every name names what it is the name of.
pub proof fn lemma_phase_names(x: Phase)
    ensures
        phase_named(phase_name(x)) == Some(x),
{
    reveal_strlit("preparing");
    reveal_strlit("ready");
    reveal_strlit("listening");
    reveal_strlit("finalizing");
    reveal_strlit("awaiting_confirmation");
    reveal_strlit("committing");
    reveal_strlit("paused");
    reveal_strlit("unknown");
    reveal_strlit("done");
    reveal_strlit("cancelled");
    reveal_strlit("stop_failed");
    assert(text::mark("preparing"@).0 == 9 && text::mark("preparing"@).1 == 'p');
    assert(text::mark("ready"@).0 == 5 && text::mark("ready"@).1 == 'r');
    assert(text::mark("listening"@).0 == 9 && text::mark("listening"@).1 == 'l');
    assert(text::mark("finalizing"@).0 == 10 && text::mark("finalizing"@).1 == 'f');
    assert(text::mark("awaiting_confirmation"@).0 == 21 && text::mark("awaiting_confirmation"@).1 == 'a');
    assert(text::mark("committing"@).0 == 10 && text::mark("committing"@).1 == 'c');
    assert(text::mark("paused"@).0 == 6 && text::mark("paused"@).1 == 'p');
    assert(text::mark("unknown"@).0 == 7 && text::mark("unknown"@).1 == 'u');
    assert(text::mark("done"@).0 == 4 && text::mark("done"@).1 == 'd');
    assert(text::mark("cancelled"@).0 == 9 && text::mark("cancelled"@).1 == 'c');
    assert(text::mark("stop_failed"@).0 == 11 && text::mark("stop_failed"@).1 == 's');
}

impl Mode {
    /// The name in messages.
    pub fn as_str(self) -> (s: &'static str)
        ensures
            s@ == mode_name(self),
    {
        match self {
            Mode::AppleLocal => "apple_local",
            Mode::DoubaoIme => "doubao_ime",
        }
    }

    /// The one with the given name.
    pub fn named(s: &str) -> (r: Option<Self>)
        ensures
            r == mode_named(s@),
    {
        if text::same(s, "apple_local") {
            Some(Mode::AppleLocal)
        } else if text::same(s, "doubao_ime") {
            Some(Mode::DoubaoIme)
        } else {
            None
        }
    }
}

impl Ack {
    /// The name in messages.
    pub fn as_str(self) -> (s: &'static str)
        ensures
            s@ == ack_name(self),
    {
        match self {
            Ack::Received => "received",
            Ack::Applied => "applied",
            Ack::NotApplied => "not_applied",
            Ack::Unknown => "unknown",
        }
    }

    /// The one with the given name.
    pub fn named(s: &str) -> (r: Option<Self>)
        ensures
            r == ack_named(s@),
    {
        if text::same(s, "received") {
            Some(Ack::Received)
        } else if text::same(s, "applied") {
            Some(Ack::Applied)
        } else if text::same(s, "not_applied") {
            Some(Ack::NotApplied)
        } else if text::same(s, "unknown") {
            Some(Ack::Unknown)
        } else {
            None
        }
    }

    /// The one with the given name; any other name stands for an unknown outcome.
    pub fn parse(s: &str) -> (r: Self)
        ensures
            r == ack_parsed(s@),
    {
        match Ack::named(s) {
            Some(a) => a,
            None => Ack::Unknown,
        }
    }
}

/// The acknowledgement of the given name; any other name stands for an unknown outcome.
pub open spec fn ack_parsed(s: Seq<char>) -> Ack {
    match ack_named(s) {
        Some(a) => a,
        None => Ack::Unknown,
    }
}

impl Phase {
    /// The name in messages.
    pub fn as_str(self) -> (s: &'static str)
        ensures
            s@ == phase_name(self),
    {
        match self {
            Phase::Preparing => "preparing",
            Phase::Ready => "ready",
            Phase::Listening => "listening",
            Phase::Finalizing => "finalizing",
            Phase::AwaitingConfirmation => "awaiting_confirmation",
            Phase::Committing => "committing",
            Phase::Paused => "paused",
            Phase::Unknown => "unknown",
            Phase::Done => "done",
            Phase::Cancelled => "cancelled",
            Phase::StopFailed => "stop_failed",
        }
    }

    /// The one with the given name.
    pub fn named(s: &str) -> (r: Option<Self>)
        ensures
            r == phase_named(s@),
    {
        if text::same(s, "preparing") {
            Some(Phase::Preparing)
        } else if text::same(s, "ready") {
            Some(Phase::Ready)
        } else if text::same(s, "listening") {
            Some(Phase::Listening)
        } else if text::same(s, "finalizing") {
            Some(Phase::Finalizing)
        } else if text::same(s, "awaiting_confirmation") {
            Some(Phase::AwaitingConfirmation)
        } else if text::same(s, "committing") {
            Some(Phase::Committing)
        } else if text::same(s, "paused") {
            Some(Phase::Paused)
        } else if text::same(s, "unknown") {
            Some(Phase::Unknown)
        } else if text::same(s, "done") {
            Some(Phase::Done)
        } else if text::same(s, "cancelled") {
            Some(Phase::Cancelled)
        } else if text::same(s, "stop_failed") {
            Some(Phase::StopFailed)
        } else {
            None
        }
    }

    /// Whether the session is over.
    pub open spec fn spec_terminal(self) -> bool {
        self == Phase::Done || self == Phase::Cancelled
    }

    /// Whether the source still takes text in.
    pub open spec fn spec_accepts_text(self) -> bool {
        self == Phase::Listening || self == Phase::Finalizing
    }

    /// Whether the session is over.
    pub fn terminal(self) -> (r: bool)
        ensures
            r == self.spec_terminal(),
    {
        matches!(self, Phase::Done | Phase::Cancelled)
    }

    /// Whether the source still takes text in.
    pub fn accepts_text(self) -> (r: bool)
        ensures
            r == self.spec_accepts_text(),
    {
        matches!(self, Phase::Listening | Phase::Finalizing)
    }
}

/// Who dictates to whom, in which way, and where the text goes.
pub struct Binding {
    pub session_id: u128,
    pub source_device_id: String,
    pub target_device_id: String,
    pub controller_device_id: String,
    pub input_mode: Mode,
    pub context_token: String,
    pub target_app: String,
    pub created_ms: u64,
}

/// A binding as mathematics.
#[verifier::ext_equal]
pub struct BindingView {
    pub session_id: u128,
    pub source_device_id: Seq<char>,
    pub target_device_id: Seq<char>,
    pub controller_device_id: Seq<char>,
    pub input_mode: Mode,
    pub context_token: Seq<char>,
    pub target_app: Seq<char>,
    pub created_ms: u64,
}

impl View for Binding {
    type V = BindingView;

    open spec fn view(&self) -> BindingView {
        BindingView {
            session_id: self.session_id,
            source_device_id: self.source_device_id@,
            target_device_id: self.target_device_id@,
            controller_device_id: self.controller_device_id@,
            input_mode: self.input_mode,
            context_token: self.context_token@,
            target_app: self.target_app@,
            created_ms: self.created_ms,
        }
    }
}

impl Clone for Binding {
    /// A copy.
    fn clone(&self) -> (b: Self)
        ensures
            b@ == self@,
    {
        Binding {
            session_id: self.session_id,
            source_device_id: text::copy(&self.source_device_id),
            target_device_id: text::copy(&self.target_device_id),
            controller_device_id: text::copy(&self.controller_device_id),
            input_mode: self.input_mode,
            context_token: text::copy(&self.context_token),
            target_app: text::copy(&self.target_app),
            created_ms: self.created_ms,
        }
    }
}

/// A message between devices. There is no other: no audio, no key strokes, no command
/// and no script travels.
#[allow(inconsistent_fields)]
pub enum Payload {
    /// A device names itself.
    Hello { device_id: String, name: String },
    /// The other side's user has confirmed the pairing code.
    PairConfirm,
    /// The source asks the target to prepare an input context.
    BindRequest { binding: Binding },
    /// The target has prepared one.
    SessionBound { binding: Binding },
    /// The target asks the source to listen.
    SessionStart { binding: Binding },
    /// The source is ready to listen.
    SessionReady { session_id: u128 },
    /// The source's phase.
    SessionState { session_id: u128, phase: Phase },
    /// The controller still holds the key.
    SessionKeepalive { session_id: u128 },
    /// The controller let go of the key.
    SessionStop { session_id: u128 },
    /// The session is called off.
    SessionCancel { session_id: u128 },
    /// A piece of text to type.
    TextChunk { session_id: u128, sequence: u64, context_token: String, text: String, is_final: bool },
    /// What became of a piece.
    ChunkAck { session_id: u128, sequence: u64, ack_status: Ack },
    /// Asks what became of a piece.
    ChunkQuery { session_id: u128, sequence: u64 },
    /// No piece after the given one will follow.
    SessionEnd { session_id: u128, last_sequence: u64 },
    /// The session is held up.
    SessionPause { session_id: u128 },
    /// The target has a new input context.
    SessionResume { session_id: u128, context_token: String, target_app: String },
    /// Something went wrong.
    Error { session_id: Option<u128>, code: String },
}

/// A message as mathematics.
#[allow(inconsistent_fields)]
pub enum PayloadView {
    Hello { device_id: Seq<char>, name: Seq<char> },
    PairConfirm,
    BindRequest { binding: BindingView },
    SessionBound { binding: BindingView },
    SessionStart { binding: BindingView },
    SessionReady { session_id: u128 },
    SessionState { session_id: u128, phase: Phase },
    SessionKeepalive { session_id: u128 },
    SessionStop { session_id: u128 },
    SessionCancel { session_id: u128 },
    TextChunk { session_id: u128, sequence: u64, context_token: Seq<char>, text: Seq<char>, is_final: bool },
    ChunkAck { session_id: u128, sequence: u64, ack_status: Ack },
    ChunkQuery { session_id: u128, sequence: u64 },
    SessionEnd { session_id: u128, last_sequence: u64 },
    SessionPause { session_id: u128 },
    SessionResume { session_id: u128, context_token: Seq<char>, target_app: Seq<char> },
    Error { session_id: Option<u128>, code: Seq<char> },
}

impl View for Payload {
    type V = PayloadView;

    open spec fn view(&self) -> PayloadView {
        match self {
            Payload::Hello { device_id, name } => PayloadView::Hello { device_id: device_id@, name: name@ },
            Payload::PairConfirm => PayloadView::PairConfirm,
            Payload::BindRequest { binding } => PayloadView::BindRequest { binding: binding@ },
            Payload::SessionBound { binding } => PayloadView::SessionBound { binding: binding@ },
            Payload::SessionStart { binding } => PayloadView::SessionStart { binding: binding@ },
            Payload::SessionReady { session_id } => PayloadView::SessionReady { session_id: *session_id },
            Payload::SessionState { session_id, phase } => PayloadView::SessionState { session_id: *session_id, phase: *phase },
            Payload::SessionKeepalive { session_id } => PayloadView::SessionKeepalive { session_id: *session_id },
            Payload::SessionStop { session_id } => PayloadView::SessionStop { session_id: *session_id },
            Payload::SessionCancel { session_id } => PayloadView::SessionCancel { session_id: *session_id },
            Payload::TextChunk { session_id, sequence, context_token, text, is_final } => PayloadView::TextChunk { session_id: *session_id, sequence: *sequence, context_token: context_token@, text: text@, is_final: *is_final },
            Payload::ChunkAck { session_id, sequence, ack_status } => PayloadView::ChunkAck { session_id: *session_id, sequence: *sequence, ack_status: *ack_status },
            Payload::ChunkQuery { session_id, sequence } => PayloadView::ChunkQuery { session_id: *session_id, sequence: *sequence },
            Payload::SessionEnd { session_id, last_sequence } => PayloadView::SessionEnd { session_id: *session_id, last_sequence: *last_sequence },
            Payload::SessionPause { session_id } => PayloadView::SessionPause { session_id: *session_id },
            Payload::SessionResume { session_id, context_token, target_app } => PayloadView::SessionResume { session_id: *session_id, context_token: context_token@, target_app: target_app@ },
            Payload::Error { session_id, code } => PayloadView::Error { session_id: *session_id, code: code@ },
        }
    }
}

/// A message with the version of the protocol and an identifier of its own.
pub struct Wire {
    pub protocol_version: u16,
    pub request_id: u128,
    pub payload: Payload,
}

/// A message on the wire, as mathematics.
pub struct WireView {
    pub protocol_version: u16,
    pub request_id: u128,
    pub payload: PayloadView,
}

impl View for Wire {
    type V = WireView;

    open spec fn view(&self) -> WireView {
        WireView {
            protocol_version: self.protocol_version,
            request_id: self.request_id,
            payload: self.payload@,
        }
    }
}

// ---------------------------------------------------------------- validity

/// Whether a byte is a hexadecimal digit, in either case.
pub open spec fn hexadecimal(b: u8) -> bool {
    48 <= b <= 57 || 65 <= b <= 70 || 97 <= b <= 102
}

/// Whether a string can be the identifier of a device: 64 hexadecimal digits.
pub open spec fn is_valid_id(id: Seq<char>) -> bool {
    &&& text::size(id) == 64
    &&& forall|i: int| 0 <= i < 64 ==> hexadecimal(#[trigger] encode_utf8(id)[i])
}

/// Whether a string can be the identifier of a device.
pub fn valid_id(id: &str) -> (r: bool)
    ensures
        r == is_valid_id(id@),
{
    let b = id.as_bytes();
    if b.len() != 64 {
        return false;
    }
    let mut i: usize = 0;
    while i < 64
        invariant
            i <= 64,
            b@.len() == 64,
            b@ == encode_utf8(id@),
            forall|k: int| 0 <= k < i ==> hexadecimal(#[trigger] encode_utf8(id@)[k]),
        decreases 64 - i,
    {
        let c = b[i];
        if !((48 <= c && c <= 57) || (65 <= c && c <= 70) || (97 <= c && c <= 102)) {
            assert(!hexadecimal(encode_utf8(id@)[i as int]));
            return false;
        }
        i = i + 1;
    }
    true
}

/// Whether a character is one of the control characters of Unicode.
pub open spec fn control(c: char) -> bool {
    (c as u32) < 32 || 127 <= (c as u32) < 160
}

/// Whether some character of a string is a control character.
pub open spec fn has_control(s: Seq<char>) -> bool {
    exists|i: int| 0 <= i < s.len() && control(#[trigger] s[i])
}

/// Whether some character of a text is a control character that breaks no line and
/// sets no tab.
pub open spec fn has_unsafe_control(s: Seq<char>) -> bool {
    exists|i: int|
        0 <= i < s.len() && control(#[trigger] s[i]) && s[i] != '\n' && s[i] != '\r' && s[i] != '\t'
}

/// Whether a character is one of the control characters of Unicode.
fn is_control(c: char) -> (r: bool)
    ensures
        r == control(c),
{
    let n = c as u32;
    n < 32 || (127 <= n && n < 160)
}

/// Whether some character of a string is a control character.
pub fn any_control(s: &str) -> (r: bool)
    ensures
        r == has_control(s@),
{
    for c in it: s.chars()
        invariant
            it.seq() == s@,
            forall|i: int| 0 <= i < it.index() ==> !control(#[trigger] s@[i]),
    {
        if is_control(c) {
            assert(control(s@[it.index()]));
            return true;
        }
    }
    false
}

/// What a text can be refused for, the first that applies.
pub open spec fn text_error(s: Seq<char>) -> Option<Seq<char>> {
    if s.len() == 0 || text::size(s) > MAX_TEXT {
        Some("invalid_text_length"@)
    } else if has_unsafe_control(s) {
        Some("unsafe_control_character"@)
    } else {
        None
    }
}

/// Refuses texts that are empty, too long, or hold control characters other than line
/// ends and tabs.
pub fn validate_text(text: &str) -> (r: Result<(), CoreError>)
    ensures
        r is Ok <==> text_error(text@) is None,
        r matches Err(e) ==> text_error(text@) == Some(e.spec_code()),
{
    if text.is_empty() || text::byte_len(text) > MAX_TEXT {
        return fail("invalid_text_length");
    }
    for c in it: text.chars()
        invariant
            it.seq() == text@,
            text@.len() > 0,
            text::size(text@) <= MAX_TEXT,
            forall|i: int|
                0 <= i < it.index() ==> !(control(#[trigger] text@[i]) && text@[i] != '\n' && text@[i] != '\r'
                    && text@[i] != '\t'),
    {
        if is_control(c) && c != '\n' && c != '\r' && c != '\t' {
            assert(control(text@[it.index()]));
            return fail("unsafe_control_character");
        }
    }
    Ok(())
}

/// Whether a binding is acceptable at the given time.
pub open spec fn binding_ok(b: BindingView, now: u64) -> bool {
    &&& b.session_id != 0
    &&& is_valid_id(b.source_device_id)
    &&& is_valid_id(b.target_device_id)
    &&& is_valid_id(b.controller_device_id)
    &&& text::size(b.target_app) <= 256
    &&& text::size(b.context_token) <= 128
    &&& now - b.created_ms <= 60000
    &&& b.created_ms - now <= 60000
}

impl Binding {
    /// Refuses a binding without a session, between devices that are none, with names
    /// that are too long, or from another minute.
    pub fn validate(&self, now: u64) -> (r: Result<(), CoreError>)
        ensures
            r is Ok <==> binding_ok(self@, now),
            r matches Err(e) ==> e.spec_code() == "invalid_binding"@,
    {
        let apart: u64 = if now >= self.created_ms {
            now - self.created_ms
        } else {
            self.created_ms - now
        };
        if self.session_id == 0 || !valid_id(self.source_device_id.as_str()) || !valid_id(
            self.target_device_id.as_str(),
        ) || !valid_id(self.controller_device_id.as_str()) || text::byte_len(self.target_app.as_str()) > 256
            || text::byte_len(self.context_token.as_str()) > 128 || apart > 60000 {
            return fail("invalid_binding");
        }
        Ok(())
    }
}

} // verus!
