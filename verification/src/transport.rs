//! Who a device is, and the encrypted channel between two devices.
use crate::crypto;
use crate::crypto::Secret;
use crate::noise;
use crate::outside;
use crate::outside::Writings;
use crate::protocol;
use crate::protocol::MAX_FRAME;
use crate::text;
use crate::{fail, CoreError};
use vstd::prelude::*;
use vstd::utf8::*;

verus! {

/// The Noise protocol that devices speak.
pub const PATTERN: &'static str = "Noise_XX_25519_ChaChaPoly_SHA256";

/// What both sides of a handshake must agree on beforehand.
pub const PROLOGUE: &'static str = "VoiceKeyboard/LAN/text-only/v1";

// ---------------------------------------------------------------- identity

/// The keys of a device, in base64.
pub struct Identity {
    pub private_key: String,
    pub public_key: String,
}

/// The keys of a device, as texts.
pub struct IdentityView {
    pub private_key: Seq<char>,
    pub public_key: Seq<char>,
}

impl View for Identity {
    type V = IdentityView;

    open spec fn view(&self) -> IdentityView {
        IdentityView { private_key: self.private_key@, public_key: self.public_key@ }
    }
}

impl IdentityView {
    /// The private key, or why there is none.
    pub open spec fn private(self) -> Result<Seq<u8>, Seq<char>> {
        match crypto::b64_bytes(self.private_key) {
            None => Err("invalid_identity"@),
            Some(k) => if k.len() != 32 {
                Err("invalid_identity"@)
            } else if crypto::b64_text(crypto::x25519_of(k, crypto::base_point())) != self.public_key {
                Err("identity_key_mismatch"@)
            } else {
                Ok(k)
            },
        }
    }

    /// The identifier of the device, or why there is none.
    pub open spec fn id(self) -> Result<Seq<char>, Seq<char>> {
        match crypto::b64_bytes(self.public_key) {
            None => Err("invalid_identity"@),
            Some(k) => Ok(text::hex_text(crypto::sha256_of(k))),
        }
    }
}

/// The hexadecimal digits of 32 bytes can be the identifier of a device.
pub proof fn lemma_digest_names_device(bytes: Seq<u8>)
    requires
        bytes.len() == 32,
    ensures
        protocol::is_valid_id(text::hex_text(bytes)),
{
    let s = text::hex_text(bytes);
    assert(is_ascii_chars(s));
    is_ascii_chars_encode_utf8(s);
    assert forall|i: int| 0 <= i < 64 implies protocol::hexadecimal(#[trigger] encode_utf8(s)[i]) by {
        assert(encode_utf8(s)[i] == s[i] as u8);
    }
}

/// The bytes of 32 as an array.
fn key_array(bytes: &[u8]) -> (r: [u8; 32])
    requires
        bytes@.len() == 32,
    ensures
        r@ == bytes@,
{
    let mut r: [u8; 32] = [0; 32];
    let mut i: usize = 0;
    while i < 32
        invariant
            i <= 32,
            bytes@.len() == 32,
            r@.len() == 32,
            forall|j: int| 0 <= j < i ==> r@[j] == bytes@[j],
        decreases 32 - i,
    {
        r[i] = bytes[i];
        i = i + 1;
    }
    assert(r@ =~= bytes@);
    r
}

impl Identity {
    /// New keys, that fit each other.
    pub fn generate() -> (r: Result<Self, CoreError>)
        ensures
            r matches Ok(i) && i@.private() is Ok && i@.id() is Ok,
    {
        assert(noise::mutual(PATTERN@));
        match noise::generate_keys(PATTERN) {
            Ok((private, public)) => {
                let i = Identity {
                    private_key: crypto::encode64(private.as_slice()),
                    public_key: crypto::encode64(public.as_slice()),
                };
                proof {
                    crypto::law_base64_is_read_back(private@);
                    crypto::law_base64_is_read_back(public@);
                }
                Ok(i)
            },
            Err(_) => fail("crypto_error"),
        }
    }

    /// The private key, if the public key is the one that belongs to it.
    pub fn private_bytes(&self) -> (r: Result<Secret, CoreError>)
        ensures
            match r {
                Ok(k) => self@.private() == Ok::<Seq<u8>, Seq<char>>(k@) && k@.len() == 32,
                Err(e) => self@.private() == Err::<Seq<u8>, Seq<char>>(e.spec_code()),
            },
    {
        let bytes = match crypto::decode64(self.private_key.as_str()) {
            Some(b) => b,
            None => return fail("invalid_identity"),
        };
        if bytes.len() != 32 {
            return fail("invalid_identity");
        }
        let public = x25519_dalek::x25519(key_array(bytes.as_slice()), crypto::base_point_bytes());
        let expected = crypto::encode64(public.as_slice());
        if !text::same(expected.as_str(), self.public_key.as_str()) {
            return fail("identity_key_mismatch");
        }
        Ok(crypto::keep_secret(bytes))
    }

    /// The identifier of the device: the digest of its public key.
    pub fn id(&self) -> (r: Result<String, CoreError>)
        ensures
            match r {
                Ok(s) => self@.id() == Ok::<Seq<char>, Seq<char>>(s@) && protocol::is_valid_id(s@),
                Err(e) => self@.id() == Err::<Seq<char>, Seq<char>>(e.spec_code()),
            },
    {
        match crypto::decode64(self.public_key.as_str()) {
            Some(key) => {
                let digest = crypto::sha256(key.as_slice());
                proof {
                    lemma_digest_names_device(digest@);
                }
                Ok(hex(digest.as_slice()))
            },
            None => fail("invalid_identity"),
        }
    }
}

/// The hexadecimal digits of a byte string.
pub fn hex(bytes: &[u8]) -> (s: String)
    ensures
        s@ == text::hex_text(bytes@),
{
    let mut s = String::new();
    let mut i: usize = 0;
    while i < bytes.len()
        invariant
            i <= bytes@.len(),
            s@ == text::hex_text(bytes@.take(i as int)),
        decreases bytes.len() - i,
    {
        s.append(text::digit_text(bytes[i] / 16));
        s.append(text::digit_text(bytes[i] % 16));
        assert(s@ =~= text::hex_text(bytes@.take(i + 1)));
        i = i + 1;
    }
    assert(bytes@.take(i as int) =~= bytes@);
    s
}

// ---------------------------------------------------------------- frames

/// A number in four bytes, the highest first.
pub open spec fn big_endian(n: nat) -> Seq<u8> {
    seq![
        (n / 16777216 % 256) as u8,
        (n / 65536 % 256) as u8,
        (n / 256 % 256) as u8,
        (n % 256) as u8,
    ]
}

/// The number that four bytes stand for, the highest first.
pub open spec fn number_at_front(bytes: Seq<u8>) -> nat {
    (bytes[0] * 16777216 + bytes[1] * 65536 + bytes[2] * 256 + bytes[3]) as nat
}

/// A message with its length in front.
pub open spec fn framed(message: Seq<u8>) -> Seq<u8> {
    big_endian(message.len()) + message
}

/// The length in front of a frame is the length of the message.
pub proof fn lemma_framed(message: Seq<u8>)
    requires
        message.len() <= MAX_FRAME,
    ensures
        framed(message).len() == message.len() + 4,
        number_at_front(framed(message)) == message.len(),
        framed(message).skip(4) == message,
{
    let f = framed(message);
    let n = message.len();
    assert(f[0] == 0);
    assert(f[1] == (n / 65536 % 256) as u8);
    assert(f[2] == (n / 256 % 256) as u8);
    assert(f[3] == (n % 256) as u8);
    assert(f.skip(4) =~= message);
}

/// A message with its length in front.
fn frame(message: &[u8]) -> (f: Vec<u8>)
    requires
        message@.len() <= MAX_FRAME,
    ensures
        f@ == framed(message@),
{
    let n = message.len() as u32;
    let mut f: Vec<u8> = vec![
        (n / 16777216 % 256) as u8,
        (n / 65536 % 256) as u8,
        (n / 256 % 256) as u8,
        (n % 256) as u8,
    ];
    f.extend_from_slice(message);
    assert(f@ =~= framed(message@));
    f
}

// ---------------------------------------------------------------- the channel

/// What a channel has to say for itself.
pub enum ChannelEvent {
    Write(Vec<u8>),
    Authenticated { peer: String, code: String },
    Plain(Vec<u8>),
}

/// What a channel has to say for itself, by its contents.
pub enum ChannelEventView {
    Write(Seq<u8>),
    Authenticated { peer: Seq<char>, code: Seq<char> },
    Plain(Seq<u8>),
}

impl View for ChannelEvent {
    type V = ChannelEventView;

    open spec fn view(&self) -> ChannelEventView {
        match self {
            ChannelEvent::Write(b) => ChannelEventView::Write(b@),
            ChannelEvent::Authenticated { peer, code } => ChannelEventView::Authenticated {
                peer: peer@,
                code: code@,
            },
            ChannelEvent::Plain(b) => ChannelEventView::Plain(b@),
        }
    }
}

/// What channel events say.
pub open spec fn channel_events_view(v: Seq<ChannelEvent>) -> Seq<ChannelEventView> {
    Seq::new(v.len(), |i: int| v[i]@)
}

/// Where a channel is between the first byte and the last.
pub enum Cipher {
    Absent,
    Handshake(snow::HandshakeState),
    Transport(snow::TransportState),
}

/// Where a channel is: it has failed, it shakes hands, or it speaks under two keys and
/// has sealed and opened so many messages.
pub enum CipherView {
    Absent,
    Handshake(snow::HandshakeState),
    Transport { send_key: Seq<u8>, sent: u64, receive_key: Seq<u8>, received: u64 },
}

impl View for Cipher {
    type V = CipherView;

    open spec fn view(&self) -> CipherView {
        match self {
            Cipher::Absent => CipherView::Absent,
            Cipher::Handshake(h) => CipherView::Handshake(*h),
            Cipher::Transport(t) => CipherView::Transport {
                send_key: noise::sending_key(*t),
                sent: noise::sending_nonce(*t),
                receive_key: noise::receiving_key(*t),
                received: noise::receiving_nonce(*t),
            },
        }
    }
}

/// A message that a handshake wrote, which is a matter of chance: what the handshake
/// was, the message if there is one, and what it was afterwards.
pub struct Wrote {
    pub before: snow::HandshakeState,
    pub message: Option<Seq<u8>>,
    pub after: snow::HandshakeState,
}

/// One end of an encrypted connection.
pub struct Channel {
    pub cipher: Cipher,
    pub buffer: Vec<u8>,
    pub peer: Option<String>,
    pub code: String,
    pub name: String,
    pub local_confirmed: bool,
    pub remote_confirmed: bool,
    pub created: u64,
    pub last_rx: u64,
    pub window: u64,
    pub messages: u8,
    pub expected: Option<String>,
    pub wrote: Writings,
}

/// One end of an encrypted connection, by its contents. Times are in nanoseconds.
pub struct ChannelView {
    pub cipher: CipherView,
    pub buffer: Seq<u8>,
    pub peer: Option<Seq<char>>,
    pub code: Seq<char>,
    pub name: Seq<char>,
    pub local_confirmed: bool,
    pub remote_confirmed: bool,
    pub created: u64,
    pub last_rx: u64,
    pub window: u64,
    pub messages: u8,
    pub expected: Option<Seq<char>>,
    pub wrote: Seq<Wrote>,
}

impl View for Channel {
    type V = ChannelView;

    open spec fn view(&self) -> ChannelView {
        ChannelView {
            cipher: self.cipher@,
            buffer: self.buffer@,
            peer: text::maybe(self.peer),
            code: self.code@,
            name: self.name@,
            local_confirmed: self.local_confirmed,
            remote_confirmed: self.remote_confirmed,
            created: self.created,
            last_rx: self.last_rx,
            window: self.window,
            messages: self.messages,
            expected: text::maybe(self.expected),
            wrote: self.wrote@,
        }
    }
}

/// What a channel comes to, and the events or the error that it gives.
pub struct Heard {
    pub channel: ChannelView,
    pub result: Result<Seq<ChannelEventView>, Seq<char>>,
}

/// What a message was sealed from under a key with a number, if it was.
pub open spec fn opened(key: Seq<u8>, nonce: u64, message: Seq<u8>) -> Option<Seq<u8>> {
    if nonce < u64::MAX && exists|p: Seq<u8>|
        message == #[trigger] noise::sealed(key, nonce, p) && message.len() == p.len() + 16 {
        Some(
            choose|p: Seq<u8>|
                message == #[trigger] noise::sealed(key, nonce, p) && message.len() == p.len() + 16,
        )
    } else {
        None
    }
}

/// The pairing code of a handshake: six digits out of the digest of what was said.
pub open spec fn pairing_code(transcript: Seq<u8>) -> Seq<char> {
    text::six_digits(number_at_front(crypto::sha256_of(transcript)) % 1000000)
}

impl ChannelView {
    /// A channel with a handshake that has not begun.
    pub open spec fn fresh(h: snow::HandshakeState, expected: Option<Seq<char>>, now: u64) -> ChannelView {
        ChannelView {
            cipher: CipherView::Handshake(h),
            buffer: seq![],
            peer: None,
            code: seq![],
            name: seq![],
            local_confirmed: false,
            remote_confirmed: false,
            created: now,
            last_rx: now,
            window: now,
            messages: 0,
            expected,
            wrote: seq![],
        }
    }

    /// The handshake that a private key begins with.
    pub open spec fn first(private: Seq<u8>, initiator: bool) -> snow::HandshakeState {
        if initiator {
            noise::initiated(PATTERN@, private, encode_utf8(PROLOGUE@))
        } else {
            noise::responding(PATTERN@, private, encode_utf8(PROLOGUE@))
        }
    }

    /// A new channel. The side that begins has already written.
    pub open spec fn open(
        private: Seq<u8>,
        initiator: bool,
        expected: Option<Seq<char>>,
        now: u64,
        wrote: Seq<Wrote>,
    ) -> Heard {
        let c = ChannelView::fresh(ChannelView::first(private, initiator), expected, now);
        if initiator {
            c.write(wrote)
        } else {
            Heard { channel: c, result: Ok(seq![]) }
        }
    }

    /// The channel writes the next message of its handshake: the one after those that
    /// it wrote before.
    pub open spec fn write(self, wrote: Seq<Wrote>) -> Heard {
        match self.cipher {
            CipherView::Handshake(h) => {
                let w = wrote[self.wrote.len() as int];
                Heard {
                    channel: ChannelView {
                        cipher: CipherView::Handshake(w.after),
                        wrote: self.wrote.push(Wrote { before: h, message: w.message, after: w.after }),
                        ..self
                    },
                    result: match w.message {
                        Some(m) => Ok(seq![ChannelEventView::Write(framed(m))]),
                        None => Err("handshake_failed"@),
                    },
                }
            },
            _ => Heard { channel: self, result: Ok(seq![]) },
        }
    }

    /// The channel goes over from a finished handshake to speaking.
    pub open spec fn finish(self) -> Heard {
        match self.cipher {
            CipherView::Handshake(h) => if noise::finished(h) {
                let failed = ChannelView { cipher: CipherView::Absent, ..self };
                match noise::remote_of(h) {
                    None => Heard { channel: failed, result: Err("missing_identity"@) },
                    Some(key) => {
                        let peer = text::hex_text(crypto::sha256_of(key));
                        let code = pairing_code(noise::transcript_of(h));
                        if self.expected is Some && self.expected != Some(peer) {
                            Heard { channel: failed, result: Err("peer_identity_changed"@) }
                        } else {
                            Heard {
                                channel: ChannelView {
                                    cipher: CipherView::Transport {
                                        send_key: noise::keys_of(h).0,
                                        sent: 0,
                                        receive_key: noise::keys_of(h).1,
                                        received: 0,
                                    },
                                    peer: Some(peer),
                                    code,
                                    ..self
                                },
                                result: Ok(seq![ChannelEventView::Authenticated { peer, code }]),
                            }
                        }
                    },
                }
            } else {
                Heard { channel: self, result: Ok(seq![]) }
            },
            _ => Heard { channel: self, result: Ok(seq![]) },
        }
    }

    /// The channel takes the message of one frame.
    #[verifier::opaque]
    pub open spec fn take(self, message: Seq<u8>, wrote: Seq<Wrote>) -> Heard {
        match self.cipher {
            CipherView::Absent => Heard { channel: self, result: Err("crypto_state"@) },
            CipherView::Handshake(h) => {
                let (read, after) = noise::reading(h, message, MAX_FRAME as nat);
                let c = ChannelView { cipher: CipherView::Handshake(after), ..self };
                match read {
                    None => Heard { channel: c, result: Err("handshake_failed"@) },
                    Some(n) => if n != 0 {
                        Heard { channel: c, result: Err("handshake_payload_forbidden"@) }
                    } else if !noise::finished(after) && noise::my_turn(after) {
                        let w = c.write(wrote);
                        match w.result {
                            Err(_) => w,
                            Ok(said) => {
                                let f = w.channel.finish();
                                Heard {
                                    channel: f.channel,
                                    result: match f.result {
                                        Ok(more) => Ok(said + more),
                                        Err(e) => Err(e),
                                    },
                                }
                            },
                        }
                    } else {
                        c.finish()
                    },
                }
            },
            CipherView::Transport { send_key, sent, receive_key, received } => match opened(
                receive_key,
                received,
                message,
            ) {
                Some(p) => Heard {
                    channel: ChannelView {
                        cipher: CipherView::Transport {
                            send_key,
                            sent,
                            receive_key,
                            received: (received + 1) as u64,
                        },
                        ..self
                    },
                    result: Ok(seq![ChannelEventView::Plain(p)]),
                },
                None => Heard { channel: self, result: Err("authentication_failed"@) },
            },
        }
    }

    /// One more frame in the current second, or the first of a new one.
    pub open spec fn counted(self, now: u64) -> ChannelView {
        let lapsed = now - self.window >= 1000000000;
        let so_far = if lapsed { 0 } else { self.messages as int };
        ChannelView {
            window: if lapsed { now } else { self.window },
            messages: (if so_far > 100 { 101 } else { so_far + 1 }) as u8,
            ..self
        }
    }

    /// The channel takes every frame that has come in full, after it gave some events.
    pub open spec fn drain(self, now: u64, wrote: Seq<Wrote>, said: Seq<ChannelEventView>) -> Heard
        decreases self.buffer.len(),
    {
        let size = number_at_front(self.buffer) as int;
        let counted = self.counted(now);
        if self.buffer.len() < 4 {
            Heard { channel: self, result: Ok(said) }
        } else if size == 0 || size > MAX_FRAME {
            Heard { channel: self, result: Err("frame_limit"@) }
        } else if self.buffer.len() < size + 4 {
            Heard { channel: self, result: Ok(said) }
        } else if counted.messages > 100 {
            Heard { channel: counted, result: Err("rate_limit"@) }
        } else {
            let rest = self.buffer.skip(size + 4);
            let h = (ChannelView { buffer: rest, ..counted }).take(
                self.buffer.subrange(4, size + 4),
                wrote,
            );
            match h.result {
                Err(_) => h,
                Ok(more) => (ChannelView { buffer: rest, ..h.channel }).drain(now, wrote, said + more),
            }
        }
    }

    /// The channel takes bytes from the network.
    #[verifier::opaque]
    pub open spec fn receive(self, bytes: Seq<u8>, now: u64, wrote: Seq<Wrote>) -> Heard {
        if bytes.len() > MAX_FRAME + 4 || self.buffer.len() + bytes.len() > 2 * (MAX_FRAME + 4) {
            Heard { channel: self, result: Err("buffer_limit"@) }
        } else {
            (ChannelView { buffer: self.buffer + bytes, last_rx: now, ..self }).drain(now, wrote, seq![])
        }
    }

    /// Why the channel cannot seal a text of so many bytes, if it cannot.
    pub open spec fn mute(self, len: nat) -> Option<Seq<char>> {
        if len > MAX_FRAME - 32 {
            Some("message_too_large"@)
        } else {
            match self.cipher {
                CipherView::Transport { sent, .. } => if sent == u64::MAX {
                    Some("encryption_failed"@)
                } else {
                    None
                },
                _ => Some("peer_not_ready"@),
            }
        }
    }

    /// The frame with a text, sealed.
    pub open spec fn sealed(self, plain: Seq<u8>) -> Seq<u8> {
        match self.cipher {
            CipherView::Transport { send_key, sent, .. } => framed(noise::sealed(send_key, sent, plain)),
            _ => seq![],
        }
    }

    /// The channel after it sealed a text.
    pub open spec fn spoke(self) -> ChannelView {
        match self.cipher {
            CipherView::Transport { send_key, sent, receive_key, received } => ChannelView {
                cipher: CipherView::Transport {
                    send_key,
                    sent: (sent + 1) as u64,
                    receive_key,
                    received,
                },
                ..self
            },
            _ => self,
        }
    }
}

/// Whether a device with one private key that begins and a device with another that responds
/// are the two ends of one handshake.
pub open spec fn begins(private: Seq<u8>, theirs: Seq<u8>) -> bool {
    noise::facing(0, ChannelView::first(private, true), private, ChannelView::first(theirs, false), theirs)
}

/// What a call on a channel gave, by its contents.
pub open spec fn heard_as(r: Result<Vec<ChannelEvent>, CoreError>) -> Result<Seq<ChannelEventView>, Seq<char>> {
    match r {
        Ok(v) => Ok(channel_events_view(v@)),
        Err(e) => Err(e.spec_code()),
    }
}

impl Channel {
    /// What holds of a channel at all times.
    pub open spec fn wf(&self) -> bool {
        &&& self.cipher matches Cipher::Handshake(h) ==> noise::interactive(h)
        &&& self.cipher matches Cipher::Transport(t) ==> noise::duplex(t)
        &&& self.messages <= 101
        &&& self.buffer@.len() <= 2 * (MAX_FRAME + 4)
        &&& outside::all_may_be_written(self.wrote@)
    }

    /// Writes the next message of the handshake.
    fn handshake_write(&mut self, events: &mut Vec<ChannelEvent>) -> (r: Result<(), CoreError>)
        requires
            old(self).wf(),
        ensures
            final(self).wf(),
            outside::continues(final(self)@.wrote, old(self)@.wrote),
            forall|log: Seq<Wrote>| #[trigger]
                outside::continues(log, final(self)@.wrote) ==> {
                    let w = old(self)@.write(log);
                    &&& w.channel == final(self)@
                    &&& match (w.result, r) {
                        (Ok(said), Ok(_)) => channel_events_view(final(events)@) == channel_events_view(
                            old(events)@,
                        ) + said,
                        (Err(e), Err(f)) => e == f.spec_code(),
                        _ => false,
                    }
                },
    {
        broadcast use outside::group_continues;

        let ghost was = self.wrote@;
        match &mut self.cipher {
            Cipher::Handshake(h) => {
                let ghost before = *h;
                let r = self.wrote.write(h);
                let ghost w = Wrote { before, message: noise::written(r), after: *h };
                assert(outside::continues(self.wrote@, was.push(w)));
                match r {
                    Ok(m) => {
                        let ghost said = channel_events_view(events@);
                        events.push(ChannelEvent::Write(frame(m.as_slice())));
                        assert(channel_events_view(events@) =~= said + seq![ChannelEventView::Write(framed(m@))]);
                        Ok(())
                    },
                    Err(_) => fail("handshake_failed"),
                }
            },
            _ => {
                assert(channel_events_view(events@) =~= channel_events_view(events@) + seq![]);
                Ok(())
            },
        }
    }

    /// Goes over from a finished handshake to speaking.
    fn finish_handshake(&mut self, events: &mut Vec<ChannelEvent>) -> (r: Result<(), CoreError>)
        requires
            old(self).wf(),
        ensures
            final(self).wf(),
            old(self)@.finish().channel == final(self)@,
            match (old(self)@.finish().result, r) {
                (Ok(said), Ok(_)) => channel_events_view(final(events)@) == channel_events_view(old(events)@) + said,
                (Err(e), Err(f)) => e == f.spec_code(),
                _ => false,
            },
    {
        let ghost said = channel_events_view(events@);
        let finished = match &self.cipher {
            Cipher::Handshake(h) => noise::is_finished(h),
            _ => false,
        };
        if !finished {
            assert(said =~= said + seq![]);
            return Ok(());
        }
        let mut cipher = Cipher::Absent;
        std::mem::swap(&mut self.cipher, &mut cipher);
        let h = match cipher {
            Cipher::Handshake(h) => h,
            _ => return fail("crypto_state"),
        };
        let remote = match noise::remote_key(&h) {
            Some(k) => k,
            None => return fail("missing_identity"),
        };
        let peer = hex(crypto::sha256(remote.as_slice()).as_slice());
        if self.expected.is_some() && !text::is_some_text(&self.expected, peer.as_str()) {
            return fail("peer_identity_changed");
        }
        let digest = crypto::sha256(noise::transcript(&h).as_slice());
        let n = (digest[0] as u32) * 16777216 + (digest[1] as u32) * 65536 + (digest[2] as u32) * 256 + (
        digest[3] as u32);
        let code = text::show_six_digits(n % 1000000);
        self.peer = Some(text::copy(&peer));
        self.code = text::copy(&code);
        self.cipher = match noise::into_transport(h) {
            Ok(t) => Cipher::Transport(t),
            Err(_) => return fail("crypto_error"),
        };
        events.push(ChannelEvent::Authenticated { peer, code });
        assert(channel_events_view(events@) =~= said + seq![
            ChannelEventView::Authenticated { peer: peer@, code: code@ },
        ]);
        Ok(())
    }

    /// Takes the message of one frame.
    fn take(&mut self, message: &[u8], events: &mut Vec<ChannelEvent>) -> (r: Result<(), CoreError>)
        requires
            old(self).wf(),
            message@.len() <= MAX_FRAME,
        ensures
            final(self).wf(),
            outside::continues(final(self)@.wrote, old(self)@.wrote),
            forall|log: Seq<Wrote>| #[trigger]
                outside::continues(log, final(self)@.wrote) ==> {
                    let h = old(self)@.take(message@, log);
                    &&& h.channel == final(self)@
                    &&& match (h.result, r) {
                        (Ok(said), Ok(_)) => channel_events_view(final(events)@) == channel_events_view(
                            old(events)@,
                        ) + said,
                        (Err(e), Err(f)) => e == f.spec_code(),
                        _ => false,
                    }
                },
    {
        broadcast use outside::group_continues;

        reveal(ChannelView::take);
        let ghost said = channel_events_view(events@);
        let write = match &mut self.cipher {
            Cipher::Absent => return fail("crypto_state"),
            Cipher::Handshake(h) => {
                let n = match noise::read_step(h, message, MAX_FRAME) {
                    Ok(n) => n,
                    Err(_) => return fail("handshake_failed"),
                };
                if n != 0 {
                    return fail("handshake_payload_forbidden");
                }
                !noise::is_finished(h) && noise::is_my_turn(h)
            },
            Cipher::Transport(t) => {
                let ghost key = noise::receiving_key(*t);
                let ghost nonce = noise::receiving_nonce(*t);
                match noise::unseal(t, message, MAX_FRAME) {
                    Ok(p) => {
                        events.push(ChannelEvent::Plain(p));
                        proof {
                            assert(message@ == noise::sealed(key, nonce, p@));
                            assert(opened(key, nonce, message@) == Some(p@));
                            assert(channel_events_view(events@) =~= said + seq![ChannelEventView::Plain(p@)]);
                        }
                        return Ok(());
                    },
                    Err(_) => {
                        assert(opened(key, nonce, message@) is None);
                        return fail("authentication_failed");
                    },
                }
            },
        };
        if write {
            let ghost mid = self@;
            match self.handshake_write(events) {
                Ok(_) => {},
                Err(e) => return Err(e),
            }
            let ghost wrote = self@;
            assert(outside::continues(wrote.wrote, wrote.wrote));
            let r = self.finish_handshake(events);
            proof {
                let w = mid.write(wrote.wrote);
                if r is Ok {
                    let more = wrote.finish().result->Ok_0;
                    assert(channel_events_view(events@) =~= said + (w.result->Ok_0 + more));
                }
            }
            r
        } else {
            self.finish_handshake(events)
        }
    }

    /// A new channel under a private key, with the first thing to send if this side
    /// begins.
    pub fn new(private: &[u8], initiator: bool, expected: Option<String>, now: u64) -> (r: Result<
        (Self, Vec<ChannelEvent>),
        CoreError,
    >)
        requires
            private@.len() <= 32,
        ensures
            r matches Ok((c, events)) && c.wf() && ChannelView::open(
                private@,
                initiator,
                text::maybe(expected),
                now,
                c@.wrote,
            ) == (Heard { channel: c@, result: Ok(channel_events_view(events@)) }),
            initiator && private@.len() == 32 ==> forall|theirs: Seq<u8>|
                theirs.len() == 32 ==> #[trigger] begins(private@, theirs),
    {
        broadcast use outside::group_continues;

        reveal(noise::may_write);
        assert(noise::mutual(PATTERN@));
        let prologue = PROLOGUE.as_bytes();
        let begun = if initiator {
            noise::initiate(PATTERN, private, prologue)
        } else {
            noise::respond(PATTERN, private, prologue)
        };
        let h = match begun {
            Ok(h) => h,
            Err(_) => return fail("crypto_error"),
        };
        let mut c = Channel {
            cipher: Cipher::Handshake(h),
            buffer: Vec::new(),
            peer: None,
            code: String::new(),
            name: String::new(),
            local_confirmed: false,
            remote_confirmed: false,
            created: now,
            last_rx: now,
            window: now,
            messages: 0,
            expected,
            wrote: Writings::new(),
        };
        let ghost start = ChannelView::fresh(h, text::maybe(expected), now);
        assert(c@ == start) by {
            assert(c@.buffer =~= start.buffer);
            assert(c@.code =~= start.code);
            assert(c@.name =~= start.name);
            assert(c@.wrote =~= start.wrote);
        }
        let mut events: Vec<ChannelEvent> = Vec::new();
        assert(channel_events_view(events@) =~= seq![]);
        if initiator {
            let r = c.handshake_write(&mut events);
            proof {
                assert(outside::continues(c@.wrote, c@.wrote));
                let w = start.write(c@.wrote);
                if r is Ok {
                    assert(channel_events_view(events@) =~= w.result->Ok_0);
                } else {
                    assert(c@.wrote[0] == c.wrote@[0]);
                    assert(noise::may_write(h, MAX_FRAME as nat, None, c@.wrote[0].after));
                    assert(false);
                }
            }
            match r {
                Ok(_) => {},
                Err(e) => return Err(e),
            }
        }
        Ok((c, events))
    }

    /// Takes bytes from the network, in pieces of any size.
    pub fn receive(&mut self, bytes: &[u8], now: u64) -> (r: Result<Vec<ChannelEvent>, CoreError>)
        requires
            old(self).wf(),
        ensures
            final(self).wf(),
            outside::continues(final(self)@.wrote, old(self)@.wrote),
            old(self)@.receive(bytes@, now, final(self)@.wrote) == (Heard {
                channel: final(self)@,
                result: heard_as(r),
            }),
    {
        broadcast use outside::group_continues;

        reveal(ChannelView::receive);
        assert(outside::continues(self@.wrote, self@.wrote));
        if bytes.len() > MAX_FRAME + 4 || self.buffer.len() + bytes.len() > 2 * (MAX_FRAME + 4) {
            return fail("buffer_limit");
        }
        let ghost begun = self@;
        self.buffer.extend_from_slice(bytes);
        self.last_rx = now;
        let ghost start = ChannelView { buffer: begun.buffer + bytes@, last_rx: now, ..begun };
        assert(self@ == start) by {
            assert(self@.buffer =~= start.buffer);
        }
        let mut events: Vec<ChannelEvent> = Vec::new();
        assert(channel_events_view(events@) =~= seq![]);
        loop
            invariant
                self.wf(),
                outside::continues(self@.wrote, begun.wrote),
                begun == old(self)@,
                start == (ChannelView { buffer: begun.buffer + bytes@, last_rx: now, ..begun }),
                bytes@.len() <= MAX_FRAME + 4,
                begun.buffer.len() + bytes@.len() <= 2 * (MAX_FRAME + 4),
                forall|log: Seq<Wrote>| #[trigger]
                    outside::continues(log, self@.wrote) ==> start.drain(now, log, seq![]) == self@.drain(
                        now,
                        log,
                        channel_events_view(events@),
                    ),
            ensures
                self.wf(),
                outside::continues(self@.wrote, begun.wrote),
                start.drain(now, self@.wrote, seq![]) == (Heard {
                    channel: self@,
                    result: Ok(channel_events_view(events@)),
                }),
            decreases self.buffer@.len(),
        {
            broadcast use outside::group_continues;

            reveal(ChannelView::receive);
            let ghost now_is = self@;
            assert(outside::continues(now_is.wrote, now_is.wrote));
            if self.buffer.len() < 4 {
                break;
            }
            let size = (self.buffer[0] as usize) * 16777216 + (self.buffer[1] as usize) * 65536 + (
            self.buffer[2] as usize) * 256 + (self.buffer[3] as usize);
            if size == 0 || size > MAX_FRAME {
                return fail("frame_limit");
            }
            if self.buffer.len() < size + 4 {
                break;
            }
            if now >= self.window && now - self.window >= 1000000000 {
                self.window = now;
                self.messages = 0;
            }
            self.messages = if self.messages > 100 {
                101
            } else {
                self.messages + 1
            };
            assert(self@ == now_is.counted(now));
            if self.messages > 100 {
                assert(outside::continues(self@.wrote, now_is.wrote));
                return fail("rate_limit");
            }
            let rest = self.buffer.split_off(size + 4);
            let message = self.buffer.split_off(4);
            self.buffer = rest;
            let ghost ready = ChannelView {
                buffer: now_is.buffer.skip(size + 4),
                ..now_is.counted(now)
            };
            assert(self@ == ready) by {
                assert(self@.buffer =~= ready.buffer);
            }
            assert(message@ =~= now_is.buffer.subrange(4, size + 4));
            let r = self.take(message.as_slice(), &mut events);
            proof {
                assert(outside::continues(self@.wrote, self@.wrote));
                lemma_take_keeps(ready, message@, self@.wrote);
                assert(self@.buffer == ready.buffer);
                assert forall|log: Seq<Wrote>| #[trigger] outside::continues(log, self@.wrote) && r is Ok implies start.drain(
                    now,
                    log,
                    seq![],
                ) == self@.drain(now, log, channel_events_view(events@)) by {
                    let h = ready.take(message@, log);
                    assert(h.channel == self@);
                    assert((ChannelView { buffer: ready.buffer, ..h.channel }) == self@);
                }
            }
            match r {
                Ok(_) => {},
                Err(e) => return Err(e),
            }
        }
        Ok(events)
    }

    /// Seals a text for the other side. Whoever holds the same key, and has opened as
    /// many messages as this side had sealed, opens the frame as the text.
    pub fn encrypt(&mut self, bytes: &[u8]) -> (r: Result<Vec<u8>, CoreError>)
        requires
            old(self).wf(),
        ensures
            final(self).wf(),
            match r {
                Ok(f) => {
                    &&& old(self)@.mute(bytes@.len()) is None
                    &&& f@ == old(self)@.sealed(bytes@)
                    &&& final(self)@ == old(self)@.spoke()
                    &&& old(self)@.cipher matches CipherView::Transport { send_key, sent, .. }
                    &&& opened(send_key, sent, noise::sealed(send_key, sent, bytes@)) == Some(bytes@)
                    &&& f@.len() == bytes@.len() + 20
                },
                Err(e) => {
                    &&& old(self)@.mute(bytes@.len()) == Some(e.spec_code())
                    &&& final(self)@ == old(self)@
                },
            },
    {
        if bytes.len() > MAX_FRAME - 32 {
            return fail("message_too_large");
        }
        match &mut self.cipher {
            Cipher::Transport(t) => {
                let ghost key = noise::sending_key(*t);
                let ghost nonce = noise::sending_nonce(*t);
                match noise::seal(t, bytes, MAX_FRAME) {
                    Ok(m) => {
                        let f = frame(m.as_slice());
                        proof {
                            lemma_framed(m@);
                            assert(m@ == noise::sealed(key, nonce, bytes@));
                            assert(opened(key, nonce, m@) == Some(bytes@));
                        }
                        Ok(f)
                    },
                    Err(_) => fail("encryption_failed"),
                }
            },
            _ => fail("peer_not_ready"),
        }
    }
}

/// Taking a message leaves what has come since alone.
pub proof fn lemma_take_keeps(c: ChannelView, message: Seq<u8>, wrote: Seq<Wrote>)
    ensures
        c.take(message, wrote).channel.buffer == c.buffer,
{
    reveal(ChannelView::take);
}

// ---------------------------------------------------------------- laws

/// A channel after it opened one message.
pub open spec fn after_opening(c: ChannelView) -> ChannelView {
    match c.cipher {
        CipherView::Transport { send_key, sent, receive_key, received } => ChannelView {
            cipher: CipherView::Transport { send_key, sent, receive_key, received: (received + 1) as u64 },
            ..c
        },
        _ => c,
    }
}

/// A frame that comes whole gives the text that was sealed in it.
pub proof fn law_sealed_text_arrives(c: ChannelView, message: Seq<u8>, plain: Seq<u8>, now: u64, wrote: Seq<Wrote>)
    requires
        c.cipher matches CipherView::Transport { receive_key, received, .. } && opened(
            receive_key,
            received,
            message,
        ) == Some(plain),
        message.len() <= MAX_FRAME,
        c.buffer.len() == 0,
        c.counted(now).messages <= 100,
    ensures
        c.receive(framed(message), now, wrote).result == Ok::<Seq<ChannelEventView>, Seq<char>>(
            seq![ChannelEventView::Plain(plain)],
        ),
        c.receive(framed(message), now, wrote).channel == after_opening(
            ChannelView { last_rx: now, ..c.counted(now) },
        ),
{
    reveal(ChannelView::receive);
    reveal(ChannelView::take);
    reveal_with_fuel(ChannelView::drain, 2);
    lemma_framed(message);
    let f = framed(message);
    let start = ChannelView { buffer: c.buffer + f, last_rx: now, ..c };
    assert(c.buffer + f =~= f);
    assert(f.subrange(4, message.len() as int + 4) =~= message);
    assert(f.skip(message.len() as int + 4) =~= c.buffer);
    let none: Seq<ChannelEventView> = seq![];
    assert(none + seq![ChannelEventView::Plain(plain)] =~= seq![ChannelEventView::Plain(plain)]);
    assert(message.len() >= 16);
}

/// A frame may come in two pieces: the first gives nothing, the second the text.
pub proof fn law_pieces_make_a_frame(
    c: ChannelView,
    message: Seq<u8>,
    plain: Seq<u8>,
    cut: int,
    now: u64,
    later: u64,
    wrote: Seq<Wrote>,
)
    requires
        c.cipher matches CipherView::Transport { receive_key, received, .. } && opened(
            receive_key,
            received,
            message,
        ) == Some(plain),
        message.len() <= MAX_FRAME,
        c.buffer.len() == 0,
        c.counted(later).messages <= 100,
        0 <= cut < message.len() + 4,
    ensures
        ({
            let first = c.receive(framed(message).take(cut), now, wrote);
            let second = first.channel.receive(framed(message).skip(cut), later, wrote);
            &&& first.result == Ok::<Seq<ChannelEventView>, Seq<char>>(seq![])
            &&& second.result == Ok::<Seq<ChannelEventView>, Seq<char>>(seq![ChannelEventView::Plain(plain)])
        }),
{
    reveal(ChannelView::receive);
    reveal(ChannelView::take);
    reveal_with_fuel(ChannelView::drain, 2);
    lemma_framed(message);
    let f = framed(message);
    let head = f.take(cut);
    let tail = f.skip(cut);
    assert(c.buffer + head =~= head);
    assert(head + tail =~= f);
    if cut >= 4 {
        assert(number_at_front(head) == number_at_front(f));
    }
    assert(f.subrange(4, message.len() as int + 4) =~= message);
    let none: Seq<ChannelEventView> = seq![];
    assert(none + seq![ChannelEventView::Plain(plain)] =~= seq![ChannelEventView::Plain(plain)]);
    assert(f.skip(message.len() as int + 4).len() == 0);
}

/// A frame that no text was sealed as, under the next number, is refused.
pub proof fn law_altered_text_is_refused(c: ChannelView, message: Seq<u8>, now: u64, wrote: Seq<Wrote>)
    requires
        c.cipher matches CipherView::Transport { receive_key, received, .. } && opened(
            receive_key,
            received,
            message,
        ) is None,
        0 < message.len() <= MAX_FRAME,
        c.buffer.len() == 0,
        c.counted(now).messages <= 100,
    ensures
        c.receive(framed(message), now, wrote).result == Err::<Seq<ChannelEventView>, Seq<char>>(
            "authentication_failed"@,
        ),
{
    reveal(ChannelView::receive);
    reveal(ChannelView::take);
    lemma_framed(message);
    let f = framed(message);
    assert(c.buffer + f =~= f);
    assert(f.subrange(4, message.len() as int + 4) =~= message);
}

/// A frame that says it is empty, or longer than frames may be, is refused.
pub proof fn law_bad_sizes_are_refused(c: ChannelView, bytes: Seq<u8>, now: u64, wrote: Seq<Wrote>)
    requires
        c.buffer.len() == 0,
        4 <= bytes.len() <= MAX_FRAME + 4,
        number_at_front(bytes) == 0 || number_at_front(bytes) > MAX_FRAME,
    ensures
        c.receive(bytes, now, wrote).result == Err::<Seq<ChannelEventView>, Seq<char>>("frame_limit"@),
{
    reveal(ChannelView::receive);
    assert(c.buffer + bytes =~= bytes);
}

/// The identifier of the device with a private key: the digest of its public key, in
/// hexadecimal digits.
pub open spec fn device_of(private: Seq<u8>) -> Seq<char> {
    text::hex_text(crypto::sha256_of(crypto::x25519_of(private, crypto::base_point())))
}

/// A message of a handshake comes in one frame and is taken.
proof fn lemma_frame_is_taken(c: ChannelView, message: Seq<u8>, now: u64, wrote: Seq<Wrote>)
    requires
        c.cipher is Handshake,
        0 < message.len() <= MAX_FRAME,
        c.buffer.len() == 0,
        c.messages < 100,
    ensures
        ({
            let start = ChannelView { last_rx: now, ..c.counted(now) };
            let t = start.take(message, wrote);
            &&& c.receive(framed(message), now, wrote).channel == t.channel
            &&& c.receive(framed(message), now, wrote).result == t.result
            &&& t.channel.buffer.len() == 0
        }),
{
    reveal(ChannelView::receive);
    reveal_with_fuel(ChannelView::drain, 2);
    lemma_framed(message);
    let f = framed(message);
    let start = ChannelView { last_rx: now, ..c.counted(now) };
    lemma_take_keeps(start, message, wrote);
    assert(c.buffer + f =~= f);
    assert(f.subrange(4, message.len() as int + 4) =~= message);
    assert(f.skip(message.len() as int + 4) =~= c.buffer);
    let t = start.take(message, wrote);
    let none: Seq<ChannelEventView> = seq![];
    if t.result is Ok {
        assert(none + t.result->Ok_0 =~= t.result->Ok_0);
    }
}

/// Whether a channel shakes hands, and has taken next to nothing.
spec fn is_young(c: ChannelView, h: snow::HandshakeState) -> bool {
    &&& c.cipher == CipherView::Handshake(h)
    &&& c.buffer.len() == 0
    &&& c.messages < 99
}

/// The next message of a handshake comes, is read and is answered.
proof fn lemma_answers(c: ChannelView, h: snow::HandshakeState, message: Seq<u8>, now: u64, wrote: Seq<Wrote>)
    requires
        is_young(c, h),
        0 < message.len() <= MAX_FRAME,
        noise::reading(h, message, MAX_FRAME as nat).0 == Some(0nat),
        !noise::finished(noise::reading(h, message, MAX_FRAME as nat).1),
        noise::my_turn(noise::reading(h, message, MAX_FRAME as nat).1),
    ensures
        ({
            let w = wrote[c.wrote.len() as int];
            let before = noise::reading(h, message, MAX_FRAME as nat).1;
            let t = c.receive(framed(message), now, wrote);
            let said = seq![ChannelEventView::Write(framed(w.message->0))];
            &&& t.channel.wrote == c.wrote.push(Wrote { before, message: w.message, after: w.after })
            &&& t.channel.expected == c.expected
            &&& w.message is Some && !noise::finished(w.after) ==> {
                &&& t.channel.messages <= c.messages + 1
                &&& t.channel.peer == c.peer
                &&& t.channel.buffer.len() == 0
                &&& t.channel.cipher == CipherView::Handshake(w.after)
                &&& t.result == Ok::<Seq<ChannelEventView>, Seq<char>>(said)
            }
            &&& w.message is Some && noise::finished(w.after) && noise::remote_of(w.after) is Some
                && is_expected(c, noise::remote_of(w.after)->0) ==> speaks(t.channel, w.after)
                && t.result == Ok::<Seq<ChannelEventView>, Seq<char>>(
                seq![ChannelEventView::Write(framed(w.message->0)), introduced(w.after)],
            )
        }),
{
    lemma_frame_is_taken(c, message, now, wrote);
    reveal(ChannelView::take);
    let w = wrote[c.wrote.len() as int];
    let said = seq![ChannelEventView::Write(framed(w.message->0))];
    let none: Seq<ChannelEventView> = seq![];
    assert(said + none =~= said);
    assert(said + seq![introduced(w.after)] =~= seq![
        ChannelEventView::Write(framed(w.message->0)),
        introduced(w.after),
    ]);
}

/// The last message of a handshake comes and is read.
proof fn lemma_ends(c: ChannelView, h: snow::HandshakeState, message: Seq<u8>, now: u64, wrote: Seq<Wrote>, key: Seq<u8>)
    requires
        is_young(c, h),
        0 < message.len() <= MAX_FRAME,
        noise::reading(h, message, MAX_FRAME as nat).0 == Some(0nat),
        noise::finished(noise::reading(h, message, MAX_FRAME as nat).1),
        noise::remote_of(noise::reading(h, message, MAX_FRAME as nat).1) == Some(key),
        is_expected(c, key),
    ensures
        ({
            let after = noise::reading(h, message, MAX_FRAME as nat).1;
            let t = c.receive(framed(message), now, wrote);
            &&& speaks(t.channel, after)
            &&& t.result == Ok::<Seq<ChannelEventView>, Seq<char>>(seq![introduced(after)])
        }),
{
    lemma_frame_is_taken(c, message, now, wrote);
    reveal(ChannelView::take);
}

/// Whether a channel expects the device with a public key, or none.
spec fn is_expected(c: ChannelView, key: Seq<u8>) -> bool {
    c.expected is Some ==> c.expected == Some(text::hex_text(crypto::sha256_of(key)))
}

/// What is said of the other end of a finished handshake.
spec fn introduced(h: snow::HandshakeState) -> ChannelEventView {
    ChannelEventView::Authenticated {
        peer: text::hex_text(crypto::sha256_of(noise::remote_of(h)->0)),
        code: pairing_code(noise::transcript_of(h)),
    }
}

/// Whether a channel has come out of a finished handshake.
spec fn speaks(c: ChannelView, h: snow::HandshakeState) -> bool {
    &&& c.peer == Some(text::hex_text(crypto::sha256_of(noise::remote_of(h)->0)))
    &&& c.code == pairing_code(noise::transcript_of(h))
    &&& c.cipher == CipherView::Transport {
        send_key: noise::keys_of(h).0,
        sent: 0,
        receive_key: noise::keys_of(h).1,
        received: 0,
    }
}

/// The two ends of a handshake agree on the message that one of them wrote.
proof fn lemma_agrees(behind: nat, w: Wrote, mine: Seq<u8>, other: snow::HandshakeState, theirs: Seq<u8>)
    requires
        behind < 3,
        noise::facing(behind, w.before, mine, other, theirs),
        noise::may_write(w.before, MAX_FRAME as nat, w.message, w.after),
    ensures
        w.message is Some,
        0 < w.message->0.len() <= MAX_FRAME,
        noise::agreed(behind, w.after, mine, noise::reading(other, w.message->0, MAX_FRAME as nat), theirs),
{
    reveal(noise::may_write);
}

/// Two devices that shake hands with each other, each expecting the other or anybody, come to
/// speak, whatever time each step takes: each knows who the other is, both show the same code, and each receives under the
/// key that the other sends under.
pub proof fn law_two_devices_shake_hands(
    a: Seq<u8>,
    b: Seq<u8>,
    expected_by_a: Option<Seq<char>>,
    expected_by_b: Option<Seq<char>>,
    a_opened: u64,
    b_opened: u64,
    b_heard: u64,
    a_heard: u64,
    b_heard_again: u64,
    a_wrote: Seq<Wrote>,
    b_wrote: Seq<Wrote>,
)
    requires
        begins(a, b),
        expected_by_a is Some ==> expected_by_a == Some(device_of(b)),
        expected_by_b is Some ==> expected_by_b == Some(device_of(a)),
        ({
            let x = ChannelView::open(a, true, expected_by_a, a_opened, a_wrote).channel;
            let y = ChannelView::open(b, false, expected_by_b, b_opened, b_wrote).channel;
            let y1 = y.receive(framed(a_wrote[0].message->0), b_heard, b_wrote).channel;
            let x1 = x.receive(framed(b_wrote[0].message->0), a_heard, a_wrote).channel;
            &&& outside::all_may_be_written(x.wrote)
            &&& outside::all_may_be_written(y1.wrote)
            &&& outside::all_may_be_written(x1.wrote)
        }),
    ensures
        ({
            let x = ChannelView::open(a, true, expected_by_a, a_opened, a_wrote);
            let y = ChannelView::open(b, false, expected_by_b, b_opened, b_wrote).channel;
            let first = framed(a_wrote[0].message->0);
            let y1 = y.receive(first, b_heard, b_wrote);
            let second = framed(b_wrote[0].message->0);
            let x1 = x.channel.receive(second, a_heard, a_wrote);
            let third = framed(a_wrote[1].message->0);
            let y2 = y1.channel.receive(third, b_heard_again, b_wrote);
            let code = x1.channel.code;
            &&& x.result == Ok::<Seq<ChannelEventView>, Seq<char>>(seq![ChannelEventView::Write(first)])
            &&& y1.result == Ok::<Seq<ChannelEventView>, Seq<char>>(seq![ChannelEventView::Write(second)])
            &&& x1.result == Ok::<Seq<ChannelEventView>, Seq<char>>(
                seq![
                    ChannelEventView::Write(third),
                    ChannelEventView::Authenticated { peer: device_of(b), code },
                ],
            )
            &&& y2.result == Ok::<Seq<ChannelEventView>, Seq<char>>(
                seq![ChannelEventView::Authenticated { peer: device_of(a), code }],
            )
            &&& x1.channel.peer == Some(device_of(b))
            &&& y2.channel.peer == Some(device_of(a))
            &&& y2.channel.code == code
            &&& x1.channel.cipher matches CipherView::Transport { send_key: xs, sent: 0, receive_key: xr, received: 0 }
            &&& y2.channel.cipher matches CipherView::Transport { send_key: ys, sent: 0, receive_key: yr, received: 0 }
            &&& xs == yr
            &&& ys == xr
        }),
{
    let first_a = ChannelView::first(a, true);
    let first_b = ChannelView::first(b, false);
    let w1 = a_wrote[0];
    let w2 = b_wrote[0];
    let w3 = a_wrote[1];
    let m1 = w1.message->0;
    let m2 = w2.message->0;
    let m3 = w3.message->0;
    let x = ChannelView::open(a, true, expected_by_a, a_opened, a_wrote).channel;
    let y = ChannelView::open(b, false, expected_by_b, b_opened, b_wrote).channel;
    lemma_agrees(0, x.wrote[0], a, first_b, b);
    // The one that responds reads the first message and answers it.
    lemma_answers(y, first_b, m1, b_heard, b_wrote);
    let y1 = y.receive(framed(m1), b_heard, b_wrote).channel;
    lemma_agrees(1, y1.wrote[0], b, w1.after, a);
    // The one that began reads the answer, and ends the handshake with the third message.
    lemma_answers(x, w1.after, m2, a_heard, a_wrote);
    let x1 = x.receive(framed(m2), a_heard, a_wrote).channel;
    lemma_agrees(2, x1.wrote[1], a, w2.after, b);
    // The other one reads it.
    lemma_ends(y1, w2.after, m3, b_heard_again, b_wrote, crypto::x25519_of(a, crypto::base_point()));
}

/// A device that finishes a handshake with another one than it expects refuses it: it knows no
/// peer, says nothing of one, and speaks with nobody.
pub proof fn law_an_unexpected_peer_is_refused(c: ChannelView, h: snow::HandshakeState, key: Seq<u8>)
    requires
        c.cipher == CipherView::Handshake(h),
        noise::finished(h),
        noise::remote_of(h) == Some(key),
        c.expected is Some,
        c.expected != Some(text::hex_text(crypto::sha256_of(key))),
    ensures
        c.finish().result == Err::<Seq<ChannelEventView>, Seq<char>>("peer_identity_changed"@),
        c.finish().channel == (ChannelView { cipher: CipherView::Absent, ..c }),
        c.finish().channel.peer == c.peer,
{
}

/// The end of a handshake with another device than the expected one, as it comes over the
/// network: whichever end it is, it refuses, gives no event, and keeps knowing no peer.
pub proof fn law_shaking_hands_with_another_device_fails(
    c: ChannelView,
    h: snow::HandshakeState,
    message: Seq<u8>,
    now: u64,
    wrote: Seq<Wrote>,
)
    requires
        c.cipher == CipherView::Handshake(h),
        c.buffer.len() == 0,
        c.messages < 100,
        c.peer is None,
        c.expected is Some,
        0 < message.len() <= MAX_FRAME,
        noise::reading(h, message, MAX_FRAME as nat).0 == Some(0nat),
        ({
            let read = noise::reading(h, message, MAX_FRAME as nat).1;
            let w = wrote[c.wrote.len() as int];
            let last = if !noise::finished(read) && noise::my_turn(read) {
                w.after
            } else {
                read
            };
            &&& !noise::finished(read) && noise::my_turn(read) ==> w.message is Some
            &&& noise::finished(last)
            &&& noise::remote_of(last) is Some
            &&& c.expected != Some(text::hex_text(crypto::sha256_of(noise::remote_of(last)->0)))
        }),
    ensures
        c.receive(framed(message), now, wrote).result == Err::<Seq<ChannelEventView>, Seq<char>>(
            "peer_identity_changed"@,
        ),
        c.receive(framed(message), now, wrote).channel.peer is None,
        c.receive(framed(message), now, wrote).channel.cipher is Absent,
{
    lemma_frame_is_taken(c, message, now, wrote);
    reveal(ChannelView::take);
}

/// Two devices shake hands with each other, and the one that began expects another device: it
/// refuses, knows no peer and gives no event.
pub proof fn law_the_beginner_refuses_another_device(
    a: Seq<u8>,
    b: Seq<u8>,
    expected_by_a: Seq<char>,
    expected_by_b: Option<Seq<char>>,
    a_opened: u64,
    b_opened: u64,
    b_heard: u64,
    a_heard: u64,
    a_wrote: Seq<Wrote>,
    b_wrote: Seq<Wrote>,
)
    requires
        begins(a, b),
        expected_by_a != device_of(b),
        ({
            let x = ChannelView::open(a, true, Some(expected_by_a), a_opened, a_wrote).channel;
            let y = ChannelView::open(b, false, expected_by_b, b_opened, b_wrote).channel;
            let y1 = y.receive(framed(a_wrote[0].message->0), b_heard, b_wrote).channel;
            let x1 = x.receive(framed(b_wrote[0].message->0), a_heard, a_wrote).channel;
            &&& outside::all_may_be_written(x.wrote)
            &&& outside::all_may_be_written(y1.wrote)
            &&& outside::all_may_be_written(x1.wrote)
        }),
    ensures
        ({
            let x = ChannelView::open(a, true, Some(expected_by_a), a_opened, a_wrote).channel;
            let x1 = x.receive(framed(b_wrote[0].message->0), a_heard, a_wrote);
            &&& x1.result == Err::<Seq<ChannelEventView>, Seq<char>>("peer_identity_changed"@)
            &&& x1.channel.peer is None
            &&& x1.channel.cipher is Absent
        }),
{
    let first_b = ChannelView::first(b, false);
    let w1 = a_wrote[0];
    let w2 = b_wrote[0];
    let m1 = w1.message->0;
    let m2 = w2.message->0;
    let x = ChannelView::open(a, true, Some(expected_by_a), a_opened, a_wrote).channel;
    let y = ChannelView::open(b, false, expected_by_b, b_opened, b_wrote).channel;
    lemma_agrees(0, x.wrote[0], a, first_b, b);
    lemma_answers(y, first_b, m1, b_heard, b_wrote);
    let y1 = y.receive(framed(m1), b_heard, b_wrote).channel;
    lemma_agrees(1, y1.wrote[0], b, w1.after, a);
    lemma_answers(x, w1.after, m2, a_heard, a_wrote);
    let x1 = x.receive(framed(m2), a_heard, a_wrote).channel;
    lemma_agrees(2, x1.wrote[1], a, w2.after, b);
    law_shaking_hands_with_another_device_fails(x, w1.after, m2, a_heard, a_wrote);
}

/// Two devices shake hands with each other, and the one that responds expects another device:
/// it refuses, knows no peer and gives no event.
pub proof fn law_the_responder_refuses_another_device(
    a: Seq<u8>,
    b: Seq<u8>,
    expected_by_a: Option<Seq<char>>,
    expected_by_b: Seq<char>,
    a_opened: u64,
    b_opened: u64,
    b_heard: u64,
    a_heard: u64,
    b_heard_again: u64,
    a_wrote: Seq<Wrote>,
    b_wrote: Seq<Wrote>,
)
    requires
        begins(a, b),
        expected_by_b != device_of(a),
        ({
            let x = ChannelView::open(a, true, expected_by_a, a_opened, a_wrote).channel;
            let y = ChannelView::open(b, false, Some(expected_by_b), b_opened, b_wrote).channel;
            let y1 = y.receive(framed(a_wrote[0].message->0), b_heard, b_wrote).channel;
            let x1 = x.receive(framed(b_wrote[0].message->0), a_heard, a_wrote).channel;
            &&& outside::all_may_be_written(x.wrote)
            &&& outside::all_may_be_written(y1.wrote)
            &&& outside::all_may_be_written(x1.wrote)
        }),
    ensures
        ({
            let y = ChannelView::open(b, false, Some(expected_by_b), b_opened, b_wrote).channel;
            let y1 = y.receive(framed(a_wrote[0].message->0), b_heard, b_wrote).channel;
            let y2 = y1.receive(framed(a_wrote[1].message->0), b_heard_again, b_wrote);
            &&& y2.result == Err::<Seq<ChannelEventView>, Seq<char>>("peer_identity_changed"@)
            &&& y2.channel.peer is None
            &&& y2.channel.cipher is Absent
        }),
{
    let first_b = ChannelView::first(b, false);
    let w1 = a_wrote[0];
    let w2 = b_wrote[0];
    let w3 = a_wrote[1];
    let m1 = w1.message->0;
    let m2 = w2.message->0;
    let m3 = w3.message->0;
    let x = ChannelView::open(a, true, expected_by_a, a_opened, a_wrote).channel;
    let y = ChannelView::open(b, false, Some(expected_by_b), b_opened, b_wrote).channel;
    lemma_agrees(0, x.wrote[0], a, first_b, b);
    lemma_answers(y, first_b, m1, b_heard, b_wrote);
    let y1 = y.receive(framed(m1), b_heard, b_wrote).channel;
    lemma_agrees(1, y1.wrote[0], b, w1.after, a);
    lemma_answers(x, w1.after, m2, a_heard, a_wrote);
    let x1 = x.receive(framed(m2), a_heard, a_wrote).channel;
    lemma_agrees(2, x1.wrote[1], a, w2.after, b);
    law_shaking_hands_with_another_device_fails(y1, w2.after, m3, b_heard_again, b_wrote);
}

/// The pairing code has six characters, all of them digits.
pub proof fn law_a_code_is_six_digits(transcript: Seq<u8>)
    ensures
        pairing_code(transcript).len() == 6,
        forall|i: int|
            0 <= i < 6 ==> '0' <= (#[trigger] pairing_code(transcript)[i]) <= '9',
{
}

/// Whether a channel has met nobody but the peer that it expects.
pub open spec fn meets_expected(c: ChannelView) -> bool {
    c.expected is Some && c.peer is Some ==> c.peer == c.expected
}

/// Draining keeps to the peer that is expected.
proof fn lemma_drain_meets_expected(c: ChannelView, now: u64, wrote: Seq<Wrote>, said: Seq<ChannelEventView>)
    requires
        meets_expected(c),
    ensures
        meets_expected(c.drain(now, wrote, said).channel),
        c.drain(now, wrote, said).channel.expected == c.expected,
    decreases c.buffer.len(),
{
    reveal(ChannelView::take);
    let size = number_at_front(c.buffer) as int;
    let counted = c.counted(now);
    if c.buffer.len() >= 4 && 0 < size <= MAX_FRAME && c.buffer.len() >= size + 4 && counted.messages <= 100 {
        let rest = c.buffer.skip(size + 4);
        let h = (ChannelView { buffer: rest, ..counted }).take(c.buffer.subrange(4, size + 4), wrote);
        if h.result is Ok {
            lemma_drain_meets_expected(ChannelView { buffer: rest, ..h.channel }, now, wrote, said + h.result->Ok_0);
        }
    }
}

/// A channel that expects a peer never takes another device for it.
pub proof fn law_only_the_expected_peer(c: ChannelView, bytes: Seq<u8>, now: u64, wrote: Seq<Wrote>)
    requires
        meets_expected(c),
    ensures
        meets_expected(c.receive(bytes, now, wrote).channel),
        c.receive(bytes, now, wrote).channel.expected == c.expected,
{
    reveal(ChannelView::receive);
    lemma_drain_meets_expected(
        ChannelView { buffer: c.buffer + bytes, last_rx: now, ..c },
        now,
        wrote,
        seq![],
    );
}


/// What a channel says after it gave some events is those events and then what it says without
/// them.
proof fn lemma_drain_goes_on(c: ChannelView, now: u64, wrote: Seq<Wrote>, said: Seq<ChannelEventView>)
    ensures
        ({
            let with = c.drain(now, wrote, said);
            let alone = c.drain(now, wrote, seq![]);
            &&& with.channel == alone.channel
            &&& alone.result matches Ok(more) ==> with.result == Ok::<Seq<ChannelEventView>, Seq<char>>(said + more)
            &&& alone.result matches Err(e) ==> with.result == Err::<Seq<ChannelEventView>, Seq<char>>(e)
        }),
    decreases c.buffer.len(),
{
    let none: Seq<ChannelEventView> = seq![];
    let size = number_at_front(c.buffer) as int;
    let counted = c.counted(now);
    assert(said + none =~= said);
    if c.buffer.len() >= 4 && 0 < size <= MAX_FRAME && c.buffer.len() >= size + 4 && counted.messages <= 100 {
        let rest = c.buffer.skip(size + 4);
        let h = (ChannelView { buffer: rest, ..counted }).take(c.buffer.subrange(4, size + 4), wrote);
        if h.result is Ok {
            let more = h.result->Ok_0;
            let next = ChannelView { buffer: rest, ..h.channel };
            assert(none + more =~= more);
            lemma_drain_goes_on(next, now, wrote, said + more);
            lemma_drain_goes_on(next, now, wrote, more);
            let tail = next.drain(now, wrote, seq![]);
            if tail.result is Ok {
                assert((said + more) + tail.result->Ok_0 =~= said + (more + tail.result->Ok_0));
            }
        }
    }
}

/// Frames that come together are taken one after the other: what a channel hears in a frame and
/// whatever comes with it is the text of the frame, and then what it hears in the rest.
pub proof fn law_frames_that_come_together_are_taken_in_turn(
    c: ChannelView,
    message: Seq<u8>,
    plain: Seq<u8>,
    rest: Seq<u8>,
    now: u64,
    wrote: Seq<Wrote>,
)
    requires
        c.cipher matches CipherView::Transport { receive_key, received, .. } && opened(
            receive_key,
            received,
            message,
        ) == Some(plain),
        c.buffer.len() == 0,
        message.len() + 4 + rest.len() <= MAX_FRAME + 4,
        c.counted(now).messages <= 100,
    ensures
        ({
            let together = c.receive(framed(message) + rest, now, wrote);
            let first = c.receive(framed(message), now, wrote);
            let then = first.channel.receive(rest, now, wrote);
            &&& together.channel == then.channel
            &&& then.result matches Ok(more) ==> together.result == Ok::<Seq<ChannelEventView>, Seq<char>>(
                seq![ChannelEventView::Plain(plain)] + more,
            )
            &&& then.result matches Err(e) ==> together.result == Err::<Seq<ChannelEventView>, Seq<char>>(e)
        }),
{
    law_sealed_text_arrives(c, message, plain, now, wrote);
    reveal(ChannelView::receive);
    reveal(ChannelView::take);
    lemma_framed(message);
    let f = framed(message);
    let start = ChannelView { buffer: c.buffer + (f + rest), last_rx: now, ..c };
    let size = message.len() as int;
    assert(c.buffer + (f + rest) =~= f + rest);
    assert(number_at_front(f + rest) == number_at_front(f));
    assert((f + rest).subrange(4, size + 4) =~= message);
    assert((f + rest).skip(size + 4) =~= rest);
    let first = c.receive(f, now, wrote).channel;
    let next = ChannelView { buffer: rest, ..first };
    assert(first.buffer + rest =~= rest);
    assert(message.len() >= 16);
    let none: Seq<ChannelEventView> = seq![];
    let one = seq![ChannelEventView::Plain(plain)];
    assert(none + one =~= one);
    assert(start.drain(now, wrote, none) == next.drain(now, wrote, one));
    lemma_drain_goes_on(next, now, wrote, one);
}

} // verus!
