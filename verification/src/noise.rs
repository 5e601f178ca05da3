//! The Noise protocol, as the `snow` library carries it out.
use crate::crypto;
use vstd::prelude::*;

verus! {

#[verifier::external_type_specification]
#[verifier::external_body]
pub struct ExHandshakeState(snow::HandshakeState);

#[verifier::external_type_specification]
#[verifier::external_body]
pub struct ExTransportState(snow::TransportState);

#[verifier::external_type_specification]
#[verifier::external_body]
pub struct ExNoiseError(snow::Error);

/// The protocol by its name: both sides prove who they are and learn who the other
/// is, and both may speak afterwards.
pub open spec fn mutual(pattern: Seq<char>) -> bool {
    pattern == "Noise_XX_25519_ChaChaPoly_SHA256"@
}

/// Whether both sides of the handshake may speak once it is finished.
pub uninterp spec fn interactive(h: snow::HandshakeState) -> bool;

/// The handshake of the side that speaks first, before it has spoken.
pub uninterp spec fn initiated(pattern: Seq<char>, private: Seq<u8>, prologue: Seq<u8>) -> snow::HandshakeState;

/// The handshake of the side that listens first, before it has heard anything.
pub uninterp spec fn responding(pattern: Seq<char>, private: Seq<u8>, prologue: Seq<u8>) -> snow::HandshakeState;

/// Whether a handshake may write the given message, or fail to write where there is
/// none, and come out as the second. It draws on random numbers.
pub uninterp spec fn chanced(
    h: snow::HandshakeState,
    room: nat,
    message: Option<Seq<u8>>,
    after: snow::HandshakeState,
) -> bool;

/// Whether two handshakes are the two ends of one, with so many messages behind them: the
/// one whose turn it is, under its private key, and the other, under its own.
pub uninterp spec fn facing(
    behind: nat,
    speaker: snow::HandshakeState,
    mine: Seq<u8>,
    listener: snow::HandshakeState,
    theirs: Seq<u8>,
) -> bool;

/// The length of the payload that reading a message gives, if it can be read, and the
/// handshake after it.
pub uninterp spec fn reading(h: snow::HandshakeState, message: Seq<u8>, room: nat) -> (
    Option<nat>,
    snow::HandshakeState,
);

/// Whether a handshake is finished.
pub uninterp spec fn finished(h: snow::HandshakeState) -> bool;

/// Whether it is this side's turn to write.
pub uninterp spec fn my_turn(h: snow::HandshakeState) -> bool;

/// The public key of the other side, if it is known.
pub uninterp spec fn remote_of(h: snow::HandshakeState) -> Option<Seq<u8>>;

/// The digest of everything that was said.
pub uninterp spec fn transcript_of(h: snow::HandshakeState) -> Seq<u8>;

/// The keys that a finished handshake leaves: to send under, and to receive under.
pub uninterp spec fn keys_of(h: snow::HandshakeState) -> (Seq<u8>, Seq<u8>);

/// Whether both sides of the finished channel may speak.
pub uninterp spec fn duplex(t: snow::TransportState) -> bool;

/// The cipher and key with which a channel seals what it sends.
pub uninterp spec fn sending_key(t: snow::TransportState) -> Seq<u8>;

/// The number of messages that a channel has sealed.
pub uninterp spec fn sending_nonce(t: snow::TransportState) -> u64;

/// The cipher and key with which a channel opens what it is sent.
pub uninterp spec fn receiving_key(t: snow::TransportState) -> Seq<u8>;

/// The number of messages that a channel has opened.
pub uninterp spec fn receiving_nonce(t: snow::TransportState) -> u64;

/// A plain text as it is sealed under a key with the number of the message.
pub uninterp spec fn sealed(key: Seq<u8>, nonce: u64, plain: Seq<u8>) -> Seq<u8>;

/// Whether the two ends of a handshake agree after one of them, under the private key
/// `mine`, wrote a message and the other read it: the message carries nothing else, and it
/// is the reader's turn. After the third message both are finished, have heard the same, know
/// each other's public key, and each sends under the key that the other receives under.
pub open spec fn agreed(
    behind: nat,
    writer: snow::HandshakeState,
    mine: Seq<u8>,
    read: (Option<nat>, snow::HandshakeState),
    theirs: Seq<u8>,
) -> bool {
    let reader = read.1;
    &&& read.0 == Some(0nat)
    &&& facing(behind + 1, reader, theirs, writer, mine)
    &&& my_turn(reader)
    &&& finished(writer) == (behind == 2)
    &&& finished(reader) == (behind == 2)
    &&& behind == 2 ==> transcript_of(reader) == transcript_of(writer)
    &&& behind == 2 ==> keys_of(reader) == (keys_of(writer).1, keys_of(writer).0)
    &&& behind == 2 ==> remote_of(writer) == Some(crypto::x25519_of(theirs, crypto::base_point()))
    &&& behind == 2 ==> remote_of(reader) == Some(crypto::x25519_of(mine, crypto::base_point()))
}

/// Whether a handshake may write the given message, or fail to write where there is
/// none, and come out as the second. It does not fail in its turn, and what it writes the
/// other end reads.
#[verifier::opaque]
pub open spec fn may_write(
    h: snow::HandshakeState,
    room: nat,
    message: Option<Seq<u8>>,
    after: snow::HandshakeState,
) -> bool {
    &&& chanced(h, room, message, after)
    &&& interactive(h) && my_turn(h) && !finished(h) ==> message is Some
    &&& message matches Some(m) ==> 0 < m.len() <= room
    &&& forall|behind: nat, mine: Seq<u8>, other: snow::HandshakeState, theirs: Seq<u8>|
        #![trigger facing(behind, h, mine, other, theirs)]
        facing(behind, h, mine, other, theirs) && behind < 3 ==> {
            &&& message is Some
            &&& agreed(behind, after, mine, reading(other, message->0, room), theirs)
        }
}

/// Calls `snow::Builder::generate_keypair`. The keys are random; under the mutual
/// protocol there always are some, of 32 bytes each, and the public one is the
/// product of the private one with the base point.
#[verifier::external_body]
pub(crate) fn generate_keys(pattern: &str) -> (r: Result<(Vec<u8>, Vec<u8>), snow::Error>)
    ensures
        mutual(pattern@) ==> r is Ok,
        r matches Ok(pair) ==> (mutual(pattern@) ==> pair.0@.len() == 32 && pair.1@ == crypto::x25519_of(
            pair.0@,
            crypto::base_point(),
        )),
{
    let pair = snow::Builder::new(pattern.parse()?).generate_keypair()?;
    Ok((pair.private, pair.public))
}

/// Calls `snow::Builder::build_initiator` with a private key and a prologue. Under
/// the mutual protocol it succeeds, it is this side's turn, and whoever responds with the
/// same prologue is the other end. A key longer than 32 bytes would make it panic.
#[verifier::external_body]
pub(crate) fn initiate(pattern: &str, private: &[u8], prologue: &[u8]) -> (r: Result<snow::HandshakeState, snow::Error>)
    requires
        private@.len() <= 32,
    ensures
        mutual(pattern@) ==> r is Ok,
        r matches Ok(h) ==> h == initiated(pattern@, private@, prologue@),
        r matches Ok(h) ==> (mutual(pattern@) ==> interactive(h) && my_turn(h) && !finished(h)),
        r matches Ok(h) ==> forall|theirs: Seq<u8>|
            mutual(pattern@) && private@.len() == 32 && theirs.len() == 32 ==> #[trigger] facing(
                0,
                h,
                private@,
                responding(pattern@, theirs, prologue@),
                theirs,
            ),
{
    snow::Builder::new(pattern.parse()?).local_private_key(private).prologue(prologue).build_initiator()
}

/// Calls `snow::Builder::build_responder` with a private key and a prologue. Under
/// the mutual protocol it succeeds, and it is not this side's turn. A key longer than
/// 32 bytes would make it panic.
#[verifier::external_body]
pub(crate) fn respond(pattern: &str, private: &[u8], prologue: &[u8]) -> (r: Result<snow::HandshakeState, snow::Error>)
    requires
        private@.len() <= 32,
    ensures
        mutual(pattern@) ==> r is Ok,
        r matches Ok(h) ==> h == responding(pattern@, private@, prologue@),
        r matches Ok(h) ==> (mutual(pattern@) ==> interactive(h) && !my_turn(h) && !finished(h)),
{
    snow::Builder::new(pattern.parse()?).local_private_key(private).prologue(prologue).build_responder()
}

/// What a step wrote.
pub open spec fn written(r: Result<Vec<u8>, snow::Error>) -> Option<Seq<u8>> {
    match r {
        Ok(v) => Some(v@),
        Err(_) => None,
    }
}

/// How many bytes of payload a step read.
pub open spec fn taken(r: Result<usize, snow::Error>) -> Option<nat> {
    match r {
        Ok(n) => Some(n as nat),
        Err(_) => None,
    }
}

/// What an optional key holds.
pub open spec fn key_bytes(r: Option<Vec<u8>>) -> Option<Seq<u8>> {
    match r {
        Some(v) => Some(v@),
        None => None,
    }
}

/// Calls `snow::HandshakeState::write_message` with an empty payload and a buffer of
/// `room` bytes, and gives the part that was written. It draws on random numbers: the
/// message and the handshake that it leaves are among those that may come. It writes
/// only in turn, and ends its turn; under the mutual protocol it writes whenever it is its
/// turn and the handshake is not finished, and the other end can read what it wrote.
#[verifier::external_body]
pub(crate) fn write_step(h: &mut snow::HandshakeState, room: usize) -> (r: Result<Vec<u8>, snow::Error>)
    requires
        room >= 1024,
    ensures
        chanced(*old(h), room as nat, written(r), *final(h)),
        may_write(*old(h), room as nat, written(r), *final(h)),
        interactive(*final(h)) == interactive(*old(h)),
        r matches Ok(v) ==> v@.len() <= room,
        r is Ok ==> my_turn(*old(h)) && !my_turn(*final(h)),
{
    let mut out = vec![0; room];
    let n = h.write_message(&[], &mut out)?;
    out.truncate(n);
    Ok(out)
}

/// Calls `snow::HandshakeState::read_message` with a buffer of `room` bytes, and gives
/// the length of the payload: a function of the handshake and the message.
#[verifier::external_body]
pub(crate) fn read_step(h: &mut snow::HandshakeState, frame: &[u8], room: usize) -> (r: Result<usize, snow::Error>)
    ensures
        (taken(r), *final(h)) == reading(*old(h), frame@, room as nat),
        interactive(*final(h)) == interactive(*old(h)),
        r is Ok ==> !my_turn(*old(h)) && my_turn(*final(h)),
{
    let mut plain = vec![0; room];
    h.read_message(frame, &mut plain)
}

/// Calls `snow::HandshakeState::is_handshake_finished`, a function of the handshake.
#[verifier::external_body]
pub(crate) fn is_finished(h: &snow::HandshakeState) -> (r: bool)
    ensures
        r == finished(*h),
{
    h.is_handshake_finished()
}

/// Calls `snow::HandshakeState::is_my_turn`, a function of the handshake.
#[verifier::external_body]
pub(crate) fn is_my_turn(h: &snow::HandshakeState) -> (r: bool)
    ensures
        r == my_turn(*h),
{
    h.is_my_turn()
}

/// Calls `snow::HandshakeState::get_remote_static`, a function of the handshake, and
/// copies the key.
#[verifier::external_body]
pub(crate) fn remote_key(h: &snow::HandshakeState) -> (r: Option<Vec<u8>>)
    ensures
        key_bytes(r) == remote_of(*h),
{
    h.get_remote_static().map(|k| k.to_vec())
}

/// Calls `snow::HandshakeState::get_handshake_hash`, a function of the handshake, and
/// copies the hash.
#[verifier::external_body]
pub(crate) fn transcript(h: &snow::HandshakeState) -> (r: Vec<u8>)
    ensures
        r@ == transcript_of(*h),
{
    h.get_handshake_hash().to_vec()
}

/// Calls `snow::HandshakeState::into_transport_mode`, which succeeds just when the
/// handshake is finished. The channel has the keys that the handshake left, and has
/// neither sealed nor opened a message.
#[verifier::external_body]
pub(crate) fn into_transport(h: snow::HandshakeState) -> (r: Result<snow::TransportState, snow::Error>)
    ensures
        r is Ok <==> finished(h),
        r matches Ok(t) ==> (interactive(h) ==> duplex(t)),
        r matches Ok(t) ==> (sending_key(t), receiving_key(t)) == keys_of(h),
        r matches Ok(t) ==> sending_nonce(t) == 0,
        r matches Ok(t) ==> receiving_nonce(t) == 0,
{
    h.into_transport_mode()
}

/// Calls `snow::TransportState::write_message` with a buffer of `room` bytes, and
/// gives the part that was written: the text sealed with the next number, and no other
/// text is sealed so. Where both sides may speak it fails just when the sealed text, 16
/// bytes longer, does not fit the buffer or a Noise message, or when the numbers are used
/// up.
#[verifier::external_body]
pub(crate) fn seal(t: &mut snow::TransportState, plain: &[u8], room: usize) -> (r: Result<Vec<u8>, snow::Error>)
    ensures
        duplex(*final(t)) == duplex(*old(t)),
        sending_key(*final(t)) == sending_key(*old(t)),
        receiving_key(*final(t)) == receiving_key(*old(t)),
        receiving_nonce(*final(t)) == receiving_nonce(*old(t)),
        duplex(*old(t)) ==> (r is Ok <==> plain@.len() + 16 <= room && plain@.len() + 16 <= 65535
            && sending_nonce(*old(t)) < u64::MAX),
        r matches Ok(v) ==> v@ == sealed(sending_key(*old(t)), sending_nonce(*old(t)), plain@),
        r matches Ok(v) ==> v@.len() == plain@.len() + 16,
        r matches Ok(v) ==> forall|q: Seq<u8>|
            v@ == #[trigger] sealed(sending_key(*old(t)), sending_nonce(*old(t)), q) ==> q == plain@,
        sending_nonce(*final(t)) == sending_nonce(*old(t)) + (if r is Ok { 1int } else { 0int }),
{
    let mut out = vec![0; room];
    let n = t.write_message(plain, &mut out)?;
    out.truncate(n);
    Ok(out)
}

/// Calls `snow::TransportState::read_message` with a buffer of `room` bytes, and
/// gives the part that was written. What it opens is the text whose sealed form, under
/// the receiving key and the next number, the frame is; where both sides may speak, the
/// text fits the buffer and a number is left, it opens every such frame.
#[verifier::external_body]
pub(crate) fn unseal(t: &mut snow::TransportState, frame: &[u8], room: usize) -> (r: Result<Vec<u8>, snow::Error>)
    ensures
        duplex(*final(t)) == duplex(*old(t)),
        receiving_key(*final(t)) == receiving_key(*old(t)),
        sending_key(*final(t)) == sending_key(*old(t)),
        sending_nonce(*final(t)) == sending_nonce(*old(t)),
        r matches Ok(p) ==> frame@ == sealed(receiving_key(*old(t)), receiving_nonce(*old(t)), p@),
        r matches Ok(p) ==> frame@.len() == p@.len() + 16,
        forall|q: Seq<u8>|
            frame@ == #[trigger] sealed(receiving_key(*old(t)), receiving_nonce(*old(t)), q) && duplex(*old(t))
                && receiving_nonce(*old(t)) < u64::MAX && frame@.len() <= 65535 && frame@.len() <= room + 16
                && frame@.len() >= 16 ==> (r matches Ok(p) && p@ == q),
        receiving_nonce(*final(t)) == receiving_nonce(*old(t)) + (if r is Ok { 1int } else { 0int }),
{
    let mut plain = vec![0; room];
    let n = t.read_message(frame, &mut plain)?;
    plain.truncate(n);
    Ok(plain)
}

} // verus!
