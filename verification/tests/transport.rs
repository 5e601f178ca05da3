//! Identities and encrypted channels.
use base64::Engine;
use voice_keyboard_core::protocol::MAX_FRAME;
use voice_keyboard_core::transport::{hex, Channel, ChannelEvent, Identity};

const SECOND: u64 = 1_000_000_000;

fn code<T>(r: Result<T, voice_keyboard_core::CoreError>) -> String {
    match r {
        Ok(_) => "ok".to_owned(),
        Err(e) => e.code().to_owned(),
    }
}

fn open(i: &Identity, initiator: bool, expected: Option<String>) -> (Channel, Vec<ChannelEvent>) {
    let key = i.private_bytes().unwrap();
    Channel::new(key.as_slice(), initiator, expected, 0).unwrap()
}

fn written(e: &ChannelEvent) -> Vec<u8> {
    match e {
        ChannelEvent::Write(b) => b.clone(),
        _ => panic!("nothing was written"),
    }
}

fn pair() -> (Channel, Channel) {
    let a = Identity::generate().unwrap();
    let b = Identity::generate().unwrap();
    let (mut x, first) = open(&a, true, Some(b.id().unwrap()));
    let (mut y, none) = open(&b, false, None);
    assert!(none.is_empty());
    let second = y.receive(&written(&first[0]), 0).unwrap();
    let third = x.receive(&written(&second[0]), 0).unwrap();
    let done = y.receive(&written(&third[0]), 0).unwrap();
    assert!(matches!(&third[1], ChannelEvent::Authenticated { peer, .. } if *peer == b.id().unwrap()));
    assert!(matches!(&done[0], ChannelEvent::Authenticated { peer, .. } if *peer == a.id().unwrap()));
    assert_eq!(x.code, y.code);
    assert_eq!(x.code.len(), 6);
    (x, y)
}

#[test]
fn authenticated_encryption_and_fragmented_frames() {
    let (mut a, mut b) = pair();
    let encrypted = a.encrypt(b"private dictation").unwrap();
    assert!(!encrypted.windows(9).any(|w| w == b"dictation"));
    assert!(b.receive(&encrypted[..3], 0).unwrap().is_empty());
    let ev = b.receive(&encrypted[3..], 0).unwrap();
    assert!(matches!(&ev[0], ChannelEvent::Plain(p) if p == b"private dictation"));
    assert!(b.receive(&encrypted, 0).is_err());
}

#[test]
fn tampering_and_oversize_are_rejected() {
    let (mut a, mut b) = pair();
    let mut encrypted = a.encrypt(b"text").unwrap();
    *encrypted.last_mut().unwrap() ^= 1;
    assert!(b.receive(&encrypted, 0).is_err());
    assert!(a.receive(&u32::MAX.to_be_bytes(), 0).is_err());
}

#[test]
fn altered_identity_cannot_load() {
    let mut i = Identity::generate().unwrap();
    i.public_key = base64::engine::general_purpose::STANDARD.encode([0; 32]);
    assert!(i.private_bytes().is_err());
}

#[test]
fn identities_that_cannot_load_say_why() {
    let i = Identity::generate().unwrap();
    let j = Identity::generate().unwrap();
    let mixed = Identity { private_key: i.private_key.clone(), public_key: j.public_key.clone() };
    assert_eq!(code(mixed.private_bytes()), "identity_key_mismatch");
    let short = Identity { private_key: "AAAA".to_owned(), public_key: i.public_key.clone() };
    assert_eq!(code(short.private_bytes()), "invalid_identity");
    let garbled = Identity { private_key: "*".to_owned(), public_key: "*".to_owned() };
    assert_eq!(code(garbled.private_bytes()), "invalid_identity");
    assert_eq!(code(garbled.id()), "invalid_identity");
}

#[test]
fn identity_is_the_digest_of_the_public_key() {
    let known = Identity { private_key: String::new(), public_key: "YWJj".to_owned() };
    assert_eq!(known.id().unwrap(), "ba7816bf8f01cfea414140de5dae2223b00361a396177a9cb410ff61f20015ad");
    let i = Identity::generate().unwrap();
    assert!(voice_keyboard_core::protocol::valid_id(&i.id().unwrap()));
    assert_eq!(i.private_bytes().unwrap().as_slice().len(), 32);
    let zeros = base64::engine::general_purpose::STANDARD.encode([0u8; 32]);
    let public = "L+V9o0fNYkMVKNqsX7spBzD/9oSvxM/C7ZCZX1jLO3Q=";
    let fixed = Identity { private_key: zeros, public_key: public.to_owned() };
    assert_eq!(fixed.private_bytes().unwrap().as_slice(), &[0u8; 32]);
}

#[test]
fn hexadecimal_digits_of_bytes() {
    assert_eq!(hex(&[]), "");
    assert_eq!(hex(&[0, 1, 0x9a, 0xbc, 0xff]), "00019abcff");
}

#[test]
fn another_device_than_the_expected_one_is_refused() {
    let a = Identity::generate().unwrap();
    let b = Identity::generate().unwrap();
    let c = Identity::generate().unwrap();
    let (mut x, first) = open(&a, true, Some(c.id().unwrap()));
    let (mut y, _) = open(&b, false, None);
    let second = y.receive(&written(&first[0]), 0).unwrap();
    assert_eq!(code(x.receive(&written(&second[0]), 0)), "peer_identity_changed");
    assert_eq!(x.peer, None);
    assert_eq!(code(x.encrypt(b"text")), "peer_not_ready");
    assert_eq!(code(x.receive(&[0, 0, 0, 1, 0], 0)), "crypto_state");
}

#[test]
fn frames_have_limits() {
    let (mut a, mut b) = pair();
    assert_eq!(code(a.encrypt(&vec![0; MAX_FRAME - 31])), "message_too_large");
    let largest = a.encrypt(&vec![7; MAX_FRAME - 32]).unwrap();
    assert_eq!(largest.len(), MAX_FRAME - 32 + 20);
    let ev = b.receive(&largest, 0).unwrap();
    assert!(matches!(&ev[0], ChannelEvent::Plain(p) if p.len() == MAX_FRAME - 32 && p[0] == 7));
    assert_eq!(code(a.receive(&[0, 0, 0, 0], 0)), "frame_limit");
    assert_eq!(code(b.receive(&vec![0; MAX_FRAME + 5], 0)), "buffer_limit");
}

#[test]
fn a_handshake_that_makes_no_sense_fails() {
    let a = Identity::generate().unwrap();
    let (mut y, _) = open(&a, false, None);
    assert_eq!(code(y.encrypt(b"text")), "peer_not_ready");
    assert_eq!(code(y.receive(&[0, 0, 0, 2, 1, 2], 0)), "handshake_failed");
    let (mut z, _) = open(&a, false, None);
    let mut first = vec![0, 0, 0, 33];
    first.extend([9; 33]);
    assert_eq!(code(z.receive(&first, 0)), "handshake_payload_forbidden");
}

#[test]
fn a_hundred_frames_a_second() {
    let (mut a, mut b) = pair();
    let mut sent = 0;
    for _ in 0..98 {
        let frame = a.encrypt(b"x").unwrap();
        assert_eq!(b.receive(&frame, SECOND - 1).unwrap().len(), 1);
        sent += 1;
    }
    assert_eq!(sent, 98);
    let late = a.encrypt(b"y").unwrap();
    assert_eq!(code(b.receive(&late, SECOND - 1)), "rate_limit");
    let ev = b.receive(&[], SECOND).unwrap();
    assert!(matches!(&ev[0], ChannelEvent::Plain(p) if p == b"y"));
}

#[test]
fn several_frames_at_once_come_in_order() {
    let (mut a, mut b) = pair();
    let mut bytes = a.encrypt(b"one").unwrap();
    bytes.extend(a.encrypt(b"two").unwrap());
    let ev = b.receive(&bytes, 0).unwrap();
    assert_eq!(ev.len(), 2);
    assert!(matches!(&ev[0], ChannelEvent::Plain(p) if p == b"one"));
    assert!(matches!(&ev[1], ChannelEvent::Plain(p) if p == b"two"));
}
