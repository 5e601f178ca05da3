//! Digests, keyed digests, text encodings of bytes, and key material.
use vstd::prelude::*;

verus! {

// ---------------------------------------------------------------- digests

/// The SHA-256 digest of a byte string.
pub uninterp spec fn sha256_of(bytes: Seq<u8>) -> Seq<u8>;

/// Calls `sha2::Sha256::digest`, a function of its argument with 32 bytes.
#[verifier::external_body]
pub(crate) fn sha256(bytes: &[u8]) -> (d: Vec<u8>)
    ensures
        d@ == sha256_of(bytes@),
        d@.len() == 32,
{
    <sha2::Sha256 as sha2::Digest>::digest(bytes).to_vec()
}

/// The HMAC-SHA-256 code of a message under a key.
pub uninterp spec fn hmac_of(key: Seq<u8>, message: Seq<u8>) -> Seq<u8>;

/// Calls `hmac::Hmac<Sha256>`, a function of key and message; it takes a key of any
/// length.
#[verifier::external_body]
pub(crate) fn hmac_sha256(key: &[u8], message: &[u8]) -> (d: Vec<u8>)
    ensures
        d@ == hmac_of(key@, message@),
        d@.len() == 32,
{
    let mut mac = <hmac::Hmac<sha2::Sha256> as hmac::Mac>::new_from_slice(key).expect("HMAC accepts any key length");
    hmac::Mac::update(&mut mac, message);
    hmac::Mac::finalize(mac).into_bytes().to_vec()
}

// ---------------------------------------------------------------- base64

/// The symbol of the standard base64 alphabet for a number below 64.
pub open spec fn b64_symbol(n: int) -> char {
    if n < 26 {
        (65 + n) as char
    } else if n < 52 {
        (97 + n - 26) as char
    } else if n < 62 {
        (48 + n - 52) as char
    } else if n == 62 {
        '+'
    } else {
        '/'
    }
}

/// The standard base64 text of a byte string: four symbols for three bytes, and the last
/// four filled up.
pub open spec fn b64_text(bytes: Seq<u8>) -> Seq<char>
    decreases bytes.len(),
{
    if bytes.len() == 0 {
        seq![]
    } else if bytes.len() == 1 {
        seq![b64_symbol(bytes[0] as int / 4), b64_symbol(bytes[0] as int % 4 * 16), '=', '=']
    } else if bytes.len() == 2 {
        seq![
            b64_symbol(bytes[0] as int / 4),
            b64_symbol(bytes[0] as int % 4 * 16 + bytes[1] as int / 16),
            b64_symbol(bytes[1] as int % 16 * 4),
            '=',
        ]
    } else {
        seq![
            b64_symbol(bytes[0] as int / 4),
            b64_symbol(bytes[0] as int % 4 * 16 + bytes[1] as int / 16),
            b64_symbol(bytes[1] as int % 16 * 4 + bytes[2] as int / 64),
            b64_symbol(bytes[2] as int % 64),
        ] + b64_text(bytes.skip(3))
    }
}

/// The bytes that a standard base64 text stands for, if it is one.
pub open spec fn b64_bytes(s: Seq<char>) -> Option<Seq<u8>> {
    if exists|bytes: Seq<u8>| #[trigger] b64_text(bytes) == s {
        Some(choose|bytes: Seq<u8>| #[trigger] b64_text(bytes) == s)
    } else {
        None
    }
}

/// Symbols tell numbers apart, and none fills up.
proof fn lemma_b64_symbols(m: int, n: int)
    requires
        0 <= m < 64,
        0 <= n < 64,
    ensures
        b64_symbol(m) == b64_symbol(n) ==> m == n,
        b64_symbol(m) != '=',
{
}

/// Base64 tells byte strings apart.
proof fn lemma_b64_text(a: Seq<u8>, b: Seq<u8>)
    requires
        b64_text(a) == b64_text(b),
    ensures
        a == b,
    decreases a.len(),
{
    let s = b64_text(a);
    let t = b64_text(b);
    assert(s.len() == t.len());
    if a.len() > 0 && b.len() > 0 {
        assert(s[0] == t[0] && s[1] == t[1] && s[2] == t[2] && s[3] == t[3]);
        let x = |v: Seq<u8>, i: int| if i < v.len() { v[i] as int } else { 0int };
        let (a0, a1, a2) = (x(a, 0), x(a, 1), x(a, 2));
        let (b0, b1, b2) = (x(b, 0), x(b, 1), x(b, 2));
        lemma_b64_symbols(a0 / 4, b0 / 4);
        lemma_b64_symbols(a0 % 4 * 16 + a1 / 16, b0 % 4 * 16 + b1 / 16);
        lemma_b64_symbols(a1 % 16 * 4 + a2 / 64, b1 % 16 * 4 + b2 / 64);
        lemma_b64_symbols(a2 % 64, b2 % 64);
        lemma_b64_symbols(b1 % 16 * 4 + b2 / 64, 0);
        lemma_b64_symbols(b2 % 64, 0);
        assert(a0 == b0 && a1 == b1);
        if a.len() >= 3 {
            assert(s.skip(4) =~= b64_text(a.skip(3)));
            assert(t.skip(4) =~= b64_text(b.skip(3)));
            lemma_b64_text(a.skip(3), b.skip(3));
            assert forall|i: int| 0 <= i < a.len() implies a[i] == b[i] by {
                if i >= 3 {
                    assert(a.skip(3)[i - 3] == b.skip(3)[i - 3]);
                }
            }
            assert(a.len() == a.skip(3).len() + 3);
            assert(b.len() == b.skip(3).len() + 3);
        }
        assert(a =~= b);
    } else {
        assert(a =~= b);
    }
}

/// The base64 text of a byte string stands for it.
pub proof fn law_base64_is_read_back(bytes: Seq<u8>)
    ensures
        b64_bytes(b64_text(bytes)) == Some(bytes),
{
    let s = b64_text(bytes);
    let found = choose|b: Seq<u8>| #[trigger] b64_text(b) == s;
    lemma_b64_text(found, bytes);
}

/// Calls `base64`'s `STANDARD.encode`, which gives the standard text of the bytes.
#[verifier::external_body]
pub(crate) fn encode64(bytes: &[u8]) -> (s: String)
    ensures
        s@ == b64_text(bytes@),
{
    base64::Engine::encode(&base64::engine::general_purpose::STANDARD, bytes)
}

/// What decoding gave, by its contents.
pub open spec fn decoded(r: Option<Vec<u8>>) -> Option<Seq<u8>> {
    match r {
        Some(v) => Some(v@),
        None => None,
    }
}

/// Calls `base64`'s `STANDARD.decode`, which takes the standard texts of bytes and
/// nothing else: it asks for the full filling and refuses bits that are left over.
#[verifier::external_body]
pub(crate) fn decode64(s: &str) -> (r: Option<Vec<u8>>)
    ensures
        decoded(r) == b64_bytes(s@),
{
    base64::Engine::decode(&base64::engine::general_purpose::STANDARD, s).ok()
}

// ---------------------------------------------------------------- key agreement

/// The product of a point on Curve25519 with a clamped scalar.
pub uninterp spec fn x25519_of(scalar: Seq<u8>, point: Seq<u8>) -> Seq<u8>;

/// `x25519_dalek::x25519`, a function of its arguments.
pub assume_specification[ x25519_dalek::x25519 ](k: [u8; 32], u: [u8; 32]) -> (r: [u8; 32])
    ensures
        r@ == x25519_of(k@, u@),
;

/// The base point of Curve25519: nine, in little-endian order.
pub open spec fn base_point() -> Seq<u8> {
    Seq::new(
        32,
        |i: int|
            if i == 0 {
                9u8
            } else {
                0u8
            },
    )
}

/// Reads `x25519_dalek::X25519_BASEPOINT_BYTES`.
#[verifier::external_body]
pub(crate) fn base_point_bytes() -> (r: [u8; 32])
    ensures
        r@ == base_point(),
{
    x25519_dalek::X25519_BASEPOINT_BYTES
}

// ---------------------------------------------------------------- secrets

/// Bytes that are wiped from memory when they are dropped.
#[verifier::external_body]
pub struct Secret {
    bytes: zeroize::Zeroizing<Vec<u8>>,
}

/// The bytes that a secret holds.
pub uninterp spec fn secret_bytes(s: Secret) -> Seq<u8>;

impl View for Secret {
    type V = Seq<u8>;

    open spec fn view(&self) -> Seq<u8> {
        secret_bytes(*self)
    }
}

/// Calls `zeroize::Zeroizing::new`, which keeps the bytes.
#[verifier::external_body]
pub(crate) fn keep_secret(bytes: Vec<u8>) -> (s: Secret)
    ensures
        secret_bytes(s) == bytes@,
{
    Secret { bytes: zeroize::Zeroizing::new(bytes) }
}

/// Reads through `zeroize::Zeroizing`'s `deref`, which gives the bytes.
#[verifier::external_body]
fn show_secret(s: &Secret) -> (b: &[u8])
    ensures
        b@ == secret_bytes(*s),
{
    s.bytes.as_slice()
}

impl Secret {
    /// The bytes.
    pub fn as_slice(&self) -> (b: &[u8])
        ensures
            b@ == self@,
    {
        show_secret(self)
    }
}

} // verus!
