//! Identifiers of sessions, requests and input contexts, held as 128-bit numbers.
use crate::text;
use vstd::arithmetic::div_mod::*;
use vstd::arithmetic::power::*;
use vstd::prelude::*;

verus! {

/// The hexadecimal digit of an identifier at a place, the first being the highest.
pub open spec fn id_nibble(id: u128, place: int) -> char {
    text::hex_digit((((id as int) / pow(16, (31 - place) as nat)) % 16) as nat)
}

/// The text of an identifier: its digits in groups of 8, 4, 4, 4 and 12.
pub open spec fn id_text(id: u128) -> Seq<char> {
    Seq::new(
        36,
        |i: int|
            if i == 8 || i == 13 || i == 18 || i == 23 {
                '-'
            } else if i < 8 {
                id_nibble(id, i)
            } else if i < 13 {
                id_nibble(id, i - 1)
            } else if i < 18 {
                id_nibble(id, i - 2)
            } else if i < 23 {
                id_nibble(id, i - 3)
            } else {
                id_nibble(id, i - 4)
            },
    )
}

/// The place of a digit in the text of an identifier.
spec fn column(place: int) -> int {
    if place < 8 {
        place
    } else if place < 12 {
        place + 1
    } else if place < 16 {
        place + 2
    } else if place < 20 {
        place + 3
    } else {
        place + 4
    }
}

/// Identifiers whose digits are the same above a place are the same above it.
proof fn lemma_same_above(a: u128, b: u128, k: nat)
    requires
        id_text(a) == id_text(b),
        k <= 32,
    ensures
        (a as int) / pow(16, k) == (b as int) / pow(16, k),
    decreases 32 - k,
{
    lemma_pow_positive(16, k);
    lemma_pow_positive(16, k + 1);
    if k == 32 {
        reveal_with_fuel(pow, 33);
        assert(pow(16, 32) == 0x1_0000_0000_0000_0000_0000_0000_0000_0000int);
        lemma_basic_div(a as int, pow(16, 32));
        lemma_basic_div(b as int, pow(16, 32));
    } else {
        lemma_same_above(a, b, k + 1);
        let place = 31 - k as int;
        assert(id_text(a)[column(place)] == id_nibble(a, place));
        assert(id_text(b)[column(place)] == id_nibble(b, place));
        let x = (a as int) / pow(16, k);
        let y = (b as int) / pow(16, k);
        assert(x % 16 == y % 16);
        assert(pow(16, k + 1) == 16 * pow(16, k)) by {
            reveal(pow);
        }
        assert(pow(16, k) * 16 == 16 * pow(16, k)) by (nonlinear_arith);
        lemma_div_denominator(a as int, pow(16, k), 16);
        lemma_div_denominator(b as int, pow(16, k), 16);
        assert(x / 16 == y / 16);
    }
}

/// Different identifiers have different texts.
pub proof fn lemma_id_text_tells(a: u128, b: u128)
    requires
        id_text(a) == id_text(b),
    ensures
        a == b,
{
    lemma_same_above(a, b, 0);
    reveal(pow);
}

/// What `uuid::Uuid::parse_str` makes of a string.
pub uninterp spec fn id_parsed(s: Seq<char>) -> Option<u128>;

/// Calls `uuid::Uuid::parse_str`, a function of the string.
#[verifier::external_body]
pub(crate) fn parse_id(s: &str) -> (r: Option<u128>)
    ensures
        r == id_parsed(s@),
{
    uuid::Uuid::parse_str(s).ok().map(|u| u.as_u128())
}

/// Calls `uuid::Uuid::to_string`: the hyphenated form in lower case, which
/// `uuid::Uuid::parse_str` reads back.
#[verifier::external_body]
pub(crate) fn show_id(id: u128) -> (s: String)
    ensures
        s@ == id_text(id),
        id_parsed(s@) == Some(id),
{
    uuid::Uuid::from_u128(id).to_string()
}

/// Calls `uuid::Uuid::new_v4`. The number is random but for the bits that mark its
/// version and its variant.
#[verifier::external_body]
pub(crate) fn fresh_id() -> (id: u128)
    ensures
        (id >> 76) & 0xf == 4,
        (id >> 62) & 3 == 2,
{
    uuid::Uuid::new_v4().as_u128()
}

/// A number with the version mark of a fresh identifier is not zero.
pub proof fn lemma_fresh_not_nil(id: u128)
    requires
        (id >> 76) & 0xf == 4,
    ensures
        id != 0,
{
    assert((0u128 >> 76) & 0xf == 0) by (bit_vector);
}

} // verus!
