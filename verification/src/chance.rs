//! Random numbers and random identifiers.
//!
//! The generators live in the `rand` and `uuid` crates. What a draw returns is
//! left open; everything that the rules do with a draw is a function of the
//! value drawn.

use rand::rngs::StdRng;
use vstd::prelude::*;

verus! {

/// The generator `rand::rngs::StdRng`, as an opaque value.
#[verifier::external_type_specification]
#[verifier::external_body]
pub struct ExStdRng(rand::rngs::StdRng);

/// `rand::Rng::random` at type `u64`: the next 64 random bits. Nothing is
/// claimed of the value, which is a matter of chance.
#[verifier::external_body]
fn next_bits(rng: &mut StdRng) -> (r: u64) {
    rand::Rng::random::<u64>(rng)
}

/// `rand::SeedableRng::from_os_rng` for `StdRng`: a generator seeded by the
/// operating system. Nothing is claimed of it. Without a source of entropy the
/// call panics.
#[verifier::external_body]
pub(crate) fn seeded_by_os() -> (r: StdRng) {
    <StdRng as rand::SeedableRng>::from_os_rng()
}

/// Draws `n` rolls; for none, the generator is left alone.
pub fn draw_rolls(rng: &mut StdRng, n: usize) -> (r: Vec<u64>)
    ensures
        r@.len() == n,
        n == 0 ==> *final(rng) == *old(rng),
{
    let mut r: Vec<u64> = Vec::new();
    for i in 0..n
        invariant
            r@.len() == i,
            i == 0 ==> *rng == *old(rng),
    {
        r.push(next_bits(rng));
    }
    r
}

// ---------------------------------------------------------------------------
// Random identifiers
// ---------------------------------------------------------------------------

/// The hexadecimal digit `d` as a character, letters in lower case.
pub open spec fn hex_digit(d: int) -> char {
    if d < 10 {
        (('0' as int) + d) as char
    } else {
        (('a' as int) + (d - 10)) as char
    }
}

/// The last `len` hexadecimal digits of `n`.
pub open spec fn hex(n: nat, len: nat) -> Seq<char>
    decreases len,
{
    if len == 0 {
        Seq::empty()
    } else {
        hex(n / 16, (len - 1) as nat).push(hex_digit((n % 16) as int))
    }
}

/// A 128-bit identifier, digit by digit.
pub open spec fn plain_text(n: u128) -> Seq<char> {
    hex(n as nat, 32)
}

/// A 128-bit identifier in five groups with hyphens between them.
pub open spec fn grouped_text(n: u128) -> Seq<char> {
    let t = plain_text(n);
    t.subrange(0, 8).push('-') + t.subrange(8, 12).push('-') + t.subrange(12, 16).push('-')
        + t.subrange(16, 20).push('-') + t.subrange(20, 32)
}

/// A random identifier of version 4: the version bits say four, the variant
/// bits two; all others are free.
pub open spec fn is_random_id(n: u128) -> bool {
    (n / 0x1000_0000_0000_0000_0000) % 16 == 4 && (n / 0x4000_0000_0000_0000) % 4 == 2
}

/// `uuid::Uuid::new_v4`: a random identifier of version 4, as a number. The
/// four version bits and the two variant bits are fixed; of the other bits
/// nothing is claimed. Without a source of entropy the call panics.
#[verifier::external_body]
fn random_id() -> (r: u128)
    ensures
        is_random_id(r),
{
    uuid::Uuid::new_v4().as_u128()
}

/// `uuid::fmt::Simple`: the 32 lower-case hexadecimal digits of an identifier.
#[verifier::external_body]
fn id_digits(n: u128) -> (r: String)
    ensures
        r@ == plain_text(n),
{
    uuid::Uuid::from_u128(n).simple().to_string()
}

/// `Display` of `uuid::Uuid`: the digits of an identifier in groups of 8, 4, 4,
/// 4 and 12, joined by hyphens.
#[verifier::external_body]
fn id_groups(n: u128) -> (r: String)
    ensures
        r@ == grouped_text(n),
{
    uuid::Uuid::from_u128(n).to_string()
}

proof fn lemma_hex_len(n: nat, len: nat)
    ensures
        hex(n, len).len() == len,
    decreases len,
{
    if len > 0 {
        lemma_hex_len(n / 16, (len - 1) as nat);
    }
}

/// The match id that a random number stands for: its first twelve digits.
pub fn match_id_of(n: u128) -> (r: String)
    ensures
        r@ == plain_text(n).take(12),
        r@.len() == 12,
{
    let digits = id_digits(n);
    proof {
        lemma_hex_len(n as nat, 32);
    }
    digits.as_str().substring_char(0, 12).to_owned()
}

/// The player token that a random number stands for.
pub fn token_of(n: u128) -> (r: String)
    ensures
        r@ == grouped_text(n),
        r@.len() == 36,
{
    proof {
        lemma_hex_len(n as nat, 32);
    }
    id_groups(n)
}

/// A match id: twelve hexadecimal digits.
pub open spec fn is_match_id(id: Seq<char>) -> bool {
    &&& id.len() == 12
    &&& exists|n: u128| is_random_id(n) && id == #[trigger] plain_text(n).take(12)
}

/// A player token: a whole random identifier.
pub open spec fn is_token(token: Seq<char>) -> bool {
    &&& token.len() == 36
    &&& exists|n: u128| is_random_id(n) && token == #[trigger] grouped_text(n)
}

/// Draws a match id.
pub fn draw_match_id() -> (r: String)
    ensures
        is_match_id(r@),
{
    let n = random_id();
    match_id_of(n)
}

/// Draws a player token.
pub fn draw_token() -> (r: String)
    ensures
        is_token(r@),
{
    let n = random_id();
    token_of(n)
}

} // verus!
