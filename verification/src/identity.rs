use rand::Rng;
use vstd::prelude::*;

verus! {

/// Calls `rand::random_range(1..=255)`: a random byte that is not zero.
#[verifier::external_body]
fn random_nonzero_byte() -> (b: u8)
    ensures
        b >= 1,
{
    rand::random_range(1..=255u8)
}

/// A fresh game id: three random bytes, none of them zero.
pub fn random_game_id() -> (id: Vec<u8>)
    ensures
        id@.len() == 3,
        forall|i: int| 0 <= i < 3 ==> id@[i] >= 1,
{
    let mut id: Vec<u8> = Vec::new();
    let mut i: usize = 0;
    while i < 3
        invariant
            i <= 3,
            id@.len() == i,
            forall|j: int| 0 <= j < i ==> id@[j] >= 1,
        decreases 3 - i,
    {
        id.push(random_nonzero_byte());
        i = i + 1;
    }
    id
}

/// The characters that `rand::distr::Alphanumeric` draws from.
pub open spec fn is_alphanumeric(c: char) -> bool {
    ('a' <= c && c <= 'z') || ('A' <= c && c <= 'Z') || ('0' <= c && c <= '9')
}

/// Calls `rand::rng().sample_iter(rand::distr::Alphanumeric)` for `n` characters,
/// which the crate documents as drawn from ASCII letters and digits.
#[verifier::external_body]
fn random_alphanumeric(n: usize) -> (s: String)
    ensures
        s@.len() == n,
        forall|i: int| 0 <= i < n ==> is_alphanumeric(#[trigger] s@[i]),
{
    rand::rng().sample_iter(rand::distr::Alphanumeric).take(n).map(char::from).collect()
}

/// The length of a fresh token.
pub const TOKEN_LEN: usize = 12;

/// The length of a fresh name.
pub const NAME_LEN: usize = 5;

/// A fresh identity for a first start: a random token of twelve letters and
/// digits, and a random name of five.
pub fn new_identity() -> (r: (String, String))
    ensures
        r.0@.len() == TOKEN_LEN,
        r.1@.len() == NAME_LEN,
        forall|i: int| 0 <= i < TOKEN_LEN ==> is_alphanumeric(#[trigger] r.0@[i]),
        forall|i: int| 0 <= i < NAME_LEN ==> is_alphanumeric(#[trigger] r.1@[i]),
{
    let token = random_alphanumeric(TOKEN_LEN);
    let name = random_alphanumeric(NAME_LEN);
    (token, name)
}

} // verus!
