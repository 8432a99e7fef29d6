//! The deterministic pseudo-random outcome of a settlement cycle.
//!
//! The seed is the byte sum of the hex digest of the cycle's block height,
//! block time and transaction index; each wager adds the byte sum of its
//! account identifier and the parity of the total picks the side.  The
//! derivation is weak and eventually public by design: settlement is only
//! allowed a cycle after submission, so the seed cannot be known when the
//! wager is placed.

use crate::types::{PickTypes, TodoFlip};
use vstd::arithmetic::div_mod::{lemma_add_mod_noop, lemma_mod_division_less_than_divisor};
use vstd::prelude::*;
use vstd::string::StringSliceAdditionalSpecFns;
use vstd::utf8::encode_utf8;

verus! {

/// The hex digest that seeds one settlement cycle; determined by the three
/// values alone.
pub uninterp spec fn seed_hex_of(height: u64, nanos: u64, tx_index: u32) -> Seq<char>;

/// Relies on `sha256::digest`: the hex form of the SHA-256 digest of the
/// argument, a pure function of the argument's bytes alone.
#[verifier::external_body]
fn seed_hex(height: u64, nanos: u64, tx_index: u32) -> (r: String)
    ensures
        r@ == seed_hex_of(height, nanos, tx_index),
{
    sha256::digest(format!("{}{}{}", height, nanos, tx_index))
}

/// The sum of a sequence of byte values.
pub open spec fn byte_sum(s: Seq<u8>) -> int
    decreases s.len(),
{
    if s.len() == 0 {
        0
    } else {
        byte_sum(s.drop_last()) + s.last()
    }
}

/// The seed of a settlement cycle: the byte sum of the cycle's hex digest.
pub open spec fn spec_seed(height: u64, nanos: u64, tx_index: u32) -> int {
    byte_sum(encode_utf8(seed_hex_of(height, nanos, tx_index)))
}

/// The entropy one account contributes: the byte sum of its identifier.
pub open spec fn spec_entropy(wallet: Seq<char>) -> int {
    byte_sum(encode_utf8(wallet))
}

/// The coin side a wager resolves to: an even total means the side the
/// `Heads` pick wins on.
pub open spec fn spec_outcome(rand: int, wallet: Seq<char>) -> bool {
    (rand + spec_entropy(wallet)) % 2 == 0
}

/// Whether a pick wins against an outcome.
pub open spec fn spec_wins(pick: PickTypes, outcome: bool) -> bool {
    (pick == PickTypes::Heads && outcome) || (pick == PickTypes::Tails && !outcome)
}

/// The byte sum of a string's UTF-8 encoding.
fn byte_sum_of(s: &str) -> (r: u128)
    ensures
        r == byte_sum(s.spec_bytes()),
{
    let bytes = s.as_bytes();
    let n = bytes.len();
    let mut sum: u128 = 0;
    let mut i: usize = 0;
    while i < n
        invariant
            i <= n,
            n == bytes@.len(),
            bytes@ == s.spec_bytes(),
            sum == byte_sum(bytes@.take(i as int)),
            sum <= 255 * i,
        decreases n - i,
    {
        proof {
            assert(bytes@.take(i + 1).drop_last() =~= bytes@.take(i as int));
            assert(bytes@.take(i + 1).last() == bytes@[i as int]);
        }
        sum = sum + (bytes[i] as u128);
        i = i + 1;
    }
    proof {
        assert(bytes@.take(n as int) =~= bytes@);
    }
    sum
}

/// The seed for a settlement cycle at the given block height, block time
/// and transaction index.
pub fn get_random(height: u64, nanos: u64, tx_index: u32) -> (r: u128)
    ensures
        r == spec_seed(height, nanos, tx_index),
{
    let digest = seed_hex(height, nanos, tx_index);
    byte_sum_of(digest.as_str())
}

/// Resolve one pending wager against the cycle seed: whether the account's
/// pick won.
pub fn do_a_flip(todo_flip: &TodoFlip, rand: u128) -> (won: bool)
    ensures
        won == spec_wins(todo_flip.pick, spec_outcome(rand as int, todo_flip.wallet@)),
{
    let er = byte_sum_of(todo_flip.wallet.as_str());
    proof {
        lemma_add_mod_noop(rand as int, er as int, 2);
        lemma_mod_division_less_than_divisor(rand as int, 2);
        lemma_mod_division_less_than_divisor(er as int, 2);
    }
    let flip_result = (rand % 2 + er % 2) % 2 == 0;
    let won_heads = matches!(todo_flip.pick, PickTypes::Heads) && flip_result;
    let won_tails = matches!(todo_flip.pick, PickTypes::Tails) && !flip_result;
    won_heads || won_tails
}

} // verus!
