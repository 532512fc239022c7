//! Short, URL-friendly random identifiers drawn from a caller's alphabet and a
//! caller's source of random bytes, without modulo bias.
use vstd::prelude::*;

pub mod alphabet;
pub mod format;
pub mod generator;
pub mod model;

use crate::generator::{batch_len, fast, filled, mask_of, universal, MAX_ROUNDS};
use crate::model::{
    accepted, direct_symbols, drawn, is_power_of_two, joined, lemma_next_power_of_two_bounds,
    mask_for, valid_alphabet, widen,
};
use vstd::string::StrSliceExecFns;

verus! {

/// Why no identifier was made.
#[derive(Debug, Clone, Copy, PartialEq, Eq, Structural)]
pub enum FormatError {
    /// The alphabet is empty or holds more than 256 symbols, so that one byte
    /// cannot address it.
    InvalidAlphabet,
    /// The random source did not deliver: the fast path got a batch of the
    /// wrong length, or the rejection sampler ran out of rounds.
    RandomSourceFailure,
}

/// The two ways of turning random bytes into symbols.
#[derive(Debug, Clone, Copy, PartialEq, Eq, Structural)]
pub enum Strategy {
    /// Remainder of each byte; unbiased when the length is a power of two.
    Fast,
    /// Masking and rejection; unbiased for every length.
    Universal,
}

/// The strategy for an alphabet of `len` symbols.
pub open spec fn strategy_of(len: nat) -> Strategy {
    if is_power_of_two(len) {
        Strategy::Fast
    } else {
        Strategy::Universal
    }
}

/// Dispatch depends on the alphabet's length alone, so repeated calls with one
/// alphabet, or with two alphabets of one length, take the same strategy.
pub proof fn lemma_strategy_is_stable(first: Seq<char>, second: Seq<char>)
    requires
        first.len() == second.len(),
    ensures
        strategy_of(first.len()) == strategy_of(second.len()),
{
}

/// `random` answers as asked. On the fast path every answer to a request for
/// `size` bytes holds `size` bytes; on the rejection path any `MAX_ROUNDS`
/// answers to requests for `batch_len(size)` bytes keep at least `size` symbols
/// between them.
pub open spec fn productive<F: Fn(usize) -> Vec<u8>>(
    random: F,
    alphabet: Seq<char>,
    size: usize,
) -> bool {
    if strategy_of(alphabet.len()) == Strategy::Fast {
        forall|bytes: Vec<u8>|
            #[trigger] call_ensures(random, (size,), bytes) ==> bytes@.len() == size
    } else {
        forall|batches: Seq<Vec<u8>>|
            #[trigger] drawn(random, batch_len(size), batches) && batches.len() == MAX_ROUNDS
                ==> accepted(alphabet, mask_for(alphabet.len()) as u32, widen(joined(batches))).len()
                >= size
    }
}

/// Picks the strategy for an alphabet of `len` symbols: the fast path exactly
/// when `len` is a power of two.
pub fn select_strategy(len: usize) -> (s: Strategy)
    requires
        len <= 256,
    ensures
        s == strategy_of(len as nat),
{
    let mask = mask_of(len);
    proof {
        lemma_next_power_of_two_bounds(len as nat);
    }
    if mask as usize + 1 == len {
        Strategy::Fast
    } else {
        Strategy::Universal
    }
}

/// Makes an identifier of `size` symbols from `alphabet` and the bytes that
/// `random` hands out. Rejects an alphabet that is empty or longer than 256
/// symbols before it asks for any byte; otherwise takes the fast path when the
/// alphabet's length is a power of two and the rejection sampler when not.
pub fn format<F: Fn(usize) -> Vec<u8>>(random: F, alphabet: &[char], size: usize) -> (r: Result<
    String,
    FormatError,
>)
    requires
        valid_alphabet(alphabet@) && size > 0 ==> forall|n: usize| call_requires(random, (n,)),
    ensures
        r == Err::<String, FormatError>(FormatError::InvalidAlphabet) <==> !valid_alphabet(
            alphabet@,
        ),
        valid_alphabet(alphabet@) && size == 0 ==> (r matches Ok(id) && id@ == Seq::<
            char,
        >::empty()),
        r matches Ok(id) ==> id@.len() == size,
        valid_alphabet(alphabet@) && productive(random, alphabet@, size) ==> (r matches Ok(id)
            && id@.len() == size),
        r matches Ok(id) ==> forall|i: int|
            0 <= i < id@.len() ==> alphabet@.contains(#[trigger] id@[i]),
        r matches Ok(id) ==> (strategy_of(alphabet@.len()) == Strategy::Fast && size > 0
            ==> exists|bytes: Vec<u8>|
            #[trigger] call_ensures(random, (size,), bytes) && id@ == direct_symbols(
                alphabet@,
                bytes@,
            )),
        r matches Ok(id) ==> (strategy_of(alphabet@.len()) == Strategy::Universal
            ==> exists|batches: Seq<Vec<u8>>|
            #[trigger] drawn(random, batch_len(size), batches) && filled(
                alphabet@,
                widen(joined(batches)),
                size as nat,
                id@,
            )),
        r == Err::<String, FormatError>(FormatError::RandomSourceFailure) ==> valid_alphabet(
            alphabet@,
        ) && size > 0,
        r == Err::<String, FormatError>(FormatError::RandomSourceFailure) && strategy_of(
            alphabet@.len(),
        ) == Strategy::Fast ==> exists|bytes: Vec<u8>|
            #[trigger] call_ensures(random, (size,), bytes) && bytes@.len() != size,
        r == Err::<String, FormatError>(FormatError::RandomSourceFailure) && strategy_of(
            alphabet@.len(),
        ) == Strategy::Universal ==> exists|batches: Seq<Vec<u8>>|
            #[trigger] drawn(random, batch_len(size), batches) && batches.len() == MAX_ROUNDS
                && accepted(alphabet@, mask_for(alphabet@.len()) as u32, widen(joined(batches))).len()
                < size,
{
    if alphabet.len() == 0 || alphabet.len() > 256 {
        return Err(FormatError::InvalidAlphabet);
    }
    match select_strategy(alphabet.len()) {
        Strategy::Fast => {
            let id = fast(random, alphabet, size);
            if id.as_str().unicode_len() == size {
                Ok(id)
            } else {
                Err(FormatError::RandomSourceFailure)
            }
        },
        Strategy::Universal => {
            match universal(random, alphabet, size) {
                Some(id) => Ok(id),
                None => Err(FormatError::RandomSourceFailure),
            }
        },
    }
}

} // verus!
