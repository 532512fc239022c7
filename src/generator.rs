//! The two generation strategies: the rejection sampler, which serves any
//! alphabet of up to 256 symbols, and the fast path for power-of-two alphabets.
use vstd::prelude::*;

use crate::model::{
    accepted, direct_symbols, drawn, is_power_of_two, joined, lemma_accepted_append,
    lemma_accepted_in_alphabet, lemma_accepted_push, lemma_next_power_of_two_bounds, mask_for,
    next_power_of_two, valid_alphabet, widen,
};

verus! {

/// How many batches the rejection sampler draws before it gives up on a
/// source that keeps landing outside the alphabet. A source that is random in
/// any useful sense never comes near it.
pub const MAX_ROUNDS: u64 = u64::MAX;

/// Bytes requested per round: `8 * size / 5`, capped at `usize::MAX`. A
/// tuning constant: it trades the number of requests against wasted bytes,
/// and one round is usually enough.
pub open spec fn batch_len(size: usize) -> usize {
    if 8 * size / 5 > usize::MAX {
        usize::MAX
    } else {
        (8 * size / 5) as usize
    }
}

/// `id` is the first `size` symbols that the rejection filter keeps from `values`.
pub open spec fn filled(alphabet: Seq<char>, values: Seq<u32>, size: nat, id: Seq<char>) -> bool {
    let all = accepted(alphabet, mask_for(alphabet.len()) as u32, values);
    all.len() >= size && id == all.take(size as int)
}

/// Relies on `String`'s `FromIterator<char>`: the string holds the characters in order.
#[verifier::external_body]
pub(crate) fn collect_symbols(symbols: Vec<char>) -> (s: String)
    ensures
        s@ == symbols@,
{
    symbols.into_iter().collect()
}

/// The mask for an alphabet of `len` symbols: one less than the smallest power
/// of two that is at least `len`.
pub fn mask_of(len: usize) -> (mask: u32)
    requires
        len <= 256,
    ensures
        mask == mask_for(len as nat),
{
    let mut rest: usize = len;
    let mut power: usize = 1;
    proof {
        lemma_next_power_of_two_bounds(len as nat);
    }
    while rest > 1
        invariant
            rest <= len <= 256,
            1 <= power,
            power * next_power_of_two(rest as nat) == next_power_of_two(len as nat),
            next_power_of_two(len as nat) <= 512,
        decreases rest,
    {
        let half: usize = (rest + 1) / 2;
        proof {
            let np = next_power_of_two(half as nat);
            lemma_next_power_of_two_bounds(half as nat);
            assert(next_power_of_two(rest as nat) == 2 * np);
            assert(power * (2 * np) == (power * 2) * np) by (nonlinear_arith);
            assert(power * 2 <= (power * 2) * np) by (nonlinear_arith)
                requires
                    np >= 1,
                    power >= 1,
            ;
        }
        power = power * 2;
        rest = half;
    }
    assert(next_power_of_two(rest as nat) == 1);
    assert(power == next_power_of_two(len as nat)) by (nonlinear_arith)
        requires
            power * next_power_of_two(rest as nat) == next_power_of_two(len as nat),
            next_power_of_two(rest as nat) == 1,
    ;
    (power - 1) as u32
}

/// Bytes requested per round for an identifier of `size` symbols.
pub fn batch_len_of(size: usize) -> (n: usize)
    ensures
        n == batch_len(size),
{
    let wide: u128 = size as u128 * 8 / 5;
    if wide > usize::MAX as u128 {
        usize::MAX
    } else {
        wide as usize
    }
}

/// Runs one batch of bytes through the rejection filter: each byte is masked,
/// and kept as an index into the alphabet when it lands inside it. Stops as
/// soon as `symbols` holds `size` symbols, even in the middle of the batch;
/// returns whether it got there.
pub fn accept_bytes(
    alphabet: &[char],
    mask: u32,
    bytes: &[u8],
    symbols: &mut Vec<char>,
    size: usize,
) -> (full: bool)
    requires
        old(symbols)@.len() < size,
    ensures
        full <==> old(symbols)@.len() + accepted(alphabet@, mask, widen(bytes@)).len() >= size,
        full ==> final(symbols)@ == (old(symbols)@ + accepted(alphabet@, mask, widen(bytes@))).take(
            size as int,
        ),
        !full ==> final(symbols)@ == old(symbols)@ + accepted(alphabet@, mask, widen(bytes@)),
{
    let ghost start = symbols@;
    let mut j: usize = 0;
    while j < bytes.len()
        invariant
            j <= bytes@.len(),
            start == old(symbols)@,
            symbols@ == start + accepted(alphabet@, mask, widen(bytes@.take(j as int))),
            symbols@.len() < size,
        decreases bytes@.len() - j,
    {
        let value: u32 = bytes[j] as u32;
        let index: u32 = value & mask;
        proof {
            assert(widen(bytes@.take(j + 1)) =~= widen(bytes@.take(j as int)).push(value));
            lemma_accepted_push(alphabet@, mask, widen(bytes@.take(j as int)), value);
        }
        if (index as usize) < alphabet.len() {
            symbols.push(alphabet[index as usize]);
            if symbols.len() == size {
                proof {
                    let head = widen(bytes@.take(j + 1));
                    let tail = widen(bytes@.skip(j + 1));
                    assert(widen(bytes@) =~= head + tail);
                    lemma_accepted_append(alphabet@, mask, head, tail);
                    let all = start + accepted(alphabet@, mask, widen(bytes@));
                    assert(all =~= symbols@ + accepted(alphabet@, mask, tail));
                    assert(all.take(size as int) =~= symbols@);
                }
                return true;
            }
        }
        j += 1;
    }
    assert(bytes@.take(j as int) =~= bytes@);
    false
}

/// The rejection sampler. Draws batches of `batch_len(size)` bytes from
/// `random` and runs them through the rejection filter until it holds `size`
/// symbols, so that every symbol is equally likely for a uniform source.
/// For `size == 0` it draws nothing. It returns `None` only after
/// `MAX_ROUNDS` batches that together yielded fewer than `size` symbols.
pub fn universal<F: Fn(usize) -> Vec<u8>>(random: F, alphabet: &[char], size: usize) -> (r: Option<
    String,
>)
    requires
        valid_alphabet(alphabet@),
        size > 0 ==> forall|n: usize| call_requires(random, (n,)),
    ensures
        size == 0 ==> (r matches Some(id) && id@ == Seq::<char>::empty()),
        r matches Some(id) ==> exists|batches: Seq<Vec<u8>>|
            #[trigger] drawn(random, batch_len(size), batches) && filled(
                alphabet@,
                widen(joined(batches)),
                size as nat,
                id@,
            ),
        r matches Some(id) ==> id@.len() == size,
        r matches Some(id) ==> forall|i: int|
            0 <= i < id@.len() ==> alphabet@.contains(#[trigger] id@[i]),
        r is None ==> size > 0 && exists|batches: Seq<Vec<u8>>|
            #[trigger] drawn(random, batch_len(size), batches) && batches.len() == MAX_ROUNDS
                && accepted(alphabet@, mask_for(alphabet@.len()) as u32, widen(joined(batches))).len()
                < size,
{
    if size == 0 {
        proof {
            let none = Seq::<Vec<u8>>::empty();
            assert(joined(none) == Seq::<u8>::empty());
            assert(widen(joined(none)) =~= Seq::<u32>::empty());
            assert(drawn(random, batch_len(size), none));
            let all = accepted(alphabet@, mask_for(alphabet@.len()) as u32, widen(joined(none)));
            assert(all.len() == 0);
            assert(all.take(0) =~= Seq::<char>::empty());
            assert(filled(alphabet@, widen(joined(none)), 0, Seq::<char>::empty()));
        }
        return Some(String::new());
    }
    let mask = mask_of(alphabet.len());
    let step = batch_len_of(size);
    let mut symbols: Vec<char> = Vec::new();
    let mut rounds: u64 = 0;
    let ghost mut batches: Seq<Vec<u8>> = Seq::empty();
    while rounds < MAX_ROUNDS
        invariant
            valid_alphabet(alphabet@),
            forall|n: usize| call_requires(random, (n,)),
            mask == mask_for(alphabet@.len()),
            step == batch_len(size),
            drawn(random, step, batches),
            batches.len() == rounds,
            symbols@ == accepted(alphabet@, mask, widen(joined(batches))),
            symbols@.len() < size,
        decreases MAX_ROUNDS - rounds,
    {
        let bytes = random(step);
        proof {
            let before = batches;
            batches = batches.push(bytes);
            assert(batches.drop_last() =~= before);
            assert(joined(batches) == joined(before) + bytes@);
            assert(widen(joined(batches)) =~= widen(joined(before)) + widen(bytes@));
            lemma_accepted_append(alphabet@, mask, widen(joined(before)), widen(bytes@));
            assert forall|i: int| 0 <= i < batches.len() implies call_ensures(
                random,
                (step,),
                #[trigger] batches[i],
            ) by {
                if i < before.len() {
                    assert(batches[i] == before[i]);
                }
            }
        }
        rounds = rounds + 1;
        let full = accept_bytes(alphabet, mask, bytes.as_slice(), &mut symbols, size);
        if full {
            let id = collect_symbols(symbols);
            proof {
                let all = accepted(alphabet@, mask, widen(joined(batches)));
                lemma_accepted_in_alphabet(alphabet@, mask, widen(joined(batches)));
                assert forall|i: int| 0 <= i < id@.len() implies alphabet@.contains(
                    #[trigger] id@[i],
                ) by {
                    assert(id@[i] == all[i]);
                }
                assert(filled(alphabet@, widen(joined(batches)), size as nat, id@));
                assert(drawn(random, batch_len(size), batches));
            }
            return Some(id);
        }
    }
    None
}

/// Maps every byte to the symbol at its remainder modulo the alphabet's
/// length, in order and with no byte skipped. For an alphabet whose length is
/// a power of two, this is free of bias.
pub fn map_bytes(alphabet: &[char], bytes: &[u8]) -> (r: String)
    requires
        alphabet@.len() >= 1,
    ensures
        r@ == direct_symbols(alphabet@, bytes@),
        r@.len() == bytes@.len(),
        forall|i: int| 0 <= i < r@.len() ==> alphabet@.contains(#[trigger] r@[i]),
{
    let mut symbols: Vec<char> = Vec::new();
    let mut j: usize = 0;
    while j < bytes.len()
        invariant
            alphabet@.len() >= 1,
            j <= bytes@.len(),
            symbols@ == direct_symbols(alphabet@, bytes@.take(j as int)),
        decreases bytes@.len() - j,
    {
        let index: usize = bytes[j] as usize % alphabet.len();
        symbols.push(alphabet[index]);
        j += 1;
        assert(symbols@ =~= direct_symbols(alphabet@, bytes@.take(j as int)));
    }
    assert(bytes@.take(j as int) =~= bytes@);
    let r = collect_symbols(symbols);
    assert forall|i: int| 0 <= i < r@.len() implies alphabet@.contains(#[trigger] r@[i]) by {
        let index = (bytes@[i] as int) % (alphabet@.len() as int);
        assert(r@[i] == alphabet@[index]);
    }
    r
}

/// The fast path, for alphabets whose length is a power of two: one request
/// for exactly `size` bytes, each mapped to a symbol by `map_bytes`. For
/// `size == 0` it draws nothing.
pub fn fast<F: Fn(usize) -> Vec<u8>>(random: F, alphabet: &[char], size: usize) -> (r: String)
    requires
        is_power_of_two(alphabet@.len()),
        alphabet@.len() <= 256,
        size > 0 ==> forall|n: usize| call_requires(random, (n,)),
    ensures
        size == 0 ==> r@ == Seq::<char>::empty(),
        size > 0 ==> exists|bytes: Vec<u8>|
            #[trigger] call_ensures(random, (size,), bytes) && r@ == direct_symbols(
                alphabet@,
                bytes@,
            ),
        forall|i: int| 0 <= i < r@.len() ==> alphabet@.contains(#[trigger] r@[i]),
{
    if size == 0 {
        return String::new();
    }
    let bytes = random(size);
    map_bytes(alphabet, bytes.as_slice())
}

} // verus!
