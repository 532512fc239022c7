//! A rejection sampler fed by 32-bit random words instead of bytes.
use vstd::prelude::*;

use crate::generator::{collect_symbols, filled, mask_of, MAX_ROUNDS};
use crate::model::{
    accepted, drawn, joined, lemma_accepted_append, lemma_accepted_in_alphabet,
    lemma_accepted_push, lemma_next_power_of_two_bounds, mask_for,
};

verus! {

/// Words requested per round: `ceil(8 * mask * size / 5)`, but never fewer
/// than `size` (a one-symbol alphabet has mask 0), and capped at `usize::MAX`.
pub open spec fn word_batch_len(mask: nat, size: usize) -> usize {
    let wide = (8 * mask * size + 4) / 5;
    if wide > usize::MAX {
        usize::MAX
    } else if wide < size {
        size
    } else {
        wide as usize
    }
}

/// Words requested per round for an identifier of `size` symbols under `mask`.
pub fn word_batch_len_of(mask: u32, size: usize) -> (n: usize)
    requires
        mask <= 255,
    ensures
        n == word_batch_len(mask as nat, size),
{
    assert((mask as int) * (size as int) <= 255 * (usize::MAX as int)) by (nonlinear_arith)
        requires
            mask <= 255,
            size <= usize::MAX,
    ;
    let product: u128 = mask as u128 * size as u128;
    let wide: u128 = (product * 8 + 4) / 5;
    assert(wide == (8 * mask * size + 4) / 5) by (nonlinear_arith)
        requires
            product == mask * size,
            wide == (product * 8 + 4) / 5,
    ;
    if wide > usize::MAX as u128 {
        usize::MAX
    } else if wide < size as u128 {
        size
    } else {
        wide as usize
    }
}

/// Runs one batch of words through the rejection filter, stopping as soon as
/// `symbols` holds `size` symbols; returns whether it got there.
pub fn accept_words(
    alphabet: &[char],
    mask: u32,
    words: &[u32],
    symbols: &mut Vec<char>,
    size: usize,
) -> (full: bool)
    requires
        old(symbols)@.len() < size,
    ensures
        full <==> old(symbols)@.len() + accepted(alphabet@, mask, words@).len() >= size,
        full ==> final(symbols)@ == (old(symbols)@ + accepted(alphabet@, mask, words@)).take(
            size as int,
        ),
        !full ==> final(symbols)@ == old(symbols)@ + accepted(alphabet@, mask, words@),
{
    let ghost start = symbols@;
    let mut j: usize = 0;
    while j < words.len()
        invariant
            j <= words@.len(),
            start == old(symbols)@,
            symbols@ == start + accepted(alphabet@, mask, words@.take(j as int)),
            symbols@.len() < size,
        decreases words@.len() - j,
    {
        let word: u32 = words[j];
        let index: u32 = word & mask;
        proof {
            assert(words@.take(j + 1) =~= words@.take(j as int).push(word));
            lemma_accepted_push(alphabet@, mask, words@.take(j as int), word);
        }
        if (index as usize) < alphabet.len() {
            symbols.push(alphabet[index as usize]);
            if symbols.len() == size {
                proof {
                    let head = words@.take(j + 1);
                    let tail = words@.skip(j + 1);
                    assert(words@ =~= head + tail);
                    lemma_accepted_append(alphabet@, mask, head, tail);
                    let all = start + accepted(alphabet@, mask, words@);
                    assert(all =~= symbols@ + accepted(alphabet@, mask, tail));
                    assert(all.take(size as int) =~= symbols@);
                }
                return true;
            }
        }
        j += 1;
    }
    assert(words@.take(j as int) =~= words@);
    false
}

/// Makes an identifier of `size` symbols from `alphabet` and the 32-bit words
/// that `random` hands out: each word is masked, and kept as an index into the
/// alphabet when it lands inside it. For `size == 0` it draws nothing. It
/// returns `None` only after `MAX_ROUNDS` batches that together yielded
/// fewer than `size` symbols.
pub fn format<F: Fn(usize) -> Vec<u32>>(random: F, alphabet: &[char], size: usize) -> (r: Option<
    String,
>)
    requires
        1 <= alphabet@.len() <= 256,
        size > 0 ==> forall|n: usize| call_requires(random, (n,)),
    ensures
        size == 0 ==> (r matches Some(id) && id@ == Seq::<char>::empty()),
        r matches Some(id) ==> exists|batches: Seq<Vec<u32>>|
            #[trigger] drawn(
                random,
                word_batch_len(mask_for(alphabet@.len()), size),
                batches,
            ) && filled(alphabet@, joined(batches), size as nat, id@),
        r matches Some(id) ==> id@.len() == size,
        r matches Some(id) ==> forall|i: int|
            0 <= i < id@.len() ==> alphabet@.contains(#[trigger] id@[i]),
        r is None ==> size > 0 && exists|batches: Seq<Vec<u32>>|
            #[trigger] drawn(random, word_batch_len(mask_for(alphabet@.len()), size), batches)
                && batches.len() == MAX_ROUNDS && accepted(
                alphabet@,
                mask_for(alphabet@.len()) as u32,
                joined(batches),
            ).len() < size,
{
    if size == 0 {
        proof {
            let none = Seq::<Vec<u32>>::empty();
            assert(joined(none) =~= Seq::<u32>::empty());
            assert(drawn(random, word_batch_len(mask_for(alphabet@.len()), size), none));
            let all = accepted(alphabet@, mask_for(alphabet@.len()) as u32, joined(none));
            assert(all.len() == 0);
            assert(all.take(0) =~= Seq::<char>::empty());
        }
        return Some(String::new());
    }
    let mask = mask_of(alphabet.len());
    proof {
        lemma_next_power_of_two_bounds(alphabet@.len());
    }
    let step = word_batch_len_of(mask, size);
    let mut symbols: Vec<char> = Vec::new();
    let mut rounds: u64 = 0;
    let ghost mut batches: Seq<Vec<u32>> = Seq::empty();
    while rounds < MAX_ROUNDS
        invariant
            1 <= alphabet@.len() <= 256,
            forall|n: usize| call_requires(random, (n,)),
            mask == mask_for(alphabet@.len()),
            step == word_batch_len(mask_for(alphabet@.len()), size),
            drawn(random, step, batches),
            batches.len() == rounds,
            symbols@ == accepted(alphabet@, mask, joined(batches)),
            symbols@.len() < size,
        decreases MAX_ROUNDS - rounds,
    {
        let words = random(step);
        proof {
            let before = batches;
            batches = batches.push(words);
            assert(batches.drop_last() =~= before);
            assert(joined(batches) == joined(before) + words@);
            lemma_accepted_append(alphabet@, mask, joined(before), words@);
            assert forall|i: int| 0 <= i < batches.len() implies call_ensures(
                random,
                (step,),
                #[trigger] batches[i],
            ) by {
                if i < before.len() {
                    assert(batches[i] == before[i]);
                }
            }
        }
        rounds = rounds + 1;
        let full = accept_words(alphabet, mask, words.as_slice(), &mut symbols, size);
        if full {
            let id = collect_symbols(symbols);
            proof {
                let all = accepted(alphabet@, mask, joined(batches));
                lemma_accepted_in_alphabet(alphabet@, mask, joined(batches));
                assert forall|i: int| 0 <= i < id@.len() implies alphabet@.contains(
                    #[trigger] id@[i],
                ) by {
                    assert(id@[i] == all[i]);
                }
                assert(filled(alphabet@, joined(batches), size as nat, id@));
                assert(drawn(random, word_batch_len(mask_for(alphabet@.len()), size), batches));
            }
            return Some(id);
        }
    }
    None
}

} // verus!
