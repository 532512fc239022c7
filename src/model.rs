//! Mathematical model of identifier generation: masks, the rejection filter
//! over a stream of random values, and the direct mapping of the fast path.
use vstd::prelude::*;

verus! {

/// The smallest power of two that is at least `n` (1 when `n <= 1`).
pub open spec fn next_power_of_two(n: nat) -> nat
    decreases n,
{
    if n <= 1 {
        1
    } else {
        2 * next_power_of_two(((n + 1) / 2) as nat)
    }
}

/// `n` is a power of two exactly when it is its own next power of two.
pub open spec fn is_power_of_two(n: nat) -> bool {
    next_power_of_two(n) == n
}

/// The mask that covers every index of an alphabet of `n` symbols.
pub open spec fn mask_for(n: nat) -> nat {
    (next_power_of_two(n) - 1) as nat
}

/// An alphabet that one byte can address: 1 to 256 symbols.
pub open spec fn valid_alphabet(alphabet: Seq<char>) -> bool {
    1 <= alphabet.len() <= 256
}

/// The symbols that a stream of random values yields, in order: each value is
/// masked, and kept as an index into the alphabet when it lands inside it.
pub open spec fn accepted(alphabet: Seq<char>, mask: u32, values: Seq<u32>) -> Seq<char>
    decreases values.len(),
{
    if values.len() == 0 {
        Seq::empty()
    } else {
        let kept = accepted(alphabet, mask, values.drop_last());
        let index = values.last() & mask;
        if (index as int) < alphabet.len() {
            kept.push(alphabet[index as int])
        } else {
            kept
        }
    }
}

/// Bytes read as 32-bit values.
pub open spec fn widen(bytes: Seq<u8>) -> Seq<u32> {
    bytes.map_values(|b: u8| b as u32)
}

/// The symbols of the fast path: each byte picks the symbol at its remainder
/// modulo the alphabet's length, and no byte is skipped.
pub open spec fn direct_symbols(alphabet: Seq<char>, bytes: Seq<u8>) -> Seq<char> {
    bytes.map_values(|b: u8| alphabet[(b as int) % (alphabet.len() as int)])
}

/// All batches, joined in the order they were drawn.
pub open spec fn joined<T>(batches: Seq<Vec<T>>) -> Seq<T>
    decreases batches.len(),
{
    if batches.len() == 0 {
        Seq::empty()
    } else {
        joined(batches.drop_last()) + batches.last()@
    }
}

/// Every batch is an answer that `random` may give to a request for `n` values.
pub open spec fn drawn<T, F: Fn(usize) -> Vec<T>>(random: F, n: usize, batches: Seq<Vec<T>>) -> bool {
    forall|i: int| 0 <= i < batches.len() ==> call_ensures(random, (n,), #[trigger] batches[i])
}

/// The next power of two lies in `[n, 2n)` for `n >= 1`, and within a byte's
/// reach for `n <= 256`.
pub proof fn lemma_next_power_of_two_bounds(n: nat)
    ensures
        1 <= next_power_of_two(n),
        n <= next_power_of_two(n),
        1 <= n ==> next_power_of_two(n) < 2 * n,
        n <= 256 ==> next_power_of_two(n) <= 256,
    decreases n,
{
    if n > 1 {
        lemma_next_power_of_two_bounds(((n + 1) / 2) as nat);
    }
    if n <= 256 {
        assert(is_power_of_two(256)) by {
            reveal_with_fuel(next_power_of_two, 10);
        }
        lemma_next_power_of_two_below(n, 256);
    }
}

/// No power of two at least `n` lies below the next power of two of `n`.
pub proof fn lemma_next_power_of_two_below(n: nat, bound: nat)
    requires
        is_power_of_two(bound),
        n <= bound,
    ensures
        next_power_of_two(n) <= bound,
    decreases bound,
{
    if n > 1 {
        let half = ((bound + 1) / 2) as nat;
        assert(bound == 2 * next_power_of_two(half));
        lemma_next_power_of_two_below(((n + 1) / 2) as nat, half);
    } else {
        assert(bound >= 1);
    }
}

/// Filtering a joined stream joins the filtered parts.
pub proof fn lemma_accepted_append(alphabet: Seq<char>, mask: u32, s: Seq<u32>, t: Seq<u32>)
    ensures
        accepted(alphabet, mask, s + t) == accepted(alphabet, mask, s) + accepted(alphabet, mask, t),
    decreases t.len(),
{
    if t.len() == 0 {
        assert(s + t =~= s);
    } else {
        lemma_accepted_append(alphabet, mask, s, t.drop_last());
        assert((s + t).drop_last() =~= s + t.drop_last());
    }
}

/// One more value adds its symbol when it lands in the alphabet, else nothing.
pub proof fn lemma_accepted_push(alphabet: Seq<char>, mask: u32, s: Seq<u32>, v: u32)
    ensures
        accepted(alphabet, mask, s.push(v)) == if ((v & mask) as int) < alphabet.len() {
            accepted(alphabet, mask, s).push(alphabet[(v & mask) as int])
        } else {
            accepted(alphabet, mask, s)
        },
{
    assert(s.push(v).drop_last() =~= s);
}

/// Every symbol that the filter yields is a symbol of the alphabet.
pub proof fn lemma_accepted_in_alphabet(alphabet: Seq<char>, mask: u32, values: Seq<u32>)
    ensures
        forall|i: int|
            0 <= i < accepted(alphabet, mask, values).len() ==> alphabet.contains(
                #[trigger] accepted(alphabet, mask, values)[i],
            ),
    decreases values.len(),
{
    if values.len() > 0 {
        lemma_accepted_in_alphabet(alphabet, mask, values.drop_last());
        let kept = accepted(alphabet, mask, values.drop_last());
        let all = accepted(alphabet, mask, values);
        let index = values.last() & mask;
        assert forall|i: int| 0 <= i < all.len() implies alphabet.contains(#[trigger] all[i]) by {
            if i < kept.len() {
                assert(all[i] == kept[i]);
            } else {
                assert(all[i] == alphabet[index as int]);
            }
        }
    }
}

} // verus!
