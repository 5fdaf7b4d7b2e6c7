//! Deterministic deck generator: a Fisher-Yates shuffle of the 52 card
//! codes driven by a fixed-multiplier linear congruential step. The exact
//! constants and reduction order are part of the contract: dealing order
//! elsewhere depends on the exact sequence, and an identical seed must
//! always yield the identical permutation.

use vstd::prelude::*;

verus! {

/// One step of the linear congruential generator.
pub open spec fn lcg(state: u64) -> u64 {
    (state.wrapping_mul(6364136223846793005u64).wrapping_add(1442695040888963407u64)
        % 0xffff_ffff_ffff_ffffu64) as u64
}

/// The unshuffled deck: card codes 0 through 51 in order.
pub open spec fn init_deck() -> Seq<u8> {
    Seq::new(52, |i: int| i as u8)
}

pub open spec fn swap_cards(deck: Seq<u8>, i: int, j: int) -> Seq<u8> {
    deck.update(i, deck[j]).update(j, deck[i])
}

/// Fisher-Yates from position `i` down to 1: at each position draw the next
/// pseudo-random state, reduce it modulo `i + 1`, and swap.
pub open spec fn shuffle_from(deck: Seq<u8>, state: u64, i: int) -> Seq<u8>
    decreases i,
{
    if i < 1 {
        deck
    } else {
        let r = lcg(state);
        let j = r as int % (i + 1);
        shuffle_from(swap_cards(deck, i, j), r, i - 1)
    }
}

/// The full shuffled deck for a seed: the same seed always yields the same
/// permutation.
pub open spec fn spec_shuffle(seed: u64) -> Seq<u8> {
    shuffle_from(init_deck(), seed, 51)
}

/// Produce the deterministic pseudo-random permutation of the 52 card codes
/// for `seed`: 52 distinct codes, each below 52, fixed entirely by the seed.
pub fn generate_shuffled_deck(seed: u64) -> (deck: Vec<u8>)
    ensures
        deck@ == spec_shuffle(seed),
        deck@.len() == 52,
        forall|i: int| 0 <= i < 52 ==> deck@[i] < 52,
        forall|i: int, j: int| 0 <= i < j < 52 ==> deck@[i] != deck@[j],
{
    let mut deck: Vec<u8> = Vec::new();
    let mut c: u8 = 0;
    while c < 52
        invariant
            c <= 52,
            deck@.len() == c as int,
            forall|i: int| 0 <= i < c as int ==> deck@[i] == i as u8,
        decreases 52 - c as int,
    {
        deck.push(c);
        c = c + 1;
    }
    assert(deck@ =~= init_deck());

    let mut rng: u64 = seed;
    let mut i: usize = 51;
    while i >= 1
        invariant
            i <= 51,
            deck@.len() == 52,
            shuffle_from(deck@, rng, i as int) == spec_shuffle(seed),
            forall|k: int| 0 <= k < 52 ==> deck@[k] < 52,
            forall|k: int, l: int| 0 <= k < l < 52 ==> deck@[k] != deck@[l],
        decreases i,
    {
        let ghost pre = deck@;
        let ghost pre_rng = rng;
        rng = rng.wrapping_mul(6364136223846793005).wrapping_add(1442695040888963407)
            % 0xffff_ffff_ffff_ffff;
        let j: usize = (rng % (i as u64 + 1)) as usize;
        let a = deck[i];
        let b = deck[j];
        deck[i] = b;
        deck[j] = a;
        proof {
            assert(rng == lcg(pre_rng));
            assert(j as int == rng as int % (i as int + 1));
            assert(deck@ =~= swap_cards(pre, i as int, j as int));
            assert(shuffle_from(pre, pre_rng, i as int)
                == shuffle_from(deck@, rng, i as int - 1));
        }
        i = i - 1;
    }
    deck
}

} // verus!
