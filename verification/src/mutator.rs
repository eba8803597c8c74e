use vstd::prelude::*;

use rand_xoshiro::Xoroshiro64Star;
use rand_xoshiro::rand_core::RngCore;

verus! {

/// The random number generator of the mutator, from rand_xoshiro
#[verifier::external_type_specification]
#[verifier::external_body]
pub struct ExXoroshiro64Star(Xoroshiro64Star);

/// `RngCore::next_u32` of `Xoroshiro64Star`: the next pseudo-random number. It depends on the
/// generator's hidden state, so nothing is stated of it.
#[verifier::external_body]
fn next_random(rng: &mut Xoroshiro64Star) -> u32 {
    rng.next_u32()
}

/// Randomly corrupts fuzz inputs
#[derive(Debug)]
pub struct Mutator {
    rng: Xoroshiro64Star,
}

/// `new` differs from `old` in at most `n` positions, and holds a value below 255 at each of them
pub open spec fn few_changes(old: Seq<u8>, new: Seq<u8>, n: nat) -> bool {
    &&& new.len() == old.len()
    &&& exists|changed: Set<int>|
        #![trigger changed.len()]
        changed.finite() && changed.len() <= n && forall|i: int|
            0 <= i < old.len() ==> (changed.contains(i) ==> new[i] < 255) && (!changed.contains(i)
                ==> new[i] == old[i])
}

impl Mutator {
    /// The generator that the mutator draws from
    pub closed spec fn generator(&self) -> Xoroshiro64Star {
        self.rng
    }

    /// Create a mutator that draws from the given generator
    pub fn new(rng: Xoroshiro64Star) -> (r: Self)
        ensures
            r.generator() == rng,
    {
        Self { rng }
    }

    /// Overwrite up to 7 randomly chosen bytes of the input with random values below 255: the
    /// number of rounds is a draw modulo 8, and each round draws a value, then a position
    pub fn mutate(&mut self, input: &mut [u8])
        requires
            old(input)@.len() > 0,
        ensures
            few_changes(old(input)@, final(input)@, 7),
            exists|rounds_draw: u32, draws: Seq<(u32, u32)>|
                #![trigger mutated(old(input)@, draws.take((rounds_draw % 8) as int))]
                draws.len() >= rounds_draw % 8 && final(input)@ == mutated(
                    old(input)@,
                    draws.take((rounds_draw % 8) as int),
                ),
    {
        let rounds_draw = next_random(&mut self.rng);
        let rounds = rounds_draw % 8;
        let mut draws: Vec<(u32, u32)> = Vec::new();
        let mut k: u32 = 0;
        while k < rounds
            invariant
                rounds < 8,
                k <= rounds,
                draws@.len() == k,
            decreases rounds - k,
        {
            let val = next_random(&mut self.rng);
            let pos = next_random(&mut self.rng);
            draws.push((pos, val));
            k = k + 1;
        }
        apply_mutation(input, rounds_draw, draws.as_slice());
        proof {
            lemma_mutated_few(old(input)@, draws@.take((rounds_draw % 8) as int));
        }
    }
}

/// `input` after each round `d` of `draws` in turn wrote `d.1 % 255` at position `d.0 % len`
pub open spec fn mutated(input: Seq<u8>, draws: Seq<(u32, u32)>) -> Seq<u8>
    decreases draws.len(),
{
    if draws.len() == 0 {
        input
    } else {
        let d = draws.last();
        mutated(input, draws.drop_last()).update(d.0 as int % input.len() as int, (d.1 % 255) as u8)
    }
}

/// Rounds of mutation change at most one byte each, to a value below 255
pub proof fn lemma_mutated_few(input: Seq<u8>, draws: Seq<(u32, u32)>)
    requires
        input.len() > 0,
    ensures
        few_changes(input, mutated(input, draws), draws.len()),
    decreases draws.len(),
{
    if draws.len() == 0 {
        assert(Set::<int>::empty().len() == 0);
        assert(few_changes(input, input, 0)) by {
            let e = Set::<int>::empty();
            assert(e.finite() && e.len() <= 0);
        }
    } else {
        let prev = draws.drop_last();
        lemma_mutated_few(input, prev);
        let before = mutated(input, prev);
        let changed = choose|changed: Set<int>|
            #![trigger changed.len()]
            changed.finite() && changed.len() <= prev.len() && forall|i: int|
                0 <= i < input.len() ==> (changed.contains(i) ==> before[i] < 255) && (!changed.contains(i)
                    ==> before[i] == input[i]);
        let d = draws.last();
        let p = d.0 as int % input.len() as int;
        let now = changed.insert(p);
        assert(now.finite() && now.len() <= draws.len());
        let after = mutated(input, draws);
        assert(after == before.update(p, (d.1 % 255) as u8));
        assert forall|i: int| 0 <= i < input.len() implies (now.contains(i) ==> after[i] < 255) && (!now.contains(i)
            ==> after[i] == input[i]) by {
            if i == p {
                assert((d.1 % 255) < 255);
            }
        }
    }
}

/// Apply the first `rounds_draw % 8` rounds of `draws`: each writes its value draw modulo 255
/// at its position draw modulo the input's length
pub fn apply_mutation(input: &mut [u8], rounds_draw: u32, draws: &[(u32, u32)])
    requires
        old(input)@.len() > 0,
        draws@.len() >= rounds_draw % 8,
    ensures
        final(input)@ == mutated(old(input)@, draws@.take((rounds_draw % 8) as int)),
{
    let input_length = input.len();
    let rounds = rounds_draw % 8;
    let mut k: u32 = 0;
    assert(draws@.take(0) =~= Seq::<(u32, u32)>::empty());
    while k < rounds
        invariant
            input_length == input@.len(),
            input_length == old(input)@.len(),
            input_length > 0,
            rounds == rounds_draw % 8,
            draws@.len() >= rounds,
            k <= rounds,
            input@ == mutated(old(input)@, draws@.take(k as int)),
        decreases rounds - k,
    {
        let (pos, val) = draws[k as usize];
        input[pos as usize % input_length] = (val % 255) as u8;
        assert(draws@.take(k + 1).drop_last() =~= draws@.take(k as int));
        k = k + 1;
    }
}

} // verus!
