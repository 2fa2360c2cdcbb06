//! The source of the random words that generator functions draw.

use vstd::prelude::*;

verus! {

/// `rand::rngs::StdRng`, the generator of the `rand` crate. Nothing of its
/// inside is known here.
#[verifier::external_type_specification]
#[verifier::external_body]
pub struct ExStdRng(rand::rngs::StdRng);

/// `rand::SeedableRng::seed_from_u64` at `StdRng`: a generator whose output
/// is fixed by the seed. Nothing is stated of that output.
#[verifier::external_body]
fn generator_from_seed(seed: u64) -> rand::rngs::StdRng {
    rand::SeedableRng::seed_from_u64(seed)
}

/// `rand::RngCore::next_u64` at `StdRng`: the generator's next word. Nothing
/// is stated of it.
#[verifier::external_body]
fn next_word(generator: &mut rand::rngs::StdRng) -> u64 {
    rand::RngCore::next_u64(generator)
}

/// A source of random words that remembers, for contracts only, every word
/// it has handed out.
pub struct RandomSource {
    generator: rand::rngs::StdRng,
    drawn: Ghost<Seq<u64>>,
}

impl RandomSource {
    /// The words handed out so far, oldest first.
    pub closed spec fn drawn(&self) -> Seq<u64> {
        self.drawn@
    }

    /// A source whose words are fixed by `seed`.
    pub fn seeded(seed: u64) -> (source: Self)
        ensures
            source.drawn() == Seq::<u64>::empty(),
    {
        RandomSource { generator: generator_from_seed(seed), drawn: Ghost(Seq::empty()) }
    }

    /// Hands out the next word.
    pub fn draw(&mut self) -> (word: u64)
        ensures
            final(self).drawn() == old(self).drawn().push(word),
    {
        let word = next_word(&mut self.generator);
        proof {
            self.drawn@ = self.drawn@.push(word);
        }
        word
    }
}

/// The word at place `at` of a tape of words; 0 behind its end.
pub open spec fn word_at(tape: Seq<u64>, at: int) -> u64 {
    if 0 <= at < tape.len() {
        tape[at]
    } else {
        0
    }
}

} // verus!
