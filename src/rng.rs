use vstd::prelude::*;

use bracket_random::prelude::RandomNumberGenerator;

verus! {

#[verifier::external_type_specification]
#[verifier::external_body]
pub struct ExRandomNumberGenerator(RandomNumberGenerator);

/// Relies on `RandomNumberGenerator::seeded` from bracket-random: a generator whose
/// stream is fixed by `seed`.
#[verifier::external_body]
fn seeded_generator(seed: u64) -> RandomNumberGenerator {
    RandomNumberGenerator::seeded(seed)
}

/// Relies on `RandomNumberGenerator::roll_dice` from bracket-random: the sum of `n` draws,
/// each in `1..die_type + 1`.
#[verifier::external_body]
fn dice_total(generator: &mut RandomNumberGenerator, n: i32, die_type: i32) -> (r: i32)
    requires
        1 <= n,
        1 <= die_type < i32::MAX,
        n * die_type <= i32::MAX,
    ensures
        n <= r <= n * die_type,
{
    generator.roll_dice(n, die_type)
}

/// Relies on `RandomNumberGenerator::range` from bracket-random: a draw in `min..max`,
/// which panics unless `min < max`.
#[verifier::external_body]
fn draw_in(generator: &mut RandomNumberGenerator, min: usize, max: usize) -> (r: usize)
    requires
        min < max,
    ensures
        min <= r < max,
{
    generator.range(min, max)
}

/// The game's single seeded stream of random numbers, shared by every resolver call so
/// that a whole game can be replayed from its seed.
pub struct Rng {
    generator: RandomNumberGenerator,
}

impl Rng {
    pub fn new(seed: u64) -> (r: Rng) {
        Rng { generator: seeded_generator(seed) }
    }

    /// Rolls `count` dice of `sides` sides each and returns their total.
    pub fn roll_dice(&mut self, count: u32, sides: u32) -> (r: i32)
        requires
            1 <= count,
            1 <= sides,
            count * sides < i32::MAX,
        ensures
            count <= r <= count * sides,
    {
        proof {
            assert(count <= count * sides && sides <= count * sides) by (nonlinear_arith)
                requires 1 <= count, 1 <= sides;
        }
        dice_total(&mut self.generator, count as i32, sides as i32)
    }

    /// A number in `min..max`.
    pub fn range(&mut self, min: usize, max: usize) -> (r: usize)
        requires
            min < max,
        ensures
            min <= r < max,
    {
        draw_in(&mut self.generator, min, max)
    }
}

} // verus!
