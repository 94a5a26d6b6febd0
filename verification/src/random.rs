//! Random draws.
use rand::rngs::StdRng;
use rand::{Rng, RngCore, SeedableRng};
use vstd::prelude::*;

use crate::config::Ratio;

verus! {

/// `rand::rngs::StdRng`, a generator that its seed determines.
#[verifier::external_type_specification]
#[verifier::external_body]
pub struct ExStdRng(StdRng);

/// What a generator is asked for.
pub enum Ask {
    /// A number of a range, both ends included.
    Small { low: u32, high: u32 },
    /// A number of a larger range, both ends included.
    Large { from: u64, to: u64 },
    /// A number of a range of `usize`, both ends included, on a machine whose
    /// `usize` has so many bits.
    Index { bits: u32, first: usize, last: usize },
    /// Any number of 64 bits.
    Word,
    /// A coin that shows heads in so many of so many cases.
    Coin { numerator: u32, denominator: u32 },
}

/// How a generator came to where it is: from its seed, by what it was asked for.
#[verifier::ext_equal]
pub struct Past {
    pub seed: u64,
    pub asked: Seq<Ask>,
}

/// What a generator with a past draws from a range of `u32`.
pub uninterp spec fn drawn_small(seed: u64, asked: Seq<Ask>, low: u32, high: u32) -> u32;

/// What a generator with a past draws from a range of `u64`.
pub uninterp spec fn drawn_large(seed: u64, asked: Seq<Ask>, low: u64, high: u64) -> u64;

/// What a generator with a past draws from a range of `usize`, on a machine
/// whose `usize` has so many bits.
pub uninterp spec fn drawn_index(
    bits: u32,
    seed: u64,
    asked: Seq<Ask>,
    low: usize,
    high: usize,
) -> usize;

/// What a generator with a past draws from all numbers of 64 bits.
pub uninterp spec fn drawn_word(seed: u64, asked: Seq<Ask>) -> u64;

/// What the coin of a generator with a past shows.
pub uninterp spec fn coin_shown(
    seed: u64,
    asked: Seq<Ask>,
    numerator: u32,
    denominator: u32,
) -> bool;

impl Past {
    /// The past once something more was asked for.
    pub open spec fn after(self, ask: Ask) -> Past {
        Past { seed: self.seed, asked: self.asked.push(ask) }
    }

    /// A number of a range, and the past after it.
    pub open spec fn small(self, low: u32, high: u32) -> (u32, Past) {
        (drawn_small(self.seed, self.asked, low, high), self.after(Ask::Small { low, high }))
    }

    /// A number of a larger range, and the past after it.
    pub open spec fn large(self, low: u64, high: u64) -> (u64, Past) {
        (
            drawn_large(self.seed, self.asked, low, high),
            self.after(Ask::Large { from: low, to: high }),
        )
    }

    /// A number of a range of `usize`, and the past after it.
    pub open spec fn index(self, low: usize, high: usize) -> (usize, Past) {
        (
            drawn_index(usize::BITS, self.seed, self.asked, low, high),
            self.after(Ask::Index { bits: usize::BITS, first: low, last: high }),
        )
    }

    /// Any number of 64 bits, and the past after it.
    pub open spec fn word(self) -> (u64, Past) {
        (drawn_word(self.seed, self.asked), self.after(Ask::Word))
    }

    /// A coin, and the past after it.
    pub open spec fn coin(self, ratio: Ratio) -> (bool, Past) {
        (
            coin_shown(self.seed, self.asked, ratio.numerator, ratio.denominator),
            self.after(Ask::Coin { numerator: ratio.numerator, denominator: ratio.denominator }),
        )
    }
}

/// A generator that its seed determines.
///
/// The past of the generator is kept in a ghost field. The field is private
/// and only the functions of this module touch the generator behind it.
pub struct SeededRng {
    rng: StdRng,
    past: Ghost<Past>,
}

impl View for SeededRng {
    type V = Past;

    closed spec fn view(&self) -> Past {
        self.past@
    }
}

/// `StdRng::seed_from_u64`: a generator that was not asked for anything.
#[verifier::external_body]
pub(crate) fn seeded(seed: u64) -> (rng: SeededRng)
    ensures
        rng@ == (Past { seed, asked: Seq::empty() }),
{
    SeededRng {
        rng: StdRng::seed_from_u64(seed),
        past: Ghost(Past { seed, asked: Seq::empty() }),
    }
}

/// `Rng::gen_range` over an inclusive range of `u32`: a number of the range,
/// which the seed and everything that the generator was asked for determine.
/// Which number that is stays open.
#[verifier::external_body]
pub(crate) fn draw_u32(rng: &mut SeededRng, low: u32, high: u32) -> (drawn: u32)
    requires
        low <= high,
    ensures
        drawn == drawn_small(old(rng)@.seed, old(rng)@.asked, low, high),
        final(rng)@ == old(rng)@.after(Ask::Small { low, high }),
        low <= drawn <= high,
{
    rng.rng.gen_range(low..=high)
}

/// `Rng::gen_range` over an inclusive range of `u64`: a number of the range,
/// which the seed and everything that the generator was asked for determine.
/// Which number that is stays open.
#[verifier::external_body]
pub(crate) fn draw_u64(rng: &mut SeededRng, low: u64, high: u64) -> (drawn: u64)
    requires
        low <= high,
    ensures
        drawn == drawn_large(old(rng)@.seed, old(rng)@.asked, low, high),
        final(rng)@ == old(rng)@.after(Ask::Large { from: low, to: high }),
        low <= drawn <= high,
{
    rng.rng.gen_range(low..=high)
}

/// `Rng::gen_range` over an inclusive range of `usize`: a number of the range,
/// which the seed and everything that the generator was asked for determine,
/// together with how many bits `usize` has. Which number that is stays open.
#[verifier::external_body]
pub(crate) fn draw_usize(rng: &mut SeededRng, low: usize, high: usize) -> (drawn: usize)
    requires
        low <= high,
    ensures
        drawn == drawn_index(usize::BITS, old(rng)@.seed, old(rng)@.asked, low, high),
        final(rng)@ == old(rng)@.after(Ask::Index { bits: usize::BITS, first: low, last: high }),
        low <= drawn <= high,
{
    rng.rng.gen_range(low..=high)
}

/// `RngCore::next_u64`: a number of 64 bits, which the seed and everything that
/// the generator was asked for determine. Which number that is stays open.
#[verifier::external_body]
pub(crate) fn draw_word(rng: &mut SeededRng) -> (drawn: u64)
    ensures
        drawn == drawn_word(old(rng)@.seed, old(rng)@.asked),
        final(rng)@ == old(rng)@.after(Ask::Word),
{
    rng.rng.next_u64()
}

/// `StdRng::clone`: a generator that goes on as the other one does.
#[verifier::external_body]
pub(crate) fn copied(rng: &SeededRng) -> (copy: SeededRng)
    ensures
        copy@ == rng@,
{
    SeededRng { rng: rng.rng.clone(), past: rng.past }
}

/// `Rng::gen_ratio`: heads with the given probability, so never where it is
/// zero and always where it is one. The seed and everything that the generator
/// was asked for determine the coin; which side it shows otherwise stays open.
#[verifier::external_body]
pub(crate) fn flip(rng: &mut SeededRng, ratio: Ratio) -> (heads: bool)
    requires
        ratio.wf(),
    ensures
        heads == coin_shown(
            old(rng)@.seed,
            old(rng)@.asked,
            ratio.numerator,
            ratio.denominator,
        ),
        final(rng)@ == old(rng)@.after(
            Ask::Coin { numerator: ratio.numerator, denominator: ratio.denominator },
        ),
        ratio.numerator == 0 ==> !heads,
        ratio.numerator == ratio.denominator ==> heads,
{
    rng.rng.gen_ratio(ratio.numerator, ratio.denominator)
}

/// `Rng::gen_range` of the thread's own generator: a number below the bound.
#[verifier::external_body]
pub(crate) fn random_below(bound: usize) -> (drawn: usize)
    requires
        bound > 0,
    ensures
        drawn < bound,
{
    rand::thread_rng().gen_range(0..bound)
}

} // verus!
