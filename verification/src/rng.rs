//! Randomness used by schedule generation, behind `rand`'s seeded generator.

use vstd::prelude::*;

verus! {

/// `rand::rngs::StdRng`, carried through the schedule generator unchanged.
#[verifier::external_type_specification]
#[verifier::external_body]
pub struct ExStdRng(rand::rngs::StdRng);

/// A random generator together with the record, kept by the library, of
/// every draw of offsets made for a day's random pokes, oldest first.
pub struct DrawSource {
    pub rng: rand::rngs::StdRng,
    pub drawn: Ghost<Seq<Seq<i64>>>,
}

impl DrawSource {
    /// Starts recording draws made with `rng`, with none made yet.
    pub fn new(rng: rand::rngs::StdRng) -> (r: DrawSource)
        ensures
            r.rng == rng,
            r.drawn@.len() == 0,
    {
        DrawSource { rng, drawn: Ghost(Seq::empty()) }
    }
}

/// Calls `rand::Rng::gen_range` on the half-open range `lo..hi`.
/// The draw is random: all that is stated is rand's documented promise that
/// the value lies in the range. rand panics on an empty range, which the
/// precondition excludes.
#[verifier::external_body]
pub(crate) fn gen_range(rng: &mut rand::rngs::StdRng, lo: i128, hi: i128) -> (r: i128)
    requires
        lo < hi,
    ensures
        lo <= r < hi,
{
    rand::Rng::gen_range(rng, lo..hi)
}

/// Calls `rand::seq::SliceRandom::choose` on a slice of indices.
/// rand documents that it returns `None` exactly for an empty slice and
/// otherwise one of the slice's elements; which one is random and unstated.
#[verifier::external_body]
pub(crate) fn choose_index(rng: &mut rand::rngs::StdRng, items: &Vec<usize>) -> (r: Option<usize>)
    ensures
        r is None <==> items@.len() == 0,
        r matches Some(x) ==> items@.contains(x),
{
    rand::seq::SliceRandom::choose(items.as_slice(), rng).copied()
}

/// Calls `rand::SeedableRng::from_entropy` for `StdRng`. The seed comes from
/// the operating system, so nothing is stated of the generator; rand panics
/// when the operating system cannot provide randomness, which no argument
/// can exclude.
#[verifier::external_body]
pub(crate) fn entropy_rng() -> rand::rngs::StdRng {
    <rand::rngs::StdRng as rand::SeedableRng>::from_entropy()
}

} // verus!
