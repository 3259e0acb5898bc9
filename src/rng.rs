use vstd::prelude::*;
use bracket_lib::random::RandomNumberGenerator;

verus! {

#[verifier::external_type_specification]
#[verifier::external_body]
pub struct ExRandomNumberGenerator(RandomNumberGenerator);

/// Relies on `RandomNumberGenerator::range`: a value drawn from `lo..hi`,
/// which panics on an empty range.
#[verifier::external_body]
pub(crate) fn range(rng: &mut RandomNumberGenerator, lo: i32, hi: i32) -> (r: i32)
    requires
        lo < hi,
    ensures
        lo <= r < hi,
{
    rng.range(lo, hi)
}

/// Relies on `RandomNumberGenerator::random_slice_index`: `None` for an empty
/// slice, otherwise an index into it drawn by `roll_dice(1, len)`, which
/// needs `len + 1` to fit in an `i32`.
#[verifier::external_body]
pub(crate) fn random_slice_index<T>(rng: &mut RandomNumberGenerator, v: &Vec<T>) -> (r: Option<usize>)
    requires
        v@.len() < i32::MAX,
    ensures
        r is None <==> v@.len() == 0,
        r is Some ==> r.unwrap() < v@.len(),
{
    rng.random_slice_index(v.as_slice())
}

/// Relies on `RandomNumberGenerator::roll_dice`: the sum of `n` draws from
/// `1..=die_type`.
#[verifier::external_body]
pub(crate) fn roll_dice(rng: &mut RandomNumberGenerator, n: i32, die_type: i32) -> (r: i32)
    requires
        n >= 0,
        1 <= die_type < i32::MAX,
        n * die_type <= i32::MAX,
    ensures
        n <= r <= n * die_type,
{
    rng.roll_dice(n, die_type)
}

} // verus!
