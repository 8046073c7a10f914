//! The random draws of the simulation. Every value that chance decides is
//! drawn here and handed to a verified function that takes it as an
//! argument.
use rand::seq::SliceRandom;
use rand::Rng;
use vstd::prelude::*;

use crate::enemy::EnemyState;
use crate::Position;

verus! {

/// Relies on rand's `Rng::gen_range` on `thread_rng()`: for a nonempty range
/// `lo..hi` it returns a value `r` with `lo <= r < hi` (it panics on an empty
/// range, which `requires` leaves out).
#[verifier::external_body]
pub(crate) fn random_range(lo: i64, hi: i64) -> (r: i64)
    requires
        lo < hi,
    ensures
        lo <= r < hi,
{
    rand::thread_rng().gen_range(lo..hi)
}

/// Relies on rand's `random`: any value of the type may come back.
pub assume_specification<T>[ rand::random::<T> ]() -> (r: T)
    where
        rand::distributions::Standard: rand::distributions::Distribution<T>,
;

/// Relies on rand's `SliceRandom::choose_weighted` on `thread_rng()`: on a
/// nonempty slice whose weights are not all zero it returns `Ok` with one of
/// the slice's items, and never one of weight zero. It fails on an empty
/// slice or all-zero weights, and the `u32` sum of the weights must not
/// overflow; `requires` leaves those out (at most three items, each weighing
/// at most 5).
#[verifier::external_body]
pub(crate) fn choose_weighted_state(states: &[EnemyState]) -> (r: EnemyState)
    requires
        states@.len() <= 3,
        exists|i: int| 0 <= i < states@.len() && #[trigger] states@[i].weight_spec() > 0,
    ensures
        states@.contains(r),
        r.weight_spec() > 0,
{
    *states.choose_weighted(&mut rand::thread_rng(), |s| s.weight()).unwrap()
}

/// Relies on rand's `SliceRandom::choose` on `thread_rng()`: `None` for an
/// empty slice, else one of its items.
#[verifier::external_body]
pub(crate) fn choose_cell(cells: &[Position]) -> (r: Option<Position>)
    ensures
        r is None <==> cells@.len() == 0,
        r matches Some(p) ==> cells@.contains(p),
{
    cells.choose(&mut rand::thread_rng()).copied()
}

} // verus!
