use vstd::prelude::*;
use rand::rngs::StdRng;
use crate::bitset::UNIVERSE_SIZE;

verus! {

/// How many values `generate_random_nums` draws.
pub const SAMPLE_COUNT: usize = 64000;

/// Why a sample could not be drawn.
#[derive(Debug, Clone, Copy, PartialEq, Eq, Structural)]
pub enum SampleError {
    /// More distinct values were asked for than the universe holds, or the
    /// universe is larger than the 16-bit domain.
    InvalidArgument,
}

#[verifier::external_type_specification]
#[verifier::external_body]
pub struct ExStdRng(StdRng);

/// Relies on `SeedableRng::seed_from_u64` for `StdRng`: a generator whose
/// output is fixed by `seed`.
#[verifier::external_body]
fn seeded_rng(seed: u64) -> StdRng {
    <StdRng as rand::SeedableRng>::seed_from_u64(seed)
}

/// Relies on `SeedableRng::from_entropy` for `StdRng`: a generator seeded by
/// the operating system.
#[verifier::external_body]
fn entropy_rng() -> StdRng {
    <StdRng as rand::SeedableRng>::from_entropy()
}

/// Relies on `Uniform::new_inclusive(low, high)` sampled with `rng`: a value
/// in `low..=high` (the constructor panics only when `low > high`).
#[verifier::external_body]
fn draw_between(rng: &mut StdRng, low: usize, high: usize) -> (r: usize)
    requires
        low <= high,
    ensures
        low <= r <= high,
{
    rand::Rng::sample(rng, rand::distributions::Uniform::new_inclusive(low, high))
}

/// Draws `count` distinct values from `0 .. universe_size`.
///
/// Each value is drawn uniformly from those not taken yet, which is the
/// distribution of drawing from the whole range and redrawing on repeats.
/// The generator belongs to this call: seeded from `seed` when one is given,
/// else from the operating system.
pub fn sample_unique(count: usize, universe_size: usize, seed: Option<u64>) -> (r: Result<
    Vec<u16>,
    SampleError,
>)
    ensures
        r is Err <==> (count > universe_size || universe_size > UNIVERSE_SIZE),
        r matches Ok(v) ==> {
            &&& v.len() == count
            &&& v@.no_duplicates()
            &&& forall|i: int| 0 <= i < v.len() ==> (v[i] as int) < universe_size
        },
{
    if count > universe_size || universe_size > UNIVERSE_SIZE {
        return Err(SampleError::InvalidArgument);
    }
    let mut rng = match seed {
        Some(s) => seeded_rng(s),
        None => entropy_rng(),
    };
    let mut pool: Vec<u16> = Vec::new();
    let mut v: usize = 0;
    while v < universe_size
        invariant
            v <= universe_size <= UNIVERSE_SIZE,
            pool.len() == v,
            forall|i: int| 0 <= i < v ==> pool[i] as int == i,
        decreases universe_size - v,
    {
        pool.push(v as u16);
        v = v + 1;
    }
    let mut chosen: Vec<u16> = Vec::new();
    let mut i: usize = 0;
    while i < count
        invariant
            i <= count <= universe_size <= UNIVERSE_SIZE,
            pool.len() == universe_size,
            forall|a: int| 0 <= a < universe_size ==> (pool[a] as int) < universe_size,
            forall|a: int, b: int| 0 <= a < b < universe_size ==> pool[a] != pool[b],
            chosen@ == pool@.subrange(0, i as int),
        decreases count - i,
    {
        let j = draw_between(&mut rng, i, universe_size - 1);
        let picked = pool[j];
        let displaced = pool[i];
        pool[j] = displaced;
        pool[i] = picked;
        chosen.push(picked);
        assert(chosen@ =~= pool@.subrange(0, i + 1));
        i = i + 1;
    }
    Ok(chosen)
}

/// Draws `SAMPLE_COUNT` distinct values from the whole universe with a
/// generator seeded by the operating system.
pub fn generate_random_nums() -> (r: Vec<u16>)
    ensures
        r.len() == SAMPLE_COUNT,
        r@.no_duplicates(),
{
    match sample_unique(SAMPLE_COUNT, UNIVERSE_SIZE, None) {
        Ok(v) => v,
        Err(_) => Vec::new(),
    }
}

} // verus!
