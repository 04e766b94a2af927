use vstd::prelude::*;
use crate::matrix::{Matrix, MAX_DIM, MAX_VAL, bounded, lemma_sq_bound};

verus! {

/// Exclusive upper bound for freshly drawn matrix entries.
pub const INIT_BOUND: i64 = 1000;

#[verifier::external_type_specification]
#[verifier::external_body]
pub struct ExThreadRng(rand::rngs::ThreadRng);

/// Relies on rand::thread_rng: hands out the calling thread's generator.
/// Nothing is assumed of it; every value drawn from it is bounded by the
/// contract of `random_cell` alone.
#[verifier::external_body]
fn fresh_rng() -> rand::rngs::ThreadRng {
    rand::thread_rng()
}

/// Relies on rand::Rng::gen_range: for the non-empty integer range
/// 0..INIT_BOUND the drawn value lies in [0, INIT_BOUND). Nothing further is
/// assumed of the value.
#[verifier::external_body]
fn random_cell(rng: &mut rand::rngs::ThreadRng) -> (r: i64)
    ensures
        0 <= r < INIT_BOUND,
{
    rand::Rng::gen_range(rng, 0..INIT_BOUND)
}

/// Fill an n x n matrix with values drawn uniformly from [0, INIT_BOUND),
/// in row-major order, one draw per cell from a single generator.
pub fn init_matrix_sequential(n: usize) -> (m: Matrix)
    requires
        n <= MAX_DIM,
    ensures
        m.wf(),
        m.n == n,
        forall|p: int| 0 <= p < m@.len() ==> 0 <= #[trigger] m@[p] < INIT_BOUND,
        bounded(m@),
{
    proof {
        lemma_sq_bound(n as int);
    }
    let total = n * n;
    let mut rng = fresh_rng();
    let mut data: Vec<i64> = Vec::new();
    #[verifier::loop_isolation(false)]
    while data.len() < total
        invariant
            data@.len() <= total,
            forall|p: int| 0 <= p < data@.len() ==> 0 <= #[trigger] data@[p] < INIT_BOUND,
        decreases total - data@.len(),
    {
        data.push(random_cell(&mut rng));
    }
    let m = Matrix::from_flat(n, data);
    proof {
        assert forall|i: int| 0 <= i < m@.len() implies
            -(MAX_VAL as int) <= #[trigger] m@[i] as int <= MAX_VAL as int by {
            assert(0 <= m@[i] < INIT_BOUND);
        }
    }
    m
}

} // verus!
