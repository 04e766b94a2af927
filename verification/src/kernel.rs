use vstd::prelude::*;
use vstd::arithmetic::div_mod::lemma_fundamental_div_mod_converse;
use vstd::arithmetic::div_mod::lemma_fundamental_div_mod;
use vstd::arithmetic::div_mod::lemma_mod_pos_bound;
use vstd::arithmetic::mul::lemma_mul_is_distributive_add;
use crate::matrix::{Matrix, MAX_DIM, MAX_VAL, bounded, lemma_sq_bound, lemma_flat_in_range};

verus! {

/// Magnitude that no accumulator cell can reach during a run whose inputs
/// satisfy `bounded` and whose matrices stay within `MAX_DIM`.
const CELL_BOUND: i64 = 4_000_000_000_000_000_000;

/// The symmetrised scalar for the index pair (ic, jc):
/// dm[ic * n + jc] + dm[jc * n + ic], over row-major flat storage.
pub open spec fn dm_sym(dm: Seq<i64>, n: int, ic: int, jc: int) -> int {
    dm[ic * n + jc] as int + dm[jc * n + ic] as int
}

/// Sum of `dm_sym` over the first t pairs of the k x k iteration grid, the
/// pairs ordered with the outer index jc first: pair u is (jc, ic) = (u / k, u % k).
pub open spec fn pair_sum(dm: Seq<i64>, n: int, k: int, t: int) -> int
    decreases t,
{
    if t <= 0 {
        0
    } else {
        pair_sum(dm, n, k, t - 1) + dm_sym(dm, n, (t - 1) % k, (t - 1) / k)
    }
}

/// What one kernel run leaves in the accumulator: every cell p gains
/// w[p] times the sum of `dm_sym` over the whole k x k grid.
pub open spec fn kernel_result(vj0: Seq<i64>, dm: Seq<i64>, w: Seq<i64>, n: int, k: int) -> Seq<int> {
    Seq::new(vj0.len(), |p: int| vj0[p] as int + w[p] as int * pair_sum(dm, n, k, k * k))
}

/// The cells of a matrix buffer, read as unbounded integers.
pub open spec fn as_ints(s: Seq<i64>) -> Seq<int> {
    s.map_values(|x: i64| x as int)
}

/// A product of two bounded factors is bounded by the product of the bounds.
proof fn lemma_mul_bound(a: int, b: int, aa: int, bb: int)
    by (nonlinear_arith)
    requires
        -aa <= a <= aa,
        -bb <= b <= bb,
        0 <= aa,
        0 <= bb,
    ensures
        -(aa * bb) <= a * b <= aa * bb,
{
}

/// Pair number t of a k x k grid decodes to in-range indices.
proof fn lemma_pair_indices(k: int, t: int)
    requires
        0 < k,
        0 <= t < k * k,
    ensures
        0 <= t % k < k,
        0 <= t / k < k,
{
    lemma_fundamental_div_mod(t, k);
    lemma_mod_pos_bound(t, k);
    assert(0 <= t / k < k) by (nonlinear_arith)
        requires
            0 < k,
            0 <= t < k * k,
            t == k * (t / k) + (t % k),
            0 <= t % k < k,
    ;
}

/// The partial grid sum grows by at most 2 * MAX_VAL per pair.
proof fn lemma_pair_sum_bound(dm: Seq<i64>, n: int, k: int, t: int)
    requires
        bounded(dm),
        dm.len() == n * n,
        0 < k <= n,
        0 <= t <= k * k,
    ensures
        -(2_000_000 * t) <= pair_sum(dm, n, k, t) <= 2_000_000 * t,
    decreases t,
{
    if t > 0 {
        lemma_pair_sum_bound(dm, n, k, t - 1);
        lemma_pair_indices(k, t - 1);
        let ic = (t - 1) % k;
        let jc = (t - 1) / k;
        lemma_flat_in_range(n, ic, jc);
        lemma_flat_in_range(n, jc, ic);
        assert(-(2 * (MAX_VAL as int)) <= dm_sym(dm, n, ic, jc) <= 2 * (MAX_VAL as int));
    }
}

/// Appending the pair (jc, ic) to the first jc * k + ic pairs extends the
/// partial grid sum by exactly dm_sym(ic, jc).
proof fn lemma_pair_step(dm: Seq<i64>, n: int, k: int, jc: int, ic: int)
    requires
        0 < k,
        0 <= ic < k,
        0 <= jc < k,
    ensures
        pair_sum(dm, n, k, jc * k + ic + 1) == pair_sum(dm, n, k, jc * k + ic) + dm_sym(dm, n, ic, jc),
{
    let t = jc * k + ic;
    assert(0 <= t && t + 1 <= k * k) by (nonlinear_arith)
        requires
            0 < k,
            0 <= ic < k,
            0 <= jc < k,
            t == jc * k + ic,
    ;
    lemma_fundamental_div_mod_converse(t, k, jc, ic);
    assert(pair_sum(dm, n, k, t + 1) == pair_sum(dm, n, k, t) + dm_sym(dm, n, t % k, t / k));
}

/// With bounded inputs, every cell of the evolving accumulator stays within
/// `CELL_BOUND` at every step of the grid.
proof fn lemma_cell_bound(vj0: Seq<i64>, dm: Seq<i64>, w: Seq<i64>, n: int, k: int, t: int, p: int)
    requires
        bounded(vj0),
        bounded(dm),
        bounded(w),
        vj0.len() == n * n,
        dm.len() == n * n,
        w.len() == n * n,
        0 < k <= n,
        n <= MAX_DIM,
        0 <= t <= k * k,
        0 <= p < n * n,
    ensures
        -(CELL_BOUND as int) <= vj0[p] as int + w[p] as int * pair_sum(dm, n, k, t) <= CELL_BOUND as int,
{
    lemma_pair_sum_bound(dm, n, k, t);
    lemma_sq_bound(k);
    assert(2_000_000 * t <= 2_000_000_000_000);
    lemma_mul_bound(w[p] as int, pair_sum(dm, n, k, t), MAX_VAL as int, 2_000_000_000_000);
}

/// The symmetrised density scalar for the pair (ic, jc), recomputed once per
/// grid pair and broadcast across the whole accumulator update.
pub fn dm_ij(dm: &Matrix, ic: usize, jc: usize) -> (r: i64)
    requires
        dm.wf(),
        bounded(dm@),
        ic < dm.n,
        jc < dm.n,
    ensures
        r as int == dm_sym(dm@, dm.n as int, ic as int, jc as int),
        -(2 * (MAX_VAL as int)) <= r as int <= 2 * (MAX_VAL as int),
{
    proof {
        lemma_sq_bound(dm.n as int);
        lemma_flat_in_range(dm.n as int, ic as int, jc as int);
        lemma_flat_in_range(dm.n as int, jc as int, ic as int);
    }
    let n = dm.n;
    let a = dm.flat(ic * n + jc);
    let b = dm.flat(jc * n + ic);
    a + b
}

/// Sequential baseline kernel: for every pair (jc, ic) of the leading k x k
/// grid, in row order (jc outer, ic inner), add weight[p] * dm_ij into every
/// flat cell p of the accumulator. This is the correctness oracle for the
/// other strategies.
pub fn sequential_calculate(vj: &mut Matrix, dm: &Matrix, w: &Matrix, k: usize)
    requires
        old(vj).wf(),
        dm.wf(),
        w.wf(),
        dm.n == old(vj).n,
        w.n == old(vj).n,
        k <= old(vj).n,
        bounded(old(vj)@),
        bounded(dm@),
        bounded(w@),
    ensures
        final(vj).wf(),
        final(vj).n == old(vj).n,
        as_ints(final(vj)@) == kernel_result(old(vj)@, dm@, w@, old(vj).n as int, k as int),
{
    let n = vj.n;
    proof {
        lemma_sq_bound(n as int);
    }
    let total = n * n;
    let ghost vj0 = vj@;
    let ghost ni = n as int;
    let ghost ki = k as int;
    let mut jc: usize = 0;
    #[verifier::loop_isolation(false)]
    while jc < k
        invariant
            jc <= k,
            vj.wf(),
            vj.n == n,
            forall|q: int| 0 <= q < total ==>
                #[trigger] vj@[q] as int
                    == vj0[q] as int + w@[q] as int * pair_sum(dm@, ni, ki, jc as int * ki),
        decreases k - jc,
    {
        let mut ic: usize = 0;
        #[verifier::loop_isolation(false)]
        while ic < k
            invariant
                ic <= k,
                jc < k,
                vj.wf(),
                vj.n == n,
                forall|q: int| 0 <= q < total ==>
                    #[trigger] vj@[q] as int
                        == vj0[q] as int + w@[q] as int * pair_sum(dm@, ni, ki, jc as int * ki + ic as int),
            decreases k - ic,
        {
            let d = dm_ij(dm, ic, jc);
            let mut p: usize = 0;
            #[verifier::loop_isolation(false)]
            while p < total
                invariant
                    p <= total,
                    ic < k,
                    jc < k,
                    vj.wf(),
                    vj.n == n,
                    forall|q: int| 0 <= q < p ==>
                        #[trigger] vj@[q] as int
                            == vj0[q] as int + w@[q] as int * pair_sum(dm@, ni, ki, jc as int * ki + ic as int + 1),
                    forall|q: int| p <= q < total ==>
                        #[trigger] vj@[q] as int
                            == vj0[q] as int + w@[q] as int * pair_sum(dm@, ni, ki, jc as int * ki + ic as int),
                decreases total - p,
            {
                proof {
                    let t = jc as int * ki + ic as int;
                    assert(0 <= t && t + 1 <= ki * ki) by (nonlinear_arith)
                        requires
                            0 < ki,
                            0 <= (ic as int) < ki,
                            0 <= (jc as int) < ki,
                            t == jc as int * ki + ic as int,
                    ;
                    lemma_pair_step(dm@, ni, ki, jc as int, ic as int);
                    lemma_cell_bound(vj0, dm@, w@, ni, ki, t, p as int);
                    lemma_cell_bound(vj0, dm@, w@, ni, ki, t + 1, p as int);
                    lemma_mul_bound(
                        w@[p as int] as int,
                        dm_sym(dm@, ni, ic as int, jc as int),
                        MAX_VAL as int,
                        2 * (MAX_VAL as int),
                    );
                    lemma_mul_is_distributive_add(
                        w@[p as int] as int,
                        pair_sum(dm@, ni, ki, t),
                        dm_sym(dm@, ni, ic as int, jc as int),
                    );
                }
                let wp = w.flat(p);
                let cur = vj.flat(p);
                let upd = cur + wp * d;
                vj.set_flat(p, upd);
                p += 1;
            }
            ic += 1;
        }
        proof {
            assert((jc as int + 1) * ki == jc as int * ki + ki) by (nonlinear_arith);
        }
        jc += 1;
    }
    proof {
        assert(as_ints(vj@) =~= kernel_result(vj0, dm@, w@, ni, ki));
    }
}

/// Row-partitioned kernel: the same grid of (jc, ic) pairs as the sequential
/// baseline, but the elementwise sweep for a fixed pair is organised as one
/// unit of work per matrix row. Each row owns the disjoint flat range
/// [r * n, (r + 1) * n) of the accumulator (see `lemma_rows_disjoint` and
/// `lemma_rows_cover`), which is what makes handing the rows to independent
/// workers race-free; the per-element additions are the same, in the same
/// order, as in the sequential baseline, so the result is identical.
pub fn row_partitioned_calculate(vj: &mut Matrix, dm: &Matrix, w: &Matrix, k: usize)
    requires
        old(vj).wf(),
        dm.wf(),
        w.wf(),
        dm.n == old(vj).n,
        w.n == old(vj).n,
        k <= old(vj).n,
        bounded(old(vj)@),
        bounded(dm@),
        bounded(w@),
    ensures
        final(vj).wf(),
        final(vj).n == old(vj).n,
        as_ints(final(vj)@) == kernel_result(old(vj)@, dm@, w@, old(vj).n as int, k as int),
{
    let n = vj.n;
    proof {
        lemma_sq_bound(n as int);
    }
    let total = n * n;
    let ghost vj0 = vj@;
    let ghost ni = n as int;
    let ghost ki = k as int;
    let mut jc: usize = 0;
    #[verifier::loop_isolation(false)]
    while jc < k
        invariant
            jc <= k,
            vj.wf(),
            vj.n == n,
            forall|q: int| 0 <= q < total ==>
                #[trigger] vj@[q] as int
                    == vj0[q] as int + w@[q] as int * pair_sum(dm@, ni, ki, jc as int * ki),
        decreases k - jc,
    {
        let mut ic: usize = 0;
        #[verifier::loop_isolation(false)]
        while ic < k
            invariant
                ic <= k,
                jc < k,
                vj.wf(),
                vj.n == n,
                forall|q: int| 0 <= q < total ==>
                    #[trigger] vj@[q] as int
                        == vj0[q] as int + w@[q] as int * pair_sum(dm@, ni, ki, jc as int * ki + ic as int),
            decreases k - ic,
        {
            let d = dm_ij(dm, ic, jc);
            let mut r: usize = 0;
            #[verifier::loop_isolation(false)]
            while r < n
                invariant
                    r <= n,
                    ic < k,
                    jc < k,
                    vj.wf(),
                    vj.n == n,
                    forall|q: int| 0 <= q < r as int * ni ==>
                        #[trigger] vj@[q] as int
                            == vj0[q] as int + w@[q] as int * pair_sum(dm@, ni, ki, jc as int * ki + ic as int + 1),
                    forall|q: int| r as int * ni <= q < total ==>
                        #[trigger] vj@[q] as int
                            == vj0[q] as int + w@[q] as int * pair_sum(dm@, ni, ki, jc as int * ki + ic as int),
                decreases n - r,
            {
                proof {
                    assert(0 <= r as int * ni && r as int * ni + ni <= ni * ni) by (nonlinear_arith)
                        requires
                            0 <= (r as int) < ni,
                    ;
                }
                let base = r * n;
                let mut c: usize = 0;
                #[verifier::loop_isolation(false)]
                while c < n
                    invariant
                        c <= n,
                        r < n,
                        ic < k,
                        jc < k,
                        base as int == r as int * ni,
                        base + n <= total,
                        vj.wf(),
                        vj.n == n,
                        forall|q: int| 0 <= q < base as int + c as int ==>
                            #[trigger] vj@[q] as int
                                == vj0[q] as int + w@[q] as int * pair_sum(dm@, ni, ki, jc as int * ki + ic as int + 1),
                        forall|q: int| base as int + c as int <= q < total ==>
                            #[trigger] vj@[q] as int
                                == vj0[q] as int + w@[q] as int * pair_sum(dm@, ni, ki, jc as int * ki + ic as int),
                    decreases n - c,
                {
                    let p = base + c;
                    proof {
                        let t = jc as int * ki + ic as int;
                        assert(0 <= t && t + 1 <= ki * ki) by (nonlinear_arith)
                            requires
                                0 < ki,
                                0 <= (ic as int) < ki,
                                0 <= (jc as int) < ki,
                                t == jc as int * ki + ic as int,
                        ;
                        lemma_pair_step(dm@, ni, ki, jc as int, ic as int);
                        lemma_cell_bound(vj0, dm@, w@, ni, ki, t, p as int);
                        lemma_cell_bound(vj0, dm@, w@, ni, ki, t + 1, p as int);
                        lemma_mul_bound(
                            w@[p as int] as int,
                            dm_sym(dm@, ni, ic as int, jc as int),
                            MAX_VAL as int,
                            2 * (MAX_VAL as int),
                        );
                        lemma_mul_is_distributive_add(
                            w@[p as int] as int,
                            pair_sum(dm@, ni, ki, t),
                            dm_sym(dm@, ni, ic as int, jc as int),
                        );
                    }
                    let wp = w.flat(p);
                    let cur = vj.flat(p);
                    let upd = cur + wp * d;
                    vj.set_flat(p, upd);
                    c += 1;
                }
                proof {
                    assert((r as int + 1) * ni == r as int * ni + ni) by (nonlinear_arith);
                }
                r += 1;
            }
            ic += 1;
        }
        proof {
            assert((jc as int + 1) * ki == jc as int * ki + ki) by (nonlinear_arith);
        }
        jc += 1;
    }
    proof {
        assert(as_ints(vj@) =~= kernel_result(vj0, dm@, w@, ni, ki));
    }
}

/// The grid total accumulated with the two loop axes swapped (inner index
/// outermost): pair u contributes dm_sym(u / k, u % k) where `pair_sum` has
/// dm_sym(u % k, u / k).
pub open spec fn pair_sum_swapped(dm: Seq<i64>, n: int, k: int, t: int) -> int
    decreases t,
{
    if t <= 0 {
        0
    } else {
        pair_sum_swapped(dm, n, k, t - 1) + dm_sym(dm, n, (t - 1) / k, (t - 1) % k)
    }
}

/// Law: in exact arithmetic the grid total does not depend on which loop axis
/// is outermost — visiting the pairs in the swapped order accumulates exactly
/// the same value, because `dm_sym` is symmetric. This is the order freedom
/// the fully parallel strategy exploits; only floating-point rounding, which
/// this exact model has none of, makes its result approximate.
pub proof fn lemma_axis_order_irrelevant(dm: Seq<i64>, n: int, k: int, t: int)
    ensures
        pair_sum_swapped(dm, n, k, t) == pair_sum(dm, n, k, t),
    decreases t,
{
    if t > 0 {
        lemma_axis_order_irrelevant(dm, n, k, t - 1);
        lemma_dm_sym_symmetric(dm, n, (t - 1) % k, (t - 1) / k);
    }
}

/// Law: disjoint row ownership. A flat position lies in the owned range of
/// at most one row, so two row workers of the row-partitioned strategy never
/// touch the same accumulator cell.
pub proof fn lemma_rows_disjoint(n: int, r1: int, r2: int, p: int)
    by (nonlinear_arith)
    requires
        0 < n,
        0 <= r1,
        0 <= r2,
        r1 * n <= p < r1 * n + n,
        r2 * n <= p < r2 * n + n,
    ensures
        r1 == r2,
{
}

/// Law: row coverage. Every flat position of an n x n buffer lies in the
/// owned range of its own row p / n, so the row partition misses no cell.
pub proof fn lemma_rows_cover(n: int, p: int)
    requires
        0 < n,
        0 <= p < n * n,
    ensures
        0 <= p / n < n,
        (p / n) * n <= p < (p / n) * n + n,
{
    lemma_fundamental_div_mod(p, n);
    lemma_mod_pos_bound(p, n);
    assert(0 <= p / n < n && (p / n) * n <= p < (p / n) * n + n) by (nonlinear_arith)
        requires
            0 < n,
            0 <= p < n * n,
            p == n * (p / n) + (p % n),
            0 <= p % n < n,
    ;
}

/// Law: the sequential and the row-partitioned kernels agree exactly. Both
/// leave `kernel_result` in the accumulator, so two runs from the same
/// initial accumulator, density matrix, weights and bound give bit-identical
/// cells.
pub proof fn lemma_sequential_row_partitioned_agree(
    vj0: Seq<i64>,
    dm: Seq<i64>,
    w: Seq<i64>,
    n: int,
    k: int,
    a: Seq<int>,
    b: Seq<int>,
)
    requires
        a == kernel_result(vj0, dm, w, n, k),
        b == kernel_result(vj0, dm, w, n, k),
    ensures
        a == b,
{
}

/// Law: the symmetrised scalar is symmetric in its index pair:
/// swapping ic and jc gives the same value, for every density matrix.
pub proof fn lemma_dm_sym_symmetric(dm: Seq<i64>, n: int, ic: int, jc: int)
    ensures
        dm_sym(dm, n, ic, jc) == dm_sym(dm, n, jc, ic),
{
}

/// Law: an empty iteration grid (k == 0) is a no-op: the kernel result is the
/// initial accumulator, cell for cell.
pub proof fn lemma_empty_grid_noop(vj0: Seq<i64>, dm: Seq<i64>, w: Seq<i64>, n: int)
    ensures
        kernel_result(vj0, dm, w, n, 0) == as_ints(vj0),
{
    assert(kernel_result(vj0, dm, w, n, 0) =~= as_ints(vj0));
}

} // verus!

