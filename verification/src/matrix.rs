use vstd::prelude::*;
use vstd::pervasive::VecAdditionalExecFns;

verus! {

/// Largest square dimension the library accepts. Together with `MAX_VAL` it
/// keeps every flat index and every accumulated cell inside machine ranges.
pub const MAX_DIM: usize = 1000;

/// Bound on the magnitude of the scalar entries the kernels accept, so that a
/// whole accumulation run provably fits in a 64-bit signed cell.
pub const MAX_VAL: i64 = 1_000_000;

/// Dense square matrix of 64-bit signed scalars, row-major: the entry at
/// (row, col) lives at flat position row * n + col.
pub struct Matrix {
    pub n: usize,
    pub data: Vec<i64>,
}

impl View for Matrix {
    type V = Seq<i64>;

    open spec fn view(&self) -> Seq<i64> {
        self.data@
    }
}

/// Every entry of the sequence lies within the magnitude bound the kernels
/// accept.
pub open spec fn bounded(s: Seq<i64>) -> bool {
    forall|i: int| 0 <= i < s.len() ==> -(MAX_VAL as int) <= #[trigger] s[i] as int <= MAX_VAL as int
}

/// A dimension within `MAX_DIM` has a square that fits comfortably in usize.
pub proof fn lemma_sq_bound(n: int)
    by (nonlinear_arith)
    requires
        0 <= n <= 1000,
    ensures
        n * n <= 1_000_000,
{
}

/// A row-major (row, col) pair lands inside the n x n buffer.
pub proof fn lemma_flat_in_range(n: int, i: int, j: int)
    by (nonlinear_arith)
    requires
        0 < n,
        0 <= i < n,
        0 <= j < n,
    ensures
        0 <= i * n + j < n * n,
{
}

impl Matrix {
    /// Well-formed: row-major n x n storage with n within the supported range.
    pub open spec fn wf(&self) -> bool {
        &&& self.n <= MAX_DIM
        &&& self.data@.len() == self.n * self.n
    }

    /// Fresh all-zero matrix of dimension n.
    pub fn zeros(n: usize) -> (m: Matrix)
        requires
            n <= MAX_DIM,
        ensures
            m.wf(),
            m.n == n,
            forall|p: int| 0 <= p < m@.len() ==> m@[p] == 0i64,
    {
        proof {
            lemma_sq_bound(n as int);
        }
        let total = n * n;
        let mut data: Vec<i64> = Vec::new();
        #[verifier::loop_isolation(false)]
        while data.len() < total
            invariant
                data@.len() <= total,
                forall|p: int| 0 <= p < data@.len() ==> data@[p] == 0i64,
            decreases total - data@.len(),
        {
            data.push(0);
        }
        Matrix { n, data }
    }

    /// Wrap an existing row-major buffer of length n * n.
    pub fn from_flat(n: usize, data: Vec<i64>) -> (m: Matrix)
        requires
            n <= MAX_DIM,
            data@.len() == n * n,
        ensures
            m.wf(),
            m.n == n,
            m@ == data@,
    {
        Matrix { n, data }
    }

    /// The square dimension.
    pub fn dim(&self) -> (r: usize)
        ensures
            r == self.n,
    {
        self.n
    }

    /// Read the entry at flat position p.
    pub fn flat(&self, p: usize) -> (r: i64)
        requires
            self.wf(),
            p < self@.len(),
        ensures
            r == self@[p as int],
    {
        self.data[p]
    }

    /// Overwrite the entry at flat position p.
    pub fn set_flat(&mut self, p: usize, v: i64)
        requires
            old(self).wf(),
            p < old(self)@.len(),
        ensures
            final(self).wf(),
            final(self).n == old(self).n,
            final(self)@ == old(self)@.update(p as int, v),
    {
        self.data.set(p, v);
    }

    /// Read the entry at (row, col).
    pub fn get(&self, r: usize, c: usize) -> (v: i64)
        requires
            self.wf(),
            r < self.n,
            c < self.n,
        ensures
            v == self@[r * self.n + c],
    {
        proof {
            lemma_flat_in_range(self.n as int, r as int, c as int);
            lemma_sq_bound(self.n as int);
        }
        self.data[r * self.n + c]
    }
}

/// Exact element-wise comparison of two matrices (dimension included).
pub fn matrices_equal(a: &Matrix, b: &Matrix) -> (r: bool)
    requires
        a.wf(),
        b.wf(),
    ensures
        r <==> (a.n == b.n && a@ == b@),
{
    if a.n != b.n {
        return false;
    }
    proof {
        lemma_sq_bound(a.n as int);
    }
    let total = a.n * a.n;
    let mut p: usize = 0;
    #[verifier::loop_isolation(false)]
    while p < total
        invariant
            p <= total,
            forall|q: int| 0 <= q < p ==> a@[q] == b@[q],
        decreases total - p,
    {
        if a.data[p] != b.data[p] {
            return false;
        }
        p += 1;
    }
    proof {
        assert(a@ =~= b@);
    }
    true
}

} // verus!
