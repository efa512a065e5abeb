//! Row permutations recorded as a sequence of row exchanges, the form in
//! which pivoted factorizations report them.
use vstd::prelude::*;
use crate::matrix::Matrix;

verus! {

/// `m` with the entries at `a` and `b` exchanged.
pub open spec fn swap_rows<R>(m: Seq<R>, a: int, b: int) -> Seq<R> {
    m.update(a, m[b]).update(b, m[a])
}

/// `m` after the exchanges `piv[0]`, ..., `piv[n - 1]`, in that order: at
/// step `k`, row `k` is exchanged with row `piv[k]`.
pub open spec fn apply_pivots<R>(m: Seq<R>, piv: Seq<usize>, n: nat) -> Seq<R>
    decreases n,
{
    if n == 0 {
        m
    } else {
        swap_rows(apply_pivots(m, piv, (n - 1) as nat), n - 1, piv[n - 1] as int)
    }
}

/// `m` after the exchanges `piv[n - 1]`, ..., `piv[0]`, in that order:
/// the same exchanges replayed last first.
pub open spec fn unapply_pivots<R>(m: Seq<R>, piv: Seq<usize>, n: nat) -> Seq<R>
    decreases n,
{
    if n == 0 {
        m
    } else {
        unapply_pivots(swap_rows(m, n - 1, piv[n - 1] as int), piv, (n - 1) as nat)
    }
}

/// Every exchange of `piv` names two rows of a matrix with `rows` rows.
pub open spec fn valid_pivots(piv: Seq<usize>, rows: nat) -> bool {
    &&& piv.len() <= rows
    &&& forall|k: int| 0 <= k < piv.len() ==> #[trigger] piv[k] < rows
}

proof fn lemma_swap_twice<R>(m: Seq<R>, a: int, b: int)
    requires
        0 <= a < m.len(),
        0 <= b < m.len(),
    ensures
        swap_rows(swap_rows(m, a, b), a, b) == m,
{
    assert(swap_rows(swap_rows(m, a, b), a, b) =~= m);
}

proof fn lemma_apply_len<R>(m: Seq<R>, piv: Seq<usize>, n: nat)
    requires
        n <= piv.len(),
        valid_pivots(piv, m.len()),
    ensures
        apply_pivots(m, piv, n).len() == m.len(),
    decreases n,
{
    if n > 0 {
        lemma_apply_len(m, piv, (n - 1) as nat);
    }
}

proof fn lemma_unapply_len<R>(m: Seq<R>, piv: Seq<usize>, n: nat)
    requires
        n <= piv.len(),
        valid_pivots(piv, m.len()),
    ensures
        unapply_pivots(m, piv, n).len() == m.len(),
    decreases n,
{
    if n > 0 {
        assert(piv[n - 1] < m.len());
        lemma_unapply_len(swap_rows(m, n - 1, piv[n - 1] as int), piv, (n - 1) as nat);
    }
}

proof fn lemma_unapply_apply_prefix<R>(m: Seq<R>, piv: Seq<usize>, n: nat)
    requires
        n <= piv.len(),
        valid_pivots(piv, m.len()),
    ensures
        unapply_pivots(apply_pivots(m, piv, n), piv, n) == m,
    decreases n,
{
    if n > 0 {
        let k = (n - 1) as nat;
        lemma_unapply_apply_prefix(m, piv, k);
        lemma_apply_len(m, piv, k);
        assert(piv[k as int] < m.len());
        lemma_swap_twice(apply_pivots(m, piv, k), k as int, piv[k as int] as int);
    }
}

proof fn lemma_apply_unapply_prefix<R>(m: Seq<R>, piv: Seq<usize>, n: nat)
    requires
        n <= piv.len(),
        valid_pivots(piv, m.len()),
    ensures
        apply_pivots(unapply_pivots(m, piv, n), piv, n) == m,
    decreases n,
{
    if n > 0 {
        let k = (n - 1) as nat;
        assert(piv[k as int] < m.len());
        let s = swap_rows(m, k as int, piv[k as int] as int);
        lemma_apply_unapply_prefix(s, piv, k);
        lemma_swap_twice(m, k as int, piv[k as int] as int);
    }
}

/// Replaying a pivot sequence and then undoing it, last exchange first,
/// gives back the rows unchanged; so does undoing and then replaying.
pub proof fn lemma_pivots_round_trip<R>(m: Seq<R>, piv: Seq<usize>)
    requires
        valid_pivots(piv, m.len()),
    ensures
        unapply_pivots(apply_pivots(m, piv, piv.len()), piv, piv.len()) == m,
        apply_pivots(unapply_pivots(m, piv, piv.len()), piv, piv.len()) == m,
{
    lemma_unapply_apply_prefix(m, piv, piv.len());
    lemma_apply_unapply_prefix(m, piv, piv.len());
}

/// Rows of `m` picked in the order `order`.
pub open spec fn pick_rows<R>(m: Seq<R>, order: Seq<usize>) -> Seq<R> {
    Seq::new(order.len(), |i: int| m[order[i] as int])
}

proof fn lemma_pick_swap<R>(m: Seq<R>, order: Seq<usize>, a: int, b: int)
    requires
        0 <= a < order.len(),
        0 <= b < order.len(),
    ensures
        pick_rows(m, order.update(a, order[b]).update(b, order[a])) == swap_rows(
            pick_rows(m, order),
            a,
            b,
        ),
{
    assert(pick_rows(m, order.update(a, order[b]).update(b, order[a])) =~= swap_rows(
        pick_rows(m, order),
        a,
        b,
    ));
}

/// A row permutation, stored as the sequence of row exchanges that
/// produces it: at step `k`, row `k` is exchanged with row `ipiv[k]`.
/// Indices are 0-based.
#[derive(Clone, Debug)]
pub struct MatrixPermutation {
    ipiv: Vec<usize>,
}

impl View for MatrixPermutation {
    type V = Seq<usize>;

    closed spec fn view(&self) -> Seq<usize> {
        self.ipiv@
    }
}

impl MatrixPermutation {
    /// The permutation made of the exchanges `ipiv` (0-based row indices).
    pub fn from_ipiv(ipiv: Vec<usize>) -> (r: MatrixPermutation)
        ensures
            r@ == ipiv@,
    {
        MatrixPermutation { ipiv }
    }

    /// The permutation made of the exchanges `ipiv` written with 1-based
    /// row indices, as LAPACK reports them; `None` when an index is below 1.
    pub fn from_lapack_ipiv(ipiv: &Vec<i32>) -> (r: Option<MatrixPermutation>)
        ensures
            r.is_some() <==> forall|k: int| 0 <= k < ipiv@.len() ==> #[trigger] ipiv@[k] >= 1,
            r.is_some() ==> r.unwrap()@.len() == ipiv@.len() && forall|k: int|
                0 <= k < ipiv@.len() ==> #[trigger] r.unwrap()@[k] == ipiv@[k] - 1,
    {
        let mut out: Vec<usize> = Vec::new();
        let mut k: usize = 0;
        while k < ipiv.len()
            invariant
                k <= ipiv@.len(),
                out@.len() == k,
                forall|q: int| 0 <= q < k ==> #[trigger] ipiv@[q] >= 1,
                forall|q: int| 0 <= q < k ==> #[trigger] out@[q] == ipiv@[q] - 1,
            decreases ipiv@.len() - k,
        {
            let p = ipiv[k];
            if p < 1 {
                return None;
            }
            out.push((p - 1) as usize);
            k = k + 1;
        }
        Some(MatrixPermutation { ipiv: out })
    }

    /// The exchanges with 1-based row indices, as LAPACK reads them;
    /// `None` when an index does not fit in an `i32` once shifted.
    pub fn lapack_ipiv(&self) -> (r: Option<Vec<i32>>)
        ensures
            r.is_some() <==> forall|k: int| 0 <= k < self@.len() ==> #[trigger] self@[k] < i32::MAX,
            r.is_some() ==> r.unwrap()@.len() == self@.len() && forall|k: int|
                0 <= k < self@.len() ==> #[trigger] r.unwrap()@[k] == self@[k] + 1,
    {
        let mut out: Vec<i32> = Vec::new();
        let mut k: usize = 0;
        while k < self.ipiv.len()
            invariant
                k <= self@.len(),
                out@.len() == k,
                forall|q: int| 0 <= q < k ==> #[trigger] self@[q] < i32::MAX,
                forall|q: int| 0 <= q < k ==> #[trigger] out@[q] == self@[q] + 1,
            decreases self@.len() - k,
        {
            let p = self.ipiv[k];
            if p >= i32::MAX as usize {
                return None;
            }
            out.push((p + 1) as i32);
            k = k + 1;
        }
        Some(out)
    }

    /// The exchanges, 0-based.
    pub fn ipiv(&self) -> (r: &[usize])
        ensures
            r@ == self@,
    {
        self.ipiv.as_slice()
    }

    /// Number of exchanges.
    pub fn len(&self) -> (r: usize)
        ensures
            r == self@.len(),
    {
        self.ipiv.len()
    }

    /// Whether every exchange names two rows of a matrix with `rows` rows.
    pub fn fits(&self, rows: usize) -> (r: bool)
        ensures
            r == valid_pivots(self@, rows as nat),
    {
        if self.ipiv.len() > rows {
            return false;
        }
        let mut k: usize = 0;
        while k < self.ipiv.len()
            invariant
                self@.len() <= rows,
                k <= self@.len(),
                forall|q: int| 0 <= q < k ==> #[trigger] self@[q] < rows,
            decreases self@.len() - k,
        {
            if self.ipiv[k] >= rows {
                return false;
            }
            k = k + 1;
        }
        true
    }

    /// The order in which rows end up after the exchanges, replayed in
    /// order (`forward`) or last first.
    fn row_order<T>(&self, rows: usize, forward: bool, Ghost(m): Ghost<Seq<Seq<T>>>) -> (r: Vec<usize>)
        requires
            valid_pivots(self@, rows as nat),
            m.len() == rows,
        ensures
            r@.len() == rows,
            forall|i: int| 0 <= i < rows ==> #[trigger] r@[i] < rows,
            pick_rows(m, r@) == if forward {
                apply_pivots(m, self@, self@.len())
            } else {
                unapply_pivots(m, self@, self@.len())
            },
    {
        let mut order: Vec<usize> = Vec::new();
        let mut i: usize = 0;
        while i < rows
            invariant
                i <= rows,
                order@.len() == i,
                forall|q: int| 0 <= q < i ==> #[trigger] order@[q] == q,
            decreases rows - i,
        {
            order.push(i);
            i = i + 1;
        }
        assert(pick_rows(m, order@) =~= m);
        let n = self.ipiv.len();
        if forward {
            let mut k: usize = 0;
            while k < n
                invariant
                    n == self@.len(),
                    valid_pivots(self@, rows as nat),
                    k <= n,
                    order@.len() == rows,
                    forall|q: int| 0 <= q < rows ==> #[trigger] order@[q] < rows,
                    m.len() == rows,
                    pick_rows(m, order@) == apply_pivots(m, self@, k as nat),
                decreases n - k,
            {
                let p = self.ipiv[k];
                assert(p < rows);
                let ghost before = order@;
                let a = order[k];
                let b = order[p];
                order.set(k, b);
                order.set(p, a);
                proof {
                    assert(order@ == before.update(k as int, before[p as int]).update(
                        p as int,
                        before[k as int],
                    ));
                    lemma_pick_swap(m, before, k as int, p as int);
                }
                k = k + 1;
            }
        } else {
            let mut k: usize = n;
            while k > 0
                invariant
                    n == self@.len(),
                    valid_pivots(self@, rows as nat),
                    k <= n,
                    order@.len() == rows,
                    forall|q: int| 0 <= q < rows ==> #[trigger] order@[q] < rows,
                    m.len() == rows,
                    unapply_pivots(m, self@, n as nat) == unapply_pivots(
                        pick_rows(m, order@),
                        self@,
                        k as nat,
                    ),
                decreases k,
            {
                let p = self.ipiv[k - 1];
                assert(p < rows);
                let ghost before = order@;
                let a = order[k - 1];
                let b = order[p];
                order.set(k - 1, b);
                order.set(p, a);
                proof {
                    assert(order@ == before.update((k - 1) as int, before[p as int]).update(
                        p as int,
                        before[(k - 1) as int],
                    ));
                    lemma_pick_swap(m, before, (k - 1) as int, p as int);
                }
                k = k - 1;
            }
        }
        order
    }

    /// Rows of `mat` reordered by the exchanges, replayed in order
    /// (`forward`) or last first; `None` when an exchange names a row that
    /// `mat` does not have.
    fn reorder<T: Copy>(&self, mat: &Matrix<T>, forward: bool) -> (r: Option<Matrix<T>>)
        requires
            mat.wf(),
        ensures
            r.is_some() <==> valid_pivots(self@, mat.nrows()),
            r.is_some() ==> {
                let p = r.unwrap();
                &&& p.wf()
                &&& p.is_standard()
                &&& p.nrows() == mat.nrows()
                &&& p.ncols() == mat.ncols()
                &&& p@ == if forward {
                    apply_pivots(mat@, self@, self@.len())
                } else {
                    unapply_pivots(mat@, self@, self@.len())
                }
            },
    {
        let rows = mat.rows();
        if !self.fits(rows) {
            return None;
        }
        let order = self.row_order::<T>(rows, forward, Ghost(mat@));
        let mut out: Vec<Vec<T>> = Vec::new();
        let mut i: usize = 0;
        while i < rows
            invariant
                mat.wf(),
                rows == mat.nrows(),
                order@.len() == rows,
                forall|q: int| 0 <= q < rows ==> #[trigger] order@[q] < rows,
                i <= rows,
                out@.len() == i,
                forall|a: int| 0 <= a < i ==> (#[trigger] out@[a])@ == mat@[order@[a] as int],
            decreases rows - i,
        {
            let line = mat.row(order[i]);
            out.push(line);
            i = i + 1;
        }
        let r = Matrix::from_rows(out, mat.cols());
        assert(r@ =~= pick_rows(mat@, order@));
        Some(r)
    }

    /// `mat` with the exchanges applied in order: row `k` is exchanged with
    /// row `ipiv[k]` for `k = 0, 1, ...`. `None` when an exchange names a row
    /// that `mat` does not have.
    pub fn permute<T: Copy>(&self, mat: &Matrix<T>) -> (r: Option<Matrix<T>>)
        requires
            mat.wf(),
        ensures
            r.is_some() <==> valid_pivots(self@, mat.nrows()),
            r.is_some() ==> {
                let p = r.unwrap();
                &&& p.wf()
                &&& p.nrows() == mat.nrows()
                &&& p.ncols() == mat.ncols()
                &&& p@ == apply_pivots(mat@, self@, self@.len())
            },
    {
        self.reorder(mat, true)
    }

    /// Same as `permute`, consuming `mat`.
    pub fn permute_into<T: Copy>(&self, mat: Matrix<T>) -> (r: Option<Matrix<T>>)
        requires
            mat.wf(),
        ensures
            r.is_some() <==> valid_pivots(self@, mat.nrows()),
            r.is_some() ==> {
                let p = r.unwrap();
                &&& p.wf()
                &&& p.nrows() == mat.nrows()
                &&& p.ncols() == mat.ncols()
                &&& p@ == apply_pivots(mat@, self@, self@.len())
            },
    {
        self.reorder(&mat, true)
    }

    /// `mat` with the exchanges undone: the same exchanges applied last
    /// first. `None` when an exchange names a row that `mat` does not have.
    pub fn unpermute<T: Copy>(&self, mat: &Matrix<T>) -> (r: Option<Matrix<T>>)
        requires
            mat.wf(),
        ensures
            r.is_some() <==> valid_pivots(self@, mat.nrows()),
            r.is_some() ==> {
                let p = r.unwrap();
                &&& p.wf()
                &&& p.nrows() == mat.nrows()
                &&& p.ncols() == mat.ncols()
                &&& p@ == unapply_pivots(mat@, self@, self@.len())
            },
    {
        self.reorder(mat, false)
    }

    /// Same as `unpermute`, consuming `mat`.
    pub fn unpermute_into<T: Copy>(&self, mat: Matrix<T>) -> (r: Option<Matrix<T>>)
        requires
            mat.wf(),
        ensures
            r.is_some() <==> valid_pivots(self@, mat.nrows()),
            r.is_some() ==> {
                let p = r.unwrap();
                &&& p.wf()
                &&& p.nrows() == mat.nrows()
                &&& p.ncols() == mat.ncols()
                &&& p@ == unapply_pivots(mat@, self@, self@.len())
            },
    {
        self.reorder(&mat, false)
    }
}

} // verus!
