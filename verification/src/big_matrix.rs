use vstd::prelude::*;
use crate::big_fraction::BigFraction;
use crate::big_vector::{BigVector, dot_spec, rat_eqv, rat_mul, rat_add, rat_sub};

verus! {

/// A dense matrix of exact rationals, stored as rows.
pub struct BigMatrix {
    rows: Vec<BigVector>,
    cols: usize,
}

impl BigMatrix {
    /// The row vectors.
    pub closed spec fn rows_seq(&self) -> Seq<BigVector> {
        self.rows@
    }

    pub closed spec fn cols_spec(&self) -> nat {
        self.cols as nat
    }

    pub open spec fn rows_spec(&self) -> nat {
        self.rows_seq().len()
    }

    /// The entry at `(r, c)` as a rational pair.
    pub open spec fn at(&self, r: int, c: int) -> (int, int) {
        self.rows_seq()[r].view_seq()[c].pair()
    }

    /// Rectangular shape with every entry in reduced form.
    pub open spec fn wf(&self) -> bool {
        forall|r: int|
            0 <= r < self.rows_spec() ==> (#[trigger] self.rows_seq()[r]).dim() == self.cols_spec()
                && self.rows_seq()[r].wf()
    }

    /// The all-zero matrix of the given shape.
    pub fn new(rows: usize, cols: usize) -> (m: BigMatrix)
        ensures
            m.wf(),
            m.rows_spec() == rows,
            m.cols_spec() == cols,
            forall|r: int, c: int|
                0 <= r < rows && 0 <= c < cols ==> #[trigger] m.at(r, c) == (0int, 1int),
    {
        let mut data: Vec<BigVector> = Vec::new();
        let mut i: usize = 0;
        while i < rows
            invariant
                i <= rows,
                data@.len() == i,
                forall|r: int|
                    0 <= r < i ==> (#[trigger] data@[r]).dim() == cols && data@[r].wf(),
                forall|r: int, c: int|
                    0 <= r < i && 0 <= c < cols ==> (#[trigger] data@[r].view_seq()[c]).pair() == (
                    0int,
                    1int,
                ),
            decreases rows - i,
        {
            data.push(BigVector::new(cols));
            i = i + 1;
        }
        BigMatrix { rows: data, cols }
    }

    /// The identity matrix: ones on the diagonal, zeros elsewhere.
    pub fn identity(size: usize) -> (m: BigMatrix)
        ensures
            m.wf(),
            m.rows_spec() == size,
            m.cols_spec() == size,
            forall|r: int, c: int|
                0 <= r < size && 0 <= c < size ==> #[trigger] m.at(r, c) == (
                if r == c {
                    (1int, 1int)
                } else {
                    (0int, 1int)
                }),
    {
        let mut m = BigMatrix::new(size, size);
        let mut i: usize = 0;
        while i < size
            invariant
                i <= size,
                m.wf(),
                m.rows_spec() == size,
                m.cols_spec() == size,
                forall|r: int, c: int|
                    0 <= r < size && 0 <= c < size && r >= i ==> #[trigger] m.at(r, c) == (
                    0int,
                    1int,
                ),
                forall|r: int, c: int|
                    0 <= r < i && 0 <= c < size ==> #[trigger] m.at(r, c) == (
                    if r == c {
                        (1int, 1int)
                    } else {
                        (0int, 1int)
                    }),
            decreases size - i,
        {
            m.set(i, i, BigFraction::one());
            i = i + 1;
        }
        m
    }

    pub fn row_count(&self) -> (r: usize)
        ensures
            r == self.rows_spec(),
    {
        self.rows.len()
    }

    pub fn col_count(&self) -> (r: usize)
        ensures
            r == self.cols_spec(),
    {
        self.cols
    }

    pub fn is_square(&self) -> (r: bool)
        ensures
            r == (self.rows_spec() == self.cols_spec()),
    {
        self.rows.len() == self.cols
    }

    pub fn get(&self, r: usize, c: usize) -> (v: &BigFraction)
        requires
            self.wf(),
            r < self.rows_spec(),
            c < self.cols_spec(),
        ensures
            v.pair() == self.at(r as int, c as int),
            v.wf(),
    {
        self.rows[r].get(c)
    }

    /// Replace the entry at `(r, c)`; every other entry keeps its value.
    pub fn set(&mut self, r: usize, c: usize, value: BigFraction)
        requires
            old(self).wf(),
            r < old(self).rows_spec(),
            c < old(self).cols_spec(),
            value.wf(),
        ensures
            final(self).wf(),
            final(self).rows_spec() == old(self).rows_spec(),
            final(self).cols_spec() == old(self).cols_spec(),
            final(self).at(r as int, c as int) == value.pair(),
            forall|r2: int, c2: int|
                0 <= r2 < old(self).rows_spec() && 0 <= c2 < old(self).cols_spec() && !(r2 == r
                    && c2 == c) ==> #[trigger] final(self).at(r2, c2) == old(self).at(r2, c2),
    {
        let ghost pre = self.rows@;
        let mut row = self.rows.remove(r);
        row.set(c, value);
        self.rows.insert(r, row);
        proof {
            assert forall|r2: int|
                0 <= r2 < pre.len() && r2 != r implies #[trigger] self.rows@[r2] == pre[r2] by {}
        }
    }

    /// A copy of row `r`.
    pub fn get_row(&self, r: usize) -> (v: BigVector)
        requires
            self.wf(),
            r < self.rows_spec(),
        ensures
            v.wf(),
            v.dim() == self.cols_spec(),
            forall|c: int|
                0 <= c < self.cols_spec() ==> (#[trigger] v.view_seq()[c]).pair() == self.at(
                    r as int,
                    c,
                ),
    {
        let mut data: Vec<BigFraction> = Vec::new();
        let mut c: usize = 0;
        while c < self.cols
            invariant
                self.wf(),
                r < self.rows_spec(),
                c <= self.cols_spec(),
                data@.len() == c,
                forall|k: int|
                    0 <= k < c ==> (#[trigger] data@[k]).pair() == self.at(r as int, k)
                        && data@[k].wf(),
            decreases self.cols_spec() - c,
        {
            data.push(self.rows[r].get(c).clone_frac());
            c = c + 1;
        }
        BigVector::from_data(data)
    }

    /// A copy of column `c`.
    pub fn get_col(&self, c: usize) -> (v: BigVector)
        requires
            self.wf(),
            c < self.cols_spec(),
        ensures
            v.wf(),
            v.dim() == self.rows_spec(),
            forall|r: int|
                0 <= r < self.rows_spec() ==> (#[trigger] v.view_seq()[r]).pair() == self.at(
                    r,
                    c as int,
                ),
    {
        let mut data: Vec<BigFraction> = Vec::new();
        let mut r: usize = 0;
        while r < self.rows.len()
            invariant
                self.wf(),
                c < self.cols_spec(),
                r <= self.rows_spec(),
                data@.len() == r,
                forall|k: int|
                    0 <= k < r ==> (#[trigger] data@[k]).pair() == self.at(k, c as int)
                        && data@[k].wf(),
            decreases self.rows_spec() - r,
        {
            data.push(self.rows[r].get(c).clone_frac());
            r = r + 1;
        }
        BigVector::from_data(data)
    }

    /// Overwrite row `r` with the values of `v`.
    pub fn set_row(&mut self, r: usize, v: &BigVector)
        requires
            old(self).wf(),
            r < old(self).rows_spec(),
            v.wf(),
            v.dim() == old(self).cols_spec(),
        ensures
            final(self).wf(),
            final(self).rows_spec() == old(self).rows_spec(),
            final(self).cols_spec() == old(self).cols_spec(),
            forall|c: int|
                0 <= c < old(self).cols_spec() ==> #[trigger] final(self).at(r as int, c)
                    == v.view_seq()[c].pair(),
            forall|r2: int, c: int|
                0 <= r2 < old(self).rows_spec() && 0 <= c < old(self).cols_spec() && r2 != r
                    ==> #[trigger] final(self).at(r2, c) == old(self).at(r2, c),
    {
        let ghost pre = self.rows@;
        let mut data: Vec<BigFraction> = Vec::new();
        let mut c: usize = 0;
        while c < self.cols
            invariant
                v.wf(),
                v.dim() == self.cols_spec(),
                c <= self.cols_spec(),
                data@.len() == c,
                forall|k: int|
                    0 <= k < c ==> (#[trigger] data@[k]).pair() == v.view_seq()[k].pair()
                        && data@[k].wf(),
                self.cols == old(self).cols,
            decreases self.cols_spec() - c,
        {
            data.push(v.get(c).clone_frac());
            c = c + 1;
        }
        let row = BigVector::from_data(data);
        let _ = self.rows.remove(r);
        self.rows.insert(r, row);
        proof {
            assert forall|r2: int|
                0 <= r2 < pre.len() && r2 != r implies #[trigger] self.rows@[r2] == pre[r2] by {}
        }
    }

    /// Exchange rows `r1` and `r2`.
    pub fn swap_rows(&mut self, r1: usize, r2: usize)
        requires
            old(self).wf(),
            r1 < old(self).rows_spec(),
            r2 < old(self).rows_spec(),
        ensures
            final(self).wf(),
            final(self).rows_spec() == old(self).rows_spec(),
            final(self).cols_spec() == old(self).cols_spec(),
            forall|c: int|
                0 <= c < old(self).cols_spec() ==> #[trigger] final(self).at(r1 as int, c) == old(
                    self,
                ).at(r2 as int, c),
            forall|c: int|
                0 <= c < old(self).cols_spec() ==> #[trigger] final(self).at(r2 as int, c) == old(
                    self,
                ).at(r1 as int, c),
            forall|r: int, c: int|
                0 <= r < old(self).rows_spec() && 0 <= c < old(self).cols_spec() && r != r1 && r
                    != r2 ==> #[trigger] final(self).at(r, c) == old(self).at(r, c),
    {
        let ghost pre = self.rows@;
        if r1 == r2 {
            return ;
        }
        let (lo, hi) = if r1 < r2 {
            (r1, r2)
        } else {
            (r2, r1)
        };
        let row_hi = self.rows.remove(hi);
        let row_lo = self.rows.remove(lo);
        self.rows.insert(lo, row_hi);
        self.rows.insert(hi, row_lo);
        proof {
            assert(self.rows@ =~= pre.update(lo as int, pre[hi as int]).update(
                hi as int,
                pre[lo as int],
            ));
        }
    }

    /// The transposed matrix.
    pub fn transpose(&self) -> (m: BigMatrix)
        requires
            self.wf(),
        ensures
            m.wf(),
            m.rows_spec() == self.cols_spec(),
            m.cols_spec() == self.rows_spec(),
            forall|r: int, c: int|
                0 <= r < self.cols_spec() && 0 <= c < self.rows_spec() ==> #[trigger] m.at(r, c)
                    == self.at(c, r),
    {
        let mut data: Vec<BigVector> = Vec::new();
        let mut r: usize = 0;
        while r < self.cols
            invariant
                self.wf(),
                r <= self.cols_spec(),
                data@.len() == r,
                forall|k: int|
                    0 <= k < r ==> (#[trigger] data@[k]).dim() == self.rows_spec()
                        && data@[k].wf(),
                forall|k: int, c: int|
                    0 <= k < r && 0 <= c < self.rows_spec() ==> (
                    #[trigger] data@[k].view_seq()[c]).pair() == self.at(c, k),
            decreases self.cols_spec() - r,
        {
            data.push(self.get_col(r));
            r = r + 1;
        }
        BigMatrix { rows: data, cols: self.rows.len() }
    }

    /// Matrix-vector product: entry `r` is the inner product of row `r`
    /// with `v`.
    pub fn multiply_vector(&self, v: &BigVector) -> (r: BigVector)
        requires
            self.wf(),
            v.wf(),
            v.dim() == self.cols_spec(),
        ensures
            r.wf(),
            r.dim() == self.rows_spec(),
            forall|i: int|
                0 <= i < self.rows_spec() ==> rat_eqv(
                    (#[trigger] r.view_seq()[i]).pair(),
                    dot_spec(
                        self.rows_seq()[i].view_seq(),
                        v.view_seq(),
                        self.cols_spec() as int,
                    ),
                ),
    {
        let mut data: Vec<BigFraction> = Vec::new();
        let mut i: usize = 0;
        while i < self.rows.len()
            invariant
                self.wf(),
                v.wf(),
                v.dim() == self.cols_spec(),
                i <= self.rows_spec(),
                data@.len() == i,
                forall|k: int| 0 <= k < i ==> (#[trigger] data@[k]).wf(),
                forall|k: int|
                    0 <= k < i ==> rat_eqv(
                        (#[trigger] data@[k]).pair(),
                        dot_spec(
                            self.rows_seq()[k].view_seq(),
                            v.view_seq(),
                            self.cols_spec() as int,
                        ),
                    ),
            decreases self.rows_spec() - i,
        {
            data.push(self.rows[i].dot(v));
            i = i + 1;
        }
        BigVector::from_data(data)
    }

    /// Matrix product: entry `(r, c)` is the inner product of row `r` of
    /// `self` with column `c` of `other`.
    pub fn multiply_matrix(&self, other: &BigMatrix) -> (m: BigMatrix)
        requires
            self.wf(),
            other.wf(),
            self.cols_spec() == other.rows_spec(),
        ensures
            m.wf(),
            m.rows_spec() == self.rows_spec(),
            m.cols_spec() == other.cols_spec(),
            forall|r: int, c: int|
                0 <= r < self.rows_spec() && 0 <= c < other.cols_spec() ==> rat_eqv(
                    #[trigger] m.at(r, c),
                    dot_spec(
                        self.rows_seq()[r].view_seq(),
                        col_seq(other, c),
                        self.cols_spec() as int,
                    ),
                ),
    {
        let mut data: Vec<BigVector> = Vec::new();
        let mut r: usize = 0;
        while r < self.rows.len()
            invariant
                self.wf(),
                other.wf(),
                self.cols_spec() == other.rows_spec(),
                r <= self.rows_spec(),
                data@.len() == r,
                forall|k: int|
                    0 <= k < r ==> (#[trigger] data@[k]).dim() == other.cols_spec()
                        && data@[k].wf(),
                forall|k: int, c: int|
                    0 <= k < r && 0 <= c < other.cols_spec() ==> rat_eqv(
                        (#[trigger] data@[k].view_seq()[c]).pair(),
                        dot_spec(
                            self.rows_seq()[k].view_seq(),
                            col_seq(other, c),
                            self.cols_spec() as int,
                        ),
                    ),
            decreases self.rows_spec() - r,
        {
            let mut row: Vec<BigFraction> = Vec::new();
            let mut c: usize = 0;
            while c < other.cols
                invariant
                    self.wf(),
                    other.wf(),
                    self.cols_spec() == other.rows_spec(),
                    r < self.rows_spec(),
                    c <= other.cols_spec(),
                    row@.len() == c,
                    forall|k: int| 0 <= k < c ==> (#[trigger] row@[k]).wf(),
                    forall|k: int|
                        0 <= k < c ==> rat_eqv(
                            (#[trigger] row@[k]).pair(),
                            dot_spec(
                                self.rows_seq()[r as int].view_seq(),
                                col_seq(other, k),
                                self.cols_spec() as int,
                            ),
                        ),
                decreases other.cols_spec() - c,
            {
                let col = other.get_col(c);
                let entry = self.rows[r].dot(&col);
                proof {
                    lemma_dot_same_pairs(
                        self.rows_seq()[r as int].view_seq(),
                        col.view_seq(),
                        col_seq(other, c as int),
                        self.cols_spec() as int,
                    );
                }
                row.push(entry);
                c = c + 1;
            }
            data.push(BigVector::from_data(row));
            r = r + 1;
        }
        BigMatrix { rows: data, cols: other.cols }
    }

    /// Exchange the entries at `(r1, c1)` and `(r2, c2)`.
    pub fn swap_elements(&mut self, r1: usize, c1: usize, r2: usize, c2: usize)
        requires
            old(self).wf(),
            r1 < old(self).rows_spec(),
            c1 < old(self).cols_spec(),
            r2 < old(self).rows_spec(),
            c2 < old(self).cols_spec(),
            !(r1 == r2 && c1 == c2),
        ensures
            final(self).wf(),
            final(self).rows_spec() == old(self).rows_spec(),
            final(self).cols_spec() == old(self).cols_spec(),
            final(self).at(r1 as int, c1 as int) == old(self).at(r2 as int, c2 as int),
            final(self).at(r2 as int, c2 as int) == old(self).at(r1 as int, c1 as int),
            forall|r: int, c: int|
                0 <= r < old(self).rows_spec() && 0 <= c < old(self).cols_spec() && !(r == r1 && c
                    == c1) && !(r == r2 && c == c2) ==> #[trigger] final(self).at(r, c) == old(
                    self,
                ).at(r, c),
    {
        let a = self.get(r1, c1).clone_frac();
        let b = self.get(r2, c2).clone_frac();
        self.set(r1, c1, b);
        self.set(r2, c2, a);
    }

    /// Scale every entry by a rational.
    pub fn multiply_scalar(&self, scalar: &BigFraction) -> (m: BigMatrix)
        requires
            self.wf(),
            scalar.wf(),
        ensures
            m.wf(),
            m.rows_spec() == self.rows_spec(),
            m.cols_spec() == self.cols_spec(),
            forall|r: int, c: int|
                0 <= r < self.rows_spec() && 0 <= c < self.cols_spec() ==> rat_eqv(
                    #[trigger] m.at(r, c),
                    rat_mul(self.at(r, c), scalar.pair()),
                ),
    {
        let mut data: Vec<BigVector> = Vec::new();
        let mut r: usize = 0;
        while r < self.rows.len()
            invariant
                self.wf(),
                scalar.wf(),
                r <= self.rows_spec(),
                data@.len() == r,
                forall|k: int|
                    0 <= k < r ==> (#[trigger] data@[k]).dim() == self.cols_spec()
                        && data@[k].wf(),
                forall|k: int, c: int|
                    0 <= k < r && 0 <= c < self.cols_spec() ==> rat_eqv(
                        (#[trigger] data@[k].view_seq()[c]).pair(),
                        rat_mul(self.at(k, c), scalar.pair()),
                    ),
            decreases self.rows_spec() - r,
        {
            data.push(self.rows[r].multiply_scalar(scalar));
            r = r + 1;
        }
        BigMatrix { rows: data, cols: self.cols }
    }

    /// A rectangular copy of the block starting at `(start_row, start_col)`.
    pub fn submatrix(&self, start_row: usize, start_col: usize, row_count: usize, col_count: usize)
        -> (m: BigMatrix)
        requires
            self.wf(),
            start_row + row_count <= self.rows_spec(),
            start_col + col_count <= self.cols_spec(),
        ensures
            m.wf(),
            m.rows_spec() == row_count,
            m.cols_spec() == col_count,
            forall|r: int, c: int|
                0 <= r < row_count && 0 <= c < col_count ==> #[trigger] m.at(r, c) == self.at(
                    start_row + r,
                    start_col + c,
                ),
    {
        let nrows = self.rows.len();
        let mut data: Vec<BigVector> = Vec::new();
        let mut r: usize = 0;
        while r < row_count
            invariant
                self.wf(),
                nrows == self.rows_spec(),
                start_row + row_count <= self.rows_spec(),
                start_col + col_count <= self.cols_spec(),
                r <= row_count,
                data@.len() == r,
                forall|k: int|
                    0 <= k < r ==> (#[trigger] data@[k]).dim() == col_count && data@[k].wf(),
                forall|k: int, c: int|
                    0 <= k < r && 0 <= c < col_count ==> (
                    #[trigger] data@[k].view_seq()[c]).pair() == self.at(
                        start_row + k,
                        start_col + c,
                    ),
            decreases row_count - r,
        {
            let mut row: Vec<BigFraction> = Vec::new();
            let mut c: usize = 0;
            while c < col_count
                invariant
                    self.wf(),
                    nrows == self.rows_spec(),
                    start_row + row_count <= self.rows_spec(),
                    start_col + col_count <= self.cols_spec(),
                    r < row_count,
                    c <= col_count,
                    row@.len() == c,
                    forall|k: int|
                        0 <= k < c ==> ((#[trigger] row@[k]).pair() == self.at(
                            start_row + r,
                            start_col + k,
                        ) && row@[k].wf()),
                decreases col_count - c,
            {
                row.push(self.rows[start_row + r].get(start_col + c).clone_frac());
                c = c + 1;
            }
            data.push(BigVector::from_data(row));
            r = r + 1;
        }
        BigMatrix { rows: data, cols: col_count }
    }

    /// Overwrite column `c` with the values of `v`.
    pub fn set_col(&mut self, c: usize, v: &BigVector)
        requires
            old(self).wf(),
            c < old(self).cols_spec(),
            v.wf(),
            v.dim() == old(self).rows_spec(),
        ensures
            final(self).wf(),
            final(self).rows_spec() == old(self).rows_spec(),
            final(self).cols_spec() == old(self).cols_spec(),
            forall|r: int|
                0 <= r < old(self).rows_spec() ==> #[trigger] final(self).at(r, c as int)
                    == v.view_seq()[r].pair(),
            forall|r: int, c2: int|
                0 <= r < old(self).rows_spec() && 0 <= c2 < old(self).cols_spec() && c2 != c
                    ==> #[trigger] final(self).at(r, c2) == old(self).at(r, c2),
    {
        let ghost orig = *self;
        let mut r: usize = 0;
        while r < self.rows.len()
            invariant
                self.wf(),
                self.rows_spec() == orig.rows_spec(),
                self.cols_spec() == orig.cols_spec(),
                c < orig.cols_spec(),
                v.wf(),
                v.dim() == orig.rows_spec(),
                r <= orig.rows_spec(),
                forall|k: int|
                    0 <= k < r ==> #[trigger] self.at(k, c as int) == v.view_seq()[k].pair(),
                forall|k: int, c2: int|
                    0 <= k < orig.rows_spec() && 0 <= c2 < orig.cols_spec() && (c2 != c || k >= r)
                        ==> #[trigger] self.at(k, c2) == orig.at(k, c2),
            decreases orig.rows_spec() - r,
        {
            self.set(r, c, v.get(r).clone_frac());
            r = r + 1;
        }
    }

    /// Subtract `scale` times row `source` from row `target`, in place.
    pub fn row_subtract_scaled(&mut self, target: usize, source: usize, scale: &BigFraction)
        requires
            old(self).wf(),
            target < old(self).rows_spec(),
            source < old(self).rows_spec(),
            target != source,
            scale.wf(),
        ensures
            final(self).wf(),
            final(self).rows_spec() == old(self).rows_spec(),
            final(self).cols_spec() == old(self).cols_spec(),
            forall|c: int|
                0 <= c < old(self).cols_spec() ==> rat_eqv(
                    #[trigger] final(self).at(target as int, c),
                    rat_sub(
                        old(self).at(target as int, c),
                        rat_mul(old(self).at(source as int, c), scale.pair()),
                    ),
                ),
            forall|r: int, c: int|
                0 <= r < old(self).rows_spec() && 0 <= c < old(self).cols_spec() && r != target
                    ==> #[trigger] final(self).at(r, c) == old(self).at(r, c),
    {
        let ghost orig = *self;
        let mut c: usize = 0;
        while c < self.cols
            invariant
                self.wf(),
                self.rows_spec() == orig.rows_spec(),
                self.cols_spec() == orig.cols_spec(),
                target < orig.rows_spec(),
                source < orig.rows_spec(),
                target != source,
                scale.wf(),
                c <= orig.cols_spec(),
                forall|k: int|
                    0 <= k < c ==> rat_eqv(
                        #[trigger] self.at(target as int, k),
                        rat_sub(
                            orig.at(target as int, k),
                            rat_mul(orig.at(source as int, k), scale.pair()),
                        ),
                    ),
                forall|r: int, k: int|
                    0 <= r < orig.rows_spec() && 0 <= k < orig.cols_spec() && (r != target || k
                        >= c) ==> #[trigger] self.at(r, k) == orig.at(r, k),
            decreases orig.cols_spec() - c,
        {
            let prod = self.get(source, c).mul_frac(scale);
            let val = self.get(target, c).sub_frac(&prod);
            proof {
                lemma_sub_mul_pair(
                    orig.at(target as int, c as int),
                    orig.at(source as int, c as int),
                    scale.pair(),
                    prod.pair(),
                    val.pair(),
                );
            }
            self.set(target, c, val);
            c = c + 1;
        }
    }

    /// Add `scale` times row `source` to row `target`, in place.
    pub fn row_add_scaled(&mut self, target: usize, source: usize, scale: &BigFraction)
        requires
            old(self).wf(),
            target < old(self).rows_spec(),
            source < old(self).rows_spec(),
            target != source,
            scale.wf(),
        ensures
            final(self).wf(),
            final(self).rows_spec() == old(self).rows_spec(),
            final(self).cols_spec() == old(self).cols_spec(),
            forall|c: int|
                0 <= c < old(self).cols_spec() ==> rat_eqv(
                    #[trigger] final(self).at(target as int, c),
                    rat_add(
                        old(self).at(target as int, c),
                        rat_mul(old(self).at(source as int, c), scale.pair()),
                    ),
                ),
            forall|r: int, c: int|
                0 <= r < old(self).rows_spec() && 0 <= c < old(self).cols_spec() && r != target
                    ==> #[trigger] final(self).at(r, c) == old(self).at(r, c),
    {
        let ghost orig = *self;
        let mut c: usize = 0;
        while c < self.cols
            invariant
                self.wf(),
                self.rows_spec() == orig.rows_spec(),
                self.cols_spec() == orig.cols_spec(),
                target < orig.rows_spec(),
                source < orig.rows_spec(),
                target != source,
                scale.wf(),
                c <= orig.cols_spec(),
                forall|k: int|
                    0 <= k < c ==> rat_eqv(
                        #[trigger] self.at(target as int, k),
                        rat_add(
                            orig.at(target as int, k),
                            rat_mul(orig.at(source as int, k), scale.pair()),
                        ),
                    ),
                forall|r: int, k: int|
                    0 <= r < orig.rows_spec() && 0 <= k < orig.cols_spec() && (r != target || k
                        >= c) ==> #[trigger] self.at(r, k) == orig.at(r, k),
            decreases orig.cols_spec() - c,
        {
            let prod = self.get(source, c).mul_frac(scale);
            let val = self.get(target, c).add_frac(&prod);
            proof {
                lemma_add_mul_pair(
                    orig.at(target as int, c as int),
                    orig.at(source as int, c as int),
                    scale.pair(),
                    prod.pair(),
                    val.pair(),
                );
            }
            self.set(target, c, val);
            c = c + 1;
        }
    }

    /// Multiply row `row` by a rational, in place.
    pub fn row_multiply(&mut self, row: usize, scalar: &BigFraction)
        requires
            old(self).wf(),
            row < old(self).rows_spec(),
            scalar.wf(),
        ensures
            final(self).wf(),
            final(self).rows_spec() == old(self).rows_spec(),
            final(self).cols_spec() == old(self).cols_spec(),
            forall|c: int|
                0 <= c < old(self).cols_spec() ==> rat_eqv(
                    #[trigger] final(self).at(row as int, c),
                    rat_mul(old(self).at(row as int, c), scalar.pair()),
                ),
            forall|r: int, c: int|
                0 <= r < old(self).rows_spec() && 0 <= c < old(self).cols_spec() && r != row
                    ==> #[trigger] final(self).at(r, c) == old(self).at(r, c),
    {
        let ghost orig = *self;
        let mut c: usize = 0;
        while c < self.cols
            invariant
                self.wf(),
                self.rows_spec() == orig.rows_spec(),
                self.cols_spec() == orig.cols_spec(),
                row < orig.rows_spec(),
                scalar.wf(),
                c <= orig.cols_spec(),
                forall|k: int|
                    0 <= k < c ==> rat_eqv(
                        #[trigger] self.at(row as int, k),
                        rat_mul(orig.at(row as int, k), scalar.pair()),
                    ),
                forall|r: int, k: int|
                    0 <= r < orig.rows_spec() && 0 <= k < orig.cols_spec() && (r != row || k >= c)
                        ==> #[trigger] self.at(r, k) == orig.at(r, k),
            decreases orig.cols_spec() - c,
        {
            let val = self.get(row, c).mul_frac(scalar);
            self.set(row, c, val);
            c = c + 1;
        }
    }

    /// Divide row `row` by a nonzero rational, in place: multiplication by
    /// the reciprocal.
    pub fn row_divide(&mut self, row: usize, divisor: &BigFraction)
        requires
            old(self).wf(),
            row < old(self).rows_spec(),
            divisor.wf(),
            divisor.num_int() != 0,
        ensures
            final(self).wf(),
            final(self).rows_spec() == old(self).rows_spec(),
            final(self).cols_spec() == old(self).cols_spec(),
            forall|c: int|
                0 <= c < old(self).cols_spec() ==> rat_eqv(
                    #[trigger] rat_mul(final(self).at(row as int, c), divisor.pair()),
                    old(self).at(row as int, c),
                ),
            forall|r: int, c: int|
                0 <= r < old(self).rows_spec() && 0 <= c < old(self).cols_spec() && r != row
                    ==> #[trigger] final(self).at(r, c) == old(self).at(r, c),
    {
        let ghost orig = *self;
        let recip = divisor.reciprocal();
        self.row_multiply(row, &recip);
        proof {
            assert forall|c: int| 0 <= c < orig.cols_spec() implies rat_eqv(
                #[trigger] rat_mul(self.at(row as int, c), divisor.pair()),
                orig.at(row as int, c),
            ) by {
                assert(orig.rows_seq()[row as int].wf());
                assert(orig.rows_seq()[row as int].view_seq()[c].wf());
                assert(self.rows_seq()[row as int].wf());
                assert(self.rows_seq()[row as int].view_seq()[c].wf());
                lemma_divide_inverts(
                    orig.at(row as int, c),
                    self.at(row as int, c),
                    divisor.pair(),
                    recip.pair(),
                );
            }
        }
    }
}

/// Column `c` of a matrix as a coordinate sequence.
pub open spec fn col_seq(m: &BigMatrix, c: int) -> Seq<BigFraction> {
    Seq::new(m.rows_spec(), |r: int| m.rows_seq()[r].view_seq()[c])
}

/// A value equivalent to `t - prod`, where `prod` is equivalent to `s * f`,
/// is equivalent to `t - s * f`.
#[verifier::rlimit(100)]
proof fn lemma_sub_mul_pair(t: (int, int), s: (int, int), f: (int, int), prod: (int, int), v: (
    int,
    int,
))
    requires
        t.1 > 0,
        s.1 > 0,
        f.1 > 0,
        prod.1 > 0,
        v.1 > 0,
        rat_eqv(prod, rat_mul(s, f)),
        rat_eqv(v, rat_sub(t, prod)),
    ensures
        rat_eqv(v, rat_sub(t, rat_mul(s, f))),
{
    let sf = s.1 * f.1;
    let m = s.0 * f.0;
    assert((t.0 * prod.1 - prod.0 * t.1) * sf == (t.0 * sf - m * t.1) * prod.1)
        by (nonlinear_arith)
        requires
            prod.0 * sf == m * prod.1,
    ;
    assert(rat_eqv(rat_sub(t, prod), rat_sub(t, rat_mul(s, f)))) by (nonlinear_arith)
        requires
            sf == s.1 * f.1,
            m == s.0 * f.0,
            (t.0 * prod.1 - prod.0 * t.1) * sf == (t.0 * sf - m * t.1) * prod.1,
    ;
    assert(rat_sub(t, prod).1 > 0) by (nonlinear_arith)
        requires
            t.1 > 0,
            prod.1 > 0,
    ;
    crate::big_vector::lemma_eqv_trans(v, rat_sub(t, prod), rat_sub(t, rat_mul(s, f)));
}

/// A value equivalent to `t + prod`, where `prod` is equivalent to `s * f`,
/// is equivalent to `t + s * f`.
#[verifier::rlimit(100)]
proof fn lemma_add_mul_pair(t: (int, int), s: (int, int), f: (int, int), prod: (int, int), v: (
    int,
    int,
))
    requires
        t.1 > 0,
        s.1 > 0,
        f.1 > 0,
        prod.1 > 0,
        v.1 > 0,
        rat_eqv(prod, rat_mul(s, f)),
        rat_eqv(v, rat_add(t, prod)),
    ensures
        rat_eqv(v, rat_add(t, rat_mul(s, f))),
{
    let sf = s.1 * f.1;
    let m = s.0 * f.0;
    assert((t.0 * prod.1 + prod.0 * t.1) * sf == (t.0 * sf + m * t.1) * prod.1)
        by (nonlinear_arith)
        requires
            prod.0 * sf == m * prod.1,
    ;
    assert(rat_eqv(rat_add(t, prod), rat_add(t, rat_mul(s, f)))) by (nonlinear_arith)
        requires
            sf == s.1 * f.1,
            m == s.0 * f.0,
            (t.0 * prod.1 + prod.0 * t.1) * sf == (t.0 * sf + m * t.1) * prod.1,
    ;
    assert(rat_add(t, prod).1 > 0) by (nonlinear_arith)
        requires
            t.1 > 0,
            prod.1 > 0,
    ;
    crate::big_vector::lemma_eqv_trans(v, rat_add(t, prod), rat_add(t, rat_mul(s, f)));
}

/// Multiplying the reciprocal-scaled value back by the divisor returns the
/// original value.
#[verifier::rlimit(100)]
proof fn lemma_divide_inverts(orig: (int, int), scaled: (int, int), dv: (int, int), rc: (int, int))
    requires
        orig.1 > 0,
        scaled.1 > 0,
        dv.1 > 0,
        rc.1 > 0,
        dv.0 != 0,
        rc.0 != 0,
        rc.0 * dv.0 == rc.1 * dv.1,
        rat_eqv(scaled, rat_mul(orig, rc)),
    ensures
        rat_eqv(rat_mul(scaled, dv), orig),
{
    assert((scaled.0 * dv.0) * orig.1 == orig.0 * (scaled.1 * dv.1)) by (nonlinear_arith)
        requires
            scaled.0 * (orig.1 * rc.1) == (orig.0 * rc.0) * scaled.1,
            rc.0 * dv.0 == rc.1 * dv.1,
            orig.1 > 0,
            scaled.1 > 0,
            dv.1 > 0,
            rc.1 > 0,
            dv.0 != 0,
            rc.0 != 0,
    ;
}

/// Inner products agree on sequences whose coordinates agree as pairs.
proof fn lemma_dot_same_pairs(a: Seq<BigFraction>, b: Seq<BigFraction>, b2: Seq<BigFraction>, n: int)
    requires
        n <= b.len(),
        n <= b2.len(),
        forall|i: int| 0 <= i < n ==> (#[trigger] b[i]).pair() == b2[i].pair(),
    ensures
        dot_spec(a, b, n) == dot_spec(a, b2, n),
    decreases n,
{
    if n > 0 {
        lemma_dot_same_pairs(a, b, b2, n - 1);
    }
}

} // verus!
