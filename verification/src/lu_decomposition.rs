use vstd::prelude::*;
use crate::big_fraction::BigFraction;
use crate::big_matrix::{BigMatrix, col_seq};
use crate::big_vector::{dot_spec, rat_eqv, lemma_dot_den_pos, lemma_eqv_trans};

verus! {

/// Entry `(r, c)` of the product `a * b`, as a rational pair.
pub open spec fn mat_mul_entry(a: &BigMatrix, b: &BigMatrix, r: int, c: int) -> (int, int) {
    dot_spec(a.rows_seq()[r].view_seq(), col_seq(b, c), a.cols_spec() as int)
}

/// The identity value at `(r, c)`.
pub open spec fn identity_pair(r: int, c: int) -> (int, int) {
    if r == c {
        (1int, 1int)
    } else {
        (0int, 1int)
    }
}

/// The exact inverse of a square rational matrix, by row elimination. The
/// product is recomputed and compared to the identity before anything is
/// returned, so a result is an exact right inverse: `A * inverse(A) = I`.
/// Singular or non-square inputs yield none.
pub fn inverse(matrix: &BigMatrix) -> (res: Option<BigMatrix>)
    requires
        matrix.wf(),
    ensures
        res is Some ==> {
            let inv = res->0;
            &&& inv.wf()
            &&& matrix.rows_spec() == matrix.cols_spec()
            &&& inv.rows_spec() == matrix.rows_spec()
            &&& inv.cols_spec() == matrix.rows_spec()
            &&& forall|r: int, c: int|
                0 <= r < matrix.rows_spec() && 0 <= c < matrix.rows_spec() ==> rat_eqv(
                    #[trigger] mat_mul_entry(matrix, &inv, r, c),
                    identity_pair(r, c),
                )
        },
{
    if !matrix.is_square() {
        return None;
    }
    let n = matrix.row_count();

    // Working copy of the input beside a growing inverse.
    let mut work = BigMatrix::new(n, n);
    let mut r: usize = 0;
    while r < n
        invariant
            matrix.wf(),
            matrix.rows_spec() == n,
            matrix.cols_spec() == n,
            work.wf(),
            work.rows_spec() == n,
            work.cols_spec() == n,
            r <= n,
        decreases n - r,
    {
        let row = matrix.get_row(r);
        work.set_row(r, &row);
        r = r + 1;
    }
    let mut inv = BigMatrix::identity(n);

    let mut i: usize = 0;
    while i < n
        invariant
            work.wf(),
            work.rows_spec() == n,
            work.cols_spec() == n,
            inv.wf(),
            inv.rows_spec() == n,
            inv.cols_spec() == n,
            i <= n,
        decreases n - i,
    {
        // Find a row with a nonzero pivot in column i.
        let mut p: usize = i;
        while p < n && work.get(p, i).is_zero()
            invariant
                work.wf(),
                work.rows_spec() == n,
                work.cols_spec() == n,
                i < n,
                i <= p <= n,
            decreases n - p,
        {
            p = p + 1;
        }
        if p >= n {
            return None;
        }
        work.swap_rows(i, p);
        inv.swap_rows(i, p);

        if work.get(i, i).is_zero() {
            return None;
        }
        let pivot_inv = work.get(i, i).clone_frac().reciprocal();

        // Scale the pivot row to a unit pivot.
        let mut c: usize = 0;
        while c < n
            invariant
                work.wf(),
                work.rows_spec() == n,
                work.cols_spec() == n,
                inv.wf(),
                inv.rows_spec() == n,
                inv.cols_spec() == n,
                pivot_inv.wf(),
                i < n,
                c <= n,
            decreases n - c,
        {
            let wv = work.get(i, c).mul_frac(&pivot_inv);
            work.set(i, c, wv);
            let iv = inv.get(i, c).mul_frac(&pivot_inv);
            inv.set(i, c, iv);
            c = c + 1;
        }

        // Eliminate column i from every other row.
        let mut j: usize = 0;
        while j < n
            invariant
                work.wf(),
                work.rows_spec() == n,
                work.cols_spec() == n,
                inv.wf(),
                inv.rows_spec() == n,
                inv.cols_spec() == n,
                i < n,
                j <= n,
            decreases n - j,
        {
            if j != i {
                let factor = work.get(j, i).clone_frac();
                let mut c2: usize = 0;
                while c2 < n
                    invariant
                        work.wf(),
                        work.rows_spec() == n,
                        work.cols_spec() == n,
                        inv.wf(),
                        inv.rows_spec() == n,
                        inv.cols_spec() == n,
                        factor.wf(),
                        i < n,
                        j < n,
                        c2 <= n,
                    decreases n - c2,
                {
                    let wv = work.get(j, c2).sub_frac(&work.get(i, c2).mul_frac(&factor));
                    work.set(j, c2, wv);
                    let iv = inv.get(j, c2).sub_frac(&inv.get(i, c2).mul_frac(&factor));
                    inv.set(j, c2, iv);
                    c2 = c2 + 1;
                }
            }
            j = j + 1;
        }
        i = i + 1;
    }

    // Confirm the product is exactly the identity before returning.
    let prod = matrix.multiply_matrix(&inv);
    let one = BigFraction::one();
    let mut r2: usize = 0;
    while r2 < n
        invariant
            matrix.wf(),
            matrix.rows_spec() == n,
            matrix.cols_spec() == n,
            inv.wf(),
            inv.rows_spec() == n,
            inv.cols_spec() == n,
            prod.wf(),
            prod.rows_spec() == n,
            prod.cols_spec() == n,
            one.pair() == (1int, 1int),
            one.wf(),
            r2 <= n,
            forall|r3: int, c3: int|
                0 <= r3 < r2 && 0 <= c3 < n ==> rat_eqv(
                    #[trigger] prod.at(r3, c3),
                    identity_pair(r3, c3),
                ),
            forall|r3: int, c3: int|
                0 <= r3 < n && 0 <= c3 < n ==> rat_eqv(
                    #[trigger] prod.at(r3, c3),
                    mat_mul_entry(matrix, &inv, r3, c3),
                ),
        decreases n - r2,
    {
        let mut c3: usize = 0;
        while c3 < n
            invariant
                matrix.wf(),
                matrix.rows_spec() == n,
                matrix.cols_spec() == n,
                prod.wf(),
                prod.rows_spec() == n,
                prod.cols_spec() == n,
                one.pair() == (1int, 1int),
                one.wf(),
                r2 < n,
                c3 <= n,
                forall|c4: int|
                    0 <= c4 < c3 ==> rat_eqv(
                        #[trigger] prod.at(r2 as int, c4),
                        identity_pair(r2 as int, c4),
                    ),
            decreases n - c3,
        {
            let entry = prod.get(r2, c3);
            if r2 == c3 {
                if !entry.eq_frac(&one) {
                    return None;
                }
            } else {
                if !entry.is_zero() {
                    return None;
                }
            }
            c3 = c3 + 1;
        }
        r2 = r2 + 1;
    }
    proof {
        lemma_product_is_identity(matrix, &inv, &prod, n as int);
    }
    Some(inv)
}

/// Entries equivalent to the checked product and to the identity give the
/// product-identity law.
proof fn lemma_product_is_identity(a: &BigMatrix, b: &BigMatrix, prod: &BigMatrix, n: int)
    requires
        a.wf(),
        b.wf(),
        prod.wf(),
        a.rows_spec() == n,
        a.cols_spec() == n,
        b.rows_spec() == n,
        b.cols_spec() == n,
        prod.rows_spec() == n,
        prod.cols_spec() == n,
        forall|r: int, c: int|
            0 <= r < n && 0 <= c < n ==> rat_eqv(#[trigger] prod.at(r, c), identity_pair(r, c)),
        forall|r: int, c: int|
            0 <= r < n && 0 <= c < n ==> rat_eqv(
                #[trigger] prod.at(r, c),
                mat_mul_entry(a, b, r, c),
            ),
    ensures
        forall|r: int, c: int|
            0 <= r < n && 0 <= c < n ==> rat_eqv(
                #[trigger] mat_mul_entry(a, b, r, c),
                identity_pair(r, c),
            ),
{
    assert forall|r: int, c: int| 0 <= r < n && 0 <= c < n implies rat_eqv(
        #[trigger] mat_mul_entry(a, b, r, c),
        identity_pair(r, c),
    ) by {
        let e = prod.at(r, c);
        let m = mat_mul_entry(a, b, r, c);
        let idp = identity_pair(r, c);
        assert(prod.rows_seq()[r].wf());
        assert(prod.rows_seq()[r].view_seq()[c].wf());
        assert(e.1 > 0);
        // m ~ e and e ~ id, so m ~ id through e's positive denominator.
        assert(rat_eqv(m, e)) by (nonlinear_arith)
            requires
                rat_eqv(e, m),
        ;
        lemma_eqv_trans(m, e, idp);
    }
}

} // verus!
