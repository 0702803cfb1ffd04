//! A rectangular matrix stored as a vector of rows.
use vstd::prelude::*;
use vstd::std_specs::cmp::PartialEqSpec;

verus! {

/// A two-dimensional matrix of `n` rows and `m` columns.
#[derive(Clone, Debug)]
pub struct Mat2<T> {
    data: Vec<Vec<T>>,
    n: usize,
    m: usize,
}

/// An iterator over the rows of a matrix, from the first to the last.
pub struct RowIterator<'a, T> {
    mat: &'a Mat2<T>,
    i: usize,
}

impl<'a, T> RowIterator<'a, T> {
    /// The matrix whose rows are produced.
    pub closed spec fn matrix(&self) -> Mat2<T> {
        *self.mat
    }

    /// The index of the next row to produce.
    pub closed spec fn pos(&self) -> nat {
        self.i as nat
    }

    /// The iterator points into a well-formed matrix, at most one past its last row.
    pub open spec fn wf(&self) -> bool {
        &&& self.matrix().wf()
        &&& self.pos() <= self.matrix().nrows()
    }

    /// The rows that are still to come, in order.
    pub open spec fn remaining(&self) -> Seq<Seq<T>> {
        self.matrix().rows().subrange(self.pos() as int, self.matrix().nrows() as int)
    }

    /// Produce the next row, or `None` once every row has been produced.
    pub fn next(&mut self) -> (r: Option<&'a [T]>)
        requires
            old(self).wf(),
        ensures
            final(self).wf(),
            final(self).matrix() == old(self).matrix(),
            r is Some <==> old(self).remaining().len() > 0,
            r matches Some(s) ==> s@ == old(self).remaining()[0] && final(self).remaining()
                == old(self).remaining().drop_first(),
            r is None ==> final(self).remaining() == old(self).remaining(),
    {
        let r = self.mat.get_row_opt(self.i);
        if r.is_some() {
            self.i = self.i + 1;
        }
        r
    }
}

impl<T: Default + Clone> Mat2<T> {
    /// Create a new (n x m) matrix, each element a clone of one default value of `T`.
    pub fn new(n: usize, m: usize) -> (r: Mat2<T>)
        ensures
            r.wf(),
            r.nrows() == n,
            r.ncols() == m,
            exists|d: T|
                {
                    &&& call_ensures(T::default, (), d)
                    &&& forall|i: int, j: int|
                        0 <= i < n && 0 <= j < m ==> cloned(d, #[trigger] r.rows()[i][j])
                },
    {
        let d = T::default();
        let mut data: Vec<Vec<T>> = Vec::new();
        let mut i: usize = 0;
        while i < n
            invariant
                i <= n,
                data@.len() == i,
                forall|a: int| 0 <= a < i ==> #[trigger] data@[a]@.len() == m,
                forall|a: int, b: int|
                    0 <= a < i && 0 <= b < m ==> cloned(d, #[trigger] data@[a]@[b]),
            decreases n - i,
        {
            let mut row: Vec<T> = Vec::new();
            let mut j: usize = 0;
            while j < m
                invariant
                    j <= m,
                    row@.len() == j,
                    forall|b: int| 0 <= b < j ==> cloned(d, #[trigger] row@[b]),
                decreases m - j,
            {
                row.push(d.clone());
                j += 1;
            }
            data.push(row);
            i += 1;
        }
        let r = Mat2 { data, n, m };
        assert(call_ensures(T::default, (), d));
        r
    }
}

impl<T> Mat2<T> {
    /// The rows of the matrix, in order.
    pub closed spec fn rows(&self) -> Seq<Seq<T>> {
        self.data@.map_values(|r: Vec<T>| r@)
    }

    /// The number of rows.
    pub closed spec fn nrows(&self) -> nat {
        self.n as nat
    }

    /// The number of columns.
    pub closed spec fn ncols(&self) -> nat {
        self.m as nat
    }

    /// There are `nrows()` rows, each of `ncols()` elements.
    pub open spec fn wf(&self) -> bool {
        &&& self.rows().len() == self.nrows()
        &&& forall|i: int| 0 <= i < self.nrows() ==> #[trigger] self.rows()[i].len() == self.ncols()
    }

    /// Create a new (n x m) matrix, using `f` to create each element. `f` is given the
    /// coordinate (row, column) of each element it constructs.
    pub fn new_with<F: Fn(usize, usize) -> T>(n: usize, m: usize, f: F) -> (r: Mat2<T>)
        requires
            forall|i: usize, j: usize| i < n && j < m ==> call_requires(f, (i, j)),
        ensures
            r.wf(),
            r.nrows() == n,
            r.ncols() == m,
            forall|i: int, j: int|
                0 <= i < n && 0 <= j < m ==> call_ensures(
                    f,
                    (i as usize, j as usize),
                    #[trigger] r.rows()[i][j],
                ),
    {
        let mut data: Vec<Vec<T>> = Vec::new();
        let mut i: usize = 0;
        while i < n
            invariant
                i <= n,
                data@.len() == i,
                forall|a: usize, b: usize| a < n && b < m ==> call_requires(f, (a, b)),
                forall|a: int| 0 <= a < i ==> #[trigger] data@[a]@.len() == m,
                forall|a: int, b: int|
                    0 <= a < i && 0 <= b < m ==> call_ensures(
                        f,
                        (a as usize, b as usize),
                        #[trigger] data@[a]@[b],
                    ),
            decreases n - i,
        {
            let mut row: Vec<T> = Vec::new();
            let mut j: usize = 0;
            while j < m
                invariant
                    i < n,
                    j <= m,
                    row@.len() == j,
                    forall|a: usize, b: usize| a < n && b < m ==> call_requires(f, (a, b)),
                    forall|b: int| 0 <= b < j ==> call_ensures(f, (i, b as usize), #[trigger] row@[b]),
                decreases m - j,
            {
                row.push(f(i, j));
                j += 1;
            }
            data.push(row);
            i += 1;
        }
        Mat2 { data, n, m }
    }

    /// Create a matrix from a vector of rows. Returns `None` if the vector is empty or if
    /// the rows do not all have the same length.
    pub fn from_vec(m: Vec<Vec<T>>) -> (r: Option<Mat2<T>>)
        ensures
            r is Some <==> is_rectangular(m@.map_values(|v: Vec<T>| v@)),
            r matches Some(x) ==> {
                &&& x.wf()
                &&& x.rows() == m@.map_values(|v: Vec<T>| v@)
                &&& x.nrows() == m@.len()
                &&& x.ncols() == m@[0]@.len()
            },
    {
        let n = m.len();
        if n == 0 {
            return None;
        }
        let l = m[0].len();
        let mut k: usize = 0;
        while k < n
            invariant
                n == m@.len(),
                k <= n,
                l == m@[0]@.len(),
                forall|t: int| 0 <= t < k ==> #[trigger] m@[t]@.len() == l,
            decreases n - k,
        {
            if m[k].len() != l {
                proof {
                    let s = m@.map_values(|v: Vec<T>| v@);
                    assert(s[k as int].len() != s[0].len());
                }
                return None;
            }
            k += 1;
        }
        let r = Mat2 { data: m, n, m: l };
        proof {
            let s = m@.map_values(|v: Vec<T>| v@);
            assert forall|i: int| 0 <= i < s.len() implies #[trigger] s[i].len() == s[0].len() by {
                assert(m@[i]@.len() == l);
            }
        }
        Some(r)
    }

    /// Return the dimensions of the matrix as (columns, rows).
    pub fn get_dimension(&self) -> (r: (usize, usize))
        ensures
            r.0 == self.ncols(),
            r.1 == self.nrows(),
    {
        (self.m, self.n)
    }

    /// Iterate over the rows of the matrix.
    pub fn row_iter(&self) -> (r: RowIterator<'_, T>)
        requires
            self.wf(),
        ensures
            r.wf(),
            r.matrix() == *self,
            r.remaining() == self.rows(),
    {
        let r = RowIterator { mat: self, i: 0 };
        assert(r.remaining() =~= self.rows());
        r
    }

    /// Swap two rows.
    pub fn swap_rows(&mut self, i: usize, j: usize)
        requires
            old(self).wf(),
            i < old(self).nrows(),
            j < old(self).nrows(),
        ensures
            final(self).wf(),
            final(self).nrows() == old(self).nrows(),
            final(self).ncols() == old(self).ncols(),
            final(self).rows() == swapped(old(self).rows(), i as int, j as int),
    {
        if i != j {
            let mut tmp: Vec<T> = Vec::new();
            std::mem::swap(&mut self.data[i], &mut tmp);
            std::mem::swap(&mut self.data[j], &mut tmp);
            std::mem::swap(&mut self.data[i], &mut tmp);
        }
        assert(self.rows() =~= swapped(old(self).rows(), i as int, j as int));
    }

    /// Replace row `i` by `r`, which has as many elements as a row of the matrix.
    pub fn set_row(&mut self, i: usize, r: Vec<T>)
        requires
            old(self).wf(),
            i < old(self).nrows(),
            r@.len() == old(self).ncols(),
        ensures
            final(self).wf(),
            final(self).nrows() == old(self).nrows(),
            final(self).ncols() == old(self).ncols(),
            final(self).rows() == old(self).rows().update(i as int, r@),
    {
        let ghost r0 = r@;
        self.data.set(i, r);
        assert(self.rows() =~= old(self).rows().update(i as int, r0));
    }

    /// Get row `i` as a slice.
    pub fn get_row(&self, i: usize) -> (r: &[T])
        requires
            self.wf(),
            i < self.nrows(),
        ensures
            r@ == self.rows()[i as int],
    {
        self.data[i].as_slice()
    }

    /// Get row `i` as a slice, or `None` if `i` is out of bounds.
    pub fn get_row_opt(&self, i: usize) -> (r: Option<&[T]>)
        requires
            self.wf(),
        ensures
            r is Some <==> i < self.nrows(),
            r matches Some(s) ==> s@ == self.rows()[i as int],
    {
        if i < self.n {
            Some(self.data[i].as_slice())
        } else {
            None
        }
    }

    /// Append a column: element `k` of `column` goes to the end of row `k`.
    pub fn add_column(&mut self, column: Vec<T>)
        requires
            old(self).wf(),
            column@.len() == old(self).nrows(),
            old(self).ncols() < usize::MAX,
        ensures
            final(self).wf(),
            final(self).nrows() == old(self).nrows(),
            final(self).ncols() == old(self).ncols() + 1,
            final(self).rows() == Seq::new(
                old(self).nrows(),
                |k: int| old(self).rows()[k].push(column@[k]),
            ),
    {
        let ghost rows0 = self.rows();
        let ghost col0 = column@;
        let ghost m0 = self.m;
        let mut col = column;
        let mut k: usize = self.n;
        while k > 0
            invariant
                k <= self.n,
                self.n == rows0.len(),
                self.m == m0,
                self.data@.len() == self.n,
                col@ == col0.subrange(0, k as int),
                col0.len() == self.n,
                forall|t: int| 0 <= t < k ==> #[trigger] self.data@[t]@ == rows0[t],
                forall|t: int|
                    k <= t < self.n ==> #[trigger] self.data@[t]@ == rows0[t].push(col0[t]),
            decreases k,
        {
            let x = col.pop().unwrap();
            k -= 1;
            let mut row: Vec<T> = Vec::new();
            std::mem::swap(&mut self.data[k], &mut row);
            assert(row@ == rows0[k as int]);
            assert(x == col0[k as int]);
            row.push(x);
            std::mem::swap(&mut self.data[k], &mut row);
        }
        self.m = self.m + 1;
        assert(self.rows() =~= Seq::new(rows0.len(), |t: int| rows0[t].push(col0[t]))) by {
            assert forall|t: int| 0 <= t < rows0.len() implies #[trigger] self.rows()[t] == rows0[t].push(col0[t]) by {
                assert(self.data@[t]@ == rows0[t].push(col0[t]));
            }
        }
    }
}

/// Two matrices are equal when they have the same dimensions and equal elements.
impl<T: PartialEq + PartialEqSpec> PartialEq for Mat2<T> {
    fn eq(&self, other: &Mat2<T>) -> (r: bool) {
        let r = self.n == other.n && self.m == other.m && self.data == other.data;
        proof {
            if T::obeys_eq_spec() && self.n == other.n && self.m == other.m {
                let (a, b) = (self.rows(), other.rows());
                if self.data.eq_spec(&other.data) {
                    assert forall|i: int| 0 <= i < a.len() implies #[trigger] a[i].len()
                        == b[i].len() by {
                        assert(self.data@[i].eq_spec(&other.data@[i]));
                    }
                    assert forall|i: int, j: int|
                        0 <= i < a.len() && 0 <= j < a[i].len() implies (#[trigger] a[i][j]).eq_spec(
                        &b[i][j],
                    ) by {
                        assert(self.data@[i].eq_spec(&other.data@[i]));
                    }
                }
                if rows_eq(a, b) {
                    assert forall|i: int| 0 <= i < self.data@.len() implies #[trigger] self.data@[i].eq_spec(
                        &other.data@[i],
                    ) by {
                        assert(a[i].len() == b[i].len());
                        assert forall|j: int| 0 <= j < a[i].len() implies (#[trigger] a[i][j]).eq_spec(
                            &b[i][j],
                        ) by {}
                    }
                }
            }
        }
        r
    }
}

impl<T: PartialEq + PartialEqSpec> vstd::std_specs::cmp::PartialEqSpecImpl for Mat2<T> {
    open spec fn obeys_eq_spec() -> bool {
        T::obeys_eq_spec()
    }

    open spec fn eq_spec(&self, other: &Mat2<T>) -> bool {
        &&& self.nrows() == other.nrows()
        &&& self.ncols() == other.ncols()
        &&& rows_eq(self.rows(), other.rows())
    }
}

impl Mat2<i64> {
    /// Multiply every element of row `i` by `a`.
    pub fn scale_row(&mut self, i: usize, a: i64)
        requires
            old(self).wf(),
            i < old(self).nrows(),
            scale_fits(old(self).rows()[i as int], a),
        ensures
            final(self).wf(),
            final(self).nrows() == old(self).nrows(),
            final(self).ncols() == old(self).ncols(),
            final(self).rows() == old(self).rows().update(
                i as int,
                scaled(old(self).rows()[i as int], a),
            ),
    {
        let ghost r0 = self.rows()[i as int];
        let mut row: Vec<i64> = Vec::new();
        std::mem::swap(&mut self.data[i], &mut row);
        assert(row@ == r0);
        let mut k: usize = 0;
        while k < row.len()
            invariant
                row@.len() == r0.len(),
                k <= row@.len(),
                scale_fits(r0, a),
                forall|t: int| 0 <= t < k ==> #[trigger] row@[t] == r0[t] * a,
                forall|t: int| k <= t < row@.len() ==> #[trigger] row@[t] == r0[t],
            decreases row@.len() - k,
        {
            let v = row[k] * a;
            row.set(k, v);
            k += 1;
        }
        assert(row@ =~= scaled(r0, a));
        std::mem::swap(&mut self.data[i], &mut row);
        assert(self.rows() =~= old(self).rows().update(i as int, scaled(r0, a)));
    }

    /// Add row `i` scaled by `a` to row `j`: row `j` becomes `row_i * a + row_j`.
    pub fn add_scaled(&mut self, i: usize, j: usize, a: i64)
        requires
            old(self).wf(),
            i < old(self).nrows(),
            j < old(self).nrows(),
            add_scaled_fits(old(self).rows()[i as int], old(self).rows()[j as int], a),
        ensures
            final(self).wf(),
            final(self).nrows() == old(self).nrows(),
            final(self).ncols() == old(self).ncols(),
            final(self).rows() == old(self).rows().update(
                j as int,
                scaled_sum(old(self).rows()[i as int], old(self).rows()[j as int], a),
            ),
    {
        let ghost ri = self.rows()[i as int];
        let ghost rj = self.rows()[j as int];
        let mut r: Vec<i64> = Vec::new();
        let mut k: usize = 0;
        while k < self.data[i].len()
            invariant
                self.wf(),
                i < self.nrows(),
                j < self.nrows(),
                ri == self.rows()[i as int],
                rj == self.rows()[j as int],
                add_scaled_fits(ri, rj, a),
                k <= ri.len(),
                r@.len() == k,
                forall|t: int| 0 <= t < k ==> #[trigger] r@[t] == ri[t] * a + rj[t],
            decreases ri.len() - k,
        {
            assert(self.data@[i as int]@ == ri);
            assert(self.data@[j as int]@ == rj);
            let v = self.data[i][k] * a + self.data[j][k];
            r.push(v);
            k += 1;
        }
        assert(r@ =~= scaled_sum(ri, rj, a));
        self.set_row(j, r);
    }
}

/// `a` and `b` hold the same number of rows, of the same lengths, with elements that
/// compare equal one by one.
pub open spec fn rows_eq<T: PartialEq + PartialEqSpec>(a: Seq<Seq<T>>, b: Seq<Seq<T>>) -> bool {
    &&& a.len() == b.len()
    &&& forall|i: int| 0 <= i < a.len() ==> #[trigger] a[i].len() == b[i].len()
    &&& forall|i: int, j: int|
        0 <= i < a.len() && 0 <= j < a[i].len() ==> (#[trigger] a[i][j]).eq_spec(&b[i][j])
}

/// Every element of `r` times `a` fits in an `i64`.
pub open spec fn scale_fits(r: Seq<i64>, a: i64) -> bool {
    forall|k: int| 0 <= k < r.len() ==> i64::MIN <= #[trigger] r[k] * a <= i64::MAX
}

/// `r` with every element multiplied by `a`.
pub open spec fn scaled(r: Seq<i64>, a: i64) -> Seq<i64> {
    Seq::new(r.len(), |k: int| (r[k] * a) as i64)
}

/// Each product `ri[k] * a`, and each sum `ri[k] * a + rj[k]`, fits in an `i64`.
pub open spec fn add_scaled_fits(ri: Seq<i64>, rj: Seq<i64>, a: i64) -> bool {
    &&& ri.len() == rj.len()
    &&& forall|k: int|
        0 <= k < ri.len() ==> {
            &&& i64::MIN <= #[trigger] (ri[k] * a) <= i64::MAX
            &&& i64::MIN <= ri[k] * a + rj[k] <= i64::MAX
        }
}

/// The row `ri * a + rj`, element by element.
pub open spec fn scaled_sum(ri: Seq<i64>, rj: Seq<i64>, a: i64) -> Seq<i64> {
    Seq::new(ri.len(), |k: int| (ri[k] * a + rj[k]) as i64)
}

/// `s` with the elements at `i` and `j` exchanged.
pub open spec fn swapped<A>(s: Seq<A>, i: int, j: int) -> Seq<A> {
    s.update(i, s[j]).update(j, s[i])
}

/// A non-empty sequence of rows that all have the length of the first.
pub open spec fn is_rectangular<T>(rows: Seq<Seq<T>>) -> bool {
    &&& rows.len() > 0
    &&& forall|i: int| 0 <= i < rows.len() ==> #[trigger] rows[i].len() == rows[0].len()
}

/// `T`'s equality is reflexive, symmetric and transitive.
pub open spec fn eq_is_equivalence<T: PartialEq + PartialEqSpec>() -> bool {
    &&& forall|x: T| #[trigger] x.eq_spec(&x)
    &&& forall|x: T, y: T| #[trigger] x.eq_spec(&y) ==> y.eq_spec(&x)
    &&& forall|x: T, y: T, z: T| #[trigger] x.eq_spec(&y) && #[trigger] y.eq_spec(&z) ==> x.eq_spec(&z)
}

/// Swapping the same two rows twice gives back the rows one started from.
pub proof fn lemma_swap_rows_involution<A>(s: Seq<A>, i: int, j: int)
    requires
        0 <= i < s.len(),
        0 <= j < s.len(),
    ensures
        swapped(swapped(s, i, j), i, j) == s,
{
    assert(swapped(swapped(s, i, j), i, j) =~= s);
}

/// A matrix made by `from_vec` from rectangular rows equals the one that `new_with` makes from
/// a generator that returns the same element at each position.
pub proof fn lemma_from_vec_matches_new_with<T: PartialEq + PartialEqSpec, F: Fn(usize, usize) -> T>(
    rows: Seq<Seq<T>>,
    f: F,
    a: Mat2<T>,
    b: Mat2<T>,
)
    requires
        eq_is_equivalence::<T>(),
        is_rectangular(rows),
        forall|i: int, j: int, x: T|
            0 <= i < rows.len() && 0 <= j < rows[0].len() && #[trigger] call_ensures(
                f,
                (i as usize, j as usize),
                x,
            ) ==> x == rows[i][j],
        a.wf(),
        a.rows() == rows,
        a.nrows() == rows.len(),
        a.ncols() == rows[0].len(),
        b.wf(),
        b.nrows() == rows.len(),
        b.ncols() == rows[0].len(),
        forall|i: int, j: int|
            0 <= i < rows.len() && 0 <= j < rows[0].len() ==> call_ensures(
                f,
                (i as usize, j as usize),
                #[trigger] b.rows()[i][j],
            ),
    ensures
        a.eq_spec(&b),
{
    let (ra, rb) = (a.rows(), b.rows());
    assert forall|i: int, j: int| 0 <= i < ra.len() && 0 <= j < ra[i].len() implies (
    #[trigger] ra[i][j]).eq_spec(&rb[i][j]) by {
        assert(call_ensures(f, (i as usize, j as usize), rb[i][j]));
        assert(rb[i][j] == rows[i][j]);
    }
}

/// Matrix equality is reflexive, symmetric and transitive when element equality is, and two
/// matrices that differ in a dimension or in an element are not equal.
pub proof fn lemma_eq_equivalence<T: PartialEq + PartialEqSpec>(a: Mat2<T>, b: Mat2<T>, c: Mat2<T>)
    requires
        a.wf(),
        b.wf(),
        c.wf(),
        eq_is_equivalence::<T>(),
    ensures
        a.eq_spec(&a),
        a.eq_spec(&b) ==> b.eq_spec(&a),
        a.eq_spec(&b) && b.eq_spec(&c) ==> a.eq_spec(&c),
        a.nrows() != b.nrows() || a.ncols() != b.ncols() ==> !a.eq_spec(&b),
        forall|i: int, j: int|
            0 <= i < a.nrows() && i < b.nrows() && 0 <= j < a.ncols() && j < b.ncols() && !(
            #[trigger] a.rows()[i][j]).eq_spec(&b.rows()[i][j]) ==> !a.eq_spec(&b),
{
    let (ra, rb, rc) = (a.rows(), b.rows(), c.rows());
    if a.eq_spec(&b) {
        assert forall|i: int, j: int| 0 <= i < rb.len() && 0 <= j < rb[i].len() implies (
        #[trigger] rb[i][j]).eq_spec(&ra[i][j]) by {
            assert(ra[i][j].eq_spec(&rb[i][j]));
        }
        if b.eq_spec(&c) {
            assert forall|i: int, j: int| 0 <= i < ra.len() && 0 <= j < ra[i].len() implies (
            #[trigger] ra[i][j]).eq_spec(&rc[i][j]) by {
                assert(ra[i][j].eq_spec(&rb[i][j]));
                assert(rb[i][j].eq_spec(&rc[i][j]));
            }
        }
    }
}

} // verus!
