//! Vector helpers shared by the commitment schemes.

use crate::algebra::{views, VectorSpace};
use crate::curve::G1Point;
use crate::field::{fpow, Scalar};
use vstd::prelude::*;

verus! {

/// The inner product of the first `b.len()` entries of `a` with `b`, summed from
/// the zero value upwards in index order.
pub open spec fn inner_product_spec<R: View, T: VectorSpace<R>>(
    a: Seq<T::V>,
    b: Seq<R::V>,
) -> T::V
    decreases b.len(),
{
    if b.len() == 0 {
        T::zero_spec()
    } else {
        T::add_spec(
            inner_product_spec::<R, T>(a, b.drop_last()),
            T::scale_spec(a[b.len() - 1], b.last()),
        )
    }
}

/// Inner product of `a` with `b`: the sum over the indices of `b` of `a[i] * b[i]`.
pub fn inner_product<R: View, T: VectorSpace<R>>(a: &[T], b: &[R]) -> (r: T)
    requires
        b@.len() <= a@.len(),
    ensures
        r@ == inner_product_spec::<R, T>(views(a@), views(b@)),
{
    let mut acc = T::zero_value();
    let mut i: usize = 0;
    while i < b.len()
        invariant
            i <= b@.len() <= a@.len(),
            acc@ == inner_product_spec::<R, T>(views(a@), views(b@).subrange(0, i as int)),
        decreases b@.len() - i,
    {
        let term = a[i].scaled_by(&b[i]);
        proof {
            let next = views(b@).subrange(0, i + 1);
            assert(next.drop_last() =~= views(b@).subrange(0, i as int));
            assert(next.last() == b@[i as int]@);
            assert(views(a@)[i as int] == a@[i as int]@);
        }
        acc = acc.sum_with(&term);
        i += 1;
    }
    assert(views(b@).subrange(0, i as int) =~= views(b@));
    acc
}

/// The entries `a[i] + b[i] * x`.
pub fn vec_add_and_distribute<R: View, T: VectorSpace<R>>(a: &[T], b: &[T], x: &R) -> (r: Vec<T>)
    requires
        a@.len() == b@.len(),
    ensures
        r@.len() == a@.len(),
        forall|i: int|
            0 <= i < r@.len() ==> #[trigger] r@[i]@ == T::add_spec(
                a@[i]@,
                T::scale_spec(b@[i]@, x@),
            ),
{
    let mut out: Vec<T> = Vec::new();
    let mut i: usize = 0;
    while i < a.len()
        invariant
            i <= a@.len(),
            a@.len() == b@.len(),
            out@.len() == i,
            forall|j: int|
                0 <= j < i ==> #[trigger] out@[j]@ == T::add_spec(
                    a@[j]@,
                    T::scale_spec(b@[j]@, x@),
                ),
        decreases a@.len() - i,
    {
        let scaled = b[i].scaled_by(x);
        out.push(a[i].sum_with(&scaled));
        i += 1;
    }
    out
}

/// The entries `a[i] * b[i]` over the indices that both vectors have.
pub fn elementwise_mul<R: View, T: VectorSpace<R>>(a: &[T], b: &[R]) -> (r: Vec<T>)
    ensures
        r@.len() == if a@.len() <= b@.len() { a@.len() } else { b@.len() },
        forall|i: int| 0 <= i < r@.len() ==> #[trigger] r@[i]@ == T::scale_spec(a@[i]@, b@[i]@),
{
    let n = if a.len() <= b.len() { a.len() } else { b.len() };
    let mut out: Vec<T> = Vec::new();
    let mut i: usize = 0;
    while i < n
        invariant
            i <= n,
            n <= a@.len(),
            n <= b@.len(),
            out@.len() == i,
            forall|j: int| 0 <= j < i ==> #[trigger] out@[j]@ == T::scale_spec(a@[j]@, b@[j]@),
        decreases n - i,
    {
        out.push(a[i].scaled_by(&b[i]));
        i += 1;
    }
    out
}

/// The compressed encoding of a point.
pub fn serialize(x: &G1Point) -> (r: Vec<u8>)
    ensures
        r@ == x@,
{
    x.to_bytes()
}

/// A copy of a slice.
pub fn copy_of<T: Copy>(a: &[T]) -> (r: Vec<T>)
    ensures
        r@ == a@,
{
    let mut out: Vec<T> = Vec::new();
    let mut i: usize = 0;
    while i < a.len()
        invariant
            i <= a@.len(),
            out@ == a@.subrange(0, i as int),
        decreases a@.len() - i,
    {
        out.push(a[i]);
        i += 1;
        assert(out@ =~= a@.subrange(0, i as int));
    }
    assert(a@.subrange(0, i as int) =~= a@);
    out
}

/// The two halves of `a`; where its length is odd the second half is the longer.
pub fn split<T: Copy>(a: &[T]) -> (r: (Vec<T>, Vec<T>))
    ensures
        r.0@ == a@.subrange(0, a@.len() as int / 2),
        r.1@ == a@.subrange(a@.len() as int / 2, a@.len() as int),
{
    let mid = a.len() / 2;
    let mut left: Vec<T> = Vec::new();
    let mut right: Vec<T> = Vec::new();
    let mut i: usize = 0;
    while i < mid
        invariant
            i <= mid <= a@.len(),
            left@ == a@.subrange(0, i as int),
        decreases mid - i,
    {
        left.push(a[i]);
        i += 1;
        assert(left@ =~= a@.subrange(0, i as int));
    }
    while i < a.len()
        invariant
            mid <= i <= a@.len(),
            right@ == a@.subrange(mid as int, i as int),
        decreases a@.len() - i,
    {
        right.push(a[i]);
        i += 1;
        assert(right@ =~= a@.subrange(mid as int, i as int));
    }
    (left, right)
}

/// The powers `a^0, a^1, ..` of a scalar: `n` of them, and one where `n` is zero.
pub fn powers_of(a: Scalar, n: usize) -> (r: Vec<Scalar>)
    ensures
        r@.len() == if n == 0 { 1 } else { n as int },
        forall|i: int| 0 <= i < r@.len() ==> #[trigger] r@[i]@ == fpow(a@, i as nat),
{
    let mut res: Vec<Scalar> = Vec::new();
    let mut cur = Scalar::one();
    res.push(cur);
    let mut i: usize = 1;
    while i < n
        invariant
            1 <= i,
            i <= n || i == 1,
            res@.len() == i,
            cur@ == fpow(a@, (i - 1) as nat),
            forall|j: int| 0 <= j < i ==> #[trigger] res@[j]@ == fpow(a@, j as nat),
        decreases n - i,
    {
        cur = a.times(&cur);
        res.push(cur);
        i += 1;
    }
    res
}

/// The index that a scalar denotes, where it fits the machine's word.
pub fn to_usize(x: &Scalar) -> (r: usize)
    requires
        x@ <= usize::MAX,
    ensures
        r == x@,
{
    let (l0, _l1, _l2, _l3) = x.limbs();
    assert(l0 as nat <= x@);
    l0 as usize
}

} // verus!
