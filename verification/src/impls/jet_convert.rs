//! Small integers as constant jets, so that code generic over a scalar
//! with `From<u8>` (such as functions written over `AutoDiff`) runs on jets
//! too.
use crate::jets::{Jet1, Jet2, Jet3, lemma_array_ext, lemma_tabulate, tabulate};
use crate::scalar::Scalar;
use vstd::prelude::*;
use vstd::std_specs::convert::{FromSpec, FromSpecImpl};

verus! {

/// Every entry is `S::from(0)` as specified.
pub open spec fn zeros_from<S: From<u8> + Copy, const N: usize>() -> [S; N] {
    tabulate(|i: int| <S as FromSpec<u8>>::from_spec(0u8))
}

/// An array of `N` copies of `z` is `zeros_from` when `z` is `S::from(0)`.
proof fn lemma_zeros_from<S: From<u8> + Copy, const N: usize>(a: [S; N], z: S)
    requires
        z == <S as FromSpec<u8>>::from_spec(0u8),
        forall|i: int| 0 <= i < N ==> a[i] == z,
    ensures
        a == zeros_from::<S, N>(),
{
    lemma_tabulate::<S, N>(|i: int| <S as FromSpec<u8>>::from_spec(0u8));
    lemma_array_ext(a, zeros_from::<S, N>());
}

impl<const N: usize, S: Scalar + From<u8>> FromSpecImpl<u8> for Jet1<N, S> {
    open spec fn obeys_from_spec() -> bool {
        <S as FromSpec<u8>>::obeys_from_spec()
    }

    open spec fn from_spec(v: u8) -> Self {
        Jet1 { value: <S as FromSpec<u8>>::from_spec(v), grad: zeros_from() }
    }
}

impl<const N: usize, S: Scalar + From<u8>> From<u8> for Jet1<N, S> {
    /// The constant jet of `v`: value `S::from(v)`, every derivative
    /// `S::from(0)`.
    fn from(v: u8) -> (r: Self) {
        let z = S::from(0u8);
        let r = Jet1 { value: S::from(v), grad: [z; N] };
        proof {
            if <S as FromSpec<u8>>::obeys_from_spec() {
                lemma_zeros_from(r.grad, z);
            }
        }
        r
    }
}

impl<const N: usize, const H: usize, S: Scalar + From<u8>> FromSpecImpl<u8> for Jet2<N, H, S> {
    open spec fn obeys_from_spec() -> bool {
        <S as FromSpec<u8>>::obeys_from_spec()
    }

    open spec fn from_spec(v: u8) -> Self {
        Jet2 { value: <S as FromSpec<u8>>::from_spec(v), grad: zeros_from(), hess: zeros_from() }
    }
}

impl<const N: usize, const H: usize, S: Scalar + From<u8>> From<u8> for Jet2<N, H, S> {
    /// The constant jet of `v`: value `S::from(v)`, every derivative
    /// `S::from(0)`.
    fn from(v: u8) -> (r: Self) {
        let z = S::from(0u8);
        let r = Jet2 { value: S::from(v), grad: [z; N], hess: [z; H] };
        proof {
            if <S as FromSpec<u8>>::obeys_from_spec() {
                lemma_zeros_from(r.grad, z);
                lemma_zeros_from(r.hess, z);
            }
        }
        r
    }
}

impl<const N: usize, const H: usize, const T: usize, S: Scalar + From<u8>> FromSpecImpl<u8> for Jet3<
    N,
    H,
    T,
    S,
> {
    open spec fn obeys_from_spec() -> bool {
        <S as FromSpec<u8>>::obeys_from_spec()
    }

    open spec fn from_spec(v: u8) -> Self {
        Jet3 {
            value: <S as FromSpec<u8>>::from_spec(v),
            grad: zeros_from(),
            hess: zeros_from(),
            tens: zeros_from(),
        }
    }
}

impl<const N: usize, const H: usize, const T: usize, S: Scalar + From<u8>> From<u8> for Jet3<
    N,
    H,
    T,
    S,
> {
    /// The constant jet of `v`: value `S::from(v)`, every derivative
    /// `S::from(0)`.
    fn from(v: u8) -> (r: Self) {
        let z = S::from(0u8);
        let r = Jet3 { value: S::from(v), grad: [z; N], hess: [z; H], tens: [z; T] };
        proof {
            if <S as FromSpec<u8>>::obeys_from_spec() {
                lemma_zeros_from(r.grad, z);
                lemma_zeros_from(r.hess, z);
                lemma_zeros_from(r.tens, z);
            }
        }
        r
    }
}

} // verus!
