//! Halving jets: the value and every derivative are halved one by one, as
//! scaling by one half does.
use crate::jets::{Jet1, Jet2, Jet3, lemma_array_ext, lemma_tabulate, tabulate};
use crate::scalar::{Halve, Scalar};
use vstd::prelude::*;

verus! {

/// Every entry of `a` halved.
pub open spec fn halve_all<S: Halve + Copy, const N: usize>(a: [S; N]) -> [S; N] {
    tabulate(|i: int| a[i].halve_spec())
}

/// Every entry of `a` may be halved.
pub open spec fn halve_all_req<S: Halve + Copy, const N: usize>(a: [S; N]) -> bool {
    forall|i: int| 0 <= i < N ==> #[trigger] a[i].halve_req()
}

/// Halves every entry of `a`.
fn halve_array<S: Halve + Copy, const N: usize>(a: &[S; N]) -> (r: [S; N])
    requires
        halve_all_req(*a),
    ensures
        S::obeys_halve_spec() ==> r == halve_all(*a),
{
    let mut r = *a;
    for i in 0..N
        invariant
            halve_all_req(*a),
            S::obeys_halve_spec() ==> forall|k: int| 0 <= k < i ==> #[trigger] r[k] == a[k].halve_spec(),
    {
        r[i] = a[i].halve();
    }
    proof {
        if S::obeys_halve_spec() {
            lemma_tabulate::<S, N>(|i: int| a[i].halve_spec());
            lemma_array_ext(r, halve_all(*a));
        }
    }
    r
}

impl<const N: usize, S: Scalar + Halve> Halve for Jet1<N, S> {
    open spec fn obeys_halve_spec() -> bool {
        S::obeys_halve_spec()
    }

    open spec fn halve_req(self) -> bool {
        self.value.halve_req() && halve_all_req(self.grad)
    }

    open spec fn halve_spec(self) -> Self {
        Jet1 { value: self.value.halve_spec(), grad: halve_all(self.grad) }
    }

    fn halve(self) -> (r: Self) {
        Jet1 { value: self.value.halve(), grad: halve_array(&self.grad) }
    }
}

impl<const N: usize, const H: usize, S: Scalar + Halve> Halve for Jet2<N, H, S> {
    open spec fn obeys_halve_spec() -> bool {
        S::obeys_halve_spec()
    }

    open spec fn halve_req(self) -> bool {
        self.value.halve_req() && halve_all_req(self.grad) && halve_all_req(self.hess)
    }

    open spec fn halve_spec(self) -> Self {
        Jet2 {
            value: self.value.halve_spec(),
            grad: halve_all(self.grad),
            hess: halve_all(self.hess),
        }
    }

    fn halve(self) -> (r: Self) {
        Jet2 {
            value: self.value.halve(),
            grad: halve_array(&self.grad),
            hess: halve_array(&self.hess),
        }
    }
}

impl<const N: usize, const H: usize, const T: usize, S: Scalar + Halve> Halve for Jet3<N, H, T, S> {
    open spec fn obeys_halve_spec() -> bool {
        S::obeys_halve_spec()
    }

    open spec fn halve_req(self) -> bool {
        &&& self.value.halve_req()
        &&& halve_all_req(self.grad)
        &&& halve_all_req(self.hess)
        &&& halve_all_req(self.tens)
    }

    open spec fn halve_spec(self) -> Self {
        Jet3 {
            value: self.value.halve_spec(),
            grad: halve_all(self.grad),
            hess: halve_all(self.hess),
            tens: halve_all(self.tens),
        }
    }

    fn halve(self) -> (r: Self) {
        Jet3 {
            value: self.value.halve(),
            grad: halve_array(&self.grad),
            hess: halve_array(&self.hess),
            tens: halve_array(&self.tens),
        }
    }
}

} // verus!
