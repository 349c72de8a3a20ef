//! Cartesian state vectors whose components carry derivatives.
use crate::jets::{Jet1, Jet2, Jet3, hess_dims, hess_slot, tens_dims};
use crate::parameters::{Parameter, param_index};
use crate::scalar::{Scalar, exact_arith, total_arith, dot3_spec, dot3_req, sum3_products};
use vstd::prelude::*;

verus! {

/// A 3-vector of scalars.
#[derive(Clone)]
pub struct Vec3<T> {
    x: T,
    y: T,
    z: T,
}

impl<T> View for Vec3<T> {
    type V = Seq<T>;

    /// The components `[x, y, z]`.
    closed spec fn view(&self) -> Seq<T> {
        seq![self.x, self.y, self.z]
    }
}

impl<T: Scalar> Vec3<T> {
    /// Compute the dot product with another vector.
    pub fn dot(&self, other: &Self) -> (r: T)
        requires
            total_arith::<T>() || (exact_arith::<T>() && dot3_req(
                self@[0],
                other@[0],
                self@[1],
                other@[1],
                self@[2],
                other@[2],
            )),
        ensures
            exact_arith::<T>() ==> r == dot3_spec(
                self@[0],
                other@[0],
                self@[1],
                other@[1],
                self@[2],
                other@[2],
            ),
    {
        sum3_products(self.x, other.x, self.y, other.y, self.z, other.z)
    }
}

/// A position (with its derivatives) at a time.
#[derive(Clone)]
pub struct CartesianState<J> {
    r: Vec3<J>,
    t: J,
}

impl<J> CartesianState<J> {
    /// Component `i` (`x`, `y`, `z` for `0`, `1`, `2`) of the position.
    pub closed spec fn component(&self, i: int) -> J {
        self.r@[i]
    }
}

impl<const N: usize, S: Scalar> CartesianState<Jet1<N, S>> {
    /// The position: the values of the components.
    pub fn position(&self) -> (r: [S; 3])
        ensures
            r@ == seq![self.component(0).value, self.component(1).value, self.component(2).value],
    {
        let r = [self.r.x.value, self.r.y.value, self.r.z.value];
        assert(r@ =~= seq![self.r.x.value, self.r.y.value, self.r.z.value]);
        r
    }

    /// The velocity: the derivatives of the components with respect to
    /// time.
    pub fn velocity(&self) -> (r: [S; 3])
        requires
            param_index(Parameter::Time) < N,
        ensures
            r@ == seq![
                self.component(0).grad[param_index(Parameter::Time)],
                self.component(1).grad[param_index(Parameter::Time)],
                self.component(2).grad[param_index(Parameter::Time)],
            ],
    {
        let t = Parameter::Time.index();
        let r = [self.r.x.grad_at(t), self.r.y.grad_at(t), self.r.z.grad_at(t)];
        assert(r@ =~= seq![self.r.x.grad[t as int], self.r.y.grad[t as int], self.r.z.grad[t as int]]);
        r
    }
}

impl<const N: usize, const H: usize, S: Scalar> CartesianState<Jet2<N, H, S>> {
    /// The position: the values of the components.
    pub fn position(&self) -> (r: [S; 3])
        ensures
            r@ == seq![self.component(0).value, self.component(1).value, self.component(2).value],
    {
        let r = [self.r.x.value, self.r.y.value, self.r.z.value];
        assert(r@ =~= seq![self.r.x.value, self.r.y.value, self.r.z.value]);
        r
    }

    /// The velocity: the derivatives of the components with respect to
    /// time.
    pub fn velocity(&self) -> (r: [S; 3])
        requires
            param_index(Parameter::Time) < N,
        ensures
            r@ == seq![
                self.component(0).grad[param_index(Parameter::Time)],
                self.component(1).grad[param_index(Parameter::Time)],
                self.component(2).grad[param_index(Parameter::Time)],
            ],
    {
        let t = Parameter::Time.index();
        let r = [self.r.x.grad_at(t), self.r.y.grad_at(t), self.r.z.grad_at(t)];
        assert(r@ =~= seq![self.r.x.grad[t as int], self.r.y.grad[t as int], self.r.z.grad[t as int]]);
        r
    }

    /// The acceleration: the second derivatives of the components with
    /// respect to time.
    pub fn acceleration(&self) -> (r: [S; 3])
        requires
            hess_dims(N as int, H as int),
            param_index(Parameter::Time) < N,
        ensures
            r@ == seq![
                self.component(0).hess[hess_slot(
                    param_index(Parameter::Time),
                    param_index(Parameter::Time),
                )],
                self.component(1).hess[hess_slot(
                    param_index(Parameter::Time),
                    param_index(Parameter::Time),
                )],
                self.component(2).hess[hess_slot(
                    param_index(Parameter::Time),
                    param_index(Parameter::Time),
                )],
            ],
    {
        let t = Parameter::Time.index();
        let r = [self.r.x.hess_at(t, t), self.r.y.hess_at(t, t), self.r.z.hess_at(t, t)];
        let ghost s = hess_slot(t as int, t as int);
        assert(r@ =~= seq![self.r.x.hess[s], self.r.y.hess[s], self.r.z.hess[s]]);
        r
    }
}

impl<const N: usize, const H: usize, const T: usize, S: Scalar> CartesianState<Jet3<N, H, T, S>> {
    /// The position: the values of the components.
    pub fn position(&self) -> (r: [S; 3])
        ensures
            r@ == seq![self.component(0).value, self.component(1).value, self.component(2).value],
    {
        let r = [self.r.x.value, self.r.y.value, self.r.z.value];
        assert(r@ =~= seq![self.r.x.value, self.r.y.value, self.r.z.value]);
        r
    }

    /// The velocity: the derivatives of the components with respect to
    /// time.
    pub fn velocity(&self) -> (r: [S; 3])
        requires
            param_index(Parameter::Time) < N,
        ensures
            r@ == seq![
                self.component(0).grad[param_index(Parameter::Time)],
                self.component(1).grad[param_index(Parameter::Time)],
                self.component(2).grad[param_index(Parameter::Time)],
            ],
    {
        let t = Parameter::Time.index();
        let r = [self.r.x.grad_at(t), self.r.y.grad_at(t), self.r.z.grad_at(t)];
        assert(r@ =~= seq![self.r.x.grad[t as int], self.r.y.grad[t as int], self.r.z.grad[t as int]]);
        r
    }

    /// The acceleration: the second derivatives of the components with
    /// respect to time.
    pub fn acceleration(&self) -> (r: [S; 3])
        requires
            tens_dims(N as int, H as int, T as int),
            param_index(Parameter::Time) < N,
        ensures
            r@ == seq![
                self.component(0).hess[hess_slot(
                    param_index(Parameter::Time),
                    param_index(Parameter::Time),
                )],
                self.component(1).hess[hess_slot(
                    param_index(Parameter::Time),
                    param_index(Parameter::Time),
                )],
                self.component(2).hess[hess_slot(
                    param_index(Parameter::Time),
                    param_index(Parameter::Time),
                )],
            ],
    {
        let t = Parameter::Time.index();
        let r = [self.r.x.hess_at(t, t), self.r.y.hess_at(t, t), self.r.z.hess_at(t, t)];
        let ghost s = hess_slot(t as int, t as int);
        assert(r@ =~= seq![self.r.x.hess[s], self.r.y.hess[s], self.r.z.hess[s]]);
        r
    }
}

} // verus!
