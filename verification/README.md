# nolan

Const-generic jets (hyperdual numbers) for forward-mode automatic
differentiation, verified with Verus.

`Jet1<N, S>`, `Jet2<N, H, S>` and `Jet3<N, H, T, S>` carry a value and its
first, second and third derivatives with respect to `N` parameters over a
scalar type `S` (`f64`, or an integer type for exact arithmetic). Hessians
and third-order tensors are stored packed (`H = N(N+1)/2`,
`T = N(N+1)(N+2)/6`).

## Layout

- `src/` — the verified library:
  - `jets.rs`: packed index arithmetic (`hess_index`, `tens_index`, ...),
    the jet types, reading derivatives back densely.
  - `impls/jet_ops.rs`: `+ - * /` and negation on jets (product and
    quotient rules through third order), with scalar operands.
  - `impls/jet_convert.rs`: small integers as constant jets (`From<u8>`).
  - `impls/jet_chain.rs`: the chain rule (`compose`) and `atan2_with`.
  - `differentiate.rs`: `differentiate1/2/3`, their vector forms, the
    6- and 9-parameter helpers, and `differentiate_dyn`, which picks the
    order at run time for a function written once over any `AutoDiff`
    type (`AutoDiffFn`).
  - `linalg/`: products, transposes, traces, quadratic forms, `3 × 3`
    determinants and Tikhonov damping, generic over the scalar.
  - `parameters.rs`: physical parameters and which of them a computation
    tracks.
  - `scalar.rs`: the model of scalar arithmetic the contracts are stated in.
- `app/` — floating-point numerics around the library: elementary
  functions of jets over `f64`, pivoting solvers and inverses, Cholesky,
  eigendecomposition, regularization, QR least squares, angle wrapping,
  grids and the Levenberg–Marquardt solver.
- `tests/` — the test suite.

Contracts state results exactly whenever the scalar's arithmetic follows
its specification (the integer types). For `f64`, and for jets over `f64`,
the arithmetic clauses say nothing: `vstd` gives floating-point operators
no specification, so only the clauses that do not speak of arithmetic
(which entry is copied where, symmetry of a result, which value a jet
carries through) hold of them. The library's floating-point behaviour is
exercised by the tests; `app/` is type-checked against the library but its
solvers are not run by the test suite.
