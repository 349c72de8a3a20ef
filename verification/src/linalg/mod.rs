//! Linear algebra on stack-allocated matrices, generic over the scalar type.
pub mod generic;
pub mod integer_laws;
pub mod mat3;
pub mod mat6;
pub mod mat9;
pub mod regularize;
pub mod vec3;
