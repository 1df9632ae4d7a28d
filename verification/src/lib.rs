//! A non-interactive zero-knowledge argument for rank-1 constraint systems over
//! the BN254 scalar field, built from VOLE-in-the-Head and a Quicksilver check.

pub mod actors;
pub mod algebra;
pub mod artifact;
pub mod bytes;
pub mod challenges;
pub mod circom;
pub mod code_laws;
pub mod completeness;
pub mod errors;
pub mod field;
pub mod hash;
pub mod limbs;
pub mod linalg;
pub mod poly;
pub mod pretty;
pub mod quicksilver;
pub mod smallvole;
pub mod stream;
pub mod subspacevole;
pub mod vecccom;
pub mod zkp;

pub use crate::field::{Fr, FromU8s, Norm, ToU8s, PF};
pub use crate::linalg::{DataSize, DotProduct, FMatrix, FVec, SparseFMatrix, SparseVec};
