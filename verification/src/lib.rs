//! A tree-walking interpreter's value semantics for Noir's monomorphized programs, and the
//! run records and cross-field comparisons built on them.
//!
//! Integers carry an explicit width, signedness and their exact mathematical value, so one
//! computation yields identical integer and bool results under bn254 and Goldilocks; `Field`
//! values carry the field they belong to.

pub mod ast;
pub mod bigint;
pub mod bn254_crypto;
pub mod budget;
pub mod caching;
pub mod capability;
pub mod corpus;
pub mod cross_field;
pub mod diff;
pub mod error;
pub mod eval;
pub mod field;
pub mod format;
pub mod input;
pub mod interpreter;
pub mod intrinsics;
pub mod mavros;
pub mod projection;
pub mod text;
pub mod types;
pub mod value;

use vstd::prelude::*;

verus! {

} // verus!
