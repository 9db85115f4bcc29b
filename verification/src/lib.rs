//! Private set intersection as an arithmetic circuit.
//!
//! Two sets of field elements are compared pair by pair. Each pair is one
//! row of a table; a match gate ties the row's match bit to the equality of
//! the two elements, a running-sum gate adds the match bits up, and the last
//! sum is bound to the public intersection size. Where a set is empty there
//! is no pair, and the public intersection size is bound to zero.

use vstd::prelude::*;

pub mod circuit;
pub mod config;
pub mod constraint;
pub mod encoder;
pub mod field;
pub mod input;
pub mod laws;
pub mod synthesis;

pub use circuit::{ConstructionError, PsiCircuit};
pub use config::{ComparisonRow, PsiConfig};
pub use constraint::{
    AdviceColumn, Column, ConstraintSystem, Expression, FixedColumn, Gate, InstanceColumn,
    Rotation, Selector,
};
pub use encoder::{field_from_digest, hash_string_to_field, hash_to_field};
pub use field::FieldElement;
pub use input::{encode_value, is_whitespace, parse_set, parse_values, SetValue};
pub use synthesis::{ConstantCell, OutputBinding, Synthesis};

verus! {

/// The largest number of elements that a set may hold.
pub const MAX_SET_SIZE: usize = 32;

} // verus!
