//! What holds of the engine as a whole.
//!
//! The laws here are stated over the same predicates as the contracts of the
//! functions they speak of. Those that compare values do so exactly; they
//! hold of any arithmetic that meets what each of them asks of it.

pub mod bloch;
pub mod circuit;
pub mod determinism;
pub mod expansion;
pub mod kronecker;
pub mod pairs;
pub mod permutation;
