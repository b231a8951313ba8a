//! Semantic analysis: the resolved type model, implicit conversions, the
//! constraints of the standard, constant evaluation, layout and name resolution.

pub mod analyzer;
pub mod constrain;
pub mod diagnosis;
pub mod eval;
pub mod ice;
pub mod layout;
pub mod message;
pub mod model;
pub mod resolution;
pub mod sema;
