//! Semantic analysis of a C90 front end: type model, conversions, constraint
//! checks, constant evaluation, layout and name resolution, with their
//! contracts proved by Verus.

pub mod ast;
pub mod context;
pub mod semantic;
pub mod symbol;
pub mod tag;
pub mod target;
pub mod types;
pub mod utils;
