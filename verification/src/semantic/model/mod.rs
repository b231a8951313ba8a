//! The data the analysis produces: resolved types, symbols, tag definitions,
//! function definitions, implicit casts and resolved statements.

pub mod cast;
pub mod display;
pub mod function_def;
pub mod initializer;
pub mod resolved_expression;
pub mod resolved_statement;
pub mod resolved_type;
pub mod symbol;
pub mod tag_def;
