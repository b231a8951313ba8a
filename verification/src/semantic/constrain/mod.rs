//! The constraints of the standard on declarations, expressions, external
//! definitions and parameters, each checked from plain facts.

pub mod declaration;
pub mod expression;
pub mod external;
pub mod parameter;
