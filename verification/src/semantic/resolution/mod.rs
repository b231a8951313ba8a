//! Name resolution: scopes, declarations, expressions and statements.

pub mod declaration;
pub mod expression;
pub mod function;
pub mod resolver;
pub mod scope;
pub mod statement;
pub mod uses;
