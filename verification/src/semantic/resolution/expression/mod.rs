//! The types of expressions (6.3): each operator's constraints and result type.

pub mod arithmetic;
pub mod assign;
pub mod compare;
pub mod conditional;
pub mod dispatch;
pub mod operand;
pub mod unary;
