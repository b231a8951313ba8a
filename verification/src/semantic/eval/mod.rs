//! Evaluation of constant expressions.

pub mod ice;
