//! Initializers (6.5.7) as the analysis resolved them.

use vstd::prelude::*;

use crate::ast::{ExpressionId, StringId, Value};
use crate::semantic::model::symbol::SymbolId;

verus! {

#[derive(Debug)]
pub enum Initilizer {
    Zero,
    Value(Value),
    Address { sym: SymbolId, offset: u32 },
    String(StringId),
    List(Vec<Initilizer>),
    Expr(ExpressionId),
}

/// The initializers, indexed by `InitilizerId`.
pub struct InitilizerArena {
    pub data: Vec<Initilizer>,
}

impl InitilizerArena {
    pub fn new() -> (a: Self)
        ensures
            a.data@.len() == 0,
    {
        InitilizerArena { data: Vec::new() }
    }

    pub fn allocate(&mut self, init: Initilizer) -> (id: usize)
        ensures
            id == old(self).data@.len(),
            final(self).data@ == old(self).data@.push(init),
    {
        self.data.push(init);
        self.data.len() - 1
    }
}

} // verus!
