//! Struct, union and enum declarations as recorded by the parser, in arenas
//! indexed by their ids.

use vstd::prelude::*;

use crate::symbol::NameId;
use crate::types::TypeId;

verus! {

#[derive(Clone, Copy, Debug, PartialEq, Eq, Structural)]
pub struct Field {
    pub name: NameId,
    pub ty: TypeId,
}

#[derive(Clone, Debug)]
pub struct Struct {
    pub name: Option<NameId>,
    pub fields: Vec<Field>,
    pub complete: bool,
}

/// Index of a struct in its arena.
pub type StructId = usize;

pub struct StructArena {
    pub data: Vec<Struct>,
}

impl StructArena {
    pub fn new() -> (a: Self)
        ensures
            a.data@.len() == 0,
    {
        StructArena { data: Vec::new() }
    }

    /// Adds a struct and returns its id.
    pub fn add(&mut self, name: Option<NameId>, fields: Vec<Field>, complete: bool) -> (id: StructId)
        ensures
            id == old(self).data@.len(),
            final(self).data@.len() == old(self).data@.len() + 1,
            final(self).data@.drop_last() == old(self).data@,
            final(self).data@[id as int].name == name,
            final(self).data@[id as int].fields@ == fields@,
            final(self).data@[id as int].complete == complete,
    {
        self.data.push(Struct { name, fields, complete });
        proof {
            assert(self.data@.drop_last() =~= old(self).data@);
        }
        self.data.len() - 1
    }
}

#[derive(Clone, Debug)]
pub struct Union {
    pub name: Option<NameId>,
    pub fields: Vec<Field>,
    pub complete: bool,
}

/// Index of a union in its arena.
pub type UnionId = usize;

pub struct UnionArena {
    pub data: Vec<Union>,
}

impl UnionArena {
    pub fn new() -> (a: Self)
        ensures
            a.data@.len() == 0,
    {
        UnionArena { data: Vec::new() }
    }

    /// Adds a union and returns its id.
    pub fn add(&mut self, name: Option<NameId>, fields: Vec<Field>, complete: bool) -> (id: UnionId)
        ensures
            id == old(self).data@.len(),
            final(self).data@.len() == old(self).data@.len() + 1,
            final(self).data@.drop_last() == old(self).data@,
            final(self).data@[id as int].name == name,
            final(self).data@[id as int].fields@ == fields@,
            final(self).data@[id as int].complete == complete,
    {
        self.data.push(Union { name, fields, complete });
        proof {
            assert(self.data@.drop_last() =~= old(self).data@);
        }
        self.data.len() - 1
    }
}

#[derive(Clone, Debug)]
pub struct Enum {
    pub name: Option<NameId>,
    pub variants: Vec<VariantId>,
    pub complete: bool,
}

/// Index of an enum in its arena.
pub type EnumId = usize;

pub struct EnumArena {
    pub data: Vec<Enum>,
}

impl EnumArena {
    pub fn new() -> (a: Self)
        ensures
            a.data@.len() == 0,
    {
        EnumArena { data: Vec::new() }
    }

    /// Adds an enum and returns its id.
    pub fn add(&mut self, name: Option<NameId>, variants: Vec<VariantId>, complete: bool) -> (id: EnumId)
        ensures
            id == old(self).data@.len(),
            final(self).data@.len() == old(self).data@.len() + 1,
            final(self).data@.drop_last() == old(self).data@,
            final(self).data@[id as int].name == name,
            final(self).data@[id as int].variants@ == variants@,
            final(self).data@[id as int].complete == complete,
    {
        self.data.push(Enum { name, variants, complete });
        proof {
            assert(self.data@.drop_last() =~= old(self).data@);
        }
        self.data.len() - 1
    }
}

#[derive(Clone, Copy, Debug, PartialEq, Eq, Structural)]
pub struct Variant {
    pub name: NameId,
    pub value: i64,
}

/// Index of an enumeration constant in its arena.
pub type VariantId = usize;

pub struct VariantArena {
    pub data: Vec<Variant>,
}

impl VariantArena {
    pub fn new() -> (a: Self)
        ensures
            a.data@.len() == 0,
    {
        VariantArena { data: Vec::new() }
    }

    /// Adds an enumeration constant and returns its id.
    pub fn add(&mut self, name: NameId, value: i64) -> (id: VariantId)
        ensures
            id == old(self).data@.len(),
            final(self).data@ == old(self).data@.push(Variant { name, value }),
    {
        self.data.push(Variant { name, value });
        self.data.len() - 1
    }
}

} // verus!
