//! The types of declarations as recorded by the parser, in an arena indexed
//! by `TypeId`.

use vstd::prelude::*;

use crate::tag::{EnumId, StructId, UnionId};

verus! {

/// Index of a type in its arena.
pub type TypeId = usize;

#[derive(Clone, Copy, Debug, PartialEq, Eq, Structural)]
pub enum Qualifiers {
    Const,
    Volatile,
}

#[derive(Clone, Debug)]
pub enum Type {
    Void,
    Char,
    Short,
    Int,
    Long,
    LongLong,
    Float,
    Double,
    LongDouble,
    Pointer(TypeId),
    Array { element: TypeId, length: Option<u64> },
    Function { return_type: TypeId, params: Vec<TypeId>, variadic: bool },
    Struct(StructId),
    Union(UnionId),
    Enum(EnumId),
    /// A base type with a set of qualifiers; each qualifier appears at most once.
    Qualified { base: TypeId, qualifiers: Vec<Qualifiers> },
}

pub struct TypeArena {
    pub data: Vec<Type>,
}

impl TypeArena {
    pub fn new() -> (a: Self)
        ensures
            a.data@.len() == 0,
    {
        TypeArena { data: Vec::new() }
    }

    /// Appends `ty` and returns its id.
    fn push_type(&mut self, ty: Type) -> (id: TypeId)
        ensures
            id == old(self).data@.len(),
            final(self).data@ == old(self).data@.push(ty),
    {
        self.data.push(ty);
        self.data.len() - 1
    }

    pub fn void(&mut self) -> (id: TypeId)
        ensures
            id == old(self).data@.len(),
            final(self).data@ == old(self).data@.push(Type::Void),
    {
        self.push_type(Type::Void)
    }

    pub fn char(&mut self) -> (id: TypeId)
        ensures
            id == old(self).data@.len(),
            final(self).data@ == old(self).data@.push(Type::Char),
    {
        self.push_type(Type::Char)
    }

    pub fn short(&mut self) -> (id: TypeId)
        ensures
            id == old(self).data@.len(),
            final(self).data@ == old(self).data@.push(Type::Short),
    {
        self.push_type(Type::Short)
    }

    pub fn int_(&mut self) -> (id: TypeId)
        ensures
            id == old(self).data@.len(),
            final(self).data@ == old(self).data@.push(Type::Int),
    {
        self.push_type(Type::Int)
    }

    pub fn long(&mut self) -> (id: TypeId)
        ensures
            id == old(self).data@.len(),
            final(self).data@ == old(self).data@.push(Type::Long),
    {
        self.push_type(Type::Long)
    }

    pub fn longlong(&mut self) -> (id: TypeId)
        ensures
            id == old(self).data@.len(),
            final(self).data@ == old(self).data@.push(Type::LongLong),
    {
        self.push_type(Type::LongLong)
    }

    pub fn float(&mut self) -> (id: TypeId)
        ensures
            id == old(self).data@.len(),
            final(self).data@ == old(self).data@.push(Type::Float),
    {
        self.push_type(Type::Float)
    }

    pub fn double(&mut self) -> (id: TypeId)
        ensures
            id == old(self).data@.len(),
            final(self).data@ == old(self).data@.push(Type::Double),
    {
        self.push_type(Type::Double)
    }

    pub fn longdouble(&mut self) -> (id: TypeId)
        ensures
            id == old(self).data@.len(),
            final(self).data@ == old(self).data@.push(Type::LongDouble),
    {
        self.push_type(Type::LongDouble)
    }

    pub fn pointer(&mut self, base: TypeId) -> (id: TypeId)
        ensures
            id == old(self).data@.len(),
            final(self).data@ == old(self).data@.push(Type::Pointer(base)),
    {
        self.push_type(Type::Pointer(base))
    }

    pub fn array(&mut self, element: TypeId, length: Option<u64>) -> (id: TypeId)
        ensures
            id == old(self).data@.len(),
            final(self).data@ == old(self).data@.push(Type::Array { element, length }),
    {
        self.push_type(Type::Array { element, length })
    }

    pub fn function(&mut self, return_type: TypeId, params: Vec<TypeId>, variadic: bool) -> (id: TypeId)
        ensures
            id == old(self).data@.len(),
            final(self).data@.len() == old(self).data@.len() + 1,
            final(self).data@.drop_last() == old(self).data@,
            match final(self).data@[id as int] {
                Type::Function { return_type: r, params: p, variadic: v } => r == return_type && p@ == params@ && v
                    == variadic,
                _ => false,
            },
    {
        let id = self.push_type(Type::Function { return_type, params, variadic });
        proof {
            assert(self.data@.drop_last() =~= old(self).data@);
        }
        id
    }

    pub fn struct_(&mut self, base: StructId) -> (id: TypeId)
        ensures
            id == old(self).data@.len(),
            final(self).data@ == old(self).data@.push(Type::Struct(base)),
    {
        self.push_type(Type::Struct(base))
    }

    pub fn union_(&mut self, base: UnionId) -> (id: TypeId)
        ensures
            id == old(self).data@.len(),
            final(self).data@ == old(self).data@.push(Type::Union(base)),
    {
        self.push_type(Type::Union(base))
    }

    pub fn enum_(&mut self, base: EnumId) -> (id: TypeId)
        ensures
            id == old(self).data@.len(),
            final(self).data@ == old(self).data@.push(Type::Enum(base)),
    {
        self.push_type(Type::Enum(base))
    }

    /// The type `base` qualified by `qualifiers`, each of which is kept once.
    pub fn qualified(&mut self, base: TypeId, qualifiers: Vec<Qualifiers>) -> (id: TypeId)
        ensures
            id == old(self).data@.len(),
            final(self).data@.len() == old(self).data@.len() + 1,
            final(self).data@.drop_last() == old(self).data@,
            match final(self).data@[id as int] {
                Type::Qualified { base: b, qualifiers: q } => b == base && q@.no_duplicates() && q@.to_set()
                    == qualifiers@.to_set(),
                _ => false,
            },
    {
        let mut set: Vec<Qualifiers> = Vec::new();
        let mut i: usize = 0;
        while i < qualifiers.len()
            invariant
                i <= qualifiers@.len(),
                set@.no_duplicates(),
                set@.to_set() == qualifiers@.subrange(0, i as int).to_set(),
            decreases qualifiers@.len() - i,
        {
            let q = qualifiers[i];
            let mut found = false;
            let mut j: usize = 0;
            while j < set.len()
                invariant
                    j <= set@.len(),
                    found == exists|k: int| 0 <= k < j && set@[k] == q,
                decreases set@.len() - j,
            {
                if set[j] == q {
                    found = true;
                }
                j += 1;
            }
            proof {
                assert(qualifiers@.subrange(0, i + 1) =~= qualifiers@.subrange(0, i as int).push(q));
                qualifiers@.subrange(0, i as int).lemma_push_to_set_commute(q);
                set@.lemma_push_to_set_commute(q);
                if found {
                    let k = choose|k: int| 0 <= k < set@.len() && set@[k] == q;
                    assert(set@.to_set().contains(q));
                    assert(set@.to_set().insert(q) =~= set@.to_set());
                }
            }
            if !found {
                set.push(q);
            }
            i += 1;
        }
        proof {
            assert(qualifiers@.subrange(0, qualifiers@.len() as int) =~= qualifiers@);
        }
        let id = self.push_type(Type::Qualified { base, qualifiers: set });
        proof {
            assert(self.data@.drop_last() =~= old(self).data@);
        }
        id
    }
}

} // verus!
