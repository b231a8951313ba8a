//! The parser's table of declarations in nested scopes.

use vstd::prelude::*;
use std::collections::HashMap;

use crate::ast::{DeclaratorId, StringId, Tag};

verus! {

broadcast use vstd::std_specs::hash::group_hash_axioms;

/// An interned identifier.
pub type NameId = usize;

/// The declarations of one scope: ordinary identifiers, and tags of each kind.
pub struct Scope {
    pub ordinaries: HashMap<StringId, DeclaratorId>,
    pub structs: HashMap<StringId, DeclaratorId>,
    pub unions: HashMap<StringId, DeclaratorId>,
    pub enums: HashMap<StringId, DeclaratorId>,
}

impl Scope {
    pub open spec fn tags_of(&self, kind: Tag) -> Map<StringId, DeclaratorId> {
        match kind {
            Tag::Struct => self.structs@,
            Tag::Union => self.unions@,
            Tag::Enum => self.enums@,
        }
    }

    pub fn new() -> (s: Self)
        ensures
            s.ordinaries@ == Map::<StringId, DeclaratorId>::empty(),
            s.structs@ == Map::<StringId, DeclaratorId>::empty(),
            s.unions@ == Map::<StringId, DeclaratorId>::empty(),
            s.enums@ == Map::<StringId, DeclaratorId>::empty(),
    {
        Scope { ordinaries: HashMap::new(), structs: HashMap::new(), unions: HashMap::new(), enums: HashMap::new() }
    }

    /// The declaration of the ordinary identifier `name` in this scope.
    pub fn get_ordinary(&self, name: StringId) -> (r: Option<DeclaratorId>)
        ensures
            r == (if self.ordinaries@.contains_key(name) { Some(self.ordinaries@[name]) } else { None }),
    {
        match self.ordinaries.get(&name) {
            Some(d) => Some(*d),
            None => None,
        }
    }

    /// The declaration of the tag `name` of kind `kind` in this scope.
    pub fn get_tag(&self, kind: Tag, name: StringId) -> (r: Option<DeclaratorId>)
        ensures
            r == (if self.tags_of(kind).contains_key(name) { Some(self.tags_of(kind)[name]) } else { None }),
    {
        let table = match kind {
            Tag::Struct => &self.structs,
            Tag::Union => &self.unions,
            Tag::Enum => &self.enums,
        };
        match table.get(&name) {
            Some(d) => Some(*d),
            None => None,
        }
    }
}

/// The scopes in effect, outermost first.
pub struct SymbolTable {
    pub scopes: Vec<Scope>,
}

/// The ordinary declaration of `name` in the innermost of the first `n` scopes that has one.
pub open spec fn ordinary_in(scopes: Seq<Scope>, n: int, name: StringId) -> Option<DeclaratorId>
    decreases n,
{
    if n <= 0 {
        None
    } else if scopes[n - 1].ordinaries@.contains_key(name) {
        Some(scopes[n - 1].ordinaries@[name])
    } else {
        ordinary_in(scopes, n - 1, name)
    }
}

/// The tag declaration of `name` in the innermost of the first `n` scopes that has one.
pub open spec fn tag_in(scopes: Seq<Scope>, n: int, kind: Tag, name: StringId) -> Option<DeclaratorId>
    decreases n,
{
    if n <= 0 {
        None
    } else if scopes[n - 1].tags_of(kind).contains_key(name) {
        Some(scopes[n - 1].tags_of(kind)[name])
    } else {
        tag_in(scopes, n - 1, kind, name)
    }
}

impl SymbolTable {
    pub fn new() -> (t: Self)
        ensures
            t.scopes@.len() == 0,
    {
        SymbolTable { scopes: Vec::new() }
    }

    /// The declaration of the ordinary identifier `name`, innermost scope first.
    pub fn get_ordinary(&self, name: StringId) -> (r: Option<DeclaratorId>)
        ensures
            r == ordinary_in(self.scopes@, self.scopes@.len() as int, name),
    {
        let mut i: usize = self.scopes.len();
        while i > 0
            invariant
                i <= self.scopes@.len(),
                ordinary_in(self.scopes@, self.scopes@.len() as int, name) == ordinary_in(self.scopes@, i as int, name),
            decreases i,
        {
            if let Some(d) = self.scopes[i - 1].get_ordinary(name) {
                return Some(d);
            }
            i -= 1;
        }
        None
    }

    /// The declaration of the tag `name` of kind `kind`, innermost scope first.
    pub fn get_tag(&self, kind: Tag, name: StringId) -> (r: Option<DeclaratorId>)
        ensures
            r == tag_in(self.scopes@, self.scopes@.len() as int, kind, name),
    {
        let mut i: usize = self.scopes.len();
        while i > 0
            invariant
                i <= self.scopes@.len(),
                tag_in(self.scopes@, self.scopes@.len() as int, kind, name) == tag_in(self.scopes@, i as int, kind, name),
            decreases i,
        {
            if let Some(d) = self.scopes[i - 1].get_tag(kind, name) {
                return Some(d);
            }
            i -= 1;
        }
        None
    }
}

} // verus!
