//! Definitions of struct, union and enum tags (6.5.2.1, 6.5.2.2) and their members.

use vstd::prelude::*;

use crate::ast::{Name, Tag};
use crate::semantic::model::resolved_type::TagDefId;
use crate::semantic::model::symbol::{SymbolArena, SymbolId, SymbolKind};

verus! {

/// A member of a tag: a named member (with its bit-field width if it is one)
/// or an unnamed bit-field, and its byte offset once the layout is known.
#[derive(Clone, Copy, Debug, PartialEq, Eq, Structural)]
pub struct Member {
    pub sym: Option<SymbolId>,
    pub bit_width: Option<i32>,
    pub offset: u32,
}

impl Member {
    pub fn symbol(id: SymbolId, bit_width: Option<i32>) -> (m: Self)
        ensures
            m.sym == Some(id),
            m.bit_width == bit_width,
            m.offset == 0,
    {
        Member { sym: Some(id), bit_width, offset: 0 }
    }

    pub fn bitfield(width: i32) -> (m: Self)
        ensures
            m.sym is None,
            m.bit_width == Some(width),
            m.offset == 0,
    {
        Member { sym: None, bit_width: Some(width), offset: 0 }
    }
}

/// A reference from a member-access expression to the member it names.
#[derive(Clone, Copy, Debug, PartialEq, Eq, Structural)]
pub struct MemberRef {
    pub tag: TagDefId,
    pub index: usize,
}

#[derive(Clone, Debug)]
pub struct TagDef {
    pub kind: Tag,
    pub name: Option<Name>,
    pub members: Vec<Member>,
    pub is_complete: bool,
}

pub open spec fn spec_symbol_kind(t: Tag) -> SymbolKind {
    match t {
        Tag::Struct => SymbolKind::Struct,
        Tag::Union => SymbolKind::Union,
        Tag::Enum => SymbolKind::Enum,
    }
}

impl Tag {
    pub fn symbol_kind(self) -> (k: SymbolKind)
        ensures
            k == spec_symbol_kind(self),
    {
        match self {
            Tag::Struct => SymbolKind::Struct,
            Tag::Union => SymbolKind::Union,
            Tag::Enum => SymbolKind::Enum,
        }
    }
}

/// The first named member of `members` whose symbol is called `name`.
pub open spec fn find_member(members: Seq<Member>, symbols: Seq<crate::semantic::model::symbol::Symbol>, name: crate::ast::StringId) -> Option<SymbolId>
    decreases members.len(),
{
    if members.len() == 0 {
        None
    } else {
        match members[0].sym {
            Some(id) if id < symbols.len() && symbols[id as int].name.id == name => Some(id),
            _ => find_member(members.drop_first(), symbols, name),
        }
    }
}

impl TagDef {
    pub fn kind(&self) -> (k: SymbolKind)
        ensures
            k == spec_symbol_kind(self.kind),
    {
        self.kind.symbol_kind()
    }

    pub fn is_enum(&self) -> (b: bool)
        ensures
            b == (self.kind == Tag::Enum),
    {
        matches!(self.kind, Tag::Enum)
    }

    /// The member called `name`, if the tag has one.
    pub fn get_member(&self, symbols: &SymbolArena, name: &Name) -> (r: Option<SymbolId>)
        ensures
            r == find_member(self.members@, symbols.data@, name.id),
    {
        let mut i: usize = 0;
        assert(self.members@.subrange(0, self.members@.len() as int) =~= self.members@);
        while i < self.members.len()
            invariant
                i <= self.members@.len(),
                find_member(self.members@, symbols.data@, name.id) == find_member(
                    self.members@.subrange(i as int, self.members@.len() as int),
                    symbols.data@,
                    name.id,
                ),
            decreases self.members@.len() - i,
        {
            proof {
                let rest = self.members@.subrange(i as int, self.members@.len() as int);
                assert(rest.drop_first() =~= self.members@.subrange(i as int + 1, self.members@.len() as int));
                assert(rest[0] == self.members@[i as int]);
            }
            match self.members[i].sym {
                Some(id) => {
                    if id < symbols.data.len() && symbols.data[id].name.id == name.id {
                        return Some(id);
                    }
                },
                None => {},
            }
            i += 1;
        }
        proof {
            assert(self.members@.subrange(i as int, self.members@.len() as int) =~= Seq::<Member>::empty());
        }
        None
    }
}

/// The tag definitions, indexed by `TagDefId`.
pub struct TagDefArena {
    pub data: Vec<TagDef>,
}

impl TagDefArena {
    pub fn new() -> (a: Self)
        ensures
            a.data@.len() == 0,
    {
        TagDefArena { data: Vec::new() }
    }

    pub fn get(&self, id: TagDefId) -> (t: &TagDef)
        requires
            id < self.data@.len(),
        ensures
            *t == self.data@[id as int],
    {
        &self.data[id]
    }

    /// A new, incomplete tag of `kind` without members.
    pub fn declare(&mut self, kind: Tag, name: Option<Name>) -> (id: TagDefId)
        ensures
            id == old(self).data@.len(),
            final(self).data@.len() == old(self).data@.len() + 1,
            final(self).data@.drop_last() == old(self).data@,
            final(self).data@[id as int].kind == kind,
            final(self).data@[id as int].name == name,
            final(self).data@[id as int].members@.len() == 0,
            !final(self).data@[id as int].is_complete,
    {
        self.data.push(TagDef { kind, name, members: Vec::new(), is_complete: false });
        proof {
            assert(self.data@.drop_last() =~= old(self).data@);
        }
        self.data.len() - 1
    }

    /// Gives the tag its members and marks it complete.
    pub fn complete(&mut self, id: TagDefId, members: Vec<Member>)
        requires
            id < old(self).data@.len(),
        ensures
            final(self).data@.len() == old(self).data@.len(),
            forall|j: int| 0 <= j < old(self).data@.len() && j != id ==> final(self).data@[j] == old(self).data@[j],
            final(self).data@[id as int].kind == old(self).data@[id as int].kind,
            final(self).data@[id as int].name == old(self).data@[id as int].name,
            final(self).data@[id as int].members@ == members@,
            final(self).data@[id as int].is_complete,
    {
        let old_def = self.data.remove(id);
        let def = TagDef { kind: old_def.kind, name: old_def.name, members, is_complete: true };
        self.data.insert(id, def);
    }
}

/// `new` is `old` with at most the offsets of its members changed.
pub open spec fn offsets_only(new: TagDef, old: TagDef) -> bool {
    &&& new.kind == old.kind
    &&& new.name == old.name
    &&& new.is_complete == old.is_complete
    &&& new.members@.len() == old.members@.len()
    &&& forall|j: int| 0 <= j < old.members@.len() ==> (#[trigger] new.members@[j]).sym == old.members@[j].sym
        && new.members@[j].bit_width == old.members@[j].bit_width
}

impl TagDefArena {
    /// Records the byte offset of each member of tag `id`.
    pub fn set_offsets(&mut self, id: TagDefId, offsets: &Vec<u32>)
        requires
            id < old(self).data@.len(),
            offsets@.len() == old(self).data@[id as int].members@.len(),
        ensures
            final(self).data@.len() == old(self).data@.len(),
            forall|j: int| 0 <= j < old(self).data@.len() && j != id ==> final(self).data@[j] == old(self).data@[j],
            forall|j: int| 0 <= j < old(self).data@.len() ==> offsets_only(#[trigger] final(self).data@[j], old(self).data@[j]),
            forall|k: int| 0 <= k < offsets@.len() ==> final(self).data@[id as int].members@[k].offset == offsets@[k],
    {
        let mut def = self.data.remove(id);
        let ghost before = def.members@;
        let ghost d0 = def;
        let mut k: usize = 0;
        while k < offsets.len()
            invariant
                k <= offsets@.len(),
                offsets@.len() == before.len(),
                def.members@.len() == before.len(),
                forall|j: int| 0 <= j < before.len() ==> (#[trigger] def.members@[j]).sym == before[j].sym
                    && def.members@[j].bit_width == before[j].bit_width,
                forall|j: int| 0 <= j < k ==> (#[trigger] def.members@[j]).offset == offsets@[j],
                def.kind == d0.kind,
                def.name == d0.name,
                def.is_complete == d0.is_complete,
                d0 == old(self).data@[id as int],
            decreases offsets@.len() - k,
        {
            let mut m = def.members[k];
            m.offset = offsets[k];
            def.members.set(k, m);
            k = k + 1;
        }
        self.data.insert(id, def);
        proof {
            assert forall|j: int| 0 <= j < old(self).data@.len() implies offsets_only(#[trigger] self.data@[j], old(self).data@[j]) by {
                if j != id {
                    assert(self.data@[j] == old(self).data@[j]);
                }
            }
        }
    }
}

} // verus!
