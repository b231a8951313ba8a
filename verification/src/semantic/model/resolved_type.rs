//! Resolved types (6.1.2.5), interned in an arena, with the qualifiers of
//! 6.5.3 carried beside the type id.

use vstd::prelude::*;

use crate::ast::Tag;
use crate::semantic::model::function_def::{lemma_list_compatible, ParamTypes};
use crate::semantic::sema::Sema;
use crate::target::Target;

verus! {

/// Index of a resolved type in the type arena.
pub type ResolvedTypeId = usize;

/// Index of a tag (struct, union or enum) definition.
pub type TagDefId = usize;

#[derive(Debug, PartialEq, Clone, Copy, Eq, Structural)]
pub struct QualifiedType {
    pub id: ResolvedTypeId,
    pub is_const: bool,
    pub is_volatile: bool,
}

#[derive(Debug, Clone)]
pub enum ResolvedType {
    Void,
    Char,
    SignedChar,
    UnsignedChar,
    Short,
    UnsignedShort,
    Int,
    UnsignedInt,
    Long,
    UnsignedLong,
    Float,
    Double,
    LongDouble,
    Array { elem: QualifiedType, len: Option<usize> },
    Function { ret: QualifiedType, params: ParamTypes },
    Pointer(QualifiedType),
    Tag(TagDefId),
}

impl QualifiedType {
    pub fn new(id: ResolvedTypeId, is_const: bool, is_volatile: bool) -> (q: Self)
        ensures
            q.id == id,
            q.is_const == is_const,
            q.is_volatile == is_volatile,
    {
        QualifiedType { id, is_const, is_volatile }
    }

    /// The type without qualifiers.
    pub fn plain(id: ResolvedTypeId) -> (q: Self)
        ensures
            q.id == id,
            !q.is_const,
            !q.is_volatile,
    {
        QualifiedType { id, is_const: false, is_volatile: false }
    }

    pub fn unqualified(&self) -> (q: Self)
        ensures
            q.id == self.id,
            !q.is_const,
            !q.is_volatile,
    {
        QualifiedType { id: self.id, is_const: false, is_volatile: false }
    }

    pub fn same_qualifiers_as(&self, other: &Self) -> (b: bool)
        ensures
            b == (self.is_const == other.is_const && self.is_volatile == other.is_volatile),
    {
        self.is_const == other.is_const && self.is_volatile == other.is_volatile
    }

    /// Every qualifier of `other` is also on `self`.
    pub fn has_qualifiers_of(&self, other: &Self) -> (b: bool)
        ensures
            b == ((other.is_const ==> self.is_const) && (other.is_volatile ==> self.is_volatile)),
    {
        (self.is_const || !other.is_const) && (self.is_volatile || !other.is_volatile)
    }
}

impl ResolvedType {
    /// Two types are the same entry: same variant and same components.
    pub open spec fn same(self, other: ResolvedType) -> bool {
        match (self, other) {
            (ResolvedType::Void, ResolvedType::Void) => true,
            (ResolvedType::Char, ResolvedType::Char) => true,
            (ResolvedType::SignedChar, ResolvedType::SignedChar) => true,
            (ResolvedType::UnsignedChar, ResolvedType::UnsignedChar) => true,
            (ResolvedType::Short, ResolvedType::Short) => true,
            (ResolvedType::UnsignedShort, ResolvedType::UnsignedShort) => true,
            (ResolvedType::Int, ResolvedType::Int) => true,
            (ResolvedType::UnsignedInt, ResolvedType::UnsignedInt) => true,
            (ResolvedType::Long, ResolvedType::Long) => true,
            (ResolvedType::UnsignedLong, ResolvedType::UnsignedLong) => true,
            (ResolvedType::Float, ResolvedType::Float) => true,
            (ResolvedType::Double, ResolvedType::Double) => true,
            (ResolvedType::LongDouble, ResolvedType::LongDouble) => true,
            (ResolvedType::Array { elem: e1, len: l1 }, ResolvedType::Array { elem: e2, len: l2 }) => e1
                == e2 && l1 == l2,
            (
                ResolvedType::Function { ret: r1, params: p1 },
                ResolvedType::Function { ret: r2, params: p2 },
            ) => r1 == r2 && p1.same(p2),
            (ResolvedType::Pointer(a), ResolvedType::Pointer(b)) => a == b,
            (ResolvedType::Tag(a), ResolvedType::Tag(b)) => a == b,
            _ => false,
        }
    }

    /// Every type this one refers to lies below `bound` in the arena.
    pub open spec fn refs_below(self, bound: int) -> bool {
        match self {
            ResolvedType::Array { elem, .. } => elem.id < bound,
            ResolvedType::Function { ret, params } => ret.id < bound && params.refs_below(bound),
            ResolvedType::Pointer(inner) => inner.id < bound,
            _ => true,
        }
    }

    /// Every tag this type names is below `bound` in the tag arena.
    pub open spec fn tags_below(self, bound: int) -> bool {
        match self {
            ResolvedType::Tag(id) => id < bound,
            _ => true,
        }
    }

    pub open spec fn spec_is_integer(self) -> bool {
        match self {
            ResolvedType::Char | ResolvedType::SignedChar | ResolvedType::UnsignedChar
            | ResolvedType::Short | ResolvedType::UnsignedShort | ResolvedType::Int
            | ResolvedType::UnsignedInt | ResolvedType::Long | ResolvedType::UnsignedLong => true,
            _ => false,
        }
    }

    pub open spec fn spec_is_floating(self) -> bool {
        match self {
            ResolvedType::Float | ResolvedType::Double | ResolvedType::LongDouble => true,
            _ => false,
        }
    }

    pub fn same_as(&self, other: &ResolvedType) -> (b: bool)
        ensures
            b == self.same(*other),
    {
        match (self, other) {
            (ResolvedType::Void, ResolvedType::Void) => true,
            (ResolvedType::Char, ResolvedType::Char) => true,
            (ResolvedType::SignedChar, ResolvedType::SignedChar) => true,
            (ResolvedType::UnsignedChar, ResolvedType::UnsignedChar) => true,
            (ResolvedType::Short, ResolvedType::Short) => true,
            (ResolvedType::UnsignedShort, ResolvedType::UnsignedShort) => true,
            (ResolvedType::Int, ResolvedType::Int) => true,
            (ResolvedType::UnsignedInt, ResolvedType::UnsignedInt) => true,
            (ResolvedType::Long, ResolvedType::Long) => true,
            (ResolvedType::UnsignedLong, ResolvedType::UnsignedLong) => true,
            (ResolvedType::Float, ResolvedType::Float) => true,
            (ResolvedType::Double, ResolvedType::Double) => true,
            (ResolvedType::LongDouble, ResolvedType::LongDouble) => true,
            (ResolvedType::Array { elem: e1, len: l1 }, ResolvedType::Array { elem: e2, len: l2 }) => {
                *e1 == *e2 && match (l1, l2) {
                    (Some(a), Some(b)) => *a == *b,
                    (None, None) => true,
                    _ => false,
                }
            },
            (
                ResolvedType::Function { ret: r1, params: p1 },
                ResolvedType::Function { ret: r2, params: p2 },
            ) => *r1 == *r2 && p1.same_as(p2),
            (ResolvedType::Pointer(a), ResolvedType::Pointer(b)) => *a == *b,
            (ResolvedType::Tag(a), ResolvedType::Tag(b)) => *a == *b,
            _ => false,
        }
    }

    /// A copy of this type: the same entry.
    pub fn duplicate(&self) -> (r: ResolvedType)
        ensures
            r.same(*self),
    {
        match self {
            ResolvedType::Void => ResolvedType::Void,
            ResolvedType::Char => ResolvedType::Char,
            ResolvedType::SignedChar => ResolvedType::SignedChar,
            ResolvedType::UnsignedChar => ResolvedType::UnsignedChar,
            ResolvedType::Short => ResolvedType::Short,
            ResolvedType::UnsignedShort => ResolvedType::UnsignedShort,
            ResolvedType::Int => ResolvedType::Int,
            ResolvedType::UnsignedInt => ResolvedType::UnsignedInt,
            ResolvedType::Long => ResolvedType::Long,
            ResolvedType::UnsignedLong => ResolvedType::UnsignedLong,
            ResolvedType::Float => ResolvedType::Float,
            ResolvedType::Double => ResolvedType::Double,
            ResolvedType::LongDouble => ResolvedType::LongDouble,
            ResolvedType::Array { elem, len } => ResolvedType::Array { elem: *elem, len: *len },
            ResolvedType::Function { ret, params } => ResolvedType::Function {
                ret: *ret,
                params: params.clone_params(),
            },
            ResolvedType::Pointer(q) => ResolvedType::Pointer(*q),
            ResolvedType::Tag(t) => ResolvedType::Tag(*t),
        }
    }

    pub fn is_pointer(&self) -> (b: bool)
        ensures
            b == (self is Pointer),
    {
        matches!(self, ResolvedType::Pointer(_))
    }

    pub fn is_function(&self) -> (b: bool)
        ensures
            b == (self is Function),
    {
        matches!(self, ResolvedType::Function { .. })
    }

    pub fn is_void(&self) -> (b: bool)
        ensures
            b == (self is Void),
    {
        matches!(self, ResolvedType::Void)
    }

    pub fn is_tag(&self) -> (b: bool)
        ensures
            b == (self is Tag),
    {
        matches!(self, ResolvedType::Tag(_))
    }

    pub fn is_floating(&self) -> (b: bool)
        ensures
            b == self.spec_is_floating(),
    {
        matches!(self, ResolvedType::Float | ResolvedType::Double | ResolvedType::LongDouble)
    }

    pub fn is_integer(&self) -> (b: bool)
        ensures
            b == self.spec_is_integer(),
    {
        matches!(
            self,
            ResolvedType::Char | ResolvedType::SignedChar | ResolvedType::UnsignedChar | ResolvedType::Short
                | ResolvedType::UnsignedShort | ResolvedType::Int | ResolvedType::UnsignedInt
                | ResolvedType::Long | ResolvedType::UnsignedLong
        )
    }
}


/// The type arena. Types are interned: allocating a type equal to an existing
/// entry gives back that entry's id. A type only refers to types allocated
/// before it.
pub struct ResolvedTypeArena {
    pub data: Vec<ResolvedType>,
}

impl ResolvedTypeArena {
    pub open spec fn len(&self) -> int {
        self.data@.len() as int
    }

    pub open spec fn wf(&self, ntags: int) -> bool {
        forall|i: int| 0 <= i < self.data@.len() ==> (#[trigger] self.data@[i]).refs_below(i) && self.data@[i].tags_below(ntags)
    }

    /// `new` keeps every entry of `old`, possibly adding entries after them.
    pub open spec fn extends(new: ResolvedTypeArena, old: ResolvedTypeArena) -> bool {
        &&& old.data@.len() <= new.data@.len()
        &&& forall|i: int| 0 <= i < old.data@.len() ==> new.data@[i] == old.data@[i]
    }

    /// Position of the first entry that is the same as `ty`, or the length if none.
    pub open spec fn find_from(data: Seq<ResolvedType>, ty: ResolvedType, from: int) -> int
        decreases data.len() - from,
    {
        if from < 0 || from >= data.len() {
            data.len() as int
        } else if data[from].same(ty) {
            from
        } else {
            Self::find_from(data, ty, from + 1)
        }
    }

    pub fn new() -> (a: Self)
        ensures
            a.data@.len() == 0,
    {
        ResolvedTypeArena { data: Vec::new() }
    }

    pub fn get(&self, id: ResolvedTypeId) -> (t: &ResolvedType)
        requires
            id < self.data@.len(),
        ensures
            *t == self.data@[id as int],
    {
        &self.data[id]
    }

    /// The id of `ty`: the first entry that is the same type, or a new entry.
    pub fn allocate(&mut self, ty: ResolvedType) -> (id: ResolvedTypeId)
        requires
            ty.refs_below(old(self).data@.len() as int),
        ensures
            id == Self::find_from(old(self).data@, ty, 0),
            id < old(self).data@.len() ==> final(self).data@ == old(self).data@,
            id == old(self).data@.len() ==> final(self).data@ == old(self).data@.push(ty),
            id < final(self).data@.len(),
            final(self).data@[id as int].same(ty),
            Self::extends(*final(self), *old(self)),
            forall|ntags: int| old(self).wf(ntags) && ty.tags_below(ntags) ==> #[trigger] final(self).wf(ntags),
    {
        let mut i: usize = 0;
        while i < self.data.len()
            invariant
                i <= self.data@.len(),
                Self::find_from(self.data@, ty, i as int) == Self::find_from(self.data@, ty, 0),
            decreases self.data@.len() - i,
        {
            if self.data[i].same_as(&ty) {
                return i;
            }
            i += 1;
        }
        proof {
            ty.lemma_same_refl();
        }
        self.data.push(ty);
        self.data.len() - 1
    }

    pub fn pointer(&mut self, inner: QualifiedType) -> (id: ResolvedTypeId)
        requires
            inner.id < old(self).data@.len(),
        ensures
            final(self).data@[id as int].same(ResolvedType::Pointer(inner)),
            id < final(self).data@.len(),
            Self::extends(*final(self), *old(self)),
            forall|ntags: int| old(self).wf(ntags) ==> #[trigger] final(self).wf(ntags),
    {
        self.allocate(ResolvedType::Pointer(inner))
    }

    /// The id of the type function returning `ret` with parameters `params`.
    pub fn function(&mut self, ret: QualifiedType, params: ParamTypes) -> (id: ResolvedTypeId)
        requires
            ret.id < old(self).data@.len(),
            params.refs_below(old(self).data@.len() as int),
        ensures
            final(self).data@[id as int].same(ResolvedType::Function { ret, params }),
            id < final(self).data@.len(),
            Self::extends(*final(self), *old(self)),
            forall|ntags: int| old(self).wf(ntags) ==> #[trigger] final(self).wf(ntags),
    {
        self.allocate(ResolvedType::Function { ret, params })
    }

    pub fn array(&mut self, elem: QualifiedType, len: Option<usize>) -> (id: ResolvedTypeId)
        requires
            elem.id < old(self).data@.len(),
        ensures
            final(self).data@[id as int].same(ResolvedType::Array { elem, len }),
            id < final(self).data@.len(),
            Self::extends(*final(self), *old(self)),
            forall|ntags: int| old(self).wf(ntags) ==> #[trigger] final(self).wf(ntags),
    {
        self.allocate(ResolvedType::Array { elem, len })
    }

    pub fn tag(&mut self, id: TagDefId) -> (r: ResolvedTypeId)
        ensures
            final(self).data@[r as int].same(ResolvedType::Tag(id)),
            r < final(self).data@.len(),
            Self::extends(*final(self), *old(self)),
            forall|ntags: int| old(self).wf(ntags) && id < ntags ==> #[trigger] final(self).wf(ntags),
    {
        self.allocate(ResolvedType::Tag(id))
    }

    /// 6.7.1 A parameter declared as array of T is adjusted to pointer to T, one
    /// declared as function returning T to pointer to function returning T.
    pub fn adjust_parameter(&mut self, param: QualifiedType) -> (q: QualifiedType)
        requires
            param.id < old(self).data@.len(),
            old(self).data@[param.id as int].refs_below(param.id as int),
        ensures
            q.id < final(self).data@.len(),
            q.is_const == param.is_const,
            q.is_volatile == param.is_volatile,
            Self::extends(*final(self), *old(self)),
            forall|ntags: int| old(self).wf(ntags) ==> #[trigger] final(self).wf(ntags),
            match old(self).data@[param.id as int] {
                ResolvedType::Array { elem, .. } => final(self).data@[q.id as int].same(ResolvedType::Pointer(elem)),
                ResolvedType::Function { .. } => final(self).data@[q.id as int].same(
                    ResolvedType::Pointer(QualifiedType { id: param.id, is_const: false, is_volatile: false }),
                ),
                _ => q == param,
            },
    {
        let id = match self.get(param.id) {
            ResolvedType::Array { elem, .. } => {
                let elem = *elem;
                self.pointer(elem)
            },
            ResolvedType::Function { .. } => self.pointer(QualifiedType::new(param.id, false, false)),
            _ => return param,
        };
        QualifiedType::new(id, param.is_const, param.is_volatile)
    }
}

impl ResolvedType {
    pub proof fn lemma_same_refl(self)
        ensures
            self.same(self),
    {
    }
}

/// A first occurrence found among the types of `old` stays the first one
/// in an arena that extends it.
proof fn lemma_find_from_prefix(old: Seq<ResolvedType>, new: Seq<ResolvedType>, ty: ResolvedType, from: int)
    requires
        0 <= from,
        old.len() <= new.len(),
        forall|i: int| 0 <= i < old.len() ==> #[trigger] new[i] == old[i],
        ResolvedTypeArena::find_from(old, ty, from) < old.len(),
    ensures
        ResolvedTypeArena::find_from(new, ty, from) == ResolvedTypeArena::find_from(old, ty, from),
    decreases old.len() - from,
{
    if from < old.len() && !old[from].same(ty) {
        lemma_find_from_prefix(old, new, ty, from + 1);
    }
}

/// A type found nowhere in `old` is first found where it was pushed.
proof fn lemma_find_from_pushed(old: Seq<ResolvedType>, ty: ResolvedType, from: int)
    requires
        0 <= from <= old.len(),
        ResolvedTypeArena::find_from(old, ty, from) == old.len(),
    ensures
        ResolvedTypeArena::find_from(old.push(ty), ty, from) == old.len(),
    decreases old.len() - from,
{
    ty.lemma_same_refl();
    if from < old.len() {
        assert(old.push(ty)[from] == old[from]);
        lemma_find_from_pushed(old, ty, from + 1);
    } else {
        assert(old.push(ty)[from] == ty);
    }
}

/// Allocating `ty` gives the first id of a type the same as `ty` in the arena after it.
proof fn lemma_allocated(before: Seq<ResolvedType>, after: Seq<ResolvedType>, ty: ResolvedType, id: int)
    requires
        id == ResolvedTypeArena::find_from(before, ty, 0),
        id < before.len() ==> after == before,
        id == before.len() ==> after == before.push(ty),
    ensures
        ResolvedTypeArena::find_from(after, ty, 0) == id,
        id < after.len(),
{
    if id == before.len() {
        lemma_find_from_pushed(before, ty, 0);
    } else {
        lemma_find_from_nonneg(before, ty, 0);
    }
}

proof fn lemma_find_from_nonneg(data: Seq<ResolvedType>, ty: ResolvedType, from: int)
    requires
        0 <= from,
    ensures
        from <= ResolvedTypeArena::find_from(data, ty, from) <= data.len() || ResolvedTypeArena::find_from(data, ty, from) == data.len(),
    decreases data.len() - from,
{
    if from < data.len() && !data[from].same(ty) {
        lemma_find_from_nonneg(data, ty, from + 1);
    }
}

#[derive(Clone, Copy, Debug)]
pub struct Builtins {
    pub void: ResolvedTypeId,
    pub char: ResolvedTypeId,
    pub signed_char: ResolvedTypeId,
    pub unsigned_char: ResolvedTypeId,
    pub short: ResolvedTypeId,
    pub unsigned_short: ResolvedTypeId,
    pub int: ResolvedTypeId,
    pub unsigned_int: ResolvedTypeId,
    pub long: ResolvedTypeId,
    pub unsigned_long: ResolvedTypeId,
    pub float: ResolvedTypeId,
    pub double: ResolvedTypeId,
    pub long_double: ResolvedTypeId,
    pub ptrdiff_t: ResolvedTypeId,
    pub size_t: ResolvedTypeId,
}

impl Builtins {
    /// Each builtin id names its type in `types`.
    pub open spec fn wf(&self, types: Seq<ResolvedType>, target: &Target) -> bool {
        &&& self.void < types.len() && types[self.void as int] is Void
        &&& self.char < types.len() && types[self.char as int] is Char
        &&& self.signed_char < types.len() && types[self.signed_char as int] is SignedChar
        &&& self.unsigned_char < types.len() && types[self.unsigned_char as int] is UnsignedChar
        &&& self.short < types.len() && types[self.short as int] is Short
        &&& self.unsigned_short < types.len() && types[self.unsigned_short as int] is UnsignedShort
        &&& self.int < types.len() && types[self.int as int] is Int
        &&& self.unsigned_int < types.len() && types[self.unsigned_int as int] is UnsignedInt
        &&& self.long < types.len() && types[self.long as int] is Long
        &&& self.unsigned_long < types.len() && types[self.unsigned_long as int] is UnsignedLong
        &&& self.float < types.len() && types[self.float as int] is Float
        &&& self.double < types.len() && types[self.double as int] is Double
        &&& self.long_double < types.len() && types[self.long_double as int] is LongDouble
        &&& self.ptrdiff_t < types.len() && types[self.ptrdiff_t as int].same(target.ptrdiff_t)
        &&& self.size_t < types.len() && types[self.size_t as int].same(target.size_t)
    }

    /// The builtin id of the basic type `t`.
    pub open spec fn spec_basic_id(&self, t: ResolvedType) -> ResolvedTypeId {
        match t {
            ResolvedType::Char => self.char,
            ResolvedType::SignedChar => self.signed_char,
            ResolvedType::UnsignedChar => self.unsigned_char,
            ResolvedType::Short => self.short,
            ResolvedType::UnsignedShort => self.unsigned_short,
            ResolvedType::Int => self.int,
            ResolvedType::UnsignedInt => self.unsigned_int,
            ResolvedType::Long => self.long,
            ResolvedType::UnsignedLong => self.unsigned_long,
            ResolvedType::Float => self.float,
            ResolvedType::Double => self.double,
            ResolvedType::LongDouble => self.long_double,
            _ => self.void,
        }
    }

    /// In a fresh arena the basic types take the first ids, in declaration
    /// order, and `ptrdiff_t` and `size_t` are interned as the basic types
    /// the target gives them.
    pub open spec fn fresh(&self) -> bool {
        &&& self.void == 0 && self.char == 1 && self.signed_char == 2 && self.unsigned_char == 3
        &&& self.short == 4 && self.unsigned_short == 5 && self.int == 6 && self.unsigned_int == 7
        &&& self.long == 8 && self.unsigned_long == 9 && self.float == 10 && self.double == 11
        &&& self.long_double == 12
    }

    #[verifier::rlimit(100)]
    #[verifier::spinoff_prover]
    pub fn new(types: &mut ResolvedTypeArena, target: &Target) -> (b: Self)
        requires
            target.wf(),
        ensures
            b.wf(final(types).data@, target),
            ResolvedTypeArena::extends(*final(types), *old(types)),
            forall|ntags: int| old(types).wf(ntags) ==> #[trigger] final(types).wf(ntags),
            b.void == ResolvedTypeArena::find_from(final(types).data@, ResolvedType::Void, 0),
            b.char == ResolvedTypeArena::find_from(final(types).data@, ResolvedType::Char, 0),
            b.signed_char == ResolvedTypeArena::find_from(final(types).data@, ResolvedType::SignedChar, 0),
            b.unsigned_char == ResolvedTypeArena::find_from(final(types).data@, ResolvedType::UnsignedChar, 0),
            b.short == ResolvedTypeArena::find_from(final(types).data@, ResolvedType::Short, 0),
            b.unsigned_short == ResolvedTypeArena::find_from(final(types).data@, ResolvedType::UnsignedShort, 0),
            b.int == ResolvedTypeArena::find_from(final(types).data@, ResolvedType::Int, 0),
            b.unsigned_int == ResolvedTypeArena::find_from(final(types).data@, ResolvedType::UnsignedInt, 0),
            b.long == ResolvedTypeArena::find_from(final(types).data@, ResolvedType::Long, 0),
            b.unsigned_long == ResolvedTypeArena::find_from(final(types).data@, ResolvedType::UnsignedLong, 0),
            b.float == ResolvedTypeArena::find_from(final(types).data@, ResolvedType::Float, 0),
            b.double == ResolvedTypeArena::find_from(final(types).data@, ResolvedType::Double, 0),
            b.long_double == ResolvedTypeArena::find_from(final(types).data@, ResolvedType::LongDouble, 0),
            b.ptrdiff_t == ResolvedTypeArena::find_from(final(types).data@, target.ptrdiff_t, 0),
            b.size_t == ResolvedTypeArena::find_from(final(types).data@, target.size_t, 0),
            old(types).data@.len() == 0 ==> {
                &&& b.fresh()
                &&& final(types).data@.len() == 13
                &&& b.ptrdiff_t == b.spec_basic_id(target.ptrdiff_t)
                &&& b.size_t == b.spec_basic_id(target.size_t)
            },
    {
        proof {
            reveal_with_fuel(ResolvedTypeArena::find_from, 15);
        }
        let ghost d0 = types.data@;
        let void = types.allocate(ResolvedType::Void);
        proof {
            lemma_allocated(d0, types.data@, ResolvedType::Void, void as int);
        }
        let ghost a0 = types.data@;
        let ghost d1 = types.data@;
        let char = types.allocate(ResolvedType::Char);
        proof {
            lemma_allocated(d1, types.data@, ResolvedType::Char, char as int);
        }
        let ghost a1 = types.data@;
        let ghost d2 = types.data@;
        let signed_char = types.allocate(ResolvedType::SignedChar);
        proof {
            lemma_allocated(d2, types.data@, ResolvedType::SignedChar, signed_char as int);
        }
        let ghost a2 = types.data@;
        let ghost d3 = types.data@;
        let unsigned_char = types.allocate(ResolvedType::UnsignedChar);
        proof {
            lemma_allocated(d3, types.data@, ResolvedType::UnsignedChar, unsigned_char as int);
        }
        let ghost a3 = types.data@;
        let ghost d4 = types.data@;
        let short = types.allocate(ResolvedType::Short);
        proof {
            lemma_allocated(d4, types.data@, ResolvedType::Short, short as int);
        }
        let ghost a4 = types.data@;
        let ghost d5 = types.data@;
        let unsigned_short = types.allocate(ResolvedType::UnsignedShort);
        proof {
            lemma_allocated(d5, types.data@, ResolvedType::UnsignedShort, unsigned_short as int);
        }
        let ghost a5 = types.data@;
        let ghost d6 = types.data@;
        let int_ = types.allocate(ResolvedType::Int);
        proof {
            lemma_allocated(d6, types.data@, ResolvedType::Int, int_ as int);
        }
        let ghost a6 = types.data@;
        let ghost d7 = types.data@;
        let unsigned_int = types.allocate(ResolvedType::UnsignedInt);
        proof {
            lemma_allocated(d7, types.data@, ResolvedType::UnsignedInt, unsigned_int as int);
        }
        let ghost a7 = types.data@;
        let ghost d8 = types.data@;
        let long = types.allocate(ResolvedType::Long);
        proof {
            lemma_allocated(d8, types.data@, ResolvedType::Long, long as int);
        }
        let ghost a8 = types.data@;
        let ghost d9 = types.data@;
        let unsigned_long = types.allocate(ResolvedType::UnsignedLong);
        proof {
            lemma_allocated(d9, types.data@, ResolvedType::UnsignedLong, unsigned_long as int);
        }
        let ghost a9 = types.data@;
        let ghost d10 = types.data@;
        let float = types.allocate(ResolvedType::Float);
        proof {
            lemma_allocated(d10, types.data@, ResolvedType::Float, float as int);
        }
        let ghost a10 = types.data@;
        let ghost d11 = types.data@;
        let double = types.allocate(ResolvedType::Double);
        proof {
            lemma_allocated(d11, types.data@, ResolvedType::Double, double as int);
        }
        let ghost a11 = types.data@;
        let ghost d12 = types.data@;
        let long_double = types.allocate(ResolvedType::LongDouble);
        proof {
            lemma_allocated(d12, types.data@, ResolvedType::LongDouble, long_double as int);
        }
        let ghost a12 = types.data@;
        let ghost d13 = types.data@;
        let ptrdiff_t_ty = target.ptrdiff_t.duplicate();
        proof {
            assert(ptrdiff_t_ty == target.ptrdiff_t);
        }
        let ptrdiff_t = types.allocate(ptrdiff_t_ty);
        proof {
            lemma_allocated(d13, types.data@, target.ptrdiff_t, ptrdiff_t as int);
        }
        let ghost a13 = types.data@;
        let ghost d14 = types.data@;
        let size_t_ty = target.size_t.duplicate();
        proof {
            assert(size_t_ty == target.size_t);
        }
        let size_t = types.allocate(size_t_ty);
        proof {
            lemma_allocated(d14, types.data@, target.size_t, size_t as int);
        }
        let ghost a14 = types.data@;
        proof {
            lemma_find_from_prefix(a0, types.data@, ResolvedType::Void, 0);
            lemma_find_from_prefix(a1, types.data@, ResolvedType::Char, 0);
            lemma_find_from_prefix(a2, types.data@, ResolvedType::SignedChar, 0);
            lemma_find_from_prefix(a3, types.data@, ResolvedType::UnsignedChar, 0);
            lemma_find_from_prefix(a4, types.data@, ResolvedType::Short, 0);
            lemma_find_from_prefix(a5, types.data@, ResolvedType::UnsignedShort, 0);
            lemma_find_from_prefix(a6, types.data@, ResolvedType::Int, 0);
            lemma_find_from_prefix(a7, types.data@, ResolvedType::UnsignedInt, 0);
            lemma_find_from_prefix(a8, types.data@, ResolvedType::Long, 0);
            lemma_find_from_prefix(a9, types.data@, ResolvedType::UnsignedLong, 0);
            lemma_find_from_prefix(a10, types.data@, ResolvedType::Float, 0);
            lemma_find_from_prefix(a11, types.data@, ResolvedType::Double, 0);
            lemma_find_from_prefix(a12, types.data@, ResolvedType::LongDouble, 0);
            lemma_find_from_prefix(a13, types.data@, target.ptrdiff_t, 0);
            lemma_find_from_prefix(a14, types.data@, target.size_t, 0);
        }
        Builtins {
            void,
            char,
            signed_char,
            unsigned_char,
            short,
            unsigned_short,
            int: int_,
            unsigned_int,
            long,
            unsigned_long,
            float,
            double,
            long_double,
            ptrdiff_t,
            size_t,
        }
    }
}


/// 6.1.2.5 Incomplete types: `void`, arrays of unknown size, and structures or
/// unions of unknown content.
pub open spec fn spec_is_complete(sema: &Sema, t: ResolvedType) -> bool {
    match t {
        ResolvedType::Void => false,
        ResolvedType::Array { len, .. } => len is Some,
        ResolvedType::Tag(id) => sema.tag(id).is_complete,
        _ => true,
    }
}

/// 6.1.2.5 The integral types: char, the signed and unsigned integer types,
/// and the enumerated types.
pub open spec fn spec_is_integral(sema: &Sema, t: ResolvedType) -> bool {
    match t {
        ResolvedType::Tag(id) => sema.tag(id).kind == Tag::Enum,
        _ => t.spec_is_integer(),
    }
}

/// 6.1.2.5 Integral and floating types are the arithmetic types.
pub open spec fn spec_is_arithmetic(sema: &Sema, t: ResolvedType) -> bool {
    spec_is_integral(sema, t) || t.spec_is_floating()
}

/// 6.1.2.5 Arithmetic and pointer types are the scalar types.
pub open spec fn spec_is_scalar(sema: &Sema, t: ResolvedType) -> bool {
    spec_is_arithmetic(sema, t) || t is Pointer
}

/// Object types: complete types other than function types.
pub open spec fn spec_is_object(sema: &Sema, t: ResolvedType) -> bool {
    spec_is_complete(sema, t) && !(t is Function)
}

/// The types the integral promotions (6.2.1.1) convert to int.
pub open spec fn spec_is_promotable(sema: &Sema, t: ResolvedType) -> bool {
    match t {
        ResolvedType::Char | ResolvedType::SignedChar | ResolvedType::UnsignedChar | ResolvedType::Short
        | ResolvedType::UnsignedShort => true,
        ResolvedType::Tag(id) => sema.tag(id).kind == Tag::Enum,
        _ => false,
    }
}

/// 6.5.4.3 The type that results from the default argument promotions:
/// float becomes double, the promotable types become int, others are kept.
pub open spec fn spec_promoted(sema: &Sema, p: QualifiedType) -> QualifiedType {
    if p.id == sema.builtins.float {
        QualifiedType { id: sema.builtins.double, is_const: false, is_volatile: false }
    } else if spec_is_promotable(sema, sema.ty(p.id)) {
        QualifiedType { id: sema.builtins.int, is_const: false, is_volatile: false }
    } else {
        p
    }
}

/// 6.1.2.6 Two qualified types are compatible: the same qualifiers and compatible types.
pub open spec fn compatible(sema: &Sema, a: QualifiedType, b: QualifiedType) -> bool
    decreases a.id, 3nat, 0nat,
{
    a.is_const == b.is_const && a.is_volatile == b.is_volatile && compatible_ignoring(sema, a, b)
}

/// 6.1.2.6, 6.5.4 Compatibility of the types, qualifiers of `a` and `b`
/// themselves left aside. Components are followed only below `a` in the
/// arena, which every well-formed arena satisfies.
pub open spec fn compatible_ignoring(sema: &Sema, a: QualifiedType, b: QualifiedType) -> bool
    decreases a.id, 2nat, 0nat,
{
    if a.id == b.id {
        true
    } else if a.id >= sema.ntypes() || b.id >= sema.ntypes() {
        false
    } else {
        match (sema.ty(a.id), sema.ty(b.id)) {
            (ResolvedType::Function { ret: r1, params: p1 }, ResolvedType::Function { ret: r2, params: p2 }) => {
                (if r1.id < a.id { compatible(sema, r1, r2) } else { false }) && params_compatible(
                    sema,
                    p1,
                    p2,
                    a.id as int,
                )
            },
            (ResolvedType::Array { elem: e1, len: l1 }, ResolvedType::Array { elem: e2, len: l2 }) => {
                (if e1.id < a.id { compatible(sema, e1, e2) } else { false }) && (l1 is None || l2 is None || l1
                    == l2)
            },
            (ResolvedType::Pointer(l), ResolvedType::Pointer(r)) => {
                if l.id < a.id { compatible(sema, l, r) } else { false }
            },
            (ResolvedType::Tag(id), ResolvedType::Int) => id < sema.ntags() && sema.tag(id).kind == Tag::Enum,
            (ResolvedType::Int, ResolvedType::Tag(id)) => id < sema.ntags() && sema.tag(id).kind == Tag::Enum,
            _ => false,
        }
    }
}

/// 6.5.4.3 Compatibility of the parameter parts of two function types.
pub open spec fn params_compatible(sema: &Sema, p1: ParamTypes, p2: ParamTypes, bound: int) -> bool
    decreases bound, 1nat, 0nat,
{
    match (p1, p2) {
        (ParamTypes::Prototype { params: a, is_variadic: v1 }, ParamTypes::Prototype { params: b, is_variadic: v2 }) => {
            v1 == v2 && list_compatible(sema, a@, b@, bound)
        },
        (ParamTypes::Prototype { params, is_variadic }, ParamTypes::Unspecified) => {
            !is_variadic && list_promoted_compatible(sema, params@)
        },
        (ParamTypes::Unspecified, ParamTypes::Prototype { params, is_variadic }) => {
            !is_variadic && list_promoted_compatible(sema, params@)
        },
        (ParamTypes::Unspecified, ParamTypes::Unspecified) => true,
    }
}

/// Same length, and corresponding types compatible.
pub open spec fn list_compatible(sema: &Sema, a: Seq<QualifiedType>, b: Seq<QualifiedType>, bound: int) -> bool
    decreases bound, 0nat, a.len(),
{
    if a.len() == 0 || b.len() == 0 {
        a.len() == b.len()
    } else {
        (if a.last().id < bound { compatible(sema, a.last(), b.last()) } else { false }) && list_compatible(
            sema,
            a.drop_last(),
            b.drop_last(),
            bound,
        )
    }
}

/// A type is compatible with the type its default argument promotion gives.
/// The promoted type is the type itself, int or double, so no component
/// types have to be compared.
pub open spec fn promotion_compatible(sema: &Sema, p: QualifiedType) -> bool {
    let q = spec_promoted(sema, p);
    &&& p.is_const == q.is_const
    &&& p.is_volatile == q.is_volatile
    &&& (p.id == q.id || (p.id < sema.ntypes() && q.id < sema.ntypes() && match (sema.ty(p.id), sema.ty(q.id)) {
        (ResolvedType::Tag(id), ResolvedType::Int) => id < sema.ntags() && sema.tag(id).kind == Tag::Enum,
        (ResolvedType::Int, ResolvedType::Tag(id)) => id < sema.ntags() && sema.tag(id).kind == Tag::Enum,
        _ => false,
    }))
}

/// Each type of the list is compatible with its default argument promotion.
pub open spec fn list_promoted_compatible(sema: &Sema, a: Seq<QualifiedType>) -> bool {
    forall|i: int| 0 <= i < a.len() ==> promotion_compatible(sema, #[trigger] a[i])
}

/// `promotion_compatible` is compatibility with the promoted type.
pub proof fn lemma_promotion_compatible(sema: &Sema, p: QualifiedType)
    requires
        sema.wf(),
        p.id < sema.ntypes(),
    ensures
        promotion_compatible(sema, p) == compatible(sema, p, spec_promoted(sema, p)),
{
    let q = spec_promoted(sema, p);
    assert(q == p || sema.ty(q.id) is Int || sema.ty(q.id) is Double);
}

/// Every qualified type is compatible with itself.
pub proof fn lemma_compatible_reflexive(sema: &Sema, a: QualifiedType)
    ensures
        compatible(sema, a, a),
{
}

/// Compatibility is symmetric: `a` is compatible with `b` exactly when `b`
/// is compatible with `a`.
pub proof fn lemma_compatible_symmetric(sema: &Sema, a: QualifiedType, b: QualifiedType)
    requires
        sema.wf(),
        a.id < sema.ntypes(),
        b.id < sema.ntypes(),
    ensures
        compatible(sema, a, b) == compatible(sema, b, a),
    decreases a.id + b.id,
{
    assert(compatible(sema, a, b) == (a.is_const == b.is_const && a.is_volatile == b.is_volatile
        && compatible_ignoring(sema, a, b)));
    assert(compatible(sema, b, a) == (a.is_const == b.is_const && a.is_volatile == b.is_volatile
        && compatible_ignoring(sema, b, a)));
    if a.id != b.id {
        let ta = sema.ty(a.id);
        let tb = sema.ty(b.id);
        assert(ta.refs_below(a.id as int));
        assert(tb.refs_below(b.id as int));
        match (ta, tb) {
            (ResolvedType::Function { ret: r1, params: p1 }, ResolvedType::Function { ret: r2, params: p2 }) => {
                lemma_compatible_symmetric(sema, r1, r2);
                match (p1, p2) {
                    (
                        ParamTypes::Prototype { params: l1, is_variadic: v1 },
                        ParamTypes::Prototype { params: l2, is_variadic: v2 },
                    ) => {
                        lemma_list_compatible(sema, l1@, l2@, a.id as int);
                        lemma_list_compatible(sema, l2@, l1@, b.id as int);
                        if l1@.len() == l2@.len() {
                            assert forall|i: int| 0 <= i < l1@.len() implies compatible(sema, #[trigger] l1@[i], l2@[i])
                                == compatible(sema, l2@[i], l1@[i]) by {
                                assert(l1@[i].id < a.id && l2@[i].id < b.id);
                                lemma_compatible_symmetric(sema, l1@[i], l2@[i]);
                            }
                            assert(list_compatible(sema, l1@, l2@, a.id as int) == list_compatible(
                                sema,
                                l2@,
                                l1@,
                                b.id as int,
                            ));
                        }
                    },
                    _ => {},
                }
            },
            (ResolvedType::Array { elem: e1, .. }, ResolvedType::Array { elem: e2, .. }) => {
                lemma_compatible_symmetric(sema, e1, e2);
            },
            (ResolvedType::Pointer(l), ResolvedType::Pointer(r)) => {
                lemma_compatible_symmetric(sema, l, r);
            },
            _ => {},
        }
    }
}

/// Compatibility of types that exist in `old` reads the same in `new`,
/// whose type arena extends that of `old`, with the same tags.
pub proof fn lemma_compatible_stable(new: &Sema, old: &Sema, a: QualifiedType, b: QualifiedType)
    requires
        old.wf(),
        ResolvedTypeArena::extends(new.types, old.types),
        new.tags == old.tags,
        new.builtins == old.builtins,
        a.id < old.ntypes(),
        b.id < old.ntypes(),
    ensures
        compatible(new, a, b) == compatible(old, a, b),
    decreases a.id + b.id,
{
    assert(compatible(new, a, b) == (a.is_const == b.is_const && a.is_volatile == b.is_volatile
        && compatible_ignoring(new, a, b)));
    assert(compatible(old, a, b) == (a.is_const == b.is_const && a.is_volatile == b.is_volatile
        && compatible_ignoring(old, a, b)));
    if a.id != b.id {
        let ta = old.ty(a.id);
        let tb = old.ty(b.id);
        assert(new.ty(a.id) == ta && new.ty(b.id) == tb);
        assert(ta.refs_below(a.id as int));
        assert(tb.refs_below(b.id as int));
        match (ta, tb) {
            (ResolvedType::Function { ret: r1, params: p1 }, ResolvedType::Function { ret: r2, params: p2 }) => {
                lemma_compatible_stable(new, old, r1, r2);
                match (p1, p2) {
                    (
                        ParamTypes::Prototype { params: l1, .. },
                        ParamTypes::Prototype { params: l2, .. },
                    ) => {
                        lemma_list_compatible(new, l1@, l2@, a.id as int);
                        lemma_list_compatible(old, l1@, l2@, a.id as int);
                        if l1@.len() == l2@.len() {
                            assert forall|i: int| 0 <= i < l1@.len() implies compatible(new, #[trigger] l1@[i], l2@[i])
                                == compatible(old, l1@[i], l2@[i]) by {
                                assert(l1@[i].id < a.id && l2@[i].id < b.id);
                                lemma_compatible_stable(new, old, l1@[i], l2@[i]);
                            }
                        }
                    },
                    (ParamTypes::Prototype { params, .. }, ParamTypes::Unspecified) => {
                        assert forall|i: int| 0 <= i < params@.len() implies promotion_compatible(new, #[trigger] params@[i])
                            == promotion_compatible(old, params@[i]) by {
                            assert(params@[i].id < a.id);
                            let q = spec_promoted(old, params@[i]);
                            assert(spec_promoted(new, params@[i]) == q);
                        }
                    },
                    (ParamTypes::Unspecified, ParamTypes::Prototype { params, .. }) => {
                        assert forall|i: int| 0 <= i < params@.len() implies promotion_compatible(new, #[trigger] params@[i])
                            == promotion_compatible(old, params@[i]) by {
                            assert(params@[i].id < b.id);
                            let q = spec_promoted(old, params@[i]);
                            assert(spec_promoted(new, params@[i]) == q);
                        }
                    },
                    _ => {},
                }
            },
            (ResolvedType::Array { elem: e1, .. }, ResolvedType::Array { elem: e2, .. }) => {
                lemma_compatible_stable(new, old, e1, e2);
            },
            (ResolvedType::Pointer(l), ResolvedType::Pointer(r)) => {
                lemma_compatible_stable(new, old, l, r);
            },
            _ => {},
        }
    }
}

impl ResolvedType {
    pub fn is_complete(&self, sema: &Sema) -> (b: bool)
        requires
            sema.wf(),
            self.tags_below(sema.ntags()),
        ensures
            b == spec_is_complete(sema, *self),
    {
        match self {
            ResolvedType::Void => false,
            ResolvedType::Array { len, .. } => len.is_some(),
            ResolvedType::Tag(id) => sema.tags.get(*id).is_complete,
            _ => true,
        }
    }

    pub fn is_integral(&self, sema: &Sema) -> (b: bool)
        requires
            sema.wf(),
            self.tags_below(sema.ntags()),
        ensures
            b == spec_is_integral(sema, *self),
    {
        match self {
            ResolvedType::Tag(id) => sema.tags.get(*id).is_enum(),
            _ => self.is_integer(),
        }
    }

    pub fn is_arithmetic(&self, sema: &Sema) -> (b: bool)
        requires
            sema.wf(),
            self.tags_below(sema.ntags()),
        ensures
            b == spec_is_arithmetic(sema, *self),
    {
        self.is_integral(sema) || self.is_floating()
    }

    pub fn is_scalar(&self, sema: &Sema) -> (b: bool)
        requires
            sema.wf(),
            self.tags_below(sema.ntags()),
        ensures
            b == spec_is_scalar(sema, *self),
    {
        self.is_arithmetic(sema) || self.is_pointer()
    }

    pub fn is_object(&self, sema: &Sema) -> (b: bool)
        requires
            sema.wf(),
            self.tags_below(sema.ntags()),
        ensures
            b == spec_is_object(sema, *self),
    {
        self.is_complete(sema) && !self.is_function()
    }

    pub fn is_promotable(&self, sema: &Sema) -> (b: bool)
        requires
            sema.wf(),
            self.tags_below(sema.ntags()),
        ensures
            b == spec_is_promotable(sema, *self),
    {
        match self {
            ResolvedType::Char | ResolvedType::SignedChar | ResolvedType::UnsignedChar | ResolvedType::Short
            | ResolvedType::UnsignedShort => true,
            ResolvedType::Tag(id) => sema.tags.get(*id).is_enum(),
            _ => false,
        }
    }
}

impl QualifiedType {
    /// The resolved type this qualified type names.
    pub fn resolve<'a>(&self, sema: &'a Sema) -> (t: &'a ResolvedType)
        requires
            sema.wf(),
            self.id < sema.ntypes(),
        ensures
            *t == sema.ty(self.id),
            t.tags_below(sema.ntags()),
            t.refs_below(self.id as int),
    {
        sema.types.get(self.id)
    }

    pub fn is_void(&self, sema: &Sema) -> (b: bool)
        requires
            sema.wf(),
            self.id < sema.ntypes(),
        ensures
            b == (sema.ty(self.id) is Void),
    {
        self.resolve(sema).is_void()
    }

    pub fn is_function(&self, sema: &Sema) -> (b: bool)
        requires
            sema.wf(),
            self.id < sema.ntypes(),
        ensures
            b == (sema.ty(self.id) is Function),
    {
        self.resolve(sema).is_function()
    }

    pub fn is_pointer(&self, sema: &Sema) -> (b: bool)
        requires
            sema.wf(),
            self.id < sema.ntypes(),
        ensures
            b == (sema.ty(self.id) is Pointer),
    {
        self.resolve(sema).is_pointer()
    }

    pub fn is_integer(&self, sema: &Sema) -> (b: bool)
        requires
            sema.wf(),
            self.id < sema.ntypes(),
        ensures
            b == sema.ty(self.id).spec_is_integer(),
    {
        self.resolve(sema).is_integer()
    }

    pub fn is_floating(&self, sema: &Sema) -> (b: bool)
        requires
            sema.wf(),
            self.id < sema.ntypes(),
        ensures
            b == sema.ty(self.id).spec_is_floating(),
    {
        self.resolve(sema).is_floating()
    }

    pub fn is_complete(&self, sema: &Sema) -> (b: bool)
        requires
            sema.wf(),
            self.id < sema.ntypes(),
        ensures
            b == spec_is_complete(sema, sema.ty(self.id)),
    {
        self.resolve(sema).is_complete(sema)
    }

    pub fn is_object(&self, sema: &Sema) -> (b: bool)
        requires
            sema.wf(),
            self.id < sema.ntypes(),
        ensures
            b == spec_is_object(sema, sema.ty(self.id)),
    {
        self.resolve(sema).is_object(sema)
    }

    pub fn is_integral(&self, sema: &Sema) -> (b: bool)
        requires
            sema.wf(),
            self.id < sema.ntypes(),
        ensures
            b == spec_is_integral(sema, sema.ty(self.id)),
    {
        self.resolve(sema).is_integral(sema)
    }

    pub fn is_arithmetic(&self, sema: &Sema) -> (b: bool)
        requires
            sema.wf(),
            self.id < sema.ntypes(),
        ensures
            b == spec_is_arithmetic(sema, sema.ty(self.id)),
    {
        self.resolve(sema).is_arithmetic(sema)
    }

    pub fn is_scalar(&self, sema: &Sema) -> (b: bool)
        requires
            sema.wf(),
            self.id < sema.ntypes(),
        ensures
            b == spec_is_scalar(sema, sema.ty(self.id)),
    {
        self.resolve(sema).is_scalar(sema)
    }

    /// 6.1.2.6 Compatible: the same qualifiers and compatible types.
    pub fn is_compatible(&self, sema: &Sema, other: &Self) -> (b: bool)
        requires
            sema.wf(),
            self.id < sema.ntypes(),
            other.id < sema.ntypes(),
        ensures
            b == compatible(sema, *self, *other),
        decreases self.id, 3nat, 0nat,
    {
        self.same_qualifiers_as(other) && self.is_compatible_ignoring_qualifiers(sema, other)
    }

    /// Compatibility of the types, the qualifiers of `self` and `other` left aside.
    pub fn is_compatible_ignoring_qualifiers(&self, sema: &Sema, other: &Self) -> (b: bool)
        requires
            sema.wf(),
            self.id < sema.ntypes(),
            other.id < sema.ntypes(),
        ensures
            b == compatible_ignoring(sema, *self, *other),
        decreases self.id, 2nat, 0nat,
    {
        if self.id == other.id {
            return true;
        }
        let l = self.resolve(sema);
        let r = other.resolve(sema);
        match (l, r) {
            (ResolvedType::Function { ret: r1, params: p1 }, ResolvedType::Function { ret: r2, params: p2 }) => {
                r1.is_compatible(sema, r2) && p1.compatible_below(sema, p2, Ghost(self.id as int))
            },
            (ResolvedType::Array { elem: e1, len: l1 }, ResolvedType::Array { elem: e2, len: l2 }) => {
                e1.is_compatible(sema, e2) && (l1.is_none() || l2.is_none() || match (l1, l2) {
                    (Some(a), Some(b)) => *a == *b,
                    _ => true,
                })
            },
            (ResolvedType::Pointer(a), ResolvedType::Pointer(b)) => a.is_compatible(sema, b),
            (ResolvedType::Tag(id), ResolvedType::Int) => sema.tags.get(*id).is_enum(),
            (ResolvedType::Int, ResolvedType::Tag(id)) => sema.tags.get(*id).is_enum(),
            _ => false,
        }
    }
}

impl QualifiedType {
    /// 6.1.2.6 The composite type of two compatible types: an array of known
    /// size, a function with a prototype, built from the composites of the
    /// components; with the qualifiers of `self`. `None` when the types are
    /// not compatible.
    pub fn composite(&self, sema: &mut Sema, other: &Self) -> (r: Option<QualifiedType>)
        requires
            old(sema).wf(),
            self.id < old(sema).ntypes(),
            other.id < old(sema).ntypes(),
        ensures
            final(sema).wf(),
            final(sema).types_grown(*old(sema)),
            r is Some <==> compatible(old(sema), *self, *other),
            r matches Some(q) ==> q.id < final(sema).ntypes() && q.is_const == self.is_const && q.is_volatile
                == self.is_volatile,
            *self == *other ==> r == Some(*self),
        decreases self.id,
    {
        if !self.is_compatible(sema, other) {
            return None;
        }
        if self.id == other.id {
            return Some(*self);
        }
        let ghost s0 = *sema;
        proof {
            assert(compatible(&s0, *self, *other) == (self.is_const == other.is_const && self.is_volatile
                == other.is_volatile && compatible_ignoring(&s0, *self, *other)));
            assert(s0.ty(self.id).refs_below(self.id as int));
            assert(s0.ty(other.id).refs_below(other.id as int));
        }
        let id = match (sema.types.get(self.id).duplicate(), sema.types.get(other.id).duplicate()) {
            (ResolvedType::Function { ret: r1, params: p1 }, ResolvedType::Function { ret: r2, params: p2 }) => {
                assert(r1 == s0.ty(self.id)->Function_ret);
                let ret = match r1.composite(sema, &r2) {
                    Some(q) => q,
                    None => return None,
                };
                let ghost s1 = *sema;
                let params = match (p1, p2) {
                    (ParamTypes::Prototype { params: a, is_variadic }, ParamTypes::Prototype { params: b, .. }) => {
                        proof {
                            lemma_list_compatible(&s0, a@, b@, self.id as int);
                        }
                        let mut out: Vec<QualifiedType> = Vec::new();
                        let mut i: usize = 0;
                        while i < a.len()
                            invariant
                                sema.wf(),
                                s0.wf(),
                                ResolvedTypeArena::extends(sema.types, s0.types),
                                sema.types_grown(s0),
                                a@.len() == b@.len(),
                                i <= a@.len(),
                                out@.len() == i,
                                forall|j: int| 0 <= j < a@.len() ==> (#[trigger] a@[j]).id < self.id && compatible(&s0, a@[j], b@[j]),
                                forall|j: int| 0 <= j < b@.len() ==> (#[trigger] b@[j]).id < s0.ntypes(),
                                forall|j: int| 0 <= j < i ==> (#[trigger] out@[j]).id < sema.ntypes(),
                                self.id < s0.ntypes(),
                                ret.id < sema.ntypes(),
                            decreases a@.len() - i,
                        {
                            let ghost si = *sema;
                            proof {
                                lemma_compatible_stable(&si, &s0, a@[i as int], b@[i as int]);
                            }
                            let q = match a[i].composite(sema, &b[i]) {
                                Some(q) => q,
                                None => {
                                    proof {
                                        assert(false);
                                    }
                                    return None;
                                },
                            };
                            out.push(q);
                            i += 1;
                        }
                        ParamTypes::Prototype { params: out, is_variadic }
                    },
                    (ParamTypes::Prototype { params, is_variadic }, ParamTypes::Unspecified) => ParamTypes::Prototype {
                        params,
                        is_variadic,
                    },
                    (ParamTypes::Unspecified, p) => p,
                };
                sema.intern_type(ResolvedType::Function { ret, params })
            },
            (ResolvedType::Array { elem: e1, len: l1 }, ResolvedType::Array { elem: e2, len: l2 }) => {
                let elem = match e1.composite(sema, &e2) {
                    Some(q) => q,
                    None => return None,
                };
                let len = match l1 {
                    Some(n) => Some(n),
                    None => l2,
                };
                sema.array_type(elem, len)
            },
            (ResolvedType::Pointer(a), ResolvedType::Pointer(b)) => {
                let inner = match a.composite(sema, &b) {
                    Some(q) => q,
                    None => return None,
                };
                sema.pointer_type(inner)
            },
            _ => return Some(*self),
        };
        Some(QualifiedType::new(id, self.is_const, self.is_volatile))
    }
}


/// 6.5.4.2 Two array types whose sizes are both present and differ are not
/// compatible, whatever their element types and qualifiers.
pub proof fn lemma_arrays_of_different_sizes(sema: &Sema, a: QualifiedType, b: QualifiedType)
    requires
        a.id < sema.ntypes(),
        b.id < sema.ntypes(),
        sema.ty(a.id) is Array,
        sema.ty(b.id) is Array,
        sema.ty(a.id)->len is Some,
        sema.ty(b.id)->len is Some,
        sema.ty(a.id)->len != sema.ty(b.id)->len,
    ensures
        !compatible_ignoring(sema, a, b),
        !compatible(sema, a, b),
{
}


/// 6.1.2.6 Types of different kinds (pointer, array, function, basic, tag)
/// are not compatible, but for an enumeration and int.
pub proof fn lemma_different_kinds_incompatible(sema: &Sema, a: QualifiedType, b: QualifiedType)
    requires
        a.id != b.id,
        !(sema.ty(a.id) is Pointer && sema.ty(b.id) is Pointer),
        !(sema.ty(a.id) is Array && sema.ty(b.id) is Array),
        !(sema.ty(a.id) is Function && sema.ty(b.id) is Function),
        !(sema.ty(a.id) is Tag && sema.ty(b.id) is Int),
        !(sema.ty(a.id) is Int && sema.ty(b.id) is Tag),
    ensures
        !compatible_ignoring(sema, a, b),
{
}

/// 6.1.2.6, 6.5.4.1 Two distinct pointer types are compatible when, and only
/// when, the types they point to are (qualifiers included).
pub proof fn lemma_pointers_compatible(sema: &Sema, a: QualifiedType, b: QualifiedType)
    requires
        sema.wf(),
        a.id != b.id,
        a.id < sema.ntypes(),
        b.id < sema.ntypes(),
        sema.ty(a.id) is Pointer,
        sema.ty(b.id) is Pointer,
    ensures
        compatible_ignoring(sema, a, b) == compatible(sema, sema.ty(a.id)->Pointer_0, sema.ty(b.id)->Pointer_0),
{
    assert(sema.ty(a.id).refs_below(a.id as int));
}

/// 6.5.4.2 Array types with incompatible element types are not compatible.
pub proof fn lemma_arrays_of_incompatible_elements(sema: &Sema, a: QualifiedType, b: QualifiedType)
    requires
        sema.wf(),
        a.id != b.id,
        a.id < sema.ntypes(),
        b.id < sema.ntypes(),
        sema.ty(a.id) is Array,
        sema.ty(b.id) is Array,
        !compatible(sema, sema.ty(a.id)->elem, sema.ty(b.id)->elem),
    ensures
        !compatible_ignoring(sema, a, b),
{
}

} // verus!
