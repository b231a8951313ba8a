//! Sizes, alignments and member offsets of the types of a target.

use vstd::prelude::*;
use std::collections::HashMap;

use crate::ast::Tag;
use crate::semantic::model::resolved_type::{ResolvedType, ResolvedTypeId, TagDefId};
use crate::semantic::model::tag_def::{offsets_only, Member, TagDef};
use crate::semantic::sema::Sema;
use crate::target::Layout;

verus! {

broadcast use vstd::std_specs::hash::group_hash_axioms;

/// `value` rounded up to a multiple of `multiple`.
pub open spec fn spec_round_up(value: int, multiple: int) -> int {
    if value % multiple == 0 {
        value
    } else {
        value + multiple - value % multiple
    }
}

/// `value` rounded up to the next multiple of `multiple`.
pub fn round_up(value: u128, multiple: u128) -> (r: u128)
    requires
        multiple > 0,
        value + multiple <= u128::MAX,
    ensures
        r == spec_round_up(value as int, multiple as int),
        r % multiple == 0,
        value <= r < value + multiple,
{
    let rest = value % multiple;
    if rest == 0 {
        value
    } else {
        proof {
            assert((value + multiple - rest) % (multiple as int) == 0) by (nonlinear_arith)
                requires
                    rest == value % multiple,
                    multiple > 0,
            {
                let q = value / multiple;
                assert(value == multiple * q + rest);
                assert(value + multiple - rest == multiple * (q + 1));
                vstd::arithmetic::div_mod::lemma_mod_multiples_basic((q + 1) as int, multiple as int);
            }
        }
        value + multiple - rest
    }
}

/// What the layout of a struct or union needs of a member: its layout, its
/// bit-field width if it is one, and whether it has a name.
#[derive(Clone, Copy, Debug, PartialEq, Eq, Structural)]
pub struct MemberLayout {
    pub layout: Layout,
    pub width: Option<u64>,
    pub named: bool,
}

/// The state of a struct layout after some members: the bits used, the
/// alignment so far, and the bit where each member starts.
pub open spec fn struct_state(ms: Seq<MemberLayout>) -> (int, int, Seq<int>)
    decreases ms.len(),
{
    if ms.len() == 0 {
        (0, 1, Seq::empty())
    } else {
        let (bits, align, offsets) = struct_state(ms.drop_last());
        let m = ms.last();
        let unit = m.layout.align * 8;
        let align2 = if m.named && m.layout.align > align { m.layout.align as int } else { align };
        match m.width {
            Some(w) if w == 0 => {
                let b = spec_round_up(bits, unit);
                (b, align2, offsets.push(b))
            },
            Some(w) => {
                let storage = m.layout.size * 8;
                let b = if storage > 0 && bits % storage + w > storage { spec_round_up(bits, unit) } else { bits };
                (b + w, align2, offsets.push(b))
            },
            None => {
                let b = spec_round_up(bits, unit);
                (b + m.layout.size * 8, align2, offsets.push(b))
            },
        }
    }
}

/// 6.5.2.1 The layout of a struct: members in order, each at the next
/// multiple of its alignment; a bit-field shares the storage unit of the
/// previous one if it fits; a zero-width bit-field closes the unit. The size
/// is rounded up to the alignment of the struct, the largest member alignment.
pub open spec fn spec_struct_layout(ms: Seq<MemberLayout>) -> Layout {
    let (bits, align, _) = struct_state(ms);
    Layout { size: (spec_round_up(bits, align * 8) / 8) as u32, align: align as u32 }
}

/// Member layouts the computation can work with.
pub open spec fn members_sane(ms: Seq<MemberLayout>) -> bool {
    forall|i: int| 0 <= i < ms.len() ==> (#[trigger] ms[i]).layout.sane() && (ms[i].width matches Some(w) ==> w <= 64)
}

proof fn lemma_struct_state_bounds(ms: Seq<MemberLayout>)
    requires
        members_sane(ms),
    ensures
        0 <= struct_state(ms).0 <= ms.len() * 0x1_0000_0000,
        1 <= struct_state(ms).1 <= 0x1000,
        struct_state(ms).2.len() == ms.len(),
    decreases ms.len(),
{
    if ms.len() > 0 {
        assert(members_sane(ms.drop_last())) by {
            assert forall|i: int| 0 <= i < ms.drop_last().len() implies (#[trigger] ms.drop_last()[i]).layout.sane()
                && (ms.drop_last()[i].width matches Some(w) ==> w <= 64) by {
                assert(ms.drop_last()[i] == ms[i]);
            }
        }
        lemma_struct_state_bounds(ms.drop_last());
        assert(ms[ms.len() - 1] == ms.last());
    }
}

/// The layout of a struct with the given members, and the byte offset of each member.
pub fn struct_layout(ms: &Vec<MemberLayout>) -> (r: (Layout, Vec<u32>))
    requires
        members_sane(ms@),
        ms@.len() <= usize::MAX,
    ensures
        r.0 == spec_struct_layout(ms@),
        r.1@.len() == ms@.len(),
        forall|i: int| 0 <= i < ms@.len() ==> r.1@[i] == (struct_state(ms@).2[i] / 8) as u32,
        r.0.align >= 1,
{
    let mut bits: u128 = 0;
    let mut align: u32 = 1;
    let mut offsets: Vec<u32> = Vec::new();
    let mut i: usize = 0;
    while i < ms.len()
        invariant
            i <= ms@.len(),
            members_sane(ms@),
            ms@.len() <= usize::MAX,
            bits == struct_state(ms@.subrange(0, i as int)).0,
            align == struct_state(ms@.subrange(0, i as int)).1,
            offsets@.len() == i,
            forall|j: int| 0 <= j < i ==> offsets@[j] == (struct_state(ms@.subrange(0, i as int)).2[j] / 8) as u32,
            bits <= i * 0x1_0000_0000,
            1 <= align <= 0x1000,
        decreases ms@.len() - i,
    {
        let ghost pre = ms@.subrange(0, i as int);
        let ghost next = ms@.subrange(0, i + 1);
        proof {
            assert(next.drop_last() =~= pre);
            assert(next.last() == ms@[i as int]);
            assert(members_sane(pre)) by {
                assert forall|k: int| 0 <= k < pre.len() implies (#[trigger] pre[k]).layout.sane() && (pre[k].width matches Some(
                    w,
                ) ==> w <= 64) by {
                    assert(pre[k] == ms@[k]);
                }
            }
            lemma_struct_state_bounds(pre);
            assert(i * 0x1_0000_0000 <= 0xffff_ffff_ffff_ffff * 0x1_0000_0000) by (nonlinear_arith)
                requires
                    i <= 0xffff_ffff_ffff_ffff,
            ;
        }
        let m = ms[i];
        let unit: u128 = m.layout.align as u128 * 8;
        if m.named && m.layout.align > align {
            align = m.layout.align;
        }
        let start: u128 = match m.width {
            Some(0) => {
                bits = round_up(bits, unit);
                bits
            },
            Some(w) => {
                let storage: u128 = m.layout.size as u128 * 8;
                if storage > 0 && bits % storage + w as u128 > storage {
                    bits = round_up(bits, unit);
                }
                let s = bits;
                bits = bits + w as u128;
                s
            },
            None => {
                bits = round_up(bits, unit);
                let s = bits;
                bits = bits + m.layout.size as u128 * 8;
                s
            },
        };
        offsets.push((start / 8) as u32);
        proof {
            assert forall|j: int| 0 <= j < i + 1 implies offsets@[j] == (struct_state(next).2[j] / 8) as u32 by {
                if j < i {
                    assert(struct_state(next).2[j] == struct_state(pre).2[j]);
                }
            }
            assert((i + 1) * 0x1_0000_0000 == i * 0x1_0000_0000 + 0x1_0000_0000) by (nonlinear_arith);
        }
        i = i + 1;
    }
    proof {
        assert(ms@.subrange(0, ms@.len() as int) =~= ms@);
    }
    let size = round_up(bits, align as u128 * 8) / 8;
    (Layout::new(size as u32, align), offsets)
}

/// The size a member takes in a union: its storage, or the bytes a bit-field covers.
pub open spec fn union_member_size(m: MemberLayout) -> int {
    match m.width {
        Some(w) => (w + 7) / 8,
        None => m.layout.size as int,
    }
}

/// A value rounded up to a positive multiple is no smaller.
proof fn lemma_round_up_ge(value: int, multiple: int)
    requires
        multiple > 0,
    ensures
        spec_round_up(value, multiple) >= value,
        spec_round_up(value, multiple) % multiple == 0,
{
    if value % multiple != 0 {
        assert((value + multiple - value % multiple) % multiple == 0) by (nonlinear_arith)
            requires
                multiple > 0,
        {
            vstd::arithmetic::div_mod::lemma_fundamental_div_mod(value, multiple);
            vstd::arithmetic::div_mod::lemma_mod_multiples_basic(value / multiple + 1, multiple);
            assert(value + multiple - value % multiple == multiple * (value / multiple + 1));
        }
    }
}

/// 6.5.2.1 Within a structure, members are laid out in the order in which
/// they are declared: each starts no earlier than the one before it, every
/// member that is not a bit-field starts on a multiple of its alignment,
/// and the structure extends past the start of each.
pub proof fn lemma_struct_members_in_order(ms: Seq<MemberLayout>)
    requires
        members_sane(ms),
    ensures
        forall|i: int, j: int| 0 <= i <= j < ms.len() ==> #[trigger] struct_state(ms).2[i] <= #[trigger] struct_state(ms).2[j],
        forall|i: int| 0 <= i < ms.len() ==> #[trigger] struct_state(ms).2[i] <= struct_state(ms).0,
        forall|i: int| 0 <= i < ms.len() && ms[i].width is None ==> #[trigger] struct_state(ms).2[i] % (ms[i].layout.align
            * 8) == 0,
    decreases ms.len(),
{
    lemma_struct_state_bounds(ms);
    if ms.len() > 0 {
        let prev = ms.drop_last();
        assert(members_sane(prev)) by {
            assert forall|i: int| 0 <= i < prev.len() implies (#[trigger] prev[i]).layout.sane() && (prev[i].width matches Some(
                w,
            ) ==> w <= 64) by {
                assert(prev[i] == ms[i]);
            }
        }
        lemma_struct_members_in_order(prev);
        lemma_struct_state_bounds(prev);
        let (bits, align, offsets) = struct_state(prev);
        let m = ms.last();
        assert(m == ms[ms.len() - 1]);
        assert(m.layout.sane());
        let unit = m.layout.align * 8;
        lemma_round_up_ge(bits, unit as int);
        let now = struct_state(ms).2;
        assert(now.drop_last() =~= offsets);
        assert forall|i: int| 0 <= i < ms.len() - 1 implies now[i] == offsets[i] && ms[i] == prev[i] by {
            assert(now.drop_last()[i] == now[i]);
        }
    }
}

/// The size of a union after some members covers each of them.
proof fn lemma_union_state_covers(ms: Seq<MemberLayout>)
    ensures
        forall|i: int| 0 <= i < ms.len() ==> union_member_size(#[trigger] ms[i]) <= union_state(ms).0,
        union_state(ms).0 >= 0,
        union_state(ms).1 >= 1,
    decreases ms.len(),
{
    if ms.len() > 0 {
        lemma_union_state_covers(ms.drop_last());
        assert forall|i: int| 0 <= i < ms.len() implies union_member_size(#[trigger] ms[i]) <= union_state(ms).0 by {
            if i < ms.len() - 1 {
                assert(ms[i] == ms.drop_last()[i]);
            }
        }
    }
}

/// 6.5.2.1 The size of a union is sufficient to contain the largest of its
/// members, and is a multiple of its alignment.
pub proof fn lemma_union_holds_each_member(ms: Seq<MemberLayout>)
    requires
        members_sane(ms),
    ensures
        forall|i: int| 0 <= i < ms.len() ==> union_member_size(#[trigger] ms[i]) <= spec_round_up(union_state(ms).0, union_state(ms).1),
        spec_round_up(union_state(ms).0, union_state(ms).1) % union_state(ms).1 == 0,
{
    lemma_union_state_covers(ms);
    lemma_round_up_ge(union_state(ms).0, union_state(ms).1);
}

/// The size and alignment of a union after some members.
pub open spec fn union_state(ms: Seq<MemberLayout>) -> (int, int)
    decreases ms.len(),
{
    if ms.len() == 0 {
        (0, 1)
    } else {
        let (size, align) = union_state(ms.drop_last());
        let m = ms.last();
        (
            if union_member_size(m) > size { union_member_size(m) } else { size },
            if m.named && m.layout.align > align { m.layout.align as int } else { align },
        )
    }
}

/// 6.5.2.1 The layout of a union: as large as its largest member, rounded up
/// to the largest alignment of a named member.
pub open spec fn spec_union_layout(ms: Seq<MemberLayout>) -> Layout {
    let (size, align) = union_state(ms);
    Layout { size: spec_round_up(size, align) as u32, align: align as u32 }
}

pub fn union_layout(ms: &Vec<MemberLayout>) -> (r: Layout)
    requires
        members_sane(ms@),
    ensures
        r == spec_union_layout(ms@),
        r.align >= 1,
{
    let mut size: u128 = 0;
    let mut align: u32 = 1;
    let mut i: usize = 0;
    while i < ms.len()
        invariant
            i <= ms@.len(),
            members_sane(ms@),
            size == union_state(ms@.subrange(0, i as int)).0,
            align == union_state(ms@.subrange(0, i as int)).1,
            size <= 0x1000_0000,
            1 <= align <= 0x1000,
        decreases ms@.len() - i,
    {
        let ghost pre = ms@.subrange(0, i as int);
        let ghost next = ms@.subrange(0, i + 1);
        proof {
            assert(next.drop_last() =~= pre);
            assert(next.last() == ms@[i as int]);
        }
        let m = ms[i];
        if m.named && m.layout.align > align {
            align = m.layout.align;
        }
        let s: u128 = match m.width {
            Some(w) => (w as u128 + 7) / 8,
            None => m.layout.size as u128,
        };
        if s > size {
            size = s;
        }
        i = i + 1;
    }
    proof {
        assert(ms@.subrange(0, ms@.len() as int) =~= ms@);
    }
    Layout::new(round_up(size, align as u128) as u32, align)
}

/// The layout of type `t` known in `sema` without laying out anything: the
/// cached one, or the target's for a scalar type.
pub open spec fn spec_known_layout(sema: &Sema, t: ResolvedTypeId) -> Option<Layout> {
    if sema.layouts@.contains_key(t) {
        Some(sema.layouts@[t])
    } else if !(sema.ty(t) is Tag) && !(sema.ty(t) is Array) {
        sema.target.spec_scalar(sema.ty(t))
    } else {
        None
    }
}

/// The type of member `m`: its symbol's, an int for an unnamed bit-field.
pub open spec fn spec_member_ty(sema: &Sema, m: Member) -> Option<ResolvedTypeId> {
    match m.sym {
        Some(id) => match sema.sym(id).ty {
            Some(t) => Some(t.id),
            None => None,
        },
        None => Some(sema.builtins.int),
    }
}

/// The bit-field width of member `m`, kept within 0 to 64.
pub open spec fn spec_width(m: Member) -> Option<u64> {
    match m.bit_width {
        Some(w) => Some(if w < 0 { 0u64 } else if w > 64 { 64u64 } else { w as u64 }),
        None => None,
    }
}

/// The layout of member `m` given the layout `l` of its type, if any.
pub open spec fn spec_member_with(m: Member, l: Option<Layout>) -> Option<MemberLayout> {
    match l {
        Some(l) => Some(MemberLayout { layout: l, width: spec_width(m), named: m.sym is Some }),
        None => None,
    }
}

/// The layout of member `m` known in `sema` without laying out anything.
pub open spec fn spec_known_member(sema: &Sema, m: Member) -> Option<MemberLayout> {
    match spec_member_ty(sema, m) {
        Some(t) => spec_member_with(m, spec_known_layout(sema, t)),
        None => None,
    }
}

/// The layout of member `m` as `sema`'s cache holds it.
pub open spec fn spec_cached_member(sema: &Sema, m: Member) -> Option<MemberLayout> {
    match spec_member_ty(sema, m) {
        Some(t) => if sema.layouts@.contains_key(t) {
            spec_member_with(m, Some(sema.layouts@[t]))
        } else {
            None
        },
        None => None,
    }
}

/// The layout of a struct or union of kind `kind` with members laid out as `ms`.
pub open spec fn spec_tag_layout(kind: Tag, ms: Seq<MemberLayout>) -> Layout {
    if kind == Tag::Struct {
        spec_struct_layout(ms)
    } else {
        spec_union_layout(ms)
    }
}

/// `l`, when it stays within 256 MiB and an alignment of 4096.
pub open spec fn spec_fitting(l: Layout) -> Option<Layout> {
    if l.size > 0x1000_0000 || l.align > 0x1000 {
        None
    } else {
        Some(l)
    }
}

/// The layouts of `members` known in `sema`, when every one is.
pub open spec fn spec_known_members(sema: &Sema, members: Seq<Member>) -> Option<Seq<MemberLayout>> {
    if forall|i: int| 0 <= i < members.len() ==> (#[trigger] spec_known_member(sema, members[i])) is Some {
        Some(Seq::new(members.len(), |i: int| spec_known_member(sema, members[i])->0))
    } else {
        None
    }
}

/// The layouts of `members` in `sema`'s cache, when every one is there.
pub open spec fn spec_cached_members(sema: &Sema, members: Seq<Member>) -> Option<Seq<MemberLayout>> {
    if forall|i: int| 0 <= i < members.len() ==> (#[trigger] spec_cached_member(sema, members[i])) is Some {
        Some(Seq::new(members.len(), |i: int| spec_cached_member(sema, members[i])->0))
    } else {
        None
    }
}

/// A layout known or cached in `old` is the same in `new`, where only the
/// cache and the member offsets changed.
proof fn lemma_known_stable(new: &Sema, old: &Sema, m: Member)
    requires
        old.wf(),
        new.layout_frame(*old),
        new.layouts_ok(),
    ensures
        spec_known_member(old, m) is Some ==> spec_known_member(new, m) == spec_known_member(old, m),
        spec_cached_member(old, m) is Some ==> spec_cached_member(new, m) == spec_cached_member(old, m),
        spec_cached_member(old, m) is Some ==> spec_known_member(new, m) == spec_cached_member(old, m),
{
    if let Some(t) = spec_member_ty(old, m) {
        assert(spec_member_ty(new, m) == Some(t));
        if new.layouts@.contains_key(t) && !old.layouts@.contains_key(t) && spec_known_member(old, m) is Some {
            assert(new.ty(t) == old.ty(t));
        }
    }
}

/// The layout of a tag member: that of its type, with its bit-field width;
/// an unnamed bit-field is an int.
fn member(sema: &mut Sema, mem: Member, fuel: usize) -> (r: Option<MemberLayout>)
    requires
        old(sema).wf(),
        old(sema).layouts_ok(),
        mem.sym matches Some(id) ==> id < old(sema).nsyms(),
    ensures
        final(sema).wf(),
        final(sema).layouts_ok(),
        final(sema).layout_frame(*old(sema)),
        r matches Some(m) ==> m.layout.sane() && (m.width matches Some(w) ==> w <= 64),
        spec_known_member(old(sema), mem) is Some ==> r == spec_known_member(old(sema), mem),
        r is Some ==> r == spec_cached_member(final(sema), mem),
    decreases fuel, 2nat, 0nat,
{
    let width = match mem.bit_width {
        Some(w) => Some(if w < 0 { 0u64 } else if w > 64 { 64u64 } else { w as u64 }),
        None => None,
    };
    let ty = match mem.sym {
        Some(id) => match sema.symbols.get(id).ty {
            Some(t) => t.id,
            None => return None,
        },
        None => sema.builtins.int,
    };
    proof {
        assert(sema.symbol_ok(sema.sym(mem.sym->0)) || mem.sym is None);
    }
    let layout = match of_bounded(sema, ty, fuel) {
        Some(l) => l,
        None => return None,
    };
    Some(MemberLayout { layout, width, named: mem.sym.is_some() })
}

impl Sema {
    /// Every cached layout is one the computations can work with, of a type
    /// of the arena; that of a scalar type is the target's.
    pub open spec fn layouts_ok(&self) -> bool {
        forall|k: ResolvedTypeId| #[trigger] self.layouts@.contains_key(k) ==> {
            &&& self.layouts@[k].sane()
            &&& k < self.types.data@.len()
            &&& !(self.ty(k) is Tag) && !(self.ty(k) is Array) ==> self.target.spec_scalar(self.ty(k)) == Some(
                self.layouts@[k],
            )
        }
    }

    /// Only the layout cache and the offsets of tag members changed.
    pub open spec fn layout_frame(&self, old: Sema) -> bool {
        &&& self.diagnosis == old.diagnosis
        &&& self.symbols == old.symbols
        &&& self.types == old.types
        &&& self.builtins == old.builtins
        &&& self.tags.data@.len() == old.tags.data@.len()
        &&& forall|i: int| 0 <= i < old.tags.data@.len() ==> offsets_only(#[trigger] self.tags.data@[i], old.tags.data@[i])
        &&& self.functions == old.functions
        &&& self.inits == old.inits
        &&& self.expr_types == old.expr_types
        &&& self.expr_bindings == old.expr_bindings
        &&& self.expr_consts == old.expr_consts
        &&& self.member_refs == old.member_refs
        &&& self.declarations == old.declarations
        &&& self.externals == old.externals
        &&& self.stmts == old.stmts
        &&& self.target == old.target
        &&& self.scopes == old.scopes
        &&& forall|k: ResolvedTypeId| #[trigger] old.layouts@.contains_key(k) ==> self.layouts@.contains_key(k)
            && self.layouts@[k] == old.layouts@[k]
    }
}

/// What laying out type `ty`, not cached in `sema`, gives as `r`, where its
/// parts are known: an array is its element's layout times its length (an
/// unknown length counting 0), within 256 MiB; a complete struct or union
/// of known members is laid out from them; an enumeration is an int.
pub open spec fn spec_uncached_layout(sema: &Sema, ty: ResolvedTypeId, fuel: int, r: Option<Layout>) -> bool {
    match sema.ty(ty) {
        ResolvedType::Array { elem, len } => spec_known_layout(sema, elem.id) matches Some(e) ==> r == {
            let size = e.size * (match len {
                Some(n) => n as int,
                None => 0,
            });
            if size > 0x1000_0000 {
                None
            } else {
                Some(Layout { size: size as u32, align: e.align })
            }
        },
        ResolvedType::Tag(id) => fuel > 0 ==> spec_tag_outcome(sema, id, r),
        _ => true,
    }
}

/// What laying out tag `id` of `sema` gives as `r`: nothing for an
/// incomplete tag, an int for an enumeration, and for a struct or union
/// whose members' layouts are known, the layout of those members.
pub open spec fn spec_tag_outcome(sema: &Sema, id: TagDefId, r: Option<Layout>) -> bool {
    &&& !sema.tag(id).is_complete ==> r is None
    &&& sema.tag(id).kind == Tag::Enum && sema.tag(id).is_complete ==> r == Some(sema.target.int)
    &&& sema.tag(id).kind != Tag::Enum && sema.tag(id).is_complete ==> (spec_known_members(sema, sema.tag(id).members@)
        matches Some(ms) ==> r == spec_fitting(spec_tag_layout(sema.tag(id).kind, ms)))
}

/// The layout of a type, tags nested at most `fuel` deep.
fn of_bounded(sema: &mut Sema, ty: ResolvedTypeId, fuel: usize) -> (r: Option<Layout>)
    requires
        old(sema).wf(),
        old(sema).layouts_ok(),
        ty < old(sema).ntypes(),
    ensures
        final(sema).wf(),
        final(sema).layouts_ok(),
        final(sema).layout_frame(*old(sema)),
        old(sema).layouts@.contains_key(ty) ==> r == Some(old(sema).layouts@[ty]),
        r matches Some(l) ==> l.sane() && final(sema).layouts@.contains_key(ty) && final(sema).layouts@[ty] == l,
        !old(sema).layouts@.contains_key(ty) && !(old(sema).ty(ty) is Tag) && !(old(sema).ty(ty) is Array)
            ==> r == old(sema).target.spec_scalar(old(sema).ty(ty)),
        !old(sema).layouts@.contains_key(ty) ==> spec_uncached_layout(old(sema), ty, fuel as int, r),
    decreases fuel, 1nat, ty,
{
    if let Some(l) = sema.layouts.get(&ty) {
        return Some(*l);
    }
    let layout = match sema.types.get(ty) {
        ResolvedType::Tag(id) => {
            if fuel == 0 {
                return None;
            }
            let id = *id;
            match of_tag_bounded(sema, id, fuel - 1) {
                Some(l) => l,
                None => return None,
            }
        },
        ResolvedType::Array { elem, len } => {
            let len = *len;
            let elem = *elem;
            let e = match of_bounded(sema, elem.id, fuel) {
                Some(l) => l,
                None => return None,
            };
            let n: u64 = match len {
                Some(n) => n as u64,
                None => 0,
            };
            proof {
                assert(e.size as u128 * n as u128 <= 0xffff_ffff * 0xffff_ffff_ffff_ffff) by (nonlinear_arith);
            }
            let size: u128 = e.size as u128 * n as u128;
            if size > 0x1000_0000 {
                return None;
            }
            Layout::new(size as u32, e.align)
        },
        t => match sema.target.scalar(t) {
            Some(l) => l,
            None => return None,
        },
    };
    sema.layouts.insert(ty, layout);
    Some(layout)
}

/// The layout of tag `id`, with the offsets of its members recorded; `None`
/// for an incomplete tag.
fn of_tag_bounded(sema: &mut Sema, id: TagDefId, fuel: usize) -> (r: Option<Layout>)
    requires
        old(sema).wf(),
        old(sema).layouts_ok(),
        id < old(sema).ntags(),
    ensures
        final(sema).wf(),
        final(sema).layouts_ok(),
        final(sema).layout_frame(*old(sema)),
        !old(sema).tag(id).is_complete ==> r is None,
        old(sema).tag(id).kind == Tag::Enum && old(sema).tag(id).is_complete ==> r == Some(old(sema).target.int),
        r matches Some(l) ==> l.sane(),
        spec_tag_outcome(old(sema), id, r),
        old(sema).tag(id).is_complete && old(sema).tag(id).kind != Tag::Enum && r is Some ==> (spec_cached_members(
            final(sema),
            old(sema).tag(id).members@,
        ) matches Some(ms) && r == Some(spec_tag_layout(old(sema).tag(id).kind, ms))),
    decreases fuel, 3nat, 0nat,
{
    let tag = sema.tags.get(id);
    if !tag.is_complete {
        return None;
    }
    let kind = tag.kind;
    if kind == Tag::Enum {
        return Some(sema.target.int);
    }
    let members = tag.members.clone();
    proof {
        assert(members@ == sema.tag(id).members@);
    }
    let mut layouts: Vec<MemberLayout> = Vec::new();
    let mut i: usize = 0;
    while i < members.len()
        invariant
            sema.wf(),
            sema.layouts_ok(),
            sema.layout_frame(*old(sema)),
            i <= members@.len(),
            layouts@.len() == i,
            members_sane(layouts@),
            forall|j: int| 0 <= j < members@.len() ==> ((#[trigger] members@[j]).sym matches Some(s) ==> s < sema.nsyms()),
            kind == old(sema).tag(id).kind,
            kind != Tag::Enum,
            old(sema).tag(id).is_complete,
            members@ == old(sema).tag(id).members@,
            old(sema).wf(),
            forall|j: int| 0 <= j < i ==> (#[trigger] spec_cached_member(sema, members@[j])) == Some(layouts@[j]),
            spec_known_members(old(sema), members@) matches Some(ms) ==> forall|j: int| 0 <= j < i ==> #[trigger] layouts@[j]
                == ms[j],
        decreases members@.len() - i,
    {
        let ghost s0 = *sema;
        proof {
            lemma_known_stable(&s0, old(sema), members@[i as int]);
            if let Some(ms) = spec_known_members(old(sema), members@) {
                assert(spec_known_member(old(sema), members@[i as int]) is Some);
            }
        }
        let m = match member(sema, members[i], fuel) {
            Some(m) => m,
            None => return None,
        };
        proof {
            assert forall|j: int| 0 <= j < i implies (#[trigger] spec_cached_member(sema, members@[j])) == Some(layouts@[j]) by {
                lemma_known_stable(&*sema, &s0, members@[j]);
            }
        }
        layouts.push(m);
        proof {
            assert forall|k: int| 0 <= k < layouts@.len() implies (#[trigger] layouts@[k]).layout.sane() && (
            layouts@[k].width matches Some(w) ==> w <= 64) by {}
        }
        i = i + 1;
    }
    let (layout, offsets) = if kind == Tag::Struct {
        struct_layout(&layouts)
    } else {
        let mut zeros: Vec<u32> = Vec::new();
        let mut k: usize = 0;
        while k < members.len()
            invariant
                k <= members@.len(),
                zeros@.len() == k,
            decreases members@.len() - k,
        {
            zeros.push(0);
            k = k + 1;
        }
        (union_layout(&layouts), zeros)
    };
    proof {
        if let Some(ms) = spec_known_members(old(sema), members@) {
            assert(layouts@ =~= ms);
        }
        assert(spec_cached_members(sema, members@) is Some);
        assert(layouts@ =~= spec_cached_members(sema, members@)->0);
    }
    if layout.size > 0x1000_0000 || layout.align > 0x1000 {
        return None;
    }
    let ghost s1 = *sema;
    sema.tags.set_offsets(id, &offsets);
    proof {
        assert forall|j: int| 0 <= j < members@.len() implies (#[trigger] spec_cached_member(sema, members@[j])) == Some(layouts@[j]) by {
            assert(spec_cached_member(&s1, members@[j]) == Some(layouts@[j]));
        }
        assert(spec_cached_members(sema, members@) is Some);
        assert(layouts@ =~= spec_cached_members(sema, members@)->0);
    }
    proof {
        assert(sema.tags_wf()) by {
            assert forall|t: int| 0 <= t < sema.ntags() implies sema.tag_ok(#[trigger] sema.tags.data@[t]) by {
                assert(old(sema).tag_ok(old(sema).tags.data@[t]));
            }
        }
    }
    Some(layout)
}

/// The layout of the type `ty`: its size and alignment, cached once known.
/// `None` for incomplete types, and for arrays of more than 256 MiB.
pub fn of(sema: &mut Sema, ty: ResolvedTypeId) -> (r: Option<Layout>)
    requires
        old(sema).wf(),
        old(sema).layouts_ok(),
        ty < old(sema).ntypes(),
    ensures
        final(sema).wf(),
        final(sema).layouts_ok(),
        final(sema).layout_frame(*old(sema)),
        old(sema).layouts@.contains_key(ty) ==> r == Some(old(sema).layouts@[ty]),
        r matches Some(l) ==> l.sane() && final(sema).layouts@.contains_key(ty) && final(sema).layouts@[ty] == l,
        !old(sema).layouts@.contains_key(ty) && !(old(sema).ty(ty) is Tag) && !(old(sema).ty(ty) is Array)
            ==> r == old(sema).target.spec_scalar(old(sema).ty(ty)),
        !old(sema).layouts@.contains_key(ty) ==> spec_uncached_layout(old(sema), ty, old(sema).ntags() as int, r),
{
    let fuel = sema.tags.data.len();
    of_bounded(sema, ty, fuel)
}

/// The layout of the tag `id`, with the offsets of its members recorded;
/// `None` for an incomplete tag.
pub fn of_tag(sema: &mut Sema, id: TagDefId) -> (r: Option<Layout>)
    requires
        old(sema).wf(),
        old(sema).layouts_ok(),
        id < old(sema).ntags(),
    ensures
        final(sema).wf(),
        final(sema).layouts_ok(),
        final(sema).layout_frame(*old(sema)),
        !old(sema).tag(id).is_complete ==> r is None,
        old(sema).tag(id).kind == Tag::Enum && old(sema).tag(id).is_complete ==> r == Some(old(sema).target.int),
        r matches Some(l) ==> l.sane(),
        spec_tag_outcome(old(sema), id, r),
        old(sema).tag(id).is_complete && old(sema).tag(id).kind != Tag::Enum && r is Some ==> (spec_cached_members(
            final(sema),
            old(sema).tag(id).members@,
        ) matches Some(ms) && r == Some(spec_tag_layout(old(sema).tag(id).kind, ms))),
{
    let fuel = sema.tags.data.len();
    of_tag_bounded(sema, id, fuel)
}


/// The alignment of a struct after some members is at least that of each
/// named member among them.
proof fn lemma_struct_align_covers(ms: Seq<MemberLayout>)
    ensures
        forall|i: int| 0 <= i < ms.len() && (#[trigger] ms[i]).named ==> ms[i].layout.align <= struct_state(ms).1,
        struct_state(ms).1 >= 1,
    decreases ms.len(),
{
    if ms.len() > 0 {
        lemma_struct_align_covers(ms.drop_last());
        assert forall|i: int| 0 <= i < ms.len() && (#[trigger] ms[i]).named implies ms[i].layout.align <= struct_state(ms).1 by {
            if i < ms.len() - 1 {
                assert(ms[i] == ms.drop_last()[i]);
            }
        }
    }
}

/// The bits member `m` occupies: its width if it is a bit-field, else its size.
pub open spec fn member_bits(m: MemberLayout) -> int {
    match m.width {
        Some(w) => w as int,
        None => m.layout.size * 8,
    }
}

/// 6.5.2.1 The size of a structure is a multiple of its alignment, which is
/// at least that of each named member, and covers the end of its last
/// member: a structure ends with padding up to its alignment.
pub proof fn lemma_struct_size_padded(ms: Seq<MemberLayout>)
    requires
        members_sane(ms),
        struct_state(ms).0 < 0x1_0000_0000,
    ensures
        spec_struct_layout(ms).align >= 1,
        spec_struct_layout(ms).size % spec_struct_layout(ms).align == 0,
        spec_struct_layout(ms).size * 8 >= struct_state(ms).0,
        forall|i: int| 0 <= i < ms.len() && (#[trigger] ms[i]).named ==> ms[i].layout.align <= spec_struct_layout(ms).align,
        ms.len() > 0 ==> struct_state(ms).2.last() + member_bits(ms.last()) <= spec_struct_layout(ms).size * 8,
{
    lemma_struct_state_bounds(ms);
    lemma_struct_align_covers(ms);
    let (bits, align, offsets) = struct_state(ms);
    let unit = align * 8;
    lemma_round_up_ge(bits, unit);
    let rounded = spec_round_up(bits, unit);
    assert(rounded < bits + unit) by {
        if bits % unit != 0 {
            assert(bits % unit > 0);
        }
    }
    let k = rounded / unit;
    assert(rounded == k * unit) by (nonlinear_arith)
        requires
            rounded % unit == 0,
            unit > 0,
            k == rounded / unit,
    {
        vstd::arithmetic::div_mod::lemma_fundamental_div_mod(rounded, unit);
    }
    assert(rounded / 8 == k * align) by (nonlinear_arith)
        requires
            rounded == k * unit,
            unit == align * 8,
    {
        assert(k * unit == (k * align) * 8);
        vstd::arithmetic::div_mod::lemma_div_multiples_vanish(k * align, 8);
    }
    assert(k >= 0) by (nonlinear_arith)
        requires
            rounded == k * unit,
            rounded >= 0,
            unit > 0,
    {
    }
    assert((k * align) % align == 0) by (nonlinear_arith)
        requires
            align >= 1,
            k >= 0,
    {
        vstd::arithmetic::div_mod::lemma_mod_multiples_basic(k, align);
    }
    assert(k * align <= 0xffff_ffff) by (nonlinear_arith)
        requires
            k * unit == rounded,
            rounded < bits + unit,
            bits < 0x1_0000_0000,
            unit == align * 8,
            1 <= align <= 0x1000,
    {
    }
    assert(spec_struct_layout(ms).size == k * align);
    assert(spec_struct_layout(ms).size * 8 == rounded) by (nonlinear_arith)
        requires
            spec_struct_layout(ms).size == k * align,
            rounded == k * unit,
            unit == align * 8,
    {
    }
    if ms.len() > 0 {
        let prev = ms.drop_last();
        lemma_struct_state_bounds(prev);
        assert(ms[ms.len() - 1] == ms.last());
        let m = ms.last();
        let pb = struct_state(prev).0;
        lemma_round_up_ge(pb, m.layout.align * 8);
        let ob = struct_state(ms).2.last();
        match m.width {
            Some(w) => {
                if w == 0 {
                    assert(ob == bits);
                } else {
                    assert(bits == ob + w);
                }
            },
            None => {
                assert(bits == ob + m.layout.size * 8);
            },
        }
    }
}

} // verus!
