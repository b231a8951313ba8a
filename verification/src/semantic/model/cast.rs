//! Implicit conversions (6.2): the casts the analysis records on an
//! expression's value, and the conversion rules of the operators.

use vstd::prelude::*;

use crate::ast::{Qualifier, Span};
use crate::semantic::diagnosis::{recorded, DiagCollector, Diag, Diagnosis};
use crate::semantic::model::resolved_expression::{ExpressionKind, ResolvedExpression};
use crate::semantic::model::resolved_type::{
    compatible, compatible_ignoring, spec_is_arithmetic, spec_is_complete, spec_is_integral, spec_is_object,
    spec_is_promotable, QualifiedType, ResolvedType, ResolvedTypeArena, ResolvedTypeId,
};
use crate::semantic::sema::{lemma_re_ok_grown, Sema};

verus! {

#[derive(Clone, Copy, Debug, PartialEq, Eq, Structural)]
pub enum CastKind {
    IntegerPromotion,
    IntegerConversion,
    IntegerToFloating,
    FloatingConversion,
    FloatingToInteger,
    FunctionToPointer,
    LValueToRValue,
    ArrayToPointer,
    NullPointer,
    ToVoid,
    PointerToInteger,
    IntegerToPointer,
    PointerConversion,
}

#[derive(Clone, Copy, Debug, PartialEq, Eq, Structural)]
pub struct ImplicitCast {
    pub kind: CastKind,
    pub to: QualifiedType,
}

impl ImplicitCast {
    pub fn new(kind: CastKind, to: QualifiedType) -> (c: Self)
        ensures
            c.kind == kind,
            c.to == to,
    {
        ImplicitCast { kind, to }
    }
}

/// Where a value is converted as if by assignment (6.3.16.1): an assignment,
/// the argument of a call (numbered from 1), an initializer or a `return`.
#[derive(Clone, Copy, Debug, PartialEq, Eq, Structural)]
pub enum AssignmentContext {
    Assignment,
    Argument(usize),
    Init,
    Return,
}

/// The diagnosis for a conversion as if by assignment that would discard qualifiers.
pub open spec fn spec_discarded(ctx: AssignmentContext, l: QualifiedType, r: QualifiedType) -> Diagnosis {
    match ctx {
        AssignmentContext::Assignment => Diagnosis::AssignmentDiscardedQualifiers(l, r),
        AssignmentContext::Argument(n) => Diagnosis::ArgumentDiscardedQualifiers(n, l, r),
        AssignmentContext::Init => Diagnosis::InitDiscardedQualifiers(l, r),
        AssignmentContext::Return => Diagnosis::ReturnDiscardedQualifiers(l, r),
    }
}

/// The diagnosis for a conversion as if by assignment between incompatible types.
pub open spec fn spec_incompatible(ctx: AssignmentContext, l: QualifiedType, r: QualifiedType) -> Diagnosis {
    match ctx {
        AssignmentContext::Assignment => Diagnosis::AssignmentIncompatibleTypes(l, r),
        AssignmentContext::Argument(n) => Diagnosis::ArgumentIncompatibleTypes(n, l, r),
        AssignmentContext::Init => Diagnosis::InitIncompatibleTypes(l, r),
        AssignmentContext::Return => Diagnosis::ReturnIncompatibleTypes(l, r),
    }
}

impl AssignmentContext {
    pub fn discarded(&self, l: QualifiedType, r: QualifiedType) -> (d: Diagnosis)
        ensures
            d == spec_discarded(*self, l, r),
    {
        match self {
            AssignmentContext::Assignment => Diagnosis::AssignmentDiscardedQualifiers(l, r),
            AssignmentContext::Argument(n) => Diagnosis::ArgumentDiscardedQualifiers(*n, l, r),
            AssignmentContext::Init => Diagnosis::InitDiscardedQualifiers(l, r),
            AssignmentContext::Return => Diagnosis::ReturnDiscardedQualifiers(l, r),
        }
    }

    pub fn incompatible(&self, l: QualifiedType, r: QualifiedType) -> (d: Diagnosis)
        ensures
            d == spec_incompatible(*self, l, r),
    {
        match self {
            AssignmentContext::Assignment => Diagnosis::AssignmentIncompatibleTypes(l, r),
            AssignmentContext::Argument(n) => Diagnosis::ArgumentIncompatibleTypes(*n, l, r),
            AssignmentContext::Init => Diagnosis::InitIncompatibleTypes(l, r),
            AssignmentContext::Return => Diagnosis::ReturnIncompatibleTypes(l, r),
        }
    }
}

/// The unqualified type with id `id`.
pub open spec fn unqualified(id: ResolvedTypeId) -> QualifiedType {
    QualifiedType { id, is_const: false, is_volatile: false }
}

/// The type of a value of type `ty` after the conversions `casts`.
pub open spec fn casted(ty: QualifiedType, casts: Seq<ImplicitCast>) -> QualifiedType {
    if casts.len() > 0 {
        casts.last().to
    } else {
        ty
    }
}

/// The kind of an arithmetic conversion between two different types
/// (6.2.1.2 to 6.2.1.4).
pub open spec fn spec_num_conv_kind(sema: &Sema, from: ResolvedTypeId, to: ResolvedTypeId) -> CastKind {
    let fi = spec_is_integral(sema, sema.ty(from));
    let ti = spec_is_integral(sema, sema.ty(to));
    if fi && ti {
        CastKind::IntegerConversion
    } else if fi {
        CastKind::IntegerToFloating
    } else if ti {
        CastKind::FloatingToInteger
    } else {
        CastKind::FloatingConversion
    }
}

/// The conversions after the integral promotion of a value of type `ty`
/// converted by `casts`.
pub open spec fn promote_casts(sema: &Sema, ty: QualifiedType, casts: Seq<ImplicitCast>) -> Seq<ImplicitCast> {
    if spec_is_promotable(sema, sema.ty(casted(ty, casts).id)) {
        casts.push(ImplicitCast { kind: CastKind::IntegerPromotion, to: unqualified(sema.builtins.int) })
    } else {
        casts
    }
}

/// The conversions after the arithmetic conversion to the type `to`.
pub open spec fn num_conv_casts(sema: &Sema, ty: QualifiedType, casts: Seq<ImplicitCast>, to: ResolvedTypeId) -> Seq<ImplicitCast> {
    let from = casted(ty, casts).id;
    if from == to {
        casts
    } else {
        casts.push(ImplicitCast { kind: spec_num_conv_kind(sema, from, to), to: unqualified(to) })
    }
}

/// The conversions after the default argument promotions.
pub open spec fn default_promotion_casts(sema: &Sema, ty: QualifiedType, casts: Seq<ImplicitCast>) -> Seq<ImplicitCast> {
    if casted(ty, casts).id == sema.builtins.float {
        num_conv_casts(sema, ty, casts, sema.builtins.double)
    } else {
        promote_casts(sema, ty, casts)
    }
}

/// 6.2.1.5 The type both operands are converted to, from their types before
/// the integral promotions.
pub open spec fn spec_usual_target(sema: &Sema, l: ResolvedType, r: ResolvedType) -> ResolvedTypeId {
    let b = sema.builtins;
    if l is LongDouble || r is LongDouble {
        b.long_double
    } else if l is Double || r is Double {
        b.double
    } else if l is Float || r is Float {
        b.float
    } else if l is UnsignedLong || r is UnsignedLong {
        b.unsigned_long
    } else if (l is UnsignedInt && r is Long) || (l is Long && r is UnsignedInt) {
        if sema.target.long.size > sema.target.int.size {
            b.long
        } else {
            b.unsigned_long
        }
    } else if l is Long || r is Long {
        b.long
    } else if l is UnsignedInt || r is UnsignedInt {
        b.unsigned_int
    } else {
        b.int
    }
}

/// 6.2.1.5 The conversions of both operands after the usual arithmetic conversions.
pub open spec fn usual_arithmetic_casts(
    sema: &Sema,
    lty: QualifiedType,
    lcasts: Seq<ImplicitCast>,
    rty: QualifiedType,
    rcasts: Seq<ImplicitCast>,
) -> (Seq<ImplicitCast>, Seq<ImplicitCast>) {
    let l = sema.ty(casted(lty, lcasts).id);
    let r = sema.ty(casted(rty, rcasts).id);
    let promoted = spec_is_integral(sema, l) && spec_is_integral(sema, r);
    let lc = if promoted { promote_casts(sema, lty, lcasts) } else { lcasts };
    let rc = if promoted { promote_casts(sema, rty, rcasts) } else { rcasts };
    if casted(lty, lc).id == casted(rty, rc).id {
        (lc, rc)
    } else {
        let to = spec_usual_target(sema, l, r);
        (num_conv_casts(sema, lty, lc, to), num_conv_casts(sema, rty, rc, to))
    }
}

/// The kind of the conversion of a value of type `from` to the different
/// type `to`, when one is allowed (6.2, 6.3.4, 6.3.16.1).
pub open spec fn spec_convert_kind(sema: &Sema, from: ResolvedTypeId, to: ResolvedTypeId, is_null_ptr: bool) -> Option<CastKind> {
    let f = sema.ty(from);
    let t = sema.ty(to);
    if spec_is_arithmetic(sema, f) && spec_is_arithmetic(sema, t) {
        Some(spec_num_conv_kind(sema, from, to))
    } else if t is Void {
        Some(CastKind::ToVoid)
    } else if t is Pointer && is_null_ptr {
        Some(CastKind::NullPointer)
    } else if f is Pointer && t is Pointer {
        Some(CastKind::PointerConversion)
    } else if f is Pointer && spec_is_integral(sema, t) {
        Some(CastKind::PointerToInteger)
    } else if spec_is_integral(sema, f) && t is Pointer {
        Some(CastKind::IntegerToPointer)
    } else {
        None
    }
}

/// `new` is `old` with its conversions replaced by `casts`.
pub open spec fn with_casts(new: ResolvedExpression, old: ResolvedExpression, casts: Seq<ImplicitCast>) -> bool {
    &&& new.ty == old.ty
    &&& new.kind == old.kind
    &&& new.result_cast == old.result_cast
    &&& new.casts@ == casts
}

/// `new` is `old` with one more conversion of kind `kind` to an unqualified
/// pointer to `inner`.
pub open spec fn pointer_pushed(sema: &Sema, new: ResolvedExpression, old: ResolvedExpression, kind: CastKind, inner: QualifiedType) -> bool {
    &&& new.ty == old.ty
    &&& new.kind == old.kind
    &&& new.result_cast == old.result_cast
    &&& new.casts@.len() == old.casts@.len() + 1
    &&& new.casts@.drop_last() == old.casts@
    &&& new.casts@.last().kind == kind
    &&& !new.casts@.last().to.is_const
    &&& !new.casts@.last().to.is_volatile
    &&& sema.ty(new.casts@.last().to.id).same(ResolvedType::Pointer(inner))
}

/// 6.2.1.1 The integral promotions: a char, a short or an enumeration, of
/// either signedness, is converted to int; other types are unchanged.
pub fn promote(sema: &Sema, re: &mut ResolvedExpression)
    requires
        sema.wf(),
        sema.re_ok(*old(re)),
    ensures
        sema.re_ok(*final(re)),
        with_casts(*final(re), *old(re), promote_casts(sema, old(re).ty, old(re).casts@)),
{
    let qty = re.casted_ty();
    if !sema.types.get(qty.id).is_promotable(sema) {
        return;
    }
    let to = QualifiedType::new(sema.builtins.int, false, false);
    re.push_cast(ImplicitCast::new(CastKind::IntegerPromotion, to));
}

/// Converts an arithmetic value to the type `to_id`, recording the kind of
/// conversion; nothing is recorded when the value already has that type.
pub fn num_conv(sema: &Sema, re: &mut ResolvedExpression, to_id: ResolvedTypeId)
    requires
        sema.wf(),
        sema.re_ok(*old(re)),
        to_id < sema.ntypes(),
    ensures
        sema.re_ok(*final(re)),
        with_casts(*final(re), *old(re), num_conv_casts(sema, old(re).ty, old(re).casts@, to_id)),
{
    let from = re.casted_ty().id;
    if from == to_id {
        return;
    }
    let fi = sema.types.get(from).is_integral(sema);
    let ti = sema.types.get(to_id).is_integral(sema);
    let kind = if fi && ti {
        CastKind::IntegerConversion
    } else if fi {
        CastKind::IntegerToFloating
    } else if ti {
        CastKind::FloatingToInteger
    } else {
        CastKind::FloatingConversion
    };
    re.push_cast(ImplicitCast::new(kind, QualifiedType::new(to_id, false, false)));
}

/// 6.3.2.2 The default argument promotions: the integral promotions, and
/// float converted to double.
pub fn default_argument_promotions(sema: &Sema, re: &mut ResolvedExpression)
    requires
        sema.wf(),
        sema.re_ok(*old(re)),
    ensures
        sema.re_ok(*final(re)),
        with_casts(*final(re), *old(re), default_promotion_casts(sema, old(re).ty, old(re).casts@)),
{
    if re.casted_ty().id == sema.builtins.float {
        num_conv(sema, re, sema.builtins.double);
    } else {
        promote(sema, re);
    }
}

/// 6.2.2.1 A function designator is converted to a pointer to the function.
pub fn function_to_pointer(sema: &mut Sema, re: &mut ResolvedExpression)
    requires
        old(sema).wf(),
        old(sema).re_ok(*old(re)),
    ensures
        final(sema).wf(),
        final(sema).types_grown(*old(sema)),
        final(sema).re_ok(*final(re)),
        if old(sema).ty(old(re).ty.id) is Function {
            pointer_pushed(final(sema), *final(re), *old(re), CastKind::FunctionToPointer, old(re).ty)
        } else {
            *final(re) == *old(re) && *final(sema) == *old(sema)
        },
{
    if !sema.types.get(re.ty.id).is_function() {
        return;
    }
    let ghost s0 = *sema;
    let id = sema.pointer_type(re.ty);
    proof {
        lemma_re_ok_grown(sema, &s0, *re);
    }
    re.push_cast(ImplicitCast::new(CastKind::FunctionToPointer, QualifiedType::new(id, false, false)));
    proof {
        assert(re.casts@.drop_last() =~= old(re).casts@);
    }
}

/// 6.2.2.1 An array is converted to a pointer to its first element.
pub fn array_to_pointer(sema: &mut Sema, re: &mut ResolvedExpression)
    requires
        old(sema).wf(),
        old(sema).re_ok(*old(re)),
    ensures
        final(sema).wf(),
        final(sema).types_grown(*old(sema)),
        final(sema).re_ok(*final(re)),
        match old(sema).ty(old(re).ty.id) {
            ResolvedType::Array { elem, .. } => pointer_pushed(final(sema), *final(re), *old(re), CastKind::ArrayToPointer, elem),
            _ => *final(re) == *old(re) && *final(sema) == *old(sema),
        },
{
    let elem = match sema.types.get(re.ty.id) {
        ResolvedType::Array { elem, .. } => *elem,
        _ => return,
    };
    let ghost s0 = *sema;
    let id = sema.pointer_type(elem);
    proof {
        lemma_re_ok_grown(sema, &s0, *re);
    }
    re.push_cast(ImplicitCast::new(CastKind::ArrayToPointer, QualifiedType::new(id, false, false)));
    proof {
        assert(re.casts@.drop_last() =~= old(re).casts@);
    }
}

/// 6.2.2.1 An lvalue that is not an array or a function is converted to the
/// value it designates, of the unqualified type; an lvalue of incomplete type
/// is reported.
pub fn l_to_r_value(sema: &mut Sema, re: &mut ResolvedExpression, span: &Span)
    requires
        old(sema).wf(),
        old(sema).re_ok(*old(re)),
    ensures
        final(sema).wf(),
        final(sema).re_ok(*final(re)),
        final(sema).types == old(sema).types,
        final(sema).same_tables(*old(sema)),
        if old(re).kind == ExpressionKind::LValue && !(old(sema).ty(old(re).ty.id) is Array) && !(old(sema).ty(
            old(re).ty.id,
        ) is Function) {
            &&& with_casts(
                *final(re),
                *old(re),
                old(re).casts@.push(ImplicitCast { kind: CastKind::LValueToRValue, to: unqualified(old(re).ty.id) }),
            )
            &&& final(sema).diagnosis@ == if spec_is_complete(old(sema), old(sema).ty(old(re).ty.id)) {
                old(sema).diagnosis@
            } else {
                recorded(old(sema).diagnosis@, Some(Diagnosis::IncompleteType(old(re).ty)), *span)
            }
        } else {
            *final(re) == *old(re) && *final(sema) == *old(sema)
        },
{
    if re.kind != ExpressionKind::LValue {
        return;
    }
    let ty = sema.types.get(re.ty.id);
    if ty.is_function() || matches!(ty, ResolvedType::Array { .. }) {
        return;
    }
    if !ty.is_complete(sema) {
        sema.add_diag(Diag::err((), Diagnosis::IncompleteType(re.ty)), span);
    }
    re.push_cast(ImplicitCast::new(CastKind::LValueToRValue, QualifiedType::new(re.ty.id, false, false)));
}

/// 6.2.2.1 The conversions of an operand's value: function designators and
/// arrays to pointers, other lvalues to the values they designate.
pub fn lvalue_conversion(sema: &mut Sema, re: &mut ResolvedExpression, span: &Span)
    requires
        old(sema).wf(),
        old(sema).re_ok(*old(re)),
    ensures
        final(sema).wf(),
        final(sema).re_ok(*final(re)),
        ResolvedTypeArena::extends(final(sema).types, old(sema).types),
        final(sema).same_tables(*old(sema)),
        match old(sema).ty(old(re).ty.id) {
            ResolvedType::Function { .. } => {
                &&& pointer_pushed(final(sema), *final(re), *old(re), CastKind::FunctionToPointer, old(re).ty)
                &&& final(sema).diagnosis == old(sema).diagnosis
            },
            ResolvedType::Array { elem, .. } => {
                &&& pointer_pushed(final(sema), *final(re), *old(re), CastKind::ArrayToPointer, elem)
                &&& final(sema).diagnosis == old(sema).diagnosis
            },
            t => if old(re).kind == ExpressionKind::LValue {
                &&& with_casts(
                    *final(re),
                    *old(re),
                    old(re).casts@.push(ImplicitCast { kind: CastKind::LValueToRValue, to: unqualified(old(re).ty.id) }),
                )
                &&& final(sema).types == old(sema).types
                &&& final(sema).diagnosis@ == if spec_is_complete(old(sema), t) {
                    old(sema).diagnosis@
                } else {
                    recorded(old(sema).diagnosis@, Some(Diagnosis::IncompleteType(old(re).ty)), *span)
                }
            } else {
                *final(re) == *old(re) && *final(sema) == *old(sema)
            },
        },
{
    function_to_pointer(sema, re);
    let ghost s1 = *sema;
    array_to_pointer(sema, re);
    let ghost s2 = *sema;
    proof {
        assert(s1.ty(old(re).ty.id) == old(sema).ty(old(re).ty.id));
        assert(s2.ty(old(re).ty.id) == old(sema).ty(old(re).ty.id));
    }
    l_to_r_value(sema, re, span);
    proof {
        let t = old(sema).ty(old(re).ty.id);
        if t is Function || t is Array {
            assert(final(sema).ty(final(re).casts@.last().to.id) == s2.ty(final(re).casts@.last().to.id));
        }
    }
}

/// Converts a value to the type `to_id` (6.2, 6.3.4, 6.3.16.1), recording the
/// kind of conversion; nothing is recorded when it already has that type.
pub fn convert(sema: &Sema, from_re: &mut ResolvedExpression, to_id: ResolvedTypeId, is_null_ptr: bool)
    requires
        sema.wf(),
        sema.re_ok(*old(from_re)),
        to_id < sema.ntypes(),
        old(from_re).spec_casted_ty().id == to_id || spec_convert_kind(
            sema,
            old(from_re).spec_casted_ty().id,
            to_id,
            is_null_ptr,
        ) is Some,
    ensures
        sema.re_ok(*final(from_re)),
        with_casts(
            *final(from_re),
            *old(from_re),
            if old(from_re).spec_casted_ty().id == to_id {
                old(from_re).casts@
            } else {
                old(from_re).casts@.push(
                    ImplicitCast {
                        kind: spec_convert_kind(sema, old(from_re).spec_casted_ty().id, to_id, is_null_ptr)->0,
                        to: unqualified(to_id),
                    },
                )
            },
        ),
{
    let from = from_re.casted_ty();
    if from.id == to_id {
        return;
    }
    let f = sema.types.get(from.id);
    let t = sema.types.get(to_id);
    if f.is_arithmetic(sema) && t.is_arithmetic(sema) {
        num_conv(sema, from_re, to_id);
        return;
    }
    let kind = if t.is_void() {
        CastKind::ToVoid
    } else if t.is_pointer() && is_null_ptr {
        CastKind::NullPointer
    } else if f.is_pointer() && t.is_pointer() {
        CastKind::PointerConversion
    } else if f.is_pointer() && t.is_integral(sema) {
        CastKind::PointerToInteger
    } else {
        CastKind::IntegerToPointer
    };
    from_re.push_cast(ImplicitCast::new(kind, QualifiedType::new(to_id, false, false)));
}

/// 6.2.1.5 The usual arithmetic conversions: both operands are brought to a
/// common arithmetic type, which is the type of the result. Operands that
/// are not both arithmetic are refused.
pub fn usual_arithmetic(sema: &mut Sema, lhs: &mut ResolvedExpression, rhs: &mut ResolvedExpression) -> (r: Result<
    (QualifiedType, ExpressionKind),
    Diagnosis,
>)
    requires
        old(sema).wf(),
        old(sema).re_ok(*old(lhs)),
        old(sema).re_ok(*old(rhs)),
    ensures
        *final(sema) == *old(sema),
        final(sema).re_ok(*final(lhs)),
        final(sema).re_ok(*final(rhs)),
        if spec_is_arithmetic(old(sema), old(sema).ty(old(lhs).spec_casted_ty().id)) && spec_is_arithmetic(
            old(sema),
            old(sema).ty(old(rhs).spec_casted_ty().id),
        ) {
            let casts = usual_arithmetic_casts(old(sema), old(lhs).ty, old(lhs).casts@, old(rhs).ty, old(rhs).casts@);
            &&& with_casts(*final(lhs), *old(lhs), casts.0)
            &&& with_casts(*final(rhs), *old(rhs), casts.1)
            &&& r == Ok::<(QualifiedType, ExpressionKind), Diagnosis>((final(lhs).spec_casted_ty(), ExpressionKind::RValue))
        } else {
            &&& *final(lhs) == *old(lhs)
            &&& *final(rhs) == *old(rhs)
            &&& r == Err::<(QualifiedType, ExpressionKind), Diagnosis>(
                Diagnosis::InvalidBinaryOperand(old(lhs).ty, old(rhs).ty),
            )
        },
        r is Ok ==> final(lhs).spec_casted_ty().id == final(rhs).spec_casted_ty().id,
        r is Ok ==> spec_is_arithmetic(old(sema), old(sema).ty(final(lhs).spec_casted_ty().id)),
{
    let l = sema.types.get(lhs.casted_ty().id);
    let r = sema.types.get(rhs.casted_ty().id);
    if !l.is_arithmetic(sema) || !r.is_arithmetic(sema) {
        return Err(Diagnosis::InvalidBinaryOperand(lhs.ty, rhs.ty));
    }
    if l.is_integral(sema) && r.is_integral(sema) {
        promote(sema, lhs);
        promote(sema, rhs);
    }
    if lhs.casted_ty().id == rhs.casted_ty().id {
        proof {
            lemma_promoted_arithmetic(sema, old(lhs).ty, old(lhs).casts@, *l);
        }
        return Ok((lhs.casted_ty(), ExpressionKind::RValue));
    }
    let to = usual_target(sema, l, r);
    num_conv(sema, lhs, to);
    num_conv(sema, rhs, to);
    Ok((lhs.casted_ty(), ExpressionKind::RValue))
}

/// After the integral promotion an arithmetic value is still arithmetic.
proof fn lemma_promoted_arithmetic(sema: &Sema, ty: QualifiedType, casts: Seq<ImplicitCast>, t: ResolvedType)
    requires
        sema.wf(),
        t == sema.ty(casted(ty, casts).id),
        spec_is_arithmetic(sema, t),
    ensures
        spec_is_arithmetic(sema, sema.ty(casted(ty, promote_casts(sema, ty, casts)).id)),
{
}

/// 6.2.1.5 The common type of operands of types `l` and `r`.
fn usual_target(sema: &Sema, l: &ResolvedType, r: &ResolvedType) -> (id: ResolvedTypeId)
    requires
        sema.wf(),
    ensures
        id == spec_usual_target(sema, *l, *r),
        id < sema.ntypes(),
        spec_is_arithmetic(sema, sema.ty(id)),
{
    let b = &sema.builtins;
    match (l, r) {
        (ResolvedType::LongDouble, _) | (_, ResolvedType::LongDouble) => b.long_double,
        (ResolvedType::Double, _) | (_, ResolvedType::Double) => b.double,
        (ResolvedType::Float, _) | (_, ResolvedType::Float) => b.float,
        (_, ResolvedType::UnsignedLong) | (ResolvedType::UnsignedLong, _) => b.unsigned_long,
        (ResolvedType::UnsignedInt, ResolvedType::Long) | (ResolvedType::Long, ResolvedType::UnsignedInt) => {
            if sema.target.long.size > sema.target.int.size {
                b.long
            } else {
                b.unsigned_long
            }
        },
        (_, ResolvedType::Long) | (ResolvedType::Long, _) => b.long,
        (_, ResolvedType::UnsignedInt) | (ResolvedType::UnsignedInt, _) => b.unsigned_int,
        _ => b.int,
    }
}

/// The conversion that gives a computed value of type `from` the type `to`,
/// if the types differ.
pub fn arithmetic_conversion(sema: &Sema, from: QualifiedType, to: QualifiedType) -> (c: Option<ImplicitCast>)
    requires
        sema.wf(),
        from.id < sema.ntypes(),
        to.id < sema.ntypes(),
    ensures
        c == if from.id == to.id {
            None
        } else {
            Some(ImplicitCast { kind: spec_num_conv_kind(sema, from.id, to.id), to })
        },
{
    if from.id == to.id {
        return None;
    }
    let mut re = ResolvedExpression::new(from, ExpressionKind::RValue);
    num_conv(sema, &mut re, to.id);
    Some(ImplicitCast::new(re.casts[0].kind, to))
}

/// Neither a function type nor `void`: an object type or another incomplete type.
pub open spec fn spec_is_object_or_incomplete(sema: &Sema, id: ResolvedTypeId) -> bool {
    !(sema.ty(id) is Function) && !(sema.ty(id) is Void)
}

fn is_object_or_incomplete(sema: &Sema, id: ResolvedTypeId) -> (b: bool)
    requires
        sema.wf(),
        id < sema.ntypes(),
    ensures
        b == spec_is_object_or_incomplete(sema, id),
{
    let t = sema.types.get(id);
    !t.is_function() && !t.is_void()
}

/// 6.3.16.1 Pointers that may be assigned to each other, qualifiers aside:
/// to compatible types, or one to `void` and the other to an object or
/// incomplete type.
pub open spec fn spec_assign_pointer(sema: &Sema, lp: QualifiedType, rp: QualifiedType) -> bool {
    ||| compatible_ignoring(sema, lp, rp)
    ||| (lp.id == sema.builtins.void && spec_is_object_or_incomplete(sema, rp.id))
    ||| (rp.id == sema.builtins.void && spec_is_object_or_incomplete(sema, lp.id))
}

fn assign_pointer(sema: &Sema, lp: &QualifiedType, rp: &QualifiedType) -> (b: bool)
    requires
        sema.wf(),
        lp.id < sema.ntypes(),
        rp.id < sema.ntypes(),
    ensures
        b == spec_assign_pointer(sema, *lp, *rp),
{
    lp.is_compatible_ignoring_qualifiers(sema, rp) || (lp.id == sema.builtins.void && is_object_or_incomplete(
        sema,
        rp.id,
    )) || (rp.id == sema.builtins.void && is_object_or_incomplete(sema, lp.id))
}

/// The qualifier an assignment between these pointed-to types discards:
/// `const` if it is one, else `volatile`.
pub fn discarded_qualifier(lp: &QualifiedType, rp: &QualifiedType) -> (q: Qualifier)
    ensures
        q == if rp.is_const && !lp.is_const { Qualifier::Const } else { Qualifier::Volatile },
{
    if rp.is_const && !lp.is_const {
        Qualifier::Const
    } else {
        Qualifier::Volatile
    }
}

/// 6.3.16.1 The outcome of converting a value of type `r_ty` as if by
/// assignment to an object of type `l_ty`: `Ok` when allowed, else the
/// diagnosis for the context.
pub open spec fn spec_assignment(
    sema: &Sema,
    l_ty: QualifiedType,
    r_ty: QualifiedType,
    is_null_ptr: bool,
    ctx: AssignmentContext,
) -> Result<QualifiedType, Diagnosis> {
    let l = sema.ty(l_ty.id);
    let r = sema.ty(r_ty.id);
    if spec_is_arithmetic(sema, l) && spec_is_arithmetic(sema, r) {
        Ok(l_ty)
    } else if l is Tag && !(sema.tag(l->Tag_0).kind == crate::ast::Tag::Enum) && compatible(sema, l_ty, r_ty) {
        Ok(l_ty)
    } else if l is Pointer && r is Pointer && spec_assign_pointer(sema, l->Pointer_0, r->Pointer_0) {
        if (r->Pointer_0.is_const ==> l->Pointer_0.is_const) && (r->Pointer_0.is_volatile ==> l->Pointer_0.is_volatile) {
            Ok(l_ty)
        } else {
            Err(spec_discarded(ctx, l_ty, r_ty))
        }
    } else if l is Pointer && is_null_ptr {
        Ok(l_ty)
    } else {
        Err(spec_incompatible(ctx, l_ty, r_ty))
    }
}

/// 6.3.16.1 Converts the value of `rhs` as if by assignment to an object of
/// the type of `lhs`, and gives that type; or the diagnosis for `ctx` when
/// the types do not allow it.
pub fn assignment_conversion(
    sema: &mut Sema,
    lhs: &mut ResolvedExpression,
    rhs: &mut ResolvedExpression,
    is_null_ptr: bool,
    ctx: AssignmentContext,
) -> (res: Result<QualifiedType, Diagnosis>)
    requires
        old(sema).wf(),
        old(sema).re_ok(*old(lhs)),
        old(sema).re_ok(*old(rhs)),
    ensures
        *final(sema) == *old(sema),
        *final(lhs) == *old(lhs),
        final(sema).re_ok(*final(rhs)),
        res == spec_assignment(old(sema), old(lhs).ty, old(rhs).spec_casted_ty(), is_null_ptr, ctx),
        res is Ok ==> with_casts(
            *final(rhs),
            *old(rhs),
            if old(rhs).spec_casted_ty().id == old(lhs).ty.id {
                old(rhs).casts@
            } else {
                old(rhs).casts@.push(
                    ImplicitCast {
                        kind: spec_convert_kind(old(sema), old(rhs).spec_casted_ty().id, old(lhs).ty.id, is_null_ptr)->0,
                        to: unqualified(old(lhs).ty.id),
                    },
                )
            },
        ),
        res is Err ==> *final(rhs) == *old(rhs),
{
    let l = sema.types.get(lhs.ty.id);
    let rhs_ty = rhs.casted_ty();
    let r = sema.types.get(rhs_ty.id);
    if l.is_arithmetic(sema) && r.is_arithmetic(sema) {
    } else if l.is_tag() && !l.is_integral(sema) && lhs.ty.is_compatible(sema, &rhs_ty) {
        proof {
            assert(compatible_ignoring(sema, lhs.ty, rhs_ty));
        }
    } else if l.is_pointer() && r.is_pointer() && pointer_pair_assignable(sema, l, r) {
        if let (ResolvedType::Pointer(lp), ResolvedType::Pointer(rp)) = (l, r) {
            if !lp.has_qualifiers_of(rp) {
                return Err(ctx.discarded(lhs.ty, rhs_ty));
            }
        }
    } else if l.is_pointer() && is_null_ptr {
    } else {
        return Err(ctx.incompatible(lhs.ty, rhs_ty));
    }
    convert(sema, rhs, lhs.ty.id, is_null_ptr);
    Ok(lhs.ty)
}

/// Both types are pointers whose pointed-to types may be assigned.
fn pointer_pair_assignable(sema: &Sema, l: &ResolvedType, r: &ResolvedType) -> (b: bool)
    requires
        sema.wf(),
        l.refs_below(sema.ntypes()),
        r.refs_below(sema.ntypes()),
    ensures
        b == (l is Pointer && r is Pointer && spec_assign_pointer(sema, l->Pointer_0, r->Pointer_0)),
{
    match (l, r) {
        (ResolvedType::Pointer(lp), ResolvedType::Pointer(rp)) => assign_pointer(sema, lp, rp),
        _ => false,
    }
}

/// 6.3.6 The operands of pointer-integer addition and subtraction: a pointer
/// to an object type, and an integer that gets the integral promotions. The
/// result has the pointer's type.
pub fn pointer_integer_arithmetic(
    sema: &mut Sema,
    pointer: &mut ResolvedExpression,
    intergral: &mut ResolvedExpression,
) -> (res: Result<QualifiedType, Diagnosis>)
    requires
        old(sema).wf(),
        old(sema).re_ok(*old(pointer)),
        old(sema).re_ok(*old(intergral)),
    ensures
        *final(sema) == *old(sema),
        *final(pointer) == *old(pointer),
        final(sema).re_ok(*final(intergral)),
        res == match old(sema).ty(old(pointer).spec_casted_ty().id) {
            ResolvedType::Pointer(inner) => if !spec_is_complete(old(sema), old(sema).ty(inner.id)) || old(sema).ty(
                inner.id,
            ) is Function {
                Err(Diagnosis::InvalidOperand)
            } else {
                Ok(old(pointer).spec_casted_ty())
            },
            _ => Err(Diagnosis::Poisoned),
        },
        res is Ok ==> with_casts(*final(intergral), *old(intergral), promote_casts(old(sema), old(intergral).ty, old(intergral).casts@)),
        res is Err ==> *final(intergral) == *old(intergral),
{
    let inner = match sema.types.get(pointer.casted_ty().id) {
        ResolvedType::Pointer(inner) => *inner,
        _ => return Err(Diagnosis::Poisoned),
    };
    let t = sema.types.get(inner.id);
    if !t.is_complete(sema) || t.is_function() {
        return Err(Diagnosis::InvalidOperand);
    }
    promote(sema, intergral);
    Ok(pointer.casted_ty())
}

/// 6.3.6 The difference of two pointers to compatible object types has type
/// `ptrdiff_t`.
pub fn pointer_minus_pointer(sema: &Sema, lhs: &mut ResolvedExpression, rhs: &mut ResolvedExpression) -> (res: Result<
    QualifiedType,
    Diagnosis,
>)
    requires
        sema.wf(),
        sema.re_ok(*old(lhs)),
        sema.re_ok(*old(rhs)),
    ensures
        *final(lhs) == *old(lhs),
        *final(rhs) == *old(rhs),
        res == match (sema.ty(old(lhs).spec_casted_ty().id), sema.ty(old(rhs).spec_casted_ty().id)) {
            (ResolvedType::Pointer(lp), ResolvedType::Pointer(rp)) => if !spec_is_object(sema, sema.ty(lp.id))
                || !spec_is_object(sema, sema.ty(rp.id)) || !compatible_ignoring(sema, lp, rp) {
                Err(Diagnosis::InvalidOperand)
            } else {
                Ok(unqualified(sema.builtins.ptrdiff_t))
            },
            _ => Err(Diagnosis::Poisoned),
        },
{
    let lp = match sema.types.get(lhs.casted_ty().id) {
        ResolvedType::Pointer(lp) => *lp,
        _ => return Err(Diagnosis::Poisoned),
    };
    let rp = match sema.types.get(rhs.casted_ty().id) {
        ResolvedType::Pointer(rp) => *rp,
        _ => return Err(Diagnosis::Poisoned),
    };
    if !lp.is_object(sema) || !rp.is_object(sema) {
        return Err(Diagnosis::InvalidOperand);
    }
    if !lp.is_compatible_ignoring_qualifiers(sema, &rp) {
        return Err(Diagnosis::InvalidOperand);
    }
    Ok(QualifiedType::new(sema.builtins.ptrdiff_t, false, false))
}


/// 6.2.1.5 The usual arithmetic conversions do not depend on the order of
/// the operands.
pub proof fn lemma_usual_target_symmetric(sema: &Sema, l: ResolvedType, r: ResolvedType)
    ensures
        spec_usual_target(sema, l, r) == spec_usual_target(sema, r, l),
{
}

/// 6.2.1.5 For operands neither of which is floating, long or unsigned long:
/// when one of them is unsigned int both are converted to unsigned int,
/// otherwise both are int.
pub proof fn lemma_usual_target_int_rank(sema: &Sema, l: ResolvedType, r: ResolvedType)
    requires
        !(l is LongDouble || l is Double || l is Float || l is Long || l is UnsignedLong),
        !(r is LongDouble || r is Double || r is Float || r is Long || r is UnsignedLong),
    ensures
        (l is UnsignedInt || r is UnsignedInt) ==> spec_usual_target(sema, l, r) == sema.builtins.unsigned_int,
        !(l is UnsignedInt || r is UnsignedInt) ==> spec_usual_target(sema, l, r) == sema.builtins.int,
{
}

/// 6.2.1.5 With no floating operand: an operand of type unsigned long makes
/// the common type unsigned long; otherwise a long operand makes it long,
/// except with an unsigned int operand, where it is long if long can hold
/// every unsigned int and unsigned long if not.
pub proof fn lemma_usual_target_long_rank(sema: &Sema, l: ResolvedType, r: ResolvedType)
    requires
        !(l is LongDouble || l is Double || l is Float),
        !(r is LongDouble || r is Double || r is Float),
    ensures
        (l is UnsignedLong || r is UnsignedLong) ==> spec_usual_target(sema, l, r) == sema.builtins.unsigned_long,
        !(l is UnsignedLong || r is UnsignedLong) && ((l is Long && !(r is UnsignedInt)) || (r is Long && !(l is UnsignedInt)))
            ==> spec_usual_target(sema, l, r) == sema.builtins.long,
        ((l is Long && r is UnsignedInt) || (l is UnsignedInt && r is Long)) ==> spec_usual_target(sema, l, r) == if sema.target.long.size
            > sema.target.int.size {
            sema.builtins.long
        } else {
            sema.builtins.unsigned_long
        },
{
}

/// 6.2.1.5 A floating operand makes the common type the widest floating
/// type among the operands.
pub proof fn lemma_usual_target_floating(sema: &Sema, l: ResolvedType, r: ResolvedType)
    ensures
        (l is LongDouble || r is LongDouble) ==> spec_usual_target(sema, l, r) == sema.builtins.long_double,
        !(l is LongDouble || r is LongDouble) && (l is Double || r is Double) ==> spec_usual_target(sema, l, r)
            == sema.builtins.double,
        !(l is LongDouble || r is LongDouble || l is Double || r is Double) && (l is Float || r is Float)
            ==> spec_usual_target(sema, l, r) == sema.builtins.float,
{
}

} // verus!
