//! The conditional operator (6.3.15).

use vstd::prelude::*;

use crate::semantic::diagnosis::Diagnosis;
use crate::semantic::model::cast::{unqualified, usual_arithmetic, usual_arithmetic_casts, with_casts};
use crate::semantic::model::resolved_expression::{ExpressionKind, ResolvedExpression};
use crate::semantic::model::resolved_type::{
    compatible, compatible_ignoring, spec_is_arithmetic, spec_is_scalar, QualifiedType, ResolvedType,
    ResolvedTypeArena,
};
use crate::semantic::model::cast::convert;
use crate::semantic::resolution::expression::compare::converted_casts;
use crate::semantic::resolution::expression::operand::R;
use crate::semantic::sema::{lemma_re_ok_grown, Sema};

verus! {

/// Compatibility of two types, qualifiers aside, is that of their unqualified versions.
proof fn lemma_compatible_unqualified(sema: &Sema, a: QualifiedType, b: QualifiedType)
    ensures
        compatible(sema, unqualified(a.id), unqualified(b.id)) == compatible_ignoring(sema, a, b),
{
    assert(compatible(sema, unqualified(a.id), unqualified(b.id)) == compatible_ignoring(
        sema,
        unqualified(a.id),
        unqualified(b.id),
    ));
}

/// 6.3.15 The first operand has scalar type. The second and third are both
/// arithmetic (the usual arithmetic conversions give the result type), both
/// the same structure or union type, both void, a pointer and a null pointer
/// constant, pointers to compatible types (the result points to their
/// composite type with the qualifiers of both), or a pointer and a pointer to
/// void (the other is converted to it).
pub fn conditional_type(
    sema: &mut Sema,
    conditional: &mut ResolvedExpression,
    lhs: &mut ResolvedExpression,
    rhs: &mut ResolvedExpression,
    n2: bool,
    n3: bool,
) -> (res: R)
    requires
        old(sema).wf(),
        old(sema).re_ok(*old(conditional)),
        old(sema).re_ok(*old(lhs)),
        old(sema).re_ok(*old(rhs)),
    ensures
        res matches Ok((q, _)) ==> final(sema).qt_ok(q),
        final(sema).wf(),
        final(sema).types_grown(*old(sema)),
        *final(conditional) == *old(conditional),
        final(sema).re_ok(*final(lhs)),
        final(sema).re_ok(*final(rhs)),
        ({
            let lt = old(lhs).spec_casted_ty();
            let rt = old(rhs).spec_casted_ty();
            let l = old(sema).ty(lt.id);
            let r = old(sema).ty(rt.id);
            if !spec_is_scalar(old(sema), old(sema).ty(old(conditional).spec_casted_ty().id)) {
                &&& res == Err::<(QualifiedType, ExpressionKind), Diagnosis>(Diagnosis::NotScalar(old(conditional).ty))
                &&& *final(lhs) == *old(lhs) && *final(rhs) == *old(rhs)
            } else if spec_is_arithmetic(old(sema), l) && spec_is_arithmetic(old(sema), r) {
                let casts = usual_arithmetic_casts(old(sema), old(lhs).ty, old(lhs).casts@, old(rhs).ty, old(rhs).casts@);
                &&& with_casts(*final(lhs), *old(lhs), casts.0)
                &&& with_casts(*final(rhs), *old(rhs), casts.1)
                &&& res == Ok::<(QualifiedType, ExpressionKind), Diagnosis>((final(lhs).spec_casted_ty(), ExpressionKind::RValue))
            } else if l is Tag && r is Tag && compatible(old(sema), lt, rt) {
                &&& res == Ok::<(QualifiedType, ExpressionKind), Diagnosis>((lt, ExpressionKind::RValue))
                &&& *final(lhs) == *old(lhs) && *final(rhs) == *old(rhs)
            } else if l is Void && r is Void {
                &&& res == Ok::<(QualifiedType, ExpressionKind), Diagnosis>((unqualified(old(sema).builtins.void), ExpressionKind::RValue))
                &&& *final(lhs) == *old(lhs) && *final(rhs) == *old(rhs)
            } else if l is Pointer && n3 {
                &&& *final(lhs) == *old(lhs)
                &&& with_casts(*final(rhs), *old(rhs), converted_casts(old(sema), *old(rhs), lt.id, true))
                &&& res == Ok::<(QualifiedType, ExpressionKind), Diagnosis>((lt, ExpressionKind::RValue))
            } else if r is Pointer && n2 {
                &&& with_casts(*final(lhs), *old(lhs), converted_casts(old(sema), *old(lhs), rt.id, true))
                &&& *final(rhs) == *old(rhs)
                &&& res == Ok::<(QualifiedType, ExpressionKind), Diagnosis>((final(lhs).spec_casted_ty(), ExpressionKind::RValue))
            } else if l is Pointer && r is Pointer {
                let i1 = l->Pointer_0;
                let i2 = r->Pointer_0;
                if compatible_ignoring(old(sema), i1, i2) {
                    &&& *final(lhs) == *old(lhs) && *final(rhs) == *old(rhs)
                    &&& res matches Ok((q, k)) && k == ExpressionKind::RValue && !q.is_const && !q.is_volatile
                        && q.id < final(sema).ntypes() && final(sema).ty(q.id) is Pointer
                        && final(sema).ty(q.id)->Pointer_0.is_const == (i1.is_const || i2.is_const)
                        && final(sema).ty(q.id)->Pointer_0.is_volatile == (i1.is_volatile || i2.is_volatile)
                        && (i1.id == i2.id ==> final(sema).ty(q.id)->Pointer_0.id == i1.id)
                } else if old(sema).ty(i1.id) is Void && !(old(sema).ty(i2.id) is Function) {
                    &&& *final(lhs) == *old(lhs)
                    &&& with_casts(*final(rhs), *old(rhs), converted_casts(old(sema), *old(rhs), lt.id, false))
                    &&& res == Ok::<(QualifiedType, ExpressionKind), Diagnosis>((lt, ExpressionKind::RValue))
                } else if old(sema).ty(i2.id) is Void && !(old(sema).ty(i1.id) is Function) {
                    &&& with_casts(*final(lhs), *old(lhs), converted_casts(old(sema), *old(lhs), rt.id, false))
                    &&& *final(rhs) == *old(rhs)
                    &&& res == Ok::<(QualifiedType, ExpressionKind), Diagnosis>((final(lhs).spec_casted_ty(), ExpressionKind::RValue))
                } else {
                    &&& *final(lhs) == *old(lhs) && *final(rhs) == *old(rhs)
                    &&& res == Err::<(QualifiedType, ExpressionKind), Diagnosis>(Diagnosis::PointerMismatch(old(lhs).ty, old(rhs).ty))
                }
            } else {
                &&& *final(lhs) == *old(lhs) && *final(rhs) == *old(rhs)
                &&& res == Err::<(QualifiedType, ExpressionKind), Diagnosis>(Diagnosis::IncompatibleOperands(old(lhs).ty, old(rhs).ty))
            }
        }),
{
    if !conditional.casted_ty().is_scalar(sema) {
        return Err(Diagnosis::NotScalar(conditional.ty));
    }
    let l_ty = lhs.casted_ty();
    let r_ty = rhs.casted_ty();
    let l = sema.types.get(l_ty.id).duplicate();
    let r = sema.types.get(r_ty.id).duplicate();
    if l.is_arithmetic(sema) && r.is_arithmetic(sema) {
        return usual_arithmetic(sema, lhs, rhs);
    }
    if l.is_tag() && r.is_tag() && l_ty.is_compatible(sema, &r_ty) {
        return Ok((l_ty, ExpressionKind::RValue));
    }
    if l.is_void() && r.is_void() {
        return Ok((QualifiedType::new(sema.builtins.void, false, false), ExpressionKind::RValue));
    }
    if l.is_pointer() && n3 {
        convert(sema, rhs, l_ty.id, true);
        return Ok((lhs.casted_ty(), ExpressionKind::RValue));
    }
    if r.is_pointer() && n2 {
        convert(sema, lhs, r_ty.id, true);
        return Ok((lhs.casted_ty(), ExpressionKind::RValue));
    }
    let (i1, i2) = match (l, r) {
        (ResolvedType::Pointer(i1), ResolvedType::Pointer(i2)) => (i1, i2),
        _ => return Err(Diagnosis::IncompatibleOperands(lhs.ty, rhs.ty)),
    };
    if i1.is_compatible_ignoring_qualifiers(sema, &i2) {
        proof {
            lemma_compatible_unqualified(sema, i1, i2);
        }
        let ghost s0 = *sema;
        let inner = match i1.unqualified().composite(sema, &i2.unqualified()) {
            Some(q) => q,
            None => return Err(Diagnosis::Poisoned),
        };
        let inner = QualifiedType::new(inner.id, i1.is_const || i2.is_const, i1.is_volatile || i2.is_volatile);
        let ty = sema.pointer_type(inner);
        proof {
            lemma_re_ok_grown(sema, &s0, *lhs);
            lemma_re_ok_grown(sema, &s0, *rhs);
        }
        return Ok((QualifiedType::new(ty, false, false), ExpressionKind::RValue));
    }
    if i1.is_void(sema) && !i2.is_function(sema) {
        convert(sema, rhs, l_ty.id, false);
        return Ok((lhs.casted_ty(), ExpressionKind::RValue));
    }
    if i2.is_void(sema) && !i1.is_function(sema) {
        convert(sema, lhs, r_ty.id, false);
        return Ok((lhs.casted_ty(), ExpressionKind::RValue));
    }
    Err(Diagnosis::PointerMismatch(lhs.ty, rhs.ty))
}

} // verus!
