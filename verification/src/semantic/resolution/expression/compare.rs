//! Relational, equality, bitwise and logical operators (6.3.8 to 6.3.14).

use vstd::prelude::*;

use crate::semantic::diagnosis::Diagnosis;
use crate::semantic::model::cast::{
    convert, spec_convert_kind, unqualified, usual_arithmetic, usual_arithmetic_casts, with_casts, ImplicitCast,
};
use crate::semantic::model::resolved_expression::{ExpressionKind, ResolvedExpression};
use crate::semantic::model::resolved_type::{
    compatible_ignoring, spec_is_arithmetic, spec_is_complete, spec_is_integral, spec_is_object, spec_is_scalar,
    QualifiedType, ResolvedType,
};
use crate::semantic::resolution::expression::operand::R;
use crate::semantic::sema::Sema;

verus! {

/// The result of a comparison: an int rvalue.
pub open spec fn int_result(sema: &Sema) -> R {
    Ok((unqualified(sema.builtins.int), ExpressionKind::RValue))
}

/// 6.3.8 The outcome of a relational operator on two pointers to `i1` and
/// `i2`, of the operand types `lt` and `rt`.
pub open spec fn spec_relational_pointers(sema: &Sema, i1: QualifiedType, i2: QualifiedType, lt: QualifiedType, rt: QualifiedType) -> R {
    if !compatible_ignoring(sema, i1, i2) {
        Err(Diagnosis::InvalidComparison(lt, rt))
    } else if spec_is_object(sema, sema.ty(i1.id)) && spec_is_object(sema, sema.ty(i2.id)) {
        int_result(sema)
    } else if !spec_is_complete(sema, sema.ty(i1.id)) && !spec_is_complete(sema, sema.ty(i2.id)) {
        int_result(sema)
    } else if sema.ty(i1.id) is Function && sema.ty(i2.id) is Function {
        Err(Diagnosis::OrderedFunctionPointers(lt, rt))
    } else {
        Err(Diagnosis::MixedCompletenessComparison(lt, rt))
    }
}

/// 6.3.8 Both operands have arithmetic type, or both are pointers to
/// compatible object types or to compatible incomplete types. The result
/// is an int.
pub fn relational_type(sema: &mut Sema, lhs: &mut ResolvedExpression, rhs: &mut ResolvedExpression) -> (res: R)
    requires
        old(sema).wf(),
        old(sema).re_ok(*old(lhs)),
        old(sema).re_ok(*old(rhs)),
    ensures
        res matches Ok((q, _)) ==> final(sema).qt_ok(q),
        *final(sema) == *old(sema),
        final(sema).re_ok(*final(lhs)),
        final(sema).re_ok(*final(rhs)),
        ({
            let l = old(sema).ty(old(lhs).spec_casted_ty().id);
            let r = old(sema).ty(old(rhs).spec_casted_ty().id);
            if spec_is_arithmetic(old(sema), l) && spec_is_arithmetic(old(sema), r) {
                let casts = usual_arithmetic_casts(old(sema), old(lhs).ty, old(lhs).casts@, old(rhs).ty, old(rhs).casts@);
                &&& with_casts(*final(lhs), *old(lhs), casts.0)
                &&& with_casts(*final(rhs), *old(rhs), casts.1)
                &&& res == int_result(old(sema))
            } else {
                &&& *final(lhs) == *old(lhs)
                &&& *final(rhs) == *old(rhs)
                &&& res == match (l, r) {
                    (ResolvedType::Pointer(i1), ResolvedType::Pointer(i2)) => spec_relational_pointers(
                        old(sema),
                        i1,
                        i2,
                        old(lhs).ty,
                        old(rhs).ty,
                    ),
                    _ => Err(Diagnosis::InvalidBinaryOperand(old(lhs).ty, old(rhs).ty)),
                }
            }
        }),
{
    let l = sema.types.get(lhs.casted_ty().id).duplicate();
    let r = sema.types.get(rhs.casted_ty().id).duplicate();
    let ty = QualifiedType::new(sema.builtins.int, false, false);
    if l.is_arithmetic(sema) && r.is_arithmetic(sema) {
        let _ = usual_arithmetic(sema, lhs, rhs);
        return Ok((ty, ExpressionKind::RValue));
    }
    let (i1, i2) = match (l, r) {
        (ResolvedType::Pointer(i1), ResolvedType::Pointer(i2)) => (i1, i2),
        _ => return Err(Diagnosis::InvalidBinaryOperand(lhs.ty, rhs.ty)),
    };
    if !i1.is_compatible_ignoring_qualifiers(sema, &i2) {
        return Err(Diagnosis::InvalidComparison(lhs.ty, rhs.ty));
    }
    if i1.is_object(sema) && i2.is_object(sema) {
        return Ok((ty, ExpressionKind::RValue));
    }
    if !i1.is_complete(sema) && !i2.is_complete(sema) {
        return Ok((ty, ExpressionKind::RValue));
    }
    if i1.is_function(sema) && i2.is_function(sema) {
        return Err(Diagnosis::OrderedFunctionPointers(lhs.ty, rhs.ty));
    }
    Err(Diagnosis::MixedCompletenessComparison(lhs.ty, rhs.ty))
}

/// The conversions of an operand converted to `to` (a null pointer constant
/// when `is_null`).
pub open spec fn converted_casts(sema: &Sema, re: ResolvedExpression, to: crate::semantic::model::resolved_type::ResolvedTypeId, is_null: bool) -> Seq<ImplicitCast> {
    if re.spec_casted_ty().id == to {
        re.casts@
    } else {
        re.casts@.push(ImplicitCast { kind: spec_convert_kind(sema, re.spec_casted_ty().id, to, is_null)->0, to: unqualified(to) })
    }
}

/// 6.3.9 Both operands have arithmetic type; or both are pointers to
/// compatible types; or one is a pointer and the other a null pointer
/// constant or a pointer to void, converted to the pointer's type. The
/// result is an int.
pub fn equality_type(sema: &mut Sema, lhs: &mut ResolvedExpression, rhs: &mut ResolvedExpression, n1: bool, n2: bool) -> (res: R)
    requires
        old(sema).wf(),
        old(sema).re_ok(*old(lhs)),
        old(sema).re_ok(*old(rhs)),
    ensures
        res matches Ok((q, _)) ==> final(sema).qt_ok(q),
        *final(sema) == *old(sema),
        final(sema).re_ok(*final(lhs)),
        final(sema).re_ok(*final(rhs)),
        ({
            let lt = old(lhs).spec_casted_ty();
            let rt = old(rhs).spec_casted_ty();
            let l = old(sema).ty(lt.id);
            let r = old(sema).ty(rt.id);
            if spec_is_arithmetic(old(sema), l) && spec_is_arithmetic(old(sema), r) {
                let casts = usual_arithmetic_casts(old(sema), old(lhs).ty, old(lhs).casts@, old(rhs).ty, old(rhs).casts@);
                &&& with_casts(*final(lhs), *old(lhs), casts.0)
                &&& with_casts(*final(rhs), *old(rhs), casts.1)
                &&& res == int_result(old(sema))
            } else if l is Pointer && n2 {
                &&& *final(lhs) == *old(lhs)
                &&& with_casts(*final(rhs), *old(rhs), converted_casts(old(sema), *old(rhs), lt.id, true))
                &&& res == int_result(old(sema))
            } else if r is Pointer && n1 {
                &&& with_casts(*final(lhs), *old(lhs), converted_casts(old(sema), *old(lhs), rt.id, true))
                &&& *final(rhs) == *old(rhs)
                &&& res == int_result(old(sema))
            } else if l is Pointer && r is Pointer {
                let i1 = l->Pointer_0;
                let i2 = r->Pointer_0;
                if compatible_ignoring(old(sema), i1, i2) {
                    *final(lhs) == *old(lhs) && *final(rhs) == *old(rhs) && res == int_result(old(sema))
                } else if old(sema).ty(i1.id) is Void && !(old(sema).ty(i2.id) is Function) {
                    &&& *final(lhs) == *old(lhs)
                    &&& with_casts(*final(rhs), *old(rhs), converted_casts(old(sema), *old(rhs), lt.id, false))
                    &&& res == int_result(old(sema))
                } else if old(sema).ty(i2.id) is Void && !(old(sema).ty(i1.id) is Function) {
                    &&& with_casts(*final(lhs), *old(lhs), converted_casts(old(sema), *old(lhs), rt.id, false))
                    &&& *final(rhs) == *old(rhs)
                    &&& res == int_result(old(sema))
                } else {
                    &&& *final(lhs) == *old(lhs)
                    &&& *final(rhs) == *old(rhs)
                    &&& res == Err::<(QualifiedType, ExpressionKind), Diagnosis>(Diagnosis::InvalidComparison(old(lhs).ty, old(rhs).ty))
                }
            } else {
                &&& *final(lhs) == *old(lhs)
                &&& *final(rhs) == *old(rhs)
                &&& res == Err::<(QualifiedType, ExpressionKind), Diagnosis>(Diagnosis::InvalidBinaryOperand(old(lhs).ty, old(rhs).ty))
            }
        }),
{
    let l_ty = lhs.casted_ty();
    let r_ty = rhs.casted_ty();
    let l = sema.types.get(l_ty.id).duplicate();
    let r = sema.types.get(r_ty.id).duplicate();
    let ty = QualifiedType::new(sema.builtins.int, false, false);
    if l.is_arithmetic(sema) && r.is_arithmetic(sema) {
        let _ = usual_arithmetic(sema, lhs, rhs);
        return Ok((ty, ExpressionKind::RValue));
    }
    if l.is_pointer() && n2 {
        convert(sema, rhs, l_ty.id, true);
        return Ok((ty, ExpressionKind::RValue));
    }
    if r.is_pointer() && n1 {
        convert(sema, lhs, r_ty.id, true);
        return Ok((ty, ExpressionKind::RValue));
    }
    let (i1, i2) = match (l, r) {
        (ResolvedType::Pointer(i1), ResolvedType::Pointer(i2)) => (i1, i2),
        _ => return Err(Diagnosis::InvalidBinaryOperand(lhs.ty, rhs.ty)),
    };
    if i1.is_compatible_ignoring_qualifiers(sema, &i2) {
        return Ok((ty, ExpressionKind::RValue));
    }
    if i1.is_void(sema) && !i2.is_function(sema) {
        convert(sema, rhs, l_ty.id, false);
        return Ok((ty, ExpressionKind::RValue));
    }
    if i2.is_void(sema) && !i1.is_function(sema) {
        convert(sema, lhs, r_ty.id, false);
        return Ok((ty, ExpressionKind::RValue));
    }
    Err(Diagnosis::InvalidComparison(lhs.ty, rhs.ty))
}

/// 6.3.10 to 6.3.12 Both operands of a bitwise operator have integral type;
/// the usual arithmetic conversions give the type of the result.
pub fn bitwise_type(sema: &mut Sema, lhs: &mut ResolvedExpression, rhs: &mut ResolvedExpression) -> (res: R)
    requires
        old(sema).wf(),
        old(sema).re_ok(*old(lhs)),
        old(sema).re_ok(*old(rhs)),
    ensures
        res matches Ok((q, _)) ==> final(sema).qt_ok(q),
        *final(sema) == *old(sema),
        final(sema).re_ok(*final(lhs)),
        final(sema).re_ok(*final(rhs)),
        if spec_is_integral(old(sema), old(sema).ty(old(lhs).spec_casted_ty().id)) && spec_is_integral(
            old(sema),
            old(sema).ty(old(rhs).spec_casted_ty().id),
        ) {
            let casts = usual_arithmetic_casts(old(sema), old(lhs).ty, old(lhs).casts@, old(rhs).ty, old(rhs).casts@);
            &&& with_casts(*final(lhs), *old(lhs), casts.0)
            &&& with_casts(*final(rhs), *old(rhs), casts.1)
            &&& res == Ok::<(QualifiedType, ExpressionKind), Diagnosis>((final(lhs).spec_casted_ty(), ExpressionKind::RValue))
        } else {
            &&& *final(lhs) == *old(lhs)
            &&& *final(rhs) == *old(rhs)
            &&& res == Err::<(QualifiedType, ExpressionKind), Diagnosis>(Diagnosis::InvalidBinaryOperand(old(lhs).ty, old(rhs).ty))
        },
{
    if !lhs.casted_ty().is_integral(sema) || !rhs.casted_ty().is_integral(sema) {
        return Err(Diagnosis::InvalidBinaryOperand(lhs.ty, rhs.ty));
    }
    usual_arithmetic(sema, lhs, rhs)
}

/// 6.3.13, 6.3.14 Both operands of `&&` and `||` have scalar type; the
/// result is an int.
pub fn logic_type(sema: &mut Sema, lhs: &mut ResolvedExpression, rhs: &mut ResolvedExpression) -> (res: R)
    requires
        old(sema).wf(),
        old(sema).re_ok(*old(lhs)),
        old(sema).re_ok(*old(rhs)),
    ensures
        res matches Ok((q, _)) ==> final(sema).qt_ok(q),
        *final(sema) == *old(sema),
        *final(lhs) == *old(lhs),
        *final(rhs) == *old(rhs),
        res == if spec_is_scalar(old(sema), old(sema).ty(old(lhs).spec_casted_ty().id)) && spec_is_scalar(
            old(sema),
            old(sema).ty(old(rhs).spec_casted_ty().id),
        ) {
            int_result(old(sema))
        } else {
            Err(Diagnosis::InvalidBinaryOperand(old(lhs).ty, old(rhs).ty))
        },
{
    if !lhs.casted_ty().is_scalar(sema) || !rhs.casted_ty().is_scalar(sema) {
        return Err(Diagnosis::InvalidBinaryOperand(lhs.ty, rhs.ty));
    }
    Ok((QualifiedType::new(sema.builtins.int, false, false), ExpressionKind::RValue))
}

} // verus!
