//! Unary operators and casts (6.3.2.4, 6.3.3, 6.3.4), on an operand whose
//! value conversions are done.

use vstd::prelude::*;

use crate::ast::{Storage, UnaryOp};
use crate::semantic::diagnosis::Diagnosis;
use crate::semantic::model::cast::{convert, promote, promote_casts, spec_convert_kind, unqualified, with_casts};
use crate::semantic::model::resolved_expression::{ExpressionKind, ResolvedExpression};
use crate::semantic::model::resolved_type::{
    spec_is_arithmetic, spec_is_integral, spec_is_object, spec_is_scalar, QualifiedType, ResolvedType,
};
use crate::semantic::model::symbol::SymbolId;
use crate::semantic::resolution::expression::compare::converted_casts;
use crate::semantic::resolution::expression::operand::{is_bit_field, spec_is_bit_field, R};
use crate::semantic::sema::{lemma_re_ok_grown, Sema};

verus! {

/// 6.3.3.3 The operand of unary `+` and `-` has arithmetic type; it is
/// promoted, and the result has the promoted type.
pub fn sign_type(sema: &Sema, re: &mut ResolvedExpression) -> (res: R)
    requires
        sema.wf(),
        sema.re_ok(*old(re)),
    ensures
        res matches Ok((q, _)) ==> sema.qt_ok(q),
        sema.re_ok(*final(re)),
        if spec_is_arithmetic(sema, sema.ty(old(re).spec_casted_ty().id)) {
            &&& with_casts(*final(re), *old(re), promote_casts(sema, old(re).ty, old(re).casts@))
            &&& res == Ok::<(QualifiedType, ExpressionKind), Diagnosis>((final(re).spec_casted_ty(), ExpressionKind::RValue))
        } else {
            &&& *final(re) == *old(re)
            &&& res == Err::<(QualifiedType, ExpressionKind), Diagnosis>(Diagnosis::InvalidUnary(old(re).ty))
        },
{
    if !re.casted_ty().is_arithmetic(sema) {
        return Err(Diagnosis::InvalidUnary(re.ty));
    }
    promote(sema, re);
    Ok((re.casted_ty(), ExpressionKind::RValue))
}

/// 6.3.3.3 The operand of `~` has integral type; it is promoted, and the
/// result has the promoted type.
pub fn bit_not_type(sema: &Sema, re: &mut ResolvedExpression) -> (res: R)
    requires
        sema.wf(),
        sema.re_ok(*old(re)),
    ensures
        res matches Ok((q, _)) ==> sema.qt_ok(q),
        sema.re_ok(*final(re)),
        if spec_is_integral(sema, sema.ty(old(re).spec_casted_ty().id)) {
            &&& with_casts(*final(re), *old(re), promote_casts(sema, old(re).ty, old(re).casts@))
            &&& res == Ok::<(QualifiedType, ExpressionKind), Diagnosis>((final(re).spec_casted_ty(), ExpressionKind::RValue))
        } else {
            &&& *final(re) == *old(re)
            &&& res == Err::<(QualifiedType, ExpressionKind), Diagnosis>(Diagnosis::InvalidUnary(old(re).ty))
        },
{
    if !re.casted_ty().is_integral(sema) {
        return Err(Diagnosis::InvalidUnary(re.ty));
    }
    promote(sema, re);
    Ok((re.casted_ty(), ExpressionKind::RValue))
}

/// 6.3.3.3 The operand of `!` has scalar type; the result is an int.
pub fn logic_not_type(sema: &Sema, re: &ResolvedExpression) -> (res: R)
    requires
        sema.wf(),
        sema.re_ok(*re),
    ensures
        res matches Ok((q, _)) ==> sema.qt_ok(q),
        res == if spec_is_scalar(sema, sema.ty(re.spec_casted_ty().id)) {
            Ok((unqualified(sema.builtins.int), ExpressionKind::RValue))
        } else {
            Err(Diagnosis::InvalidUnary(re.ty))
        },
{
    if !re.casted_ty().is_scalar(sema) {
        return Err(Diagnosis::InvalidUnary(re.ty));
    }
    Ok((QualifiedType::new(sema.builtins.int, false, false), ExpressionKind::RValue))
}

/// 6.3.3.2 The operand of `*` is a pointer, not to void; the result is an
/// lvalue designating the object, or a function designator.
pub fn indirection_type(sema: &Sema, re: &ResolvedExpression) -> (res: R)
    requires
        sema.wf(),
        sema.re_ok(*re),
    ensures
        res matches Ok((q, _)) ==> sema.qt_ok(q),
        res == match sema.ty(re.spec_casted_ty().id) {
            ResolvedType::Pointer(inner) => if sema.ty(inner.id) is Void {
                Err(Diagnosis::IncompleteType(inner))
            } else if sema.ty(inner.id) is Function {
                Ok((inner, ExpressionKind::RValue))
            } else {
                Ok((inner, ExpressionKind::LValue))
            },
            _ => Err(Diagnosis::IndirectionNotPointer(re.ty)),
        },
{
    let inner = match sema.types.get(re.casted_ty().id) {
        ResolvedType::Pointer(inner) => *inner,
        _ => return Err(Diagnosis::IndirectionNotPointer(re.ty)),
    };
    if inner.is_void(sema) {
        return Err(Diagnosis::IncompleteType(inner));
    }
    let kind = if inner.is_function(sema) { ExpressionKind::RValue } else { ExpressionKind::LValue };
    Ok((inner, kind))
}

/// 6.3.2.4, 6.3.3.1 The operand of `++` and `--` is a modifiable lvalue of
/// scalar type; a pointer operand points to an object. The result has the
/// operand's value type.
pub fn inc_dec_type(sema: &Sema, re: &ResolvedExpression, op: UnaryOp) -> (res: R)
    requires
        sema.wf(),
        sema.re_ok(*re),
    ensures
        res matches Ok((q, _)) ==> sema.qt_ok(q),
        res == if re.kind == ExpressionKind::RValue {
            Err(Diagnosis::AssignToRValue)
        } else if re.ty.is_const {
            Err(Diagnosis::ConstAssignment(re.ty))
        } else if sema.ty(re.ty.id) is Pointer && !spec_is_object(sema, sema.ty(sema.ty(re.ty.id)->Pointer_0.id)) {
            if sema.ty(sema.ty(re.ty.id)->Pointer_0.id) is Function {
                Err(Diagnosis::BadPostIncDec(op, re.ty))
            } else {
                Err(Diagnosis::IncompleteType(sema.ty(re.ty.id)->Pointer_0))
            }
        } else if !spec_is_scalar(sema, sema.ty(re.ty.id)) {
            Err(Diagnosis::BadPostIncDec(op, re.ty))
        } else {
            Ok((re.spec_casted_ty(), ExpressionKind::RValue))
        },
{
    match crate::semantic::resolution::expression::operand::check_assignable(re) {
        Err(d) => return Err(d),
        Ok(()) => {},
    }
    if let ResolvedType::Pointer(inner) = sema.types.get(re.ty.id) {
        if !inner.is_object(sema) {
            return Err(if inner.is_function(sema) {
                Diagnosis::BadPostIncDec(op, re.ty)
            } else {
                Diagnosis::IncompleteType(*inner)
            });
        }
    }
    if !re.ty.is_scalar(sema) {
        return Err(Diagnosis::BadPostIncDec(op, re.ty));
    }
    Ok((re.casted_ty(), ExpressionKind::RValue))
}

/// 6.3.3.2 The operand of `&` is a function designator or an lvalue that is
/// neither a bit-field nor declared `register`; the result points to the
/// operand's type.
pub fn address_type(sema: &mut Sema, re: &ResolvedExpression, sym: Option<SymbolId>) -> (res: R)
    requires
        old(sema).wf(),
        old(sema).re_ok(*re),
        sym matches Some(id) ==> id < old(sema).nsyms(),
    ensures
        res matches Ok((q, _)) ==> final(sema).qt_ok(q),
        final(sema).wf(),
        final(sema).types_grown(*old(sema)),
        if re.kind == ExpressionKind::RValue && !(old(sema).ty(re.spec_casted_ty().id) is Function) {
            res == Err::<(QualifiedType, ExpressionKind), Diagnosis>(Diagnosis::RValueAddress(re.ty))
        } else if sym matches Some(id) && old(sema).sym(id).storage == Some(Storage::Register) {
            res == Err::<(QualifiedType, ExpressionKind), Diagnosis>(Diagnosis::RegisterAddress)
        } else if spec_is_bit_field(old(sema), sym) {
            res == Err::<(QualifiedType, ExpressionKind), Diagnosis>(Diagnosis::BitFieldAddress)
        } else {
            res matches Ok((q, k)) && k == ExpressionKind::RValue && q == unqualified(q.id) && q.id
                < final(sema).ntypes() && final(sema).ty(q.id).same(ResolvedType::Pointer(re.ty))
        },
{
    if re.kind == ExpressionKind::RValue && !re.casted_ty().is_function(sema) {
        return Err(Diagnosis::RValueAddress(re.ty));
    }
    if let Some(id) = sym {
        if sema.symbols.get(id).storage == Some(Storage::Register) {
            return Err(Diagnosis::RegisterAddress);
        }
    }
    if is_bit_field(sema, sym) {
        return Err(Diagnosis::BitFieldAddress);
    }
    let ty = sema.pointer_type(re.ty);
    Ok((QualifiedType::new(ty, false, false), ExpressionKind::RValue))
}

/// 6.3.4 A cast: to void, or between scalar types, a floating type never to
/// or from a pointer. The operand is converted to the named type.
pub fn cast_type(sema: &Sema, qualif: QualifiedType, re: &mut ResolvedExpression, is_null: bool) -> (res: R)
    requires
        sema.wf(),
        sema.re_ok(*old(re)),
        qualif.id < sema.ntypes(),
    ensures
        res matches Ok((q, _)) ==> sema.qt_ok(q),
        sema.re_ok(*final(re)),
        ({
            let t = sema.ty(qualif.id);
            let f = sema.ty(old(re).spec_casted_ty().id);
            if t is Void {
                *final(re) == *old(re) && res == Ok::<(QualifiedType, ExpressionKind), Diagnosis>((qualif, ExpressionKind::RValue))
            } else if !spec_is_scalar(sema, t) || !spec_is_scalar(sema, f) {
                *final(re) == *old(re) && res == Err::<(QualifiedType, ExpressionKind), Diagnosis>(Diagnosis::CastToNonScalar)
            } else if (t is Pointer) != (f is Pointer) && (t.spec_is_floating() || f.spec_is_floating()) {
                *final(re) == *old(re) && res == Err::<(QualifiedType, ExpressionKind), Diagnosis>(Diagnosis::InvalidOperand)
            } else {
                &&& with_casts(*final(re), *old(re), converted_casts(sema, *old(re), qualif.id, is_null))
                &&& res == Ok::<(QualifiedType, ExpressionKind), Diagnosis>((qualif, ExpressionKind::RValue))
            }
        }),
{
    let ty = sema.types.get(qualif.id);
    if !ty.is_void() {
        let from = sema.types.get(re.casted_ty().id);
        if !ty.is_scalar(sema) || !from.is_scalar(sema) {
            return Err(Diagnosis::CastToNonScalar);
        }
        if ty.is_pointer() != from.is_pointer() && (ty.is_floating() || from.is_floating()) {
            return Err(Diagnosis::InvalidOperand);
        }
        convert(sema, re, qualif.id, is_null);
    }
    Ok((qualif, ExpressionKind::RValue))
}

} // verus!
