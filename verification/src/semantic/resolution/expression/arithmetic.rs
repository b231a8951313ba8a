//! Multiplicative, additive and shift operators (6.3.5 to 6.3.7).

use vstd::prelude::*;

use crate::ast::{BinaryOp, Value};
use crate::semantic::diagnosis::Diagnosis;
use crate::semantic::model::cast::{
    pointer_integer_arithmetic, pointer_minus_pointer, promote, promote_casts, usual_arithmetic,
    usual_arithmetic_casts, with_casts, casted,
};
use crate::semantic::model::resolved_expression::{ExpressionKind, ResolvedExpression};
use crate::semantic::model::resolved_type::{spec_is_arithmetic, spec_is_integral, spec_is_promotable, ResolvedType};
use crate::semantic::resolution::expression::operand::R;
use crate::semantic::sema::Sema;

verus! {

/// 6.3.5 The operands of `*` and `/` have arithmetic type, those of `%`
/// integral type.
pub open spec fn spec_multiplicative_ok(sema: &Sema, op: BinaryOp, l: ResolvedType, r: ResolvedType) -> bool {
    if op == BinaryOp::Mod {
        spec_is_integral(sema, l) && spec_is_integral(sema, r)
    } else {
        spec_is_arithmetic(sema, l) && spec_is_arithmetic(sema, r)
    }
}

/// 6.3.5 Multiplicative operators: the usual arithmetic conversions give the
/// type of the result.
pub fn multiplicative_types(sema: &mut Sema, op: &BinaryOp, lhs: &mut ResolvedExpression, rhs: &mut ResolvedExpression) -> (res: R)
    requires
        old(sema).wf(),
        old(sema).re_ok(*old(lhs)),
        old(sema).re_ok(*old(rhs)),
        *op == BinaryOp::Mul || *op == BinaryOp::Div || *op == BinaryOp::Mod,
    ensures
        res matches Ok((q, _)) ==> final(sema).qt_ok(q),
        *final(sema) == *old(sema),
        final(sema).re_ok(*final(lhs)),
        final(sema).re_ok(*final(rhs)),
        if spec_multiplicative_ok(
            old(sema),
            *op,
            old(sema).ty(old(lhs).spec_casted_ty().id),
            old(sema).ty(old(rhs).spec_casted_ty().id),
        ) {
            let casts = usual_arithmetic_casts(old(sema), old(lhs).ty, old(lhs).casts@, old(rhs).ty, old(rhs).casts@);
            &&& with_casts(*final(lhs), *old(lhs), casts.0)
            &&& with_casts(*final(rhs), *old(rhs), casts.1)
            &&& res == Ok::<(crate::semantic::model::resolved_type::QualifiedType, ExpressionKind), Diagnosis>((final(lhs).spec_casted_ty(), ExpressionKind::RValue))
        } else {
            &&& *final(lhs) == *old(lhs)
            &&& *final(rhs) == *old(rhs)
            &&& res == Err::<(crate::semantic::model::resolved_type::QualifiedType, ExpressionKind), Diagnosis>(
                Diagnosis::InvalidBinaryOperand(old(lhs).spec_casted_ty(), old(rhs).spec_casted_ty()),
            )
        },
{
    let l = sema.types.get(lhs.casted_ty().id);
    let r = sema.types.get(rhs.casted_ty().id);
    let ok = if *op == BinaryOp::Mod {
        l.is_integral(sema) && r.is_integral(sema)
    } else {
        l.is_arithmetic(sema) && r.is_arithmetic(sema)
    };
    if !ok {
        return Err(Diagnosis::InvalidBinaryOperand(lhs.casted_ty(), rhs.casted_ty()));
    }
    usual_arithmetic(sema, lhs, rhs)
}

/// 6.3.6 Additive operators: both operands arithmetic; a pointer to an
/// object and an integer (either order for `+`); or, for `-`, two pointers to
/// compatible object types.
pub fn additive_types(sema: &mut Sema, op: &BinaryOp, lhs: &mut ResolvedExpression, rhs: &mut ResolvedExpression) -> (res: R)
    requires
        old(sema).wf(),
        old(sema).re_ok(*old(lhs)),
        old(sema).re_ok(*old(rhs)),
    ensures
        res matches Ok((q, _)) ==> final(sema).qt_ok(q),
        *final(sema) == *old(sema),
        final(sema).re_ok(*final(lhs)),
        final(sema).re_ok(*final(rhs)),
        ({
            let l = old(sema).ty(old(lhs).spec_casted_ty().id);
            let r = old(sema).ty(old(rhs).spec_casted_ty().id);
            if spec_is_arithmetic(old(sema), l) && spec_is_arithmetic(old(sema), r) {
                let casts = usual_arithmetic_casts(old(sema), old(lhs).ty, old(lhs).casts@, old(rhs).ty, old(rhs).casts@);
                &&& with_casts(*final(lhs), *old(lhs), casts.0)
                &&& with_casts(*final(rhs), *old(rhs), casts.1)
                &&& res is Ok
            } else if l is Pointer && spec_is_integral(old(sema), r) {
                &&& *final(lhs) == *old(lhs)
                &&& res is Ok ==> res == Ok::<(crate::semantic::model::resolved_type::QualifiedType, ExpressionKind), Diagnosis>((old(lhs).spec_casted_ty(), ExpressionKind::RValue))
            } else if *op == BinaryOp::Add && spec_is_integral(old(sema), l) && r is Pointer {
                &&& *final(rhs) == *old(rhs)
                &&& res is Ok ==> res == Ok::<(crate::semantic::model::resolved_type::QualifiedType, ExpressionKind), Diagnosis>((old(rhs).spec_casted_ty(), ExpressionKind::RValue))
            } else if *op == BinaryOp::Sub && l is Pointer && r is Pointer {
                &&& *final(lhs) == *old(lhs) && *final(rhs) == *old(rhs)
                &&& res is Ok ==> res == Ok::<(crate::semantic::model::resolved_type::QualifiedType, ExpressionKind), Diagnosis>(
                    (crate::semantic::model::cast::unqualified(old(sema).builtins.ptrdiff_t), ExpressionKind::RValue),
                )
            } else {
                &&& *final(lhs) == *old(lhs) && *final(rhs) == *old(rhs)
                &&& res == Err::<(crate::semantic::model::resolved_type::QualifiedType, ExpressionKind), Diagnosis>(Diagnosis::InvalidOperand)
            }
        }),
{
    let l = sema.types.get(lhs.casted_ty().id).duplicate();
    let r = sema.types.get(rhs.casted_ty().id).duplicate();
    if l.is_arithmetic(sema) && r.is_arithmetic(sema) {
        return usual_arithmetic(sema, lhs, rhs);
    }
    if l.is_pointer() && r.is_integral(sema) {
        return match pointer_integer_arithmetic(sema, lhs, rhs) {
            Ok(q) => Ok((q, ExpressionKind::RValue)),
            Err(d) => Err(d),
        };
    }
    if *op == BinaryOp::Add && l.is_integral(sema) && r.is_pointer() {
        return match pointer_integer_arithmetic(sema, rhs, lhs) {
            Ok(q) => Ok((q, ExpressionKind::RValue)),
            Err(d) => Err(d),
        };
    }
    if *op == BinaryOp::Sub && l.is_pointer() && r.is_pointer() {
        return match pointer_minus_pointer(sema, lhs, rhs) {
            Ok(q) => Ok((q, ExpressionKind::RValue)),
            Err(d) => Err(d),
        };
    }
    Err(Diagnosis::InvalidOperand)
}

/// 6.3.7 Shift operators: integral operands, each promoted; the result has
/// the type of the promoted left operand. A constant count that is negative,
/// or not less than the width of that type, is reported.
pub fn shift_types(sema: &mut Sema, lhs: &mut ResolvedExpression, rhs: &mut ResolvedExpression, count: Option<Value>) -> (res: R)
    requires
        old(sema).wf(),
        old(sema).re_ok(*old(lhs)),
        old(sema).re_ok(*old(rhs)),
    ensures
        res matches Ok((q, _)) ==> final(sema).qt_ok(q),
        *final(sema) == *old(sema),
        final(sema).re_ok(*final(lhs)),
        final(sema).re_ok(*final(rhs)),
        if spec_is_integral(old(sema), old(sema).ty(old(lhs).spec_casted_ty().id)) && spec_is_integral(
            old(sema),
            old(sema).ty(old(rhs).spec_casted_ty().id),
        ) {
            let lc = promote_casts(old(sema), old(lhs).ty, old(lhs).casts@);
            let l = casted(old(lhs).ty, lc);
            let bits = old(sema).target.spec_int_bits(old(sema).ty(l.id));
            &&& with_casts(*final(lhs), *old(lhs), lc)
            &&& with_casts(*final(rhs), *old(rhs), promote_casts(old(sema), old(rhs).ty, old(rhs).casts@))
            &&& res == match count {
                Some(c) => if c.spec_is_negative() {
                    Err(Diagnosis::ShiftCountNegative)
                } else if c.spec_is_integer() && c.spec_int() >= bits {
                    Err(Diagnosis::ShiftCountOutOfRange)
                } else {
                    Ok((l, ExpressionKind::RValue))
                },
                None => Ok((l, ExpressionKind::RValue)),
            }
        } else {
            &&& *final(lhs) == *old(lhs)
            &&& *final(rhs) == *old(rhs)
            &&& res == Err::<(crate::semantic::model::resolved_type::QualifiedType, ExpressionKind), Diagnosis>(
                Diagnosis::InvalidBinaryOperand(old(lhs).spec_casted_ty(), old(rhs).spec_casted_ty()),
            )
        },
{
    let l = sema.types.get(lhs.casted_ty().id);
    let r = sema.types.get(rhs.casted_ty().id);
    if !l.is_integral(sema) || !r.is_integral(sema) {
        return Err(Diagnosis::InvalidBinaryOperand(lhs.casted_ty(), rhs.casted_ty()));
    }
    promote(sema, lhs);
    promote(sema, rhs);
    let lt = lhs.casted_ty();
    let promoted = sema.types.get(lt.id);
    proof {
        assert(spec_is_integral(sema, *promoted));
        assert(!(*promoted is Tag)) by {
            if *promoted is Tag {
                assert(spec_is_promotable(sema, sema.ty(old(lhs).spec_casted_ty().id)) || lt == old(lhs).spec_casted_ty());
            }
        }
    }
    let bits = match sema.target.bits(promoted) {
        Some(b) => b,
        None => return Ok((lt, ExpressionKind::RValue)),
    };
    let count = match count {
        Some(c) => c,
        None => return Ok((lt, ExpressionKind::RValue)),
    };
    if count.is_negative() {
        return Err(Diagnosis::ShiftCountNegative);
    }
    if count.is_integer() && count.is_greater_or_eq(bits) {
        return Err(Diagnosis::ShiftCountOutOfRange);
    }
    Ok((lt, ExpressionKind::RValue))
}

} // verus!
