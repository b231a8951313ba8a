//! Assignment operators (6.3.16) on operands whose conversions are done.

use vstd::prelude::*;

use crate::ast::{BinaryOp, Span, Value};
use crate::semantic::diagnosis::Diagnosis;
use crate::semantic::model::cast::{
    arithmetic_conversion, assignment_conversion, lvalue_conversion, pointer_integer_arithmetic, spec_assignment, unqualified,
    usual_arithmetic, AssignmentContext,
};
use crate::semantic::model::resolved_expression::{ExpressionKind, ResolvedExpression};
use crate::semantic::model::resolved_type::{
    spec_is_arithmetic, spec_is_integral, spec_is_object, QualifiedType, ResolvedType, ResolvedTypeArena,
};
use crate::semantic::resolution::expression::arithmetic::{multiplicative_types, shift_types};
use crate::semantic::resolution::expression::compare::bitwise_type;
use crate::semantic::resolution::expression::operand::{check_assignable, R};
use crate::semantic::sema::{lemma_re_ok_grown, Sema};

verus! {

/// 6.3.16.1 Simple assignment: the left operand is a modifiable lvalue and
/// the right one is converted as if by assignment to its type, which is the
/// type of the result.
pub fn simple_assignation_type(sema: &mut Sema, lhs: &mut ResolvedExpression, rhs: &mut ResolvedExpression, is_null: bool) -> (res: R)
    requires
        old(sema).wf(),
        old(sema).re_ok(*old(lhs)),
        old(sema).re_ok(*old(rhs)),
    ensures
        res matches Ok((q, _)) ==> final(sema).qt_ok(q),
        *final(sema) == *old(sema),
        *final(lhs) == *old(lhs),
        final(sema).re_ok(*final(rhs)),
        res == if old(lhs).kind == ExpressionKind::RValue {
            Err(Diagnosis::AssignToRValue)
        } else if old(lhs).ty.is_const {
            Err(Diagnosis::ConstAssignment(old(lhs).ty))
        } else {
            match spec_assignment(old(sema), old(lhs).ty, old(rhs).spec_casted_ty(), is_null, AssignmentContext::Assignment) {
                Ok(q) => Ok((q, ExpressionKind::RValue)),
                Err(d) => Err(d),
            }
        },
{
    match check_assignable(lhs) {
        Err(d) => return Err(d),
        Ok(()) => {},
    }
    match assignment_conversion(sema, lhs, rhs, is_null, AssignmentContext::Assignment) {
        Ok(q) => Ok((q, ExpressionKind::RValue)),
        Err(d) => Err(d),
    }
}

/// 6.3.16.2 `+=` and `-=`: the left operand is a modifiable lvalue that is a
/// pointer to an object with an integral right operand, or both are
/// arithmetic. The result has the unqualified type of the left operand; an
/// arithmetic result is converted back to it.
pub fn additive_assignation_type(sema: &mut Sema, lhs: &mut ResolvedExpression, rhs: &mut ResolvedExpression, span: &Span) -> (res: R)
    requires
        old(sema).wf(),
        old(sema).re_ok(*old(lhs)),
        old(sema).re_ok(*old(rhs)),
    ensures
        res matches Ok((q, _)) ==> final(sema).qt_ok(q),
        final(sema).wf(),
        ResolvedTypeArena::extends(final(sema).types, old(sema).types),
        final(sema).same_tables(*old(sema)),
        crate::semantic::resolution::resolver::diags_extend(final(sema).diagnosis@, old(sema).diagnosis@),
        final(sema).re_ok(*final(lhs)),
        final(sema).re_ok(*final(rhs)),
        ({
            let l = old(sema).ty(old(lhs).ty.id);
            let r = old(sema).ty(old(rhs).spec_casted_ty().id);
            if old(lhs).kind == ExpressionKind::RValue {
                res == Err::<(QualifiedType, ExpressionKind), Diagnosis>(Diagnosis::AssignToRValue)
            } else if old(lhs).ty.is_const {
                res == Err::<(QualifiedType, ExpressionKind), Diagnosis>(Diagnosis::ConstAssignment(old(lhs).ty))
            } else if l is Pointer && spec_is_object(old(sema), old(sema).ty(l->Pointer_0.id)) && spec_is_integral(old(sema), r) {
                res is Ok ==> res == Ok::<(QualifiedType, ExpressionKind), Diagnosis>((unqualified(old(lhs).ty.id), ExpressionKind::RValue))
            } else if spec_is_arithmetic(old(sema), l) && spec_is_arithmetic(old(sema), r) {
                res == Ok::<(QualifiedType, ExpressionKind), Diagnosis>((unqualified(old(lhs).ty.id), ExpressionKind::RValue))
            } else {
                res == Err::<(QualifiedType, ExpressionKind), Diagnosis>(Diagnosis::InvalidBinaryOperand(old(lhs).ty, old(rhs).spec_casted_ty()))
            }
        }),
{
    match check_assignable(lhs) {
        Err(d) => return Err(d),
        Ok(()) => {},
    }
    let target = lhs.ty.unqualified();
    let l = sema.types.get(lhs.ty.id).duplicate();
    let r = sema.types.get(rhs.casted_ty().id).duplicate();
    let pointer_to_object = match &l {
        ResolvedType::Pointer(inner) => inner.is_object(sema),
        _ => false,
    };
    if pointer_to_object && r.is_integral(sema) {
        let ghost s0 = *sema;
        lvalue_conversion(sema, lhs, span);
        proof {
            lemma_re_ok_grown(sema, &s0, *rhs);
        }
        match pointer_integer_arithmetic(sema, lhs, rhs) {
            Err(d) => return Err(d),
            Ok(_) => {},
        }
    } else if l.is_arithmetic(sema) && r.is_arithmetic(sema) {
        let ghost s0 = *sema;
        lvalue_conversion(sema, lhs, span);
        proof {
            lemma_re_ok_grown(sema, &s0, *rhs);
        }
        let _ = usual_arithmetic(sema, lhs, rhs);
        lhs.result_cast = arithmetic_conversion(sema, lhs.casted_ty(), target);
    } else {
        return Err(Diagnosis::InvalidBinaryOperand(lhs.ty, rhs.casted_ty()));
    }
    Ok((target, ExpressionKind::RValue))
}

/// 6.3.16.2 `*=`, `/=`, `%=`, `<<=`, `>>=`, `&=`, `^=`, `|=`: the left
/// operand is a modifiable lvalue, the operands are as for the binary
/// operator, and the result, of the unqualified type of the left operand,
/// is converted back to it.
pub fn coumpound_assignation_type(
    sema: &mut Sema,
    op: &BinaryOp,
    lhs: &mut ResolvedExpression,
    rhs: &mut ResolvedExpression,
    span: &Span,
    count: Option<Value>,
) -> (res: R)
    requires
        old(sema).wf(),
        old(sema).re_ok(*old(lhs)),
        old(sema).re_ok(*old(rhs)),
        *op == BinaryOp::Mul || *op == BinaryOp::Div || *op == BinaryOp::Mod || *op == BinaryOp::Left || *op
            == BinaryOp::Right || *op == BinaryOp::BitAnd || *op == BinaryOp::BitOr || *op == BinaryOp::BitXor,
    ensures
        res matches Ok((q, _)) ==> final(sema).qt_ok(q),
        final(sema).wf(),
        ResolvedTypeArena::extends(final(sema).types, old(sema).types),
        final(sema).same_tables(*old(sema)),
        crate::semantic::resolution::resolver::diags_extend(final(sema).diagnosis@, old(sema).diagnosis@),
        final(sema).re_ok(*final(lhs)),
        final(sema).re_ok(*final(rhs)),
        old(lhs).kind == ExpressionKind::RValue ==> res == Err::<(QualifiedType, ExpressionKind), Diagnosis>(
            Diagnosis::AssignToRValue,
        ),
        old(lhs).kind != ExpressionKind::RValue && old(lhs).ty.is_const ==> res == Err::<(QualifiedType, ExpressionKind), Diagnosis>(
            Diagnosis::ConstAssignment(old(lhs).ty),
        ),
        res is Ok ==> res == Ok::<(QualifiedType, ExpressionKind), Diagnosis>((unqualified(old(lhs).ty.id), ExpressionKind::RValue)),
{
    match check_assignable(lhs) {
        Err(d) => return Err(d),
        Ok(()) => {},
    }
    let target = lhs.ty.unqualified();
    let ghost s0 = *sema;
    lvalue_conversion(sema, lhs, span);
    proof {
        lemma_re_ok_grown(sema, &s0, *rhs);
    }
    let r = if *op == BinaryOp::Mul || *op == BinaryOp::Div || *op == BinaryOp::Mod {
        multiplicative_types(sema, op, lhs, rhs)
    } else if *op == BinaryOp::Left || *op == BinaryOp::Right {
        shift_types(sema, lhs, rhs, count)
    } else {
        bitwise_type(sema, lhs, rhs)
    };
    match r {
        Err(d) => return Err(d),
        Ok(_) => {},
    }
    proof {
        assert(sema.qt_ok(target));
    }
    lhs.result_cast = arithmetic_conversion(sema, lhs.casted_ty(), target);
    Ok((target, ExpressionKind::RValue))
}

} // verus!
