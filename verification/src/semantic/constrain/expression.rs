//! Constraints on the operands of operators (6.3).

use vstd::prelude::*;

use crate::ast::UnaryOp;
use crate::semantic::diagnosis::{Diag, Diagnosis};
use crate::semantic::model::resolved_expression::ExpressionKind;
use crate::semantic::model::resolved_type::QualifiedType;

verus! {

/// 6.3.16 An assignment operator shall have a modifiable lvalue as its left operand.
pub fn check_assignable(kind: ExpressionKind, ty: QualifiedType) -> (d: Diag<()>)
    ensures
        d.diagnosis == if kind == ExpressionKind::RValue {
            Some(Diagnosis::AssignToRValue)
        } else if ty.is_const {
            Some(Diagnosis::ConstAssignment(ty))
        } else {
            None
        },
{
    if kind == ExpressionKind::RValue {
        return Diag::err((), Diagnosis::AssignToRValue);
    }
    if ty.is_const {
        return Diag::err((), Diagnosis::ConstAssignment(ty));
    }
    Diag::ok(())
}

/// 6.3.3.2 The operand of the unary & operator shall be either a function
/// designator or an lvalue that designates an object that is not a bit-field
/// and is not declared with the register storage-class specifier.
pub fn check_address_of(
    kind: ExpressionKind,
    is_function: bool,
    is_register: bool,
    is_bit_field: bool,
    ty: QualifiedType,
) -> (d: Diag<()>)
    ensures
        d.diagnosis == if kind == ExpressionKind::RValue && !is_function {
            Some(Diagnosis::RValueAddress(ty))
        } else if is_register {
            Some(Diagnosis::RegisterAddress)
        } else if is_bit_field {
            Some(Diagnosis::BitFieldAddress)
        } else {
            None
        },
{
    if kind == ExpressionKind::RValue && !is_function {
        return Diag::err((), Diagnosis::RValueAddress(ty));
    }
    if is_register {
        return Diag::err((), Diagnosis::RegisterAddress);
    }
    if is_bit_field {
        return Diag::err((), Diagnosis::BitFieldAddress);
    }
    Diag::ok(())
}

/// 6.3.3.4 The sizeof operator shall not be applied to an expression that has
/// function type or an incomplete type, to the parenthesized name of such a
/// type, or to an lvalue that designates a bit-field object.
pub fn check_sizeof(is_bit_field: bool, is_void: bool, is_function: bool, is_complete: bool, ty: QualifiedType) -> (d:
    Diag<()>)
    ensures
        d.diagnosis == if is_bit_field {
            Some(Diagnosis::SizeofBitfield)
        } else if is_void {
            Some(Diagnosis::SizeofVoid)
        } else if is_function {
            Some(Diagnosis::SizeofFunction)
        } else if !is_complete {
            Some(Diagnosis::SizeofIncomplete(ty))
        } else {
            None
        },
{
    if is_bit_field {
        return Diag::err((), Diagnosis::SizeofBitfield);
    }
    if is_void {
        return Diag::err((), Diagnosis::SizeofVoid);
    }
    if is_function {
        return Diag::err((), Diagnosis::SizeofFunction);
    }
    if !is_complete {
        return Diag::err((), Diagnosis::SizeofIncomplete(ty));
    }
    Diag::ok(())
}

/// 6.3.2.4, 6.3.3.1 The operand of the increment and decrement operators
/// shall have scalar type; a pointer operand shall point to an object.
pub fn check_inc_dec(op: UnaryOp, is_scalar: bool, non_object_pointee: Option<(QualifiedType, bool)>, ty: QualifiedType) -> (d:
    Diag<()>)
    ensures
        d.diagnosis == match non_object_pointee {
            Some((pointee, is_function)) => if is_function {
                Some(Diagnosis::BadPostIncDec(op, ty))
            } else {
                Some(Diagnosis::IncompleteType(pointee))
            },
            None => if !is_scalar { Some(Diagnosis::BadPostIncDec(op, ty)) } else { None },
        },
{
    if let Some((pointee, is_function)) = non_object_pointee {
        return if is_function {
            Diag::err((), Diagnosis::BadPostIncDec(op, ty))
        } else {
            Diag::err((), Diagnosis::IncompleteType(pointee))
        };
    }
    if !is_scalar {
        return Diag::err((), Diagnosis::BadPostIncDec(op, ty));
    }
    Diag::ok(())
}

} // verus!
