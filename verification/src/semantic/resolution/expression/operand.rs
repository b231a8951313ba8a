//! What the operators share: the result type, and the checks on operands.

use vstd::prelude::*;

use crate::semantic::diagnosis::Diagnosis;
use crate::semantic::model::resolved_expression::{ExpressionKind, ResolvedExpression};
use crate::semantic::model::resolved_type::QualifiedType;
use crate::semantic::model::symbol::{SymbolId, SymbolKind};
use crate::semantic::sema::Sema;

verus! {

/// The type of an expression and whether it is an lvalue, or why it has none.
pub type R = Result<(QualifiedType, ExpressionKind), Diagnosis>;

/// An int rvalue.
pub fn int_rvalue(sema: &Sema) -> (r: R)
    ensures
        r == Ok::<(QualifiedType, ExpressionKind), Diagnosis>(
            (QualifiedType { id: sema.builtins.int, is_const: false, is_volatile: false }, ExpressionKind::RValue),
        ),
{
    Ok((QualifiedType::plain(sema.builtins.int), ExpressionKind::RValue))
}

/// The symbol is a bit-field member: a member with a width.
pub open spec fn spec_is_bit_field(sema: &Sema, sym: Option<SymbolId>) -> bool {
    match sym {
        Some(id) => sema.sym(id).kind == SymbolKind::Member && sema.sym(id).value is Some,
        None => false,
    }
}

pub fn is_bit_field(sema: &Sema, sym: Option<SymbolId>) -> (b: bool)
    requires
        sym matches Some(id) ==> id < sema.nsyms(),
    ensures
        b == spec_is_bit_field(sema, sym),
{
    match sym {
        Some(id) => {
            let s = sema.symbols.get(id);
            s.kind == SymbolKind::Member && s.value.is_some()
        },
        None => false,
    }
}

/// 6.3.16 An assignment operator shall have a modifiable lvalue as its left operand.
pub fn check_assignable(lhs: &ResolvedExpression) -> (r: Result<(), Diagnosis>)
    ensures
        r == if lhs.kind == ExpressionKind::RValue {
            Err(Diagnosis::AssignToRValue)
        } else if lhs.ty.is_const {
            Err(Diagnosis::ConstAssignment(lhs.ty))
        } else {
            Ok(())
        },
{
    if lhs.kind == ExpressionKind::RValue {
        return Err(Diagnosis::AssignToRValue);
    }
    if lhs.ty.is_const {
        return Err(Diagnosis::ConstAssignment(lhs.ty));
    }
    Ok(())
}

} // verus!
