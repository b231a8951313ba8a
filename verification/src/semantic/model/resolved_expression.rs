//! The type the analysis gave an expression, with the implicit conversions
//! applied to its value in order.

use vstd::prelude::*;

use crate::semantic::model::cast::ImplicitCast;
use crate::semantic::model::resolved_type::QualifiedType;

verus! {

#[derive(Clone, Copy, Debug, PartialEq, Eq, Structural)]
pub enum ExpressionKind {
    RValue,
    LValue,
}

#[derive(Clone, Debug)]
pub struct ResolvedExpression {
    pub ty: QualifiedType,
    pub kind: ExpressionKind,
    pub casts: Vec<ImplicitCast>,
    pub result_cast: Option<ImplicitCast>,
}

impl ResolvedExpression {
    /// The type after the implicit conversions: the target of the last one,
    /// or the expression's own type when there is none.
    pub open spec fn spec_casted_ty(&self) -> QualifiedType {
        if self.casts@.len() > 0 {
            self.casts@.last().to
        } else {
            self.ty
        }
    }

    pub fn casted_ty(&self) -> (q: QualifiedType)
        ensures
            q == self.spec_casted_ty(),
    {
        if self.casts.len() > 0 {
            self.casts[self.casts.len() - 1].to
        } else {
            self.ty
        }
    }

    pub fn new(ty: QualifiedType, kind: ExpressionKind) -> (re: Self)
        ensures
            re.ty == ty,
            re.kind == kind,
            re.casts@.len() == 0,
            re.result_cast is None,
    {
        ResolvedExpression { ty, kind, casts: Vec::new(), result_cast: None }
    }

    pub fn push_cast(&mut self, cast: ImplicitCast)
        ensures
            final(self).ty == old(self).ty,
            final(self).kind == old(self).kind,
            final(self).casts@ == old(self).casts@.push(cast),
            final(self).result_cast == old(self).result_cast,
    {
        self.casts.push(cast);
    }
}

} // verus!
