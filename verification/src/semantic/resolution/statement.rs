//! The constraints on statements (6.6): controlling expressions and the
//! value a `return` gives back.

use vstd::prelude::*;

use crate::ast::{Ast, ExpressionNode, IterationStatement, IterationStatementNode, JumpStatement, JumpStatementNode,
    SelectionStatement, SelectionStatementNode};
use crate::semantic::diagnosis::{recorded, Diag, DiagCollector, Diagnosis, DiagnosisNode};
use crate::semantic::model::cast::{convert, AssignmentContext};
use crate::semantic::model::resolved_type::{spec_is_integral, spec_is_scalar, QualifiedType, ResolvedTypeArena};
use crate::semantic::resolution::expression::dispatch::{init, put_one, spec_conversion_diag, take_one, NESTING_BUDGET};
use crate::semantic::resolution::resolver::{lemma_kept_trans, SymbolResolver};

verus! {

/// What a controlling expression that shall have scalar type gives: its
/// type before conversion must be scalar; a missing result is poisoned.
pub open spec fn spec_check_scalar(r: &SymbolResolver, e: ExpressionNode) -> Result<(), Diagnosis> {
    match r.sema.expr_types.spec_get(e.id) {
        None => Err(Diagnosis::Poisoned),
        Some(re) => if spec_is_scalar(&r.sema, r.sema.ty(re.ty.id)) {
            Ok(())
        } else {
            Err(Diagnosis::NonScalarStatement(re.ty))
        },
    }
}

/// As `spec_check_scalar`, for a controlling expression of integral type.
pub open spec fn spec_check_integral(r: &SymbolResolver, e: ExpressionNode) -> Result<(), Diagnosis> {
    match r.sema.expr_types.spec_get(e.id) {
        None => Err(Diagnosis::Poisoned),
        Some(re) => if spec_is_integral(&r.sema, r.sema.ty(re.ty.id)) {
            Ok(())
        } else {
            Err(Diagnosis::NonIntegralStatement(re.ty))
        },
    }
}

/// The diagnostic an `Err` stands for, if any.
pub open spec fn err_of(res: Result<(), Diagnosis>) -> Option<Diagnosis> {
    match res {
        Ok(_) => None,
        Err(d) => Some(d),
    }
}

/// What taking the value of `e` reports: the conversion of its result, if any.
pub open spec fn spec_value_diag(r: &SymbolResolver, e: ExpressionNode) -> Option<Diagnosis> {
    match r.sema.expr_types.spec_get(e.id) {
        Some(re) => spec_conversion_diag(&r.sema, re),
        None => None,
    }
}

/// `new` holds a result for the expressions `old` holds one for, each of the
/// same type and kind, over the same tags and the types of `old`.
pub open spec fn same_results(new: &SymbolResolver, old: &SymbolResolver) -> bool {
    &&& new.sema.tags == old.sema.tags
    &&& ResolvedTypeArena::extends(new.sema.types, old.sema.types)
    &&& new.sema.expr_types.data@.len() == old.sema.expr_types.data@.len()
    &&& forall|i: int| 0 <= i < old.sema.expr_types.data@.len() ==> ((#[trigger] new.sema.expr_types.data@[i]) is Some) == (
        old.sema.expr_types.data@[i] is Some)
    &&& forall|i: int| 0 <= i < old.sema.expr_types.data@.len() && (#[trigger] new.sema.expr_types.data@[i]) is Some ==> (
        new.sema.expr_types.data@[i]->0.ty == old.sema.expr_types.data@[i]->0.ty && new.sema.expr_types.data@[i]->0.kind
        == old.sema.expr_types.data@[i]->0.kind)
}

/// Results of the same types give the same checks.
proof fn lemma_same_results(new: &SymbolResolver, old: &SymbolResolver, e: ExpressionNode)
    requires
        old.wf(),
        same_results(new, old),
    ensures
        spec_value_diag(new, e) == spec_value_diag(old, e),
        spec_check_scalar(new, e) == spec_check_scalar(old, e),
        spec_check_integral(new, e) == spec_check_integral(old, e),
{
    if e.id < old.sema.expr_types.data@.len() {
        let o = old.sema.expr_types.data@[e.id as int];
        let n = new.sema.expr_types.data@[e.id as int];
        if o is Some {
            assert(old.sema.re_ok(o->0));
            assert(n is Some);
            assert(new.sema.ty(n->0.ty.id) == old.sema.ty(o->0.ty.id));
        }
    }
}

proof fn lemma_same_results_trans(a: &SymbolResolver, b: &SymbolResolver, c: &SymbolResolver)
    requires
        same_results(b, a),
        same_results(c, b),
    ensures
        same_results(c, a),
{
    assert forall|i: int| 0 <= i < a.sema.expr_types.data@.len() && (#[trigger] c.sema.expr_types.data@[i]) is Some implies (
        c.sema.expr_types.data@[i]->0.ty == a.sema.expr_types.data@[i]->0.ty && c.sema.expr_types.data@[i]->0.kind
        == a.sema.expr_types.data@[i]->0.kind) by {
        assert(b.sema.expr_types.data@[i] is Some);
    }
    assert forall|i: int| 0 <= i < a.sema.expr_types.data@.len() implies ((#[trigger] c.sema.expr_types.data@[i]) is Some) == (
        a.sema.expr_types.data@[i] is Some) by {
        assert((b.sema.expr_types.data@[i] is Some) == (a.sema.expr_types.data@[i] is Some));
    }
    assert forall|i: int| 0 <= i < a.sema.types.data@.len() implies #[trigger] c.sema.types.data@[i] == a.sema.types.data@[i] by {
        assert(b.sema.types.data@[i] == a.sema.types.data@[i]);
    }
}

/// The diagnostics after `d` when the controlling expression `e` of the
/// statement at `span` is checked, `integral` or scalar.
pub open spec fn spec_control_diags(r: &SymbolResolver, d: Seq<DiagnosisNode>, e: ExpressionNode, integral: bool, span: crate::ast::Span) -> Seq<
    DiagnosisNode,
> {
    recorded(
        recorded(d, spec_value_diag(r, e), e.span),
        err_of(
            if integral {
                spec_check_integral(r, e)
            } else {
                spec_check_scalar(r, e)
            },
        ),
        span,
    )
}

/// The diagnostics after `d` when `e`, if present, is evaluated for its side effects.
pub open spec fn spec_void_diags(r: &SymbolResolver, d: Seq<DiagnosisNode>, e: Option<ExpressionNode>) -> Seq<DiagnosisNode> {
    match e {
        Some(e) => recorded(d, spec_value_diag(r, e), e.span),
        None => d,
    }
}

/// The diagnostics a selection statement adds to those of `r`.
pub open spec fn spec_selection_diags(r: &SymbolResolver, node: SelectionStatementNode) -> Seq<DiagnosisNode> {
    match node.stmt {
        SelectionStatement::If(e) => spec_control_diags(r, r.sema.diagnosis@, e, false, node.span),
        SelectionStatement::Switch(e) => spec_control_diags(r, r.sema.diagnosis@, e, true, node.span),
    }
}

/// The diagnostics an iteration statement adds to those of `r`: the first
/// and third expressions of a `for` are taken first, then the controlling one.
pub open spec fn spec_iteration_diags(r: &SymbolResolver, node: IterationStatementNode) -> Seq<DiagnosisNode> {
    match node.stmt {
        IterationStatement::While(e) => spec_control_diags(r, r.sema.diagnosis@, e, false, node.span),
        IterationStatement::Do(e) => spec_control_diags(r, r.sema.diagnosis@, e, false, node.span),
        IterationStatement::For(e1, e2, e3) => {
            let d = spec_void_diags(r, spec_void_diags(r, r.sema.diagnosis@, e1), e3);
            match e2 {
                Some(e) => spec_control_diags(r, d, e, false, node.span),
                None => d,
            }
        },
    }
}

fn check_scalar(r: &mut SymbolResolver, e: &ExpressionNode) -> (res: Result<(), Diagnosis>)
    requires
        old(r).wf(),
    ensures
        final(r).kept(*old(r)),
        res == spec_check_scalar(old(r), *e),
        final(r).sema.diagnosis@ == recorded(old(r).sema.diagnosis@, spec_value_diag(old(r), *e), e.span),
        same_results(final(r), old(r)),
{
    let ok = match r.sema.expr_types.get(e.id) {
        Some(re) => {
            proof {
                assert(r.sema.expr_types.data@[e.id as int] == Some(*re));
                assert(r.sema.re_ok(*re));
            }
            re.ty.is_scalar(&r.sema)
        },
        None => false,
    };
    let re = take_one(r, e, true)?;
    let ty = re.ty;
    put_one(r, e, re);
    if !ok {
        return Err(Diagnosis::NonScalarStatement(ty));
    }
    Ok(())
}

fn check_integral(r: &mut SymbolResolver, e: &ExpressionNode) -> (res: Result<(), Diagnosis>)
    requires
        old(r).wf(),
    ensures
        final(r).kept(*old(r)),
        res == spec_check_integral(old(r), *e),
        final(r).sema.diagnosis@ == recorded(old(r).sema.diagnosis@, spec_value_diag(old(r), *e), e.span),
        same_results(final(r), old(r)),
{
    let ok = match r.sema.expr_types.get(e.id) {
        Some(re) => {
            proof {
                assert(r.sema.expr_types.data@[e.id as int] == Some(*re));
                assert(r.sema.re_ok(*re));
            }
            re.ty.is_integral(&r.sema)
        },
        None => false,
    };
    let re = take_one(r, e, true)?;
    let ty = re.ty;
    put_one(r, e, re);
    if !ok {
        return Err(Diagnosis::NonIntegralStatement(ty));
    }
    Ok(())
}

/// An expression evaluated for its side effects: its value is converted to void.
fn expr_to_void(r: &mut SymbolResolver, e: &ExpressionNode)
    requires
        old(r).wf(),
    ensures
        final(r).kept(*old(r)),
        final(r).sema.diagnosis@ == recorded(old(r).sema.diagnosis@, spec_value_diag(old(r), *e), e.span),
        same_results(final(r), old(r)),
        final(r).sema.expr_bindings == old(r).sema.expr_bindings,
        final(r).sema.expr_consts == old(r).sema.expr_consts,
        forall|i: int| 0 <= i < old(r).sema.expr_types.data@.len() && i != e.id ==> #[trigger] final(r).sema.expr_types.data@[i]
            == old(r).sema.expr_types.data@[i],
        old(r).sema.expr_types.spec_get(e.id) is None ==> final(r).sema.expr_types.data@ == old(r).sema.expr_types.data@,
        old(r).sema.expr_types.spec_get(e.id) is Some ==> (final(r).sema.expr_types.spec_get(e.id) matches Some(v)
            && v.spec_casted_ty().id == old(r).sema.builtins.void),
{
    match take_one(r, e, true) {
        Ok(mut re) => {
            let void = r.sema.builtins.void;
            convert(&r.sema, &mut re, void, false);
            put_one(r, e, re);
        },
        Err(_) => {},
    }
}

/// 6.6.4.1, 6.6.4.2 The controlling expression of an `if` shall have scalar
/// type, that of a `switch` integral type.
pub fn check_selection_statement(r: &mut SymbolResolver, node: &SelectionStatementNode)
    requires
        old(r).wf(),
    ensures
        final(r).kept(*old(r)),
        final(r).sema.diagnosis@ == spec_selection_diags(old(r), *node),
        same_results(final(r), old(r)),
{
    let ghost r0 = *r;
    let res = match node.stmt {
        SelectionStatement::If(e) => check_scalar(r, &e),
        SelectionStatement::Switch(e) => check_integral(r, &e),
    };
    let ghost r1 = *r;
    if let Err(d) = res {
        r.add_diag(Diag::err((), d), &node.span);
        proof {
            crate::semantic::resolution::resolver::lemma_kept_frame(*r, r1);
            lemma_kept_trans(r0, r1, *r);
            lemma_same_results_trans(&r0, &r1, &*r);
        }
    }
}

/// 6.6.5 The controlling expression of an iteration statement shall have
/// scalar type; the first and third expressions of a `for` are evaluated
/// for their side effects.
pub fn check_iteration_statement(r: &mut SymbolResolver, node: &IterationStatementNode)
    requires
        old(r).wf(),
    ensures
        final(r).kept(*old(r)),
        final(r).sema.diagnosis@ == spec_iteration_diags(old(r), *node),
        same_results(final(r), old(r)),
{
    let ghost r0 = *r;
    let res = match node.stmt {
        IterationStatement::While(e) | IterationStatement::Do(e) => check_scalar(r, &e),
        IterationStatement::For(e1, e2, e3) => {
            if let Some(e) = e1 {
                expr_to_void(r, &e);
            }
            let ghost ra = *r;
            if let Some(e) = e3 {
                expr_to_void(r, &e);
                proof {
                    lemma_kept_trans(r0, ra, *r);
                    lemma_same_results(&ra, &r0, e);
                    lemma_same_results_trans(&r0, &ra, &*r);
                }
            }
            let ghost rb = *r;
            let res = match e2 {
                Some(e) => check_scalar(r, &e),
                None => Ok(()),
            };
            proof {
                lemma_kept_trans(r0, rb, *r);
                if let Some(e) = e2 {
                    lemma_same_results(&rb, &r0, e);
                }
                lemma_same_results_trans(&r0, &rb, &*r);
            }
            res
        },
    };
    let ghost r1 = *r;
    if let Err(d) = res {
        r.add_diag(Diag::err((), d), &node.span);
        proof {
            crate::semantic::resolution::resolver::lemma_kept_frame(*r, r1);
            lemma_kept_trans(r0, r1, *r);
            lemma_same_results_trans(&r0, &r1, &*r);
        }
    }
}

/// 6.6.6.4 A `return` with an expression converts its value as if by
/// assignment to the function's return type; one without an expression
/// is reported in a function that returns a value.
pub fn check_return(r: &mut SymbolResolver, ast: &Ast, node: &JumpStatementNode, return_ty: QualifiedType)
    requires
        old(r).ready(ast),
        old(r).sema.qt_ok(return_ty),
    ensures
        final(r).kept(*old(r)),
        (node.stmt matches JumpStatement::Return(None)) ==> final(r).sema.diagnosis@ == recorded(
            old(r).sema.diagnosis@,
            if return_ty.id != old(r).sema.builtins.void {
                Some(Diagnosis::ReturnWithoutValue)
            } else {
                None
            },
            node.span,
        ),
        !(node.stmt is Return) ==> *final(r) == *old(r),
{
    let ghost r0 = *r;
    match node.stmt {
        JumpStatement::Return(Some(e)) => {
            match init(r, ast, return_ty, &e, AssignmentContext::Return, NESTING_BUDGET) {
                Ok(_) => {},
                Err(inner) => {
                    let ghost r1 = *r;
                    r.add_diag(Diag::err((), inner), &e.span);
                    proof {
                        crate::semantic::resolution::resolver::lemma_kept_frame(*r, r1);
                        lemma_kept_trans(r0, r1, *r);
                    }
                },
            }
        },
        JumpStatement::Return(None) => {
            if return_ty.id != r.sema.builtins.void {
                r.add_diag(Diag::err((), Diagnosis::ReturnWithoutValue), &node.span);
                proof {
                    crate::semantic::resolution::resolver::lemma_kept_frame(*r, r0);
                }
            } else {
                proof {
                    crate::semantic::resolution::resolver::lemma_kept_frame(*r, r0);
                }
            }
        },
        _ => {
            proof {
                crate::semantic::resolution::resolver::lemma_kept_frame(*r, r0);
            }
        },
    }
}

} // verus!
