//! Integral constant expressions (6.4): folding an expression the analysis
//! has typed into the value of its type.

use vstd::prelude::*;
use std::cmp::Ordering;

use crate::ast::fold::Fold;
use crate::ast::{Ast, BinaryOp, Expression, ExpressionNode, Tag, UnaryOp, Value};
use crate::semantic::diagnosis::{recorded, Diag, DiagCollector, Diagnosis, DiagnosisNode};
use crate::semantic::model::resolved_type::{QualifiedType, ResolvedType};
use crate::semantic::model::symbol::SymbolKind;
use crate::semantic::sema::Sema;
use crate::semantic::resolution::resolver::SymbolResolver;

verus! {

/// Diagnostics collected while folding, apart from the analysis' own.
pub struct DiagSink {
    pub diags: Vec<DiagnosisNode>,
}

impl DiagCollector for DiagSink {
    open spec fn spec_diags(&self) -> Seq<DiagnosisNode> {
        self.diags@
    }

    open spec fn frame(&self, old: Self) -> bool {
        true
    }

    proof fn lemma_frame_refl(&self) {
    }

    fn push_diagnosis(&mut self, node: DiagnosisNode) {
        self.diags.push(node);
    }
}

/// The type the analysis gave expression `id`, before conversions.
pub open spec fn spec_node_ty(sema: &Sema, id: usize) -> Result<QualifiedType, Diagnosis> {
    match sema.expr_types.spec_get(id) {
        Some(re) => Ok(re.ty),
        None => Err(Diagnosis::Poisoned),
    }
}

/// The type a value of type `q` is folded in: an enumeration is an int, an
/// integer type is itself, and the folder has no value of another type,
/// which stands as `void`.
pub open spec fn spec_scalar_ty(sema: &Sema, q: QualifiedType) -> ResolvedType {
    let t = sema.ty(q.id);
    match t {
        ResolvedType::Tag(id) => if sema.tag(id).kind == Tag::Enum { ResolvedType::Int } else { ResolvedType::Void },
        _ => if t.spec_is_integer() { t } else { ResolvedType::Void },
    }
}

/// A value recorded for expression `id` earlier, if any.
pub open spec fn cached(sema: &Sema, id: usize) -> Option<Value> {
    if id < sema.expr_consts.seen@.len() && sema.expr_consts.seen@[id as int] {
        sema.expr_consts.spec_get(id)
    } else {
        None
    }
}

/// 6.4 The value of an enumeration constant; other identifiers are not constant.
pub open spec fn spec_identifier(sema: &Sema, id: usize) -> Result<Value, Diagnosis> {
    match sema.expr_bindings.spec_get(id) {
        Some(s) => if sema.sym(s).kind == SymbolKind::Variant && sema.sym(s).value is Some {
            Ok(Value::Int(sema.sym(s).value->0))
        } else {
            Err(Diagnosis::NonConstantExpression)
        },
        None => Err(Diagnosis::NonConstantExpression),
    }
}

/// The value of expression `e`, folded.
pub open spec fn spec_fold(sema: &Sema, ast: &Ast, e: ExpressionNode) -> Result<Value, Diagnosis>
    decreases e.id, 2nat,
{
    if e.id >= ast.expressions@.len() {
        Err(Diagnosis::Poisoned)
    } else if cached(sema, e.id) is Some {
        Ok(cached(sema, e.id)->0)
    } else {
        match ast.expr(e.id) {
            Expression::ConstantExpression(inner) => if inner.id < e.id { spec_fold(sema, ast, inner) } else { Err(Diagnosis::Poisoned) },
            Expression::Constant(c) => Ok(c.value),
            Expression::Identifier(_) => spec_identifier(sema, e.id),
            Expression::Unary(op, x) => if x.id >= e.id {
                Err(Diagnosis::Poisoned)
            } else {
                match op {
                    UnaryOp::Plus => spec_operand(sema, ast, x),
                    UnaryOp::Minus | UnaryOp::BitNot => match spec_operand(sema, ast, x) {
                        Err(d) => Err(d),
                        Ok(v) => match spec_node_ty(sema, e.id) {
                            Err(d) => Err(d),
                            Ok(q) => Ok(crate::ast::fold::spec_unary(&sema.target, spec_scalar_ty(sema, q), op, v).res),
                        },
                    },
                    UnaryOp::LogicalNot => match spec_operand(sema, ast, x) {
                        Err(d) => Err(d),
                        Ok(v) => Ok(if v.spec_is_zero() { Value::Int(1) } else { Value::Int(0) }),
                    },
                    _ => Err(Diagnosis::NonConstantExpression),
                }
            },
            Expression::Binary(op, x, y) => if x.id >= e.id || y.id >= e.id {
                Err(Diagnosis::Poisoned)
            } else {
                spec_fold_binary(sema, ast, e, op, x, y)
            },
            Expression::Ternary(c, a, b) => if c.id >= e.id || a.id >= e.id || b.id >= e.id {
                Err(Diagnosis::Poisoned)
            } else {
                match spec_fold(sema, ast, c) {
                    Err(d) => Err(d),
                    Ok(v) => if !v.spec_is_zero() { spec_operand(sema, ast, a) } else { spec_operand(sema, ast, b) },
                }
            },
            Expression::Cast(_, x) => if x.id >= e.id {
                Err(Diagnosis::Poisoned)
            } else {
                match spec_node_ty(sema, e.id) {
                    Err(d) => Err(d),
                    Ok(q) => if sema.ty(q.id) is Void {
                        Err(Diagnosis::NonIntegerConstantExpression)
                    } else {
                        match spec_node_ty(sema, x.id) {
                            Err(d) => Err(d),
                            Ok(xq) => if sema.ty(xq.id).spec_is_floating() && !(ast.expr(x.id) is Constant) {
                                Err(Diagnosis::NonConstantExpression)
                            } else {
                                spec_operand(sema, ast, x)
                            },
                        }
                    },
                }
            },
            Expression::SizeofExpr(_) | Expression::SizeofType(_) => Err(Diagnosis::Poisoned),
            _ => Err(Diagnosis::NonConstantExpression),
        }
    }
}

/// The value of a binary operator's expression, folded.
pub open spec fn spec_fold_binary(sema: &Sema, ast: &Ast, e: ExpressionNode, op: BinaryOp, x: ExpressionNode, y: ExpressionNode) -> Result<Value, Diagnosis>
    decreases e.id, 1nat,
{
    if x.id >= e.id || y.id >= e.id {
        Err(Diagnosis::Poisoned)
    } else if op == BinaryOp::LogicalAnd || op == BinaryOp::LogicalOr {
        match spec_fold(sema, ast, x) {
            Err(d) => Err(d),
            Ok(l) => if op == BinaryOp::LogicalAnd && l.spec_is_zero() {
                Ok(Value::Int(0))
            } else if op == BinaryOp::LogicalOr && !l.spec_is_zero() {
                Ok(Value::Int(1))
            } else {
                match spec_fold(sema, ast, y) {
                    Err(d) => Err(d),
                    Ok(r) => Ok(if r.spec_is_zero() { Value::Int(0) } else { Value::Int(1) }),
                }
            },
        }
    } else {
        match spec_operand(sema, ast, x) {
            Err(d) => Err(d),
            Ok(l) => match spec_operand(sema, ast, y) {
                Err(d) => Err(d),
                Ok(r) => if is_comparison(op) {
                    Ok(if spec_holds(op, l, r) { Value::Int(1) } else { Value::Int(0) })
                } else {
                    match spec_node_ty(sema, e.id) {
                        Err(d) => Err(d),
                        Ok(q) => {
                            let ty = spec_scalar_ty(sema, q);
                            if (op == BinaryOp::Div || op == BinaryOp::Mod) && r.spec_is_zero() {
                                Err(if op == BinaryOp::Div { Diagnosis::DivisionByZero } else { Diagnosis::ModuloByZero })
                            } else if (op == BinaryOp::Div || op == BinaryOp::Mod) && r.spec_i64() == -1
                                && ty.spec_is_integer() && l.spec_is_integer() && sema.target.spec_is_signed(ty) && l.spec_int()
                                == sema.target.spec_min_value(ty) {
                                Err(Diagnosis::ConstantOverflow)
                            } else {
                                Ok(crate::ast::fold::spec_binary(&sema.target, ty, op, l, r).res)
                            }
                        },
                    }
                },
            },
        }
    }
}

/// The value of operand `x`, folded and converted to the type it is used at.
pub open spec fn spec_operand(sema: &Sema, ast: &Ast, x: ExpressionNode) -> Result<Value, Diagnosis>
    decreases x.id, 3nat,
{
    match spec_fold(sema, ast, x) {
        Err(d) => Err(d),
        Ok(v) => match sema.expr_types.spec_get(x.id) {
            None => Err(Diagnosis::Poisoned),
            Some(re) => match sema.target.spec_cast(spec_scalar_ty(sema, re.spec_casted_ty()), v) {
                Some(c) => Ok(c),
                None => Err(Diagnosis::NonIntegerConstantExpression),
            },
        },
    }
}

pub open spec fn is_comparison(op: BinaryOp) -> bool {
    op == BinaryOp::Greater || op == BinaryOp::Lower || op == BinaryOp::GreaterEq || op == BinaryOp::LowerEq || op
        == BinaryOp::Eq || op == BinaryOp::Neq
}

/// 6.3.8, 6.3.9 The relation `op` between two integer constants.
pub open spec fn spec_holds(op: BinaryOp, l: Value, r: Value) -> bool {
    l.spec_is_integer() && r.spec_is_integer() && {
        let a = l.spec_int();
        let b = r.spec_int();
        match op {
            BinaryOp::Greater => a > b,
            BinaryOp::Lower => a < b,
            BinaryOp::GreaterEq => a >= b,
            BinaryOp::LowerEq => a <= b,
            BinaryOp::Eq => a == b,
            _ => a != b,
        }
    }
}

fn node_ty(sema: &Sema, expr: &ExpressionNode) -> (r: Result<QualifiedType, Diagnosis>)
    ensures
        r == spec_node_ty(sema, expr.id),
{
    match sema.expr_types.get(expr.id) {
        Some(re) => Ok(re.ty),
        None => Err(Diagnosis::Poisoned),
    }
}

fn scalar_ty(sema: &Sema, qty: QualifiedType) -> (t: ResolvedType)
    requires
        sema.wf(),
        qty.id < sema.ntypes(),
    ensures
        t == spec_scalar_ty(sema, qty),
{
    match sema.types.get(qty.id) {
        ResolvedType::Tag(id) => if sema.tags.get(*id).is_enum() {
            ResolvedType::Int
        } else {
            ResolvedType::Void
        },
        ResolvedType::Char => ResolvedType::Char,
        ResolvedType::SignedChar => ResolvedType::SignedChar,
        ResolvedType::UnsignedChar => ResolvedType::UnsignedChar,
        ResolvedType::Short => ResolvedType::Short,
        ResolvedType::UnsignedShort => ResolvedType::UnsignedShort,
        ResolvedType::Int => ResolvedType::Int,
        ResolvedType::UnsignedInt => ResolvedType::UnsignedInt,
        ResolvedType::Long => ResolvedType::Long,
        ResolvedType::UnsignedLong => ResolvedType::UnsignedLong,
        _ => ResolvedType::Void,
    }
}

fn constant_cached(sema: &Sema, id: usize) -> (r: Option<Value>)
    requires
        sema.wf(),
    ensures
        r == cached(sema, id),
{
    if sema.expr_consts.seen(id) {
        match sema.expr_consts.get(id) {
            Some(v) => Some(*v),
            None => None,
        }
    } else {
        None
    }
}

fn identifier(sema: &Sema, expr: &ExpressionNode) -> (r: Result<Value, Diagnosis>)
    requires
        sema.wf(),
    ensures
        r == spec_identifier(sema, expr.id),
{
    let id = match sema.expr_bindings.get(expr.id) {
        Some(id) => *id,
        None => return Err(Diagnosis::NonConstantExpression),
    };
    proof {
        assert(sema.expr_bindings.data@[expr.id as int] matches Some(s) ==> s < sema.nsyms());
    }
    let symbol = sema.symbols.get(id);
    if symbol.kind != SymbolKind::Variant {
        return Err(Diagnosis::NonConstantExpression);
    }
    match symbol.value {
        Some(v) => Ok(Value::Int(v)),
        None => Err(Diagnosis::NonConstantExpression),
    }
}

/// The value of operand `e`, folded and converted to the type it is used at.
fn operand(sema: &Sema, ast: &Ast, e: &ExpressionNode, sink: &mut DiagSink) -> (r: Result<Value, Diagnosis>)
    requires
        sema.wf(),
        ast.wf(),
    ensures
        r == spec_operand(sema, ast, *e),
        old(sink).diags@.is_prefix_of(final(sink).diags@),
    decreases e.id, 3nat,
{
    let value = match fold(sema, ast, e, sink) {
        Ok(v) => v,
        Err(d) => return Err(d),
    };
    let casted = match sema.expr_types.get(e.id) {
        Some(re) => re.casted_ty(),
        None => return Err(Diagnosis::Poisoned),
    };
    proof {
        assert(sema.expr_types.data@[e.id as int] matches Some(re) ==> sema.re_ok(re));
    }
    let ty = scalar_ty(sema, casted);
    match Fold::new(&sema.target).convert(&ty, value) {
        Some(v) => Ok(v),
        None => Err(Diagnosis::NonIntegerConstantExpression),
    }
}

/// 6.4 Folds the expression `expr`, collecting the overflows it reports.
pub fn fold(sema: &Sema, ast: &Ast, expr: &ExpressionNode, sink: &mut DiagSink) -> (r: Result<Value, Diagnosis>)
    requires
        sema.wf(),
        ast.wf(),
    ensures
        r == spec_fold(sema, ast, *expr),
        old(sink).diags@.is_prefix_of(final(sink).diags@),
    decreases expr.id, 2nat,
{
    if expr.id >= ast.expressions.len() {
        return Err(Diagnosis::Poisoned);
    }
    if let Some(v) = constant_cached(sema, expr.id) {
        return Ok(v);
    }
    proof {
        assert(ast.expressions@[expr.id as int].children_below(expr.id as int));
    }
    match &ast.expressions[expr.id] {
        Expression::ConstantExpression(inner) => fold(sema, ast, inner, sink),
        Expression::Constant(c) => Ok(c.value),
        Expression::Identifier(_) => identifier(sema, expr),
        Expression::Unary(op, x) => match op {
            UnaryOp::Plus => operand(sema, ast, x, sink),
            UnaryOp::Minus | UnaryOp::BitNot => {
                let v = match operand(sema, ast, x, sink) {
                    Ok(v) => v,
                    Err(d) => return Err(d),
                };
                let q = match node_ty(sema, expr) {
                    Ok(q) => q,
                    Err(d) => return Err(d),
                };
                proof {
                    assert(sema.expr_types.data@[expr.id as int] matches Some(re) ==> sema.re_ok(re));
                }
                let ty = scalar_ty(sema, q);
                let folded = Fold::new(&sema.target).unary(&ty, *op, v);
                let ghost before = sink.diags@;
                let res = sink.add_diag(folded, &expr.span);
                proof {
                    assert(before.is_prefix_of(sink.diags@));
                }
                Ok(res)
            },
            UnaryOp::LogicalNot => match operand(sema, ast, x, sink) {
                Ok(v) => Ok(v.logical_not()),
                Err(d) => Err(d),
            },
            _ => Err(Diagnosis::NonConstantExpression),
        },
        Expression::Binary(op, x, y) => binary_op(sema, ast, expr, *op, x, y, sink),
        Expression::Ternary(c, a, b) => {
            let v = match fold(sema, ast, c, sink) {
                Ok(v) => v,
                Err(d) => return Err(d),
            };
            if v.is_true() {
                operand(sema, ast, a, sink)
            } else {
                operand(sema, ast, b, sink)
            }
        },
        Expression::Cast(_, x) => cast(sema, ast, expr, x, sink),
        Expression::SizeofExpr(_) | Expression::SizeofType(_) => Err(Diagnosis::Poisoned),
        _ => Err(Diagnosis::NonConstantExpression),
    }
}

/// 6.4 A cast in a constant expression converts to an integral type; a
/// floating operand is only allowed as a constant.
fn cast(sema: &Sema, ast: &Ast, expr: &ExpressionNode, e: &ExpressionNode, sink: &mut DiagSink) -> (r: Result<Value, Diagnosis>)
    requires
        sema.wf(),
        ast.wf(),
        expr.id < ast.expressions@.len(),
        e.id < expr.id,
    ensures
        r == match spec_node_ty(sema, expr.id) {
            Err(d) => Err(d),
            Ok(q) => if sema.ty(q.id) is Void {
                Err(Diagnosis::NonIntegerConstantExpression)
            } else {
                match spec_node_ty(sema, e.id) {
                    Err(d) => Err(d),
                    Ok(xq) => if sema.ty(xq.id).spec_is_floating() && !(ast.expr(e.id) is Constant) {
                        Err(Diagnosis::NonConstantExpression)
                    } else {
                        spec_operand(sema, ast, *e)
                    },
                }
            },
        },
        old(sink).diags@.is_prefix_of(final(sink).diags@),
    decreases expr.id, 0nat,
{
    let q = match node_ty(sema, expr) {
        Ok(q) => q,
        Err(d) => return Err(d),
    };
    proof {
        assert(sema.expr_types.data@[expr.id as int] matches Some(re) ==> sema.re_ok(re));
    }
    if q.is_void(sema) {
        return Err(Diagnosis::NonIntegerConstantExpression);
    }
    let xq = match node_ty(sema, e) {
        Ok(q) => q,
        Err(d) => return Err(d),
    };
    proof {
        assert(sema.expr_types.data@[e.id as int] matches Some(re) ==> sema.re_ok(re));
    }
    if xq.is_floating(sema) && !matches!(ast.expressions[e.id], Expression::Constant(_)) {
        return Err(Diagnosis::NonConstantExpression);
    }
    operand(sema, ast, e, sink)
}

/// 6.3.8, 6.3.9 Whether the relation `op` holds between two constants.
fn holds(f: &Fold, op: BinaryOp, lhs: Value, rhs: Value) -> (b: bool)
    ensures
        b == spec_holds(op, lhs, rhs),
{
    let ordering = f.compare(lhs, rhs);
    match op {
        BinaryOp::Greater => matches!(ordering, Some(Ordering::Greater)),
        BinaryOp::Lower => matches!(ordering, Some(Ordering::Less)),
        BinaryOp::GreaterEq => matches!(ordering, Some(Ordering::Greater) | Some(Ordering::Equal)),
        BinaryOp::LowerEq => matches!(ordering, Some(Ordering::Less) | Some(Ordering::Equal)),
        BinaryOp::Eq => matches!(ordering, Some(Ordering::Equal)),
        _ => matches!(ordering, Some(Ordering::Less) | Some(Ordering::Greater)),
    }
}

fn binary_op(
    sema: &Sema,
    ast: &Ast,
    expr: &ExpressionNode,
    op: BinaryOp,
    e1: &ExpressionNode,
    e2: &ExpressionNode,
    sink: &mut DiagSink,
) -> (r: Result<Value, Diagnosis>)
    requires
        sema.wf(),
        ast.wf(),
        expr.id < ast.expressions@.len(),
        e1.id < expr.id,
        e2.id < expr.id,
    ensures
        r == spec_fold_binary(sema, ast, *expr, op, *e1, *e2),
        old(sink).diags@.is_prefix_of(final(sink).diags@),
    decreases expr.id, 1nat,
{
    if op == BinaryOp::LogicalAnd || op == BinaryOp::LogicalOr {
        let l = match fold(sema, ast, e1, sink) {
            Ok(v) => v,
            Err(d) => return Err(d),
        };
        if op == BinaryOp::LogicalAnd && !l.is_true() {
            return Ok(Value::Int(0));
        }
        if op == BinaryOp::LogicalOr && l.is_true() {
            return Ok(Value::Int(1));
        }
        return match fold(sema, ast, e2, sink) {
            Ok(v) => Ok(Value::from_bool(v.is_true())),
            Err(d) => Err(d),
        };
    }
    let lhs = match operand(sema, ast, e1, sink) {
        Ok(v) => v,
        Err(d) => return Err(d),
    };
    let rhs = match operand(sema, ast, e2, sink) {
        Ok(v) => v,
        Err(d) => return Err(d),
    };
    if op == BinaryOp::Greater || op == BinaryOp::Lower || op == BinaryOp::GreaterEq || op == BinaryOp::LowerEq || op
        == BinaryOp::Eq || op == BinaryOp::Neq {
        return Ok(Value::from_bool(holds(&Fold::new(&sema.target), op, lhs, rhs)));
    }
    let q = match node_ty(sema, expr) {
        Ok(q) => q,
        Err(d) => return Err(d),
    };
    proof {
        assert(sema.expr_types.data@[expr.id as int] matches Some(re) ==> sema.re_ok(re));
    }
    let ty = scalar_ty(sema, q);
    let f = Fold::new(&sema.target);
    if op == BinaryOp::Div || op == BinaryOp::Mod {
        if rhs.is_zero() {
            return Err(if op == BinaryOp::Div { Diagnosis::DivisionByZero } else { Diagnosis::ModuloByZero });
        }
        if rhs.is_integer() && rhs.to_i64() == -1 && f.is_min(&ty, lhs) {
            return Err(Diagnosis::ConstantOverflow);
        }
        return Ok(f.binary(&ty, op, lhs, rhs).res);
    }
    let folded = f.binary(&ty, op, lhs, rhs);
    let ghost before = sink.diags@;
    let res = sink.add_diag(folded, &expr.span);
    proof {
        assert(before.is_prefix_of(sink.diags@));
    }
    Ok(res)
}

/// The value of `expr`, when it is a constant expression: the one recorded
/// earlier, or else the folded one.
pub open spec fn spec_try_fold(sema: &Sema, ast: &Ast, expr: ExpressionNode) -> Option<Value> {
    if cached(sema, expr.id) is Some {
        cached(sema, expr.id)
    } else {
        match spec_fold(sema, ast, expr) {
            Ok(v) => Some(v),
            Err(_) => None,
        }
    }
}

/// 6.4 The value of `expr` when it is a constant expression, without
/// reporting anything; a value recorded earlier is given back.
pub fn try_fold(sema: &Sema, ast: &Ast, expr: &ExpressionNode) -> (r: Option<Value>)
    requires
        sema.wf(),
        ast.wf(),
    ensures
        r == spec_try_fold(sema, ast, *expr),
{
    if let Some(v) = constant_cached(sema, expr.id) {
        return Some(v);
    }
    let mut sink = DiagSink { diags: Vec::new() };
    match fold(sema, ast, expr, &mut sink) {
        Ok(v) => Some(v),
        Err(_) => None,
    }
}


/// What evaluating the constant expression `expr` from `old` into `new`
/// gives: the value recorded for it, if one was; otherwise its folded value,
/// which is recorded.
pub open spec fn spec_evaluated(old: SymbolResolver, new: SymbolResolver, ast: &Ast, expr: ExpressionNode, res: Option<Value>) -> bool {
    &&& old.sema.expr_consts.spec_seen(expr.id) ==> res == old.sema.expr_consts.spec_get(expr.id) && new == old
    &&& !old.sema.expr_consts.spec_seen(expr.id) ==> res == match spec_fold(&old.sema, ast, expr) {
        Ok(v) => Some(v),
        Err(_) => None::<Value>,
    }
    &&& !old.sema.expr_consts.spec_seen(expr.id) ==> new.sema.expr_consts.spec_get(expr.id) == res
    &&& expr.id < old.sema.expr_consts.data@.len() ==> new.sema.expr_consts.spec_seen(expr.id)
}

/// Evaluating a constant expression a second time gives the value the first
/// evaluation gave, and changes nothing.
pub proof fn lemma_eval_constant_twice(
    r0: SymbolResolver,
    r1: SymbolResolver,
    r2: SymbolResolver,
    ast: &Ast,
    expr: ExpressionNode,
    first: Option<Value>,
    second: Option<Value>,
)
    requires
        spec_evaluated(r0, r1, ast, expr, first),
        spec_evaluated(r1, r2, ast, expr, second),
        expr.id < r0.sema.expr_consts.data@.len(),
    ensures
        second == first,
        r2 == r1,
{
}

/// 6.4 Folds the integral constant expression `expr`, already resolved, and
/// records its value; what makes it no constant is reported. A value
/// recorded earlier is given back as it is.
pub fn eval_constant(r: &mut SymbolResolver, ast: &Ast, expr: &ExpressionNode) -> (res: Option<Value>)
    requires
        old(r).ready(ast),
    ensures
        spec_evaluated(*old(r), *final(r), ast, *expr, res),
        final(r).kept(*old(r)),
        old(r).sema.expr_consts.spec_seen(expr.id) ==> res == old(r).sema.expr_consts.spec_get(expr.id) && *final(r) == *old(r),
        !old(r).sema.expr_consts.spec_seen(expr.id) ==> res == match spec_fold(&old(r).sema, ast, *expr) {
            Ok(v) => Some(v),
            Err(_) => None::<Value>,
        },
        !old(r).sema.expr_consts.spec_seen(expr.id) ==> final(r).sema.expr_consts.spec_get(expr.id) == res,
        expr.id < old(r).sema.expr_consts.data@.len() ==> final(r).sema.expr_consts.spec_seen(expr.id),
        crate::semantic::resolution::resolver::seen_kept(final(r).sema.expr_consts.seen@, old(r).sema.expr_consts.seen@),
        !old(r).sema.expr_consts.spec_seen(expr.id) ==> crate::semantic::resolution::declaration::reported_last(
            final(r).sema.diagnosis@,
            match spec_fold(&old(r).sema, ast, *expr) {
                Err(d) => if d == Diagnosis::Poisoned {
                    None
                } else {
                    Some(d)
                },
                Ok(_) => None,
            },
            expr.span,
        ),
{
    if r.sema.expr_consts.seen(expr.id) {
        return match r.sema.expr_consts.get(expr.id) {
            Some(v) => Some(*v),
            None => None,
        };
    }
    let ghost r0 = *r;
    let mut sink = DiagSink { diags: Vec::new() };
    let folded = fold(&r.sema, ast, expr, &mut sink);
    let mut i: usize = 0;
    while i < sink.diags.len()
        invariant
            i <= sink.diags@.len(),
            r.sema.frame(r0.sema),
            r.f == r0.f,
            r.gotos == r0.gotos,
            r.stmt_scopes == r0.stmt_scopes,
            crate::semantic::resolution::resolver::diags_extend(r.sema.diagnosis@, r0.sema.diagnosis@),
        decreases sink.diags@.len() - i,
    {
        r.sema.diagnosis.push(sink.diags[i]);
        i += 1;
    }
    proof {
        crate::semantic::resolution::resolver::lemma_kept_frame(*r, r0);
    }
    let ghost r1 = *r;
    let value = match folded {
        Ok(v) => Some(v),
        Err(d) => r.add_diag(Diag::err(None, d), &expr.span),
    };
    proof {
        crate::semantic::resolution::resolver::lemma_kept_frame(*r, r1);
    }
    let ghost r2 = *r;
    if expr.id < r.sema.expr_consts.data.len() {
        r.sema.set_constant(expr.id, value);
    }
    proof {
        crate::semantic::resolution::resolver::lemma_kept_same_types(*r, r2);
        crate::semantic::resolution::resolver::lemma_kept_trans(r0, r1, r2);
        crate::semantic::resolution::resolver::lemma_kept_trans(r0, r2, *r);
    }
    value
}


/// 6.3.15, 6.4 A conditional constant expression whose first operand folds
/// to a nonzero value has the value of its second operand; one whose first
/// operand folds to zero has the value of its third operand.
pub proof fn lemma_fold_conditional(
    sema: &Sema,
    ast: &Ast,
    e: ExpressionNode,
    c: ExpressionNode,
    a: ExpressionNode,
    b: ExpressionNode,
)
    requires
        e.id < ast.expressions@.len(),
        cached(sema, e.id) is None,
        ast.expr(e.id) == Expression::Ternary(c, a, b),
        c.id < e.id,
        a.id < e.id,
        b.id < e.id,
        spec_fold(sema, ast, c) is Ok,
    ensures
        !spec_fold(sema, ast, c)->Ok_0.spec_is_zero() ==> spec_fold(sema, ast, e) == spec_operand(sema, ast, a),
        spec_fold(sema, ast, c)->Ok_0.spec_is_zero() ==> spec_fold(sema, ast, e) == spec_operand(sema, ast, b),
{
}


/// The expression `e` of `ast`, not folded before, is `op` applied to `x` and `y`, operands below it.
pub open spec fn binary_node(sema: &Sema, ast: &Ast, e: ExpressionNode, op: BinaryOp, x: ExpressionNode, y: ExpressionNode) -> bool {
    &&& e.id < ast.expressions@.len()
    &&& cached(sema, e.id) is None
    &&& ast.expr(e.id) == Expression::Binary(op, x, y)
    &&& x.id < e.id
    &&& y.id < e.id
}

/// A folding that gave the value 0.
pub open spec fn folds_to_zero(r: Result<Value, Diagnosis>) -> bool {
    r matches Ok(v) && v.spec_is_zero()
}

/// A folding that gave a value other than 0.
pub open spec fn folds_to_nonzero(r: Result<Value, Diagnosis>) -> bool {
    r matches Ok(v) && !v.spec_is_zero()
}

/// 6.3.13, 6.3.14 `&&` and `||` give 0 or 1: `&&` is 0 when its first
/// operand is 0 and 1 when both are nonzero; `||` is 1 when its first
/// operand is nonzero and 0 when both are 0.
pub proof fn lemma_fold_logical(sema: &Sema, ast: &Ast, e: ExpressionNode, op: BinaryOp, x: ExpressionNode, y: ExpressionNode)
    requires
        binary_node(sema, ast, e, op, x, y),
        op == BinaryOp::LogicalAnd || op == BinaryOp::LogicalOr,
    ensures
        spec_fold(sema, ast, e) matches Ok(v) ==> v == Value::Int(0) || v == Value::Int(1),
        (op == BinaryOp::LogicalAnd && folds_to_zero(spec_fold(sema, ast, x))) ==> spec_fold(sema, ast, e) == Ok::<Value, Diagnosis>(
            Value::Int(0),
        ),
        (op == BinaryOp::LogicalAnd && folds_to_nonzero(spec_fold(sema, ast, x)) && folds_to_nonzero(spec_fold(sema, ast, y)))
            ==> spec_fold(sema, ast, e) == Ok::<Value, Diagnosis>(Value::Int(1)),
        (op == BinaryOp::LogicalOr && folds_to_nonzero(spec_fold(sema, ast, x))) ==> spec_fold(sema, ast, e) == Ok::<Value, Diagnosis>(
            Value::Int(1),
        ),
        (op == BinaryOp::LogicalOr && folds_to_zero(spec_fold(sema, ast, x)) && folds_to_zero(spec_fold(sema, ast, y)))
            ==> spec_fold(sema, ast, e) == Ok::<Value, Diagnosis>(Value::Int(0)),
{
    assert(spec_fold(sema, ast, e) == spec_fold_binary(sema, ast, e, op, x, y));
}

/// 6.3.3.3 `!` gives 1 for an operand equal to 0 and 0 otherwise.
pub proof fn lemma_fold_logical_not(sema: &Sema, ast: &Ast, e: ExpressionNode, x: ExpressionNode)
    requires
        e.id < ast.expressions@.len(),
        cached(sema, e.id) is None,
        ast.expr(e.id) == Expression::Unary(UnaryOp::LogicalNot, x),
        x.id < e.id,
        spec_operand(sema, ast, x) is Ok,
    ensures
        spec_operand(sema, ast, x)->Ok_0.spec_is_zero() ==> spec_fold(sema, ast, e) == Ok::<Value, Diagnosis>(Value::Int(1)),
        !spec_operand(sema, ast, x)->Ok_0.spec_is_zero() ==> spec_fold(sema, ast, e) == Ok::<Value, Diagnosis>(Value::Int(0)),
{
}

/// 6.3.5 A constant division or remainder by zero is no constant: it is
/// reported as a division (or modulo) by zero.
pub proof fn lemma_fold_division_by_zero(sema: &Sema, ast: &Ast, e: ExpressionNode, op: BinaryOp, x: ExpressionNode, y: ExpressionNode)
    requires
        binary_node(sema, ast, e, op, x, y),
        op == BinaryOp::Div || op == BinaryOp::Mod,
        spec_operand(sema, ast, x) is Ok,
        spec_operand(sema, ast, y) matches Ok(r) && r.spec_is_zero(),
        spec_node_ty(sema, e.id) is Ok,
    ensures
        op == BinaryOp::Div ==> spec_fold(sema, ast, e) == Err::<Value, Diagnosis>(Diagnosis::DivisionByZero),
        op == BinaryOp::Mod ==> spec_fold(sema, ast, e) == Err::<Value, Diagnosis>(Diagnosis::ModuloByZero),
{
    assert(spec_fold(sema, ast, e) == spec_fold_binary(sema, ast, e, op, x, y));
}

/// 6.3.8, 6.3.9 A relational or equality operator on integer operands gives
/// 1 when the relation holds between their values and 0 when it does not.
pub proof fn lemma_fold_comparison(sema: &Sema, ast: &Ast, e: ExpressionNode, op: BinaryOp, x: ExpressionNode, y: ExpressionNode)
    requires
        binary_node(sema, ast, e, op, x, y),
        is_comparison(op),
        spec_operand(sema, ast, x) matches Ok(l) && l.spec_is_integer(),
        spec_operand(sema, ast, y) matches Ok(r) && r.spec_is_integer(),
    ensures
        ({
            let a = spec_operand(sema, ast, x)->Ok_0.spec_int();
            let b = spec_operand(sema, ast, y)->Ok_0.spec_int();
            let holds = match op {
                BinaryOp::Lower => a < b,
                BinaryOp::Greater => a > b,
                BinaryOp::LowerEq => a <= b,
                BinaryOp::GreaterEq => a >= b,
                BinaryOp::Eq => a == b,
                _ => a != b,
            };
            spec_fold(sema, ast, e) == Ok::<Value, Diagnosis>(if holds { Value::Int(1) } else { Value::Int(0) })
        }),
{
    assert(spec_fold(sema, ast, e) == spec_fold_binary(sema, ast, e, op, x, y));
}

} // verus!
