//! Typing the nodes of the syntax tree (6.3): each expression gets its type
//! from its operands' results, which the walk resolved before it. The
//! operands are taken out of their table, converted, and put back.

use vstd::prelude::*;

use crate::ast::{Ast, BinaryOp, Expression, ExpressionNode, MemberOp, Name, Tag, UnaryOp, Value};
use crate::semantic::constrain::expression::check_sizeof;
use crate::semantic::diagnosis::{recorded, Diag, DiagCollector, Diagnosis};
use crate::semantic::eval::ice::{spec_try_fold, try_fold};
use crate::semantic::layout;
use crate::target::Layout;
use crate::semantic::model::cast::{unqualified, assignment_conversion, convert, default_argument_promotions, lvalue_conversion, AssignmentContext};
use crate::semantic::model::function_def::ParamTypes;
use crate::semantic::model::resolved_expression::{ExpressionKind, ResolvedExpression};
use crate::semantic::model::resolved_type::{
    spec_is_arithmetic, spec_is_complete, spec_is_integral, spec_is_object, spec_is_scalar, QualifiedType, ResolvedType,
    ResolvedTypeArena,
};
use crate::semantic::model::symbol::{spec_expression_kind, SymbolId};
use crate::semantic::resolution::declaration::{base_type_within, declared_type_within};
use crate::semantic::resolution::expression::arithmetic::{additive_types, multiplicative_types, shift_types};
use crate::semantic::resolution::expression::assign::{
    additive_assignation_type, coumpound_assignation_type, simple_assignation_type,
};
use crate::semantic::resolution::expression::compare::{bitwise_type, equality_type, logic_type, relational_type};
use crate::semantic::resolution::expression::conditional::conditional_type;
use crate::semantic::resolution::expression::operand::{is_bit_field, R};
use crate::semantic::resolution::expression::unary::{
    address_type, bit_not_type, cast_type, inc_dec_type, indirection_type, logic_not_type, sign_type,
};
use crate::semantic::resolution::resolver::SymbolResolver;
use crate::semantic::resolution::uses::operand_of;
use crate::semantic::sema::{lemma_re_ok_grown, Sema};

verus! {

impl Sema {
    /// Only the diagnostics and the expression tables differ from `old`.
    pub open spec fn same_but_exprs(&self, old: Sema) -> bool {
        &&& self.symbols == old.symbols
        &&& self.types == old.types
        &&& self.builtins == old.builtins
        &&& self.tags == old.tags
        &&& self.functions == old.functions
        &&& self.inits == old.inits
        &&& self.expr_types.data@.len() == old.expr_types.data@.len()
        &&& self.expr_bindings.data@.len() == old.expr_bindings.data@.len()
        &&& self.expr_consts.data@.len() == old.expr_consts.data@.len()
        &&& self.member_refs == old.member_refs
        &&& self.declarations == old.declarations
        &&& self.externals == old.externals
        &&& self.stmts == old.stmts
        &&& self.layouts == old.layouts
        &&& self.target == old.target
        &&& self.scopes == old.scopes
    }

    /// Takes the result of expression `id` out of its table, for an operator
    /// to convert it and put it back. A missing result is poisoned: its
    /// cause was reported already.
    pub fn take_operand(&mut self, id: usize) -> (r: Result<ResolvedExpression, Diagnosis>)
        requires
            old(self).wf(),
        ensures
            final(self).wf(),
            r == match old(self).expr_types.spec_get(id) {
                Some(re) => Ok::<ResolvedExpression, Diagnosis>(re),
                None => Err(Diagnosis::Poisoned),
            },
            r is Ok ==> id < old(self).expr_types.data@.len() && old(self).re_ok(r->Ok_0),
            id < old(self).expr_types.data@.len() ==> final(self).expr_types.data@ == old(self).expr_types.data@.update(
                id as int,
                None,
            ),
            id >= old(self).expr_types.data@.len() ==> final(self).expr_types.data@ == old(self).expr_types.data@,
            final(self).expr_types.seen@ == old(self).expr_types.seen@,
            final(self).diagnosis == old(self).diagnosis,
            final(self).expr_bindings == old(self).expr_bindings,
            final(self).expr_consts == old(self).expr_consts,
            final(self).same_but_exprs(*old(self)),
    {
        let r = self.expr_types.take(id);
        proof {
            assert forall|i: int| 0 <= i < self.expr_types.data@.len() implies ((#[trigger] self.expr_types.data@[i]) matches Some(re)
                ==> self.re_ok(re)) by {
                if i != id {
                    assert(self.expr_types.data@[i] == old(self).expr_types.data@[i]);
                }
            }
            if r is Some {
                assert(old(self).expr_types.data@[id as int] == r);
            }
        }
        match r {
            Some(re) => Ok(re),
            None => Err(Diagnosis::Poisoned),
        }
    }

    /// Records `re` as the result of expression `id`.
    pub fn put_operand(&mut self, id: usize, re: ResolvedExpression)
        requires
            old(self).wf(),
            old(self).re_ok(re),
            id < old(self).expr_types.data@.len(),
        ensures
            final(self).wf(),
            final(self).expr_types.data@ == old(self).expr_types.data@.update(id as int, Some(re)),
            final(self).expr_types.seen@ == old(self).expr_types.seen@.update(id as int, true),
            final(self).diagnosis == old(self).diagnosis,
            final(self).expr_bindings == old(self).expr_bindings,
            final(self).expr_consts == old(self).expr_consts,
            final(self).same_but_exprs(*old(self)),
    {
        self.expr_types.set(id, Some(re));
        proof {
            assert forall|i: int| 0 <= i < self.expr_types.data@.len() implies ((#[trigger] self.expr_types.data@[i]) matches Some(e)
                ==> self.re_ok(e)) by {
                if i != id {
                    assert(self.expr_types.data@[i] == old(self).expr_types.data@[i]);
                }
            }
        }
    }

    /// Records the symbol expression `id` designates.
    pub fn set_binding(&mut self, id: usize, sym: Option<SymbolId>)
        requires
            old(self).wf(),
            id < old(self).expr_bindings.data@.len(),
            sym matches Some(s) ==> s < old(self).nsyms(),
        ensures
            final(self).wf(),
            final(self).expr_bindings.data@ == old(self).expr_bindings.data@.update(id as int, sym),
            final(self).expr_bindings.seen@ == old(self).expr_bindings.seen@.update(id as int, true),
            final(self).diagnosis == old(self).diagnosis,
            final(self).expr_types == old(self).expr_types,
            final(self).expr_consts == old(self).expr_consts,
            final(self).same_but_exprs(*old(self)),
    {
        self.expr_bindings.set(id, sym);
        proof {
            assert forall|i: int| 0 <= i < self.expr_bindings.data@.len() implies ((#[trigger] self.expr_bindings.data@[i]) matches Some(s)
                ==> s < self.nsyms()) by {
                if i != id {
                    assert(self.expr_bindings.data@[i] == old(self).expr_bindings.data@[i]);
                }
            }
        }
    }

    /// Records the value of the constant expression `id`, or that it has none.
    pub fn set_constant(&mut self, id: usize, value: Option<Value>)
        requires
            old(self).wf(),
            id < old(self).expr_consts.data@.len(),
        ensures
            final(self).wf(),
            final(self).expr_consts.data@ == old(self).expr_consts.data@.update(id as int, value),
            final(self).expr_consts.seen@ == old(self).expr_consts.seen@.update(id as int, true),
            final(self).diagnosis == old(self).diagnosis,
            final(self).expr_types == old(self).expr_types,
            final(self).expr_bindings == old(self).expr_bindings,
            final(self).same_but_exprs(*old(self)),
    {
        self.expr_consts.set(id, value);
    }
}

/// The type of a constant (6.1.3): that its value was read as.
pub open spec fn spec_value_type(sema: &Sema, v: Value) -> QualifiedType {
    let id = match v {
        Value::Int(_) => sema.builtins.int,
        Value::UnsignedInt(_) => sema.builtins.unsigned_int,
        Value::Long(_) => sema.builtins.long,
        Value::UnsignedLong(_) => sema.builtins.unsigned_long,
        Value::Float(_) => sema.builtins.float,
        Value::Double(_) => sema.builtins.double,
        Value::LongDouble(_) => sema.builtins.long_double,
    };
    QualifiedType { id, is_const: false, is_volatile: false }
}

pub fn value_type(sema: &Sema, v: Value) -> (q: QualifiedType)
    requires
        sema.wf(),
    ensures
        q == spec_value_type(sema, v),
        sema.qt_ok(q),
{
    let id = match v {
        Value::Int(_) => sema.builtins.int,
        Value::UnsignedInt(_) => sema.builtins.unsigned_int,
        Value::Long(_) => sema.builtins.long,
        Value::UnsignedLong(_) => sema.builtins.unsigned_long,
        Value::Float(_) => sema.builtins.float,
        Value::Double(_) => sema.builtins.double,
        Value::LongDouble(_) => sema.builtins.long_double,
    };
    QualifiedType::plain(id)
}

/// The budget of nested cross references (a type name inside an expression,
/// an array size inside a declarator, a member inside a structure) one
/// resolution may follow.
pub const NESTING_BUDGET: usize = 1024;

/// What the value conversion (6.2.2.1) of `re` reports: an lvalue of
/// incomplete type, arrays and functions aside.
pub open spec fn spec_conversion_diag(sema: &Sema, re: ResolvedExpression) -> Option<Diagnosis> {
    match sema.ty(re.ty.id) {
        ResolvedType::Function { .. } => None,
        ResolvedType::Array { .. } => None,
        t => if re.kind == ExpressionKind::LValue && !spec_is_complete(sema, t) {
            Some(Diagnosis::IncompleteType(re.ty))
        } else {
            None
        },
    }
}

/// The type the value of `re` has after its value conversion (6.2.2.1):
/// a function designator or an array becomes a pointer.
pub open spec fn spec_converted_ty(sema: &Sema, re: ResolvedExpression) -> ResolvedType {
    match sema.ty(re.ty.id) {
        ResolvedType::Function { .. } => ResolvedType::Pointer(re.ty),
        ResolvedType::Array { elem, .. } => ResolvedType::Pointer(elem),
        t => if re.kind == ExpressionKind::LValue {
            t
        } else {
            sema.ty(re.spec_casted_ty().id)
        },
    }
}

/// Takes the result of operand `e`, converting its value (6.2.2.1) when `convert`.
pub(crate) fn take_one(r: &mut SymbolResolver, e: &ExpressionNode, convert: bool) -> (res: Result<ResolvedExpression, Diagnosis>)
    requires
        old(r).wf(),
    ensures
        final(r).kept(*old(r)),
        res is Ok <==> old(r).sema.expr_types.spec_get(e.id) is Some,
        res matches Ok(re) ==> re.ty == old(r).sema.expr_types.spec_get(e.id)->0.ty && re.kind == old(r).sema.expr_types.spec_get(e.id)->0.kind,
        !convert ==> (res matches Ok(re) ==> re == old(r).sema.expr_types.spec_get(e.id)->0),
        res matches Ok(re) ==> final(r).sema.re_ok(re) && e.id < final(r).sema.expr_types.data@.len(),
        res is Err ==> res == Err::<ResolvedExpression, Diagnosis>(Diagnosis::Poisoned),
        res is Ok ==> final(r).sema.expr_types.data@ == old(r).sema.expr_types.data@.update(e.id as int, None),
        res is Err ==> final(r).sema.expr_types.data@ == old(r).sema.expr_types.data@,
        final(r).sema.expr_types.seen@ == old(r).sema.expr_types.seen@,
        final(r).sema.expr_bindings == old(r).sema.expr_bindings,
        final(r).sema.expr_consts == old(r).sema.expr_consts,
        final(r).sema.tags == old(r).sema.tags,
        final(r).sema.builtins == old(r).sema.builtins,
        final(r).sema.symbols == old(r).sema.symbols,
        convert && res is Ok ==> final(r).sema.ty(res->Ok_0.spec_casted_ty().id) == spec_converted_ty(
            &old(r).sema,
            old(r).sema.expr_types.spec_get(e.id)->0,
        ),
        final(r).sema.diagnosis@ == recorded(
            old(r).sema.diagnosis@,
            if convert && res is Ok {
                spec_conversion_diag(&old(r).sema, old(r).sema.expr_types.spec_get(e.id)->0)
            } else {
                None
            },
            e.span,
        ),
{
    let ghost s0 = r.sema;
    let mut re = match r.sema.take_operand(e.id) {
        Ok(re) => re,
        Err(d) => {
            proof {
                if e.id < s0.expr_types.data@.len() {
                    assert(s0.expr_types.data@[e.id as int] is None);
                    assert(r.sema.expr_types.data@ =~= s0.expr_types.data@);
                }
            }
            return Err(d);
        },
    };
    if convert {
        lvalue_conversion(&mut r.sema, &mut re, &e.span);
    }
    Ok(re)
}

/// Puts the result of operand `e` back.
pub(crate) fn put_one(r: &mut SymbolResolver, e: &ExpressionNode, re: ResolvedExpression)
    requires
        old(r).wf(),
        old(r).sema.re_ok(re),
        e.id < old(r).sema.expr_types.data@.len(),
    ensures
        final(r).kept(*old(r)),
        final(r).sema.expr_types.data@ == old(r).sema.expr_types.data@.update(e.id as int, Some(re)),
        final(r).sema.expr_types.seen@ == old(r).sema.expr_types.seen@.update(e.id as int, true),
        final(r).sema.diagnosis == old(r).sema.diagnosis,
        final(r).sema.expr_bindings == old(r).sema.expr_bindings,
        final(r).sema.expr_consts == old(r).sema.expr_consts,
        final(r).sema.tags == old(r).sema.tags,
        final(r).sema.types == old(r).sema.types,
        final(r).sema.symbols == old(r).sema.symbols,
        final(r).sema.builtins == old(r).sema.builtins,
{
    r.sema.put_operand(e.id, re);
}

/// Takes the results of two operands, converting those flagged; when the
/// second is missing, the first is put back.
fn take_two(r: &mut SymbolResolver, e1: &ExpressionNode, c1: bool, e2: &ExpressionNode, c2: bool) -> (res: Result<
    (ResolvedExpression, ResolvedExpression),
    Diagnosis,
>)
    requires
        old(r).wf(),
    ensures
        final(r).kept(*old(r)),
        res matches Ok((a, b)) ==> final(r).sema.re_ok(a) && final(r).sema.re_ok(b) && e1.id
            < final(r).sema.expr_types.data@.len() && e2.id < final(r).sema.expr_types.data@.len(),
        res is Err ==> res == Err::<(ResolvedExpression, ResolvedExpression), Diagnosis>(Diagnosis::Poisoned),
{
    let ghost r0 = *r;
    let a = take_one(r, e1, c1)?;
    let ghost r1 = *r;
    match take_one(r, e2, c2) {
        Ok(b) => {
            proof {
                lemma_re_ok_grown(&r.sema, &r1.sema, a);
            }
            Ok((a, b))
        },
        Err(d) => {
            proof {
                lemma_re_ok_grown(&r.sema, &r1.sema, a);
            }
            put_one(r, e1, a);
            Err(d)
        },
    }
}

/// Whether `q` is an unqualified pointer to unqualified void.
fn is_void_pointer(sema: &Sema, q: QualifiedType) -> (b: bool)
    requires
        sema.wf(),
        sema.qt_ok(q),
    ensures
        b == (sema.ty(q.id) matches ResolvedType::Pointer(inner) && sema.ty(inner.id) is Void && !q.is_const
            && !q.is_volatile && !inner.is_const && !inner.is_volatile),
{
    match sema.types.get(q.id) {
        ResolvedType::Pointer(inner) => {
            proof {
                assert(sema.ty(q.id).refs_below(q.id as int));
            }
            inner.is_void(sema) && !q.is_const && !q.is_volatile && !inner.is_const && !inner.is_volatile
        },
        _ => false,
    }
}

/// Expression `node` is a cast whose type name is looked at with `fuel` left.
pub open spec fn spec_is_cast(ast: &Ast, node: ExpressionNode, fuel: usize) -> bool {
    &&& fuel > 0
    &&& node.id < ast.expressions@.len()
    &&& ast.expr(node.id) matches Expression::Cast(tn, _)
    &&& tn < ast.type_names@.len()
}

/// Expression `node` has, in `r`, a result of integer type and the
/// constant value 0.
pub open spec fn spec_zero_constant(r: &SymbolResolver, ast: &Ast, node: ExpressionNode) -> bool {
    match r.sema.expr_types.spec_get(node.id) {
        None => false,
        Some(re) => r.sema.ty(re.ty.id).spec_is_integer() && (spec_try_fold(&r.sema, ast, node) matches Some(v)
            && v.spec_is_zero()),
    }
}

/// 6.2.2.3 A null pointer constant: an integral constant expression with
/// value 0, possibly cast to `void *`.
pub fn is_null_pointer_constant(r: &mut SymbolResolver, ast: &Ast, node: &ExpressionNode, fuel: usize) -> (b: bool)
    requires
        old(r).ready(ast),
    ensures
        final(r).kept(*old(r)),
        !spec_is_cast(ast, *node, fuel) ==> *final(r) == *old(r) && b == spec_zero_constant(old(r), ast, *node),
        spec_is_cast(ast, *node, fuel) ==> b == spec_zero_constant(final(r), ast, *node) || (ast.expr(node.id) matches Expression::Cast(
            _,
            op,
        ) && b == spec_zero_constant(final(r), ast, op)),
    decreases fuel, 0int,
{
    let mut target = *node;
    if fuel > 0 && node.id < ast.expressions.len() {
        if let Expression::Cast(tn, op) = &ast.expressions[node.id] {
            if *tn < ast.type_names.len() {
                let ty_node = &ast.type_names[*tn];
                let base = base_type_within(r, ast, ty_node.specifiers.as_slice(), &node.span, fuel - 1);
                let declared = declared_type_within(r, ast, base, &ty_node.declarator, fuel - 1);
                if let Some((q, _)) = declared {
                    if is_void_pointer(&r.sema, q) {
                        target = *op;
                    }
                }
            }
        }
    }
    match r.sema.expr_types.get(target.id) {
        None => false,
        Some(re) => {
            proof {
                assert(r.sema.expr_types.data@[target.id as int] == Some(*re));
            }
            re.ty.is_integer(&r.sema) && match try_fold(&r.sema, ast, &target) {
                Some(v) => v.is_zero(),
                None => false,
            }
        },
    }
}

/// 6.3.16.1, 6.5.7, 6.6.6.4 Converts the value of `init_node` as if by
/// assignment to an object of type `l_ty`; a returned value drops its qualifiers.
pub fn init(
    r: &mut SymbolResolver,
    ast: &Ast,
    l_ty: QualifiedType,
    init_node: &ExpressionNode,
    assign_ctx: AssignmentContext,
    fuel: usize,
) -> (res: R)
    requires
        old(r).ready(ast),
        old(r).sema.qt_ok(l_ty),
    ensures
        final(r).kept(*old(r)),
        res matches Ok((q, _)) ==> final(r).sema.qt_ok(q),
        res matches Ok((q, k)) ==> q == l_ty && k == ExpressionKind::RValue,
        (!spec_is_cast(ast, *init_node, fuel) && old(r).sema.expr_types.spec_get(init_node.id) is Some) ==> {
            &&& res != Err::<(QualifiedType, ExpressionKind), Diagnosis>(Diagnosis::Poisoned)
            &&& final(r).sema.expr_types.spec_get(init_node.id) is Some
            &&& final(r).sema.expr_types.data@ == old(r).sema.expr_types.data@.update(
                init_node.id as int,
                final(r).sema.expr_types.data@[init_node.id as int],
            )
            &&& final(r).sema.diagnosis@.len() >= old(r).sema.diagnosis@.len()
        },
    decreases fuel, 1int,
{
    let ghost r0 = *r;
    let is_null = is_null_pointer_constant(r, ast, init_node, fuel);
    let mut re = take_one(r, init_node, true)?;
    let mut l_re = ResolvedExpression::new(l_ty, ExpressionKind::LValue);
    let out = assignment_conversion(&mut r.sema, &mut l_re, &mut re, is_null, assign_ctx);
    if matches!(assign_ctx, AssignmentContext::Return) {
        let n = re.casts.len();
        if n > 0 {
            let mut c = re.casts[n - 1];
            c.to = QualifiedType::new(c.to.id, false, false);
            re.casts.set(n - 1, c);
            proof {
                assert forall|j: int| 0 <= j < re.casts@.len() implies r.sema.qt_ok(#[trigger] re.casts@[j].to) by {
                }
            }
        }
    }
    put_one(r, init_node, re);
    match out {
        Ok(q) => Ok((q, ExpressionKind::RValue)),
        Err(d) => Err(d),
    }
}

/// 6.3.1 The type of an identifier: that of the symbol it was bound to,
/// an lvalue unless it designates a function or an enumeration constant.
pub open spec fn spec_identifier(sema: &Sema, id: usize) -> R {
    match sema.expr_bindings.spec_get(id) {
        Some(s) => match sema.sym(s).ty {
            Some(q) => Ok((q, spec_expression_kind(sema.sym(s).kind))),
            None => Err(Diagnosis::Poisoned),
        },
        None => Err(Diagnosis::Poisoned),
    }
}

/// 6.3.1 An identifier designates the symbol it was bound to, with its type.
fn identifier(r: &SymbolResolver, node: &ExpressionNode) -> (res: R)
    requires
        r.wf(),
    ensures
        res == match r.sema.expr_bindings.spec_get(node.id) {
            Some(id) => match r.sema.sym(id).ty {
                Some(q) => Ok::<(QualifiedType, ExpressionKind), Diagnosis>((q, spec_expression_kind(r.sema.sym(id).kind))),
                None => Err(Diagnosis::Poisoned),
            },
            None => Err(Diagnosis::Poisoned),
        },
        res matches Ok((q, _)) ==> r.sema.qt_ok(q),
{
    let id = match r.sema.expr_bindings.get(node.id) {
        Some(id) => *id,
        None => return Err(Diagnosis::Poisoned),
    };
    proof {
        assert(r.sema.expr_bindings.data@[node.id as int] == Some(id));
        assert(r.sema.symbol_ok(r.sema.symbols.data@[id as int]));
    }
    let sym = r.sema.symbols.get(id);
    match sym.ty {
        Some(q) => Ok((q, sym.expression_kind())),
        None => Err(Diagnosis::Poisoned),
    }
}

/// A parenthesized constant expression has its operand's converted type.
fn constant_expression(r: &SymbolResolver, e: &ExpressionNode) -> (res: R)
    requires
        r.wf(),
    ensures
        res == match r.sema.expr_types.spec_get(e.id) {
            Some(re) => Ok::<(QualifiedType, ExpressionKind), Diagnosis>((re.spec_casted_ty(), re.kind)),
            None => Err(Diagnosis::Poisoned),
        },
        res matches Ok((q, _)) ==> r.sema.qt_ok(q),
{
    match r.sema.expr_types.get(e.id) {
        Some(re) => {
            proof {
                assert(r.sema.expr_types.data@[e.id as int] == Some(*re));
                assert(r.sema.re_ok(*re));
            }
            Ok((re.casted_ty(), re.kind))
        },
        None => Err(Diagnosis::Poisoned),
    }
}

/// 6.1.4 A string literal is an lvalue array of `char` (of `wchar_t` when
/// wide) holding its characters and a terminating null.
fn string_literal(r: &mut SymbolResolver, ast: &Ast, sid: usize) -> (res: R)
    requires
        old(r).wf(),
    ensures
        final(r).kept(*old(r)),
        res matches Ok((q, _)) ==> final(r).sema.qt_ok(q),
        sid >= ast.strings@.len() || ast.strings@[sid as int].len == usize::MAX ==> res == Err::<
            (QualifiedType, ExpressionKind),
            Diagnosis,
        >(Diagnosis::Poisoned),
        sid < ast.strings@.len() && ast.strings@[sid as int].len < usize::MAX ==> (res matches Ok((q, k)) && k
            == ExpressionKind::LValue && !q.is_const && !q.is_volatile && (final(r).sema.ty(q.id) matches ResolvedType::Array {
            elem,
            len,
        } && len == Some((ast.strings@[sid as int].len + 1) as usize) && !elem.is_const && !elem.is_volatile && (if ast.strings@[
            sid as int].is_wide {
            final(r).sema.ty(elem.id).same(old(r).sema.target.wchar_t)
        } else {
            elem.id == old(r).sema.builtins.char
        }))),
{
    if sid >= ast.strings.len() {
        return Err(Diagnosis::Poisoned);
    }
    let lit = ast.strings[sid];
    let len = match lit.len.checked_add(1) {
        Some(n) => n,
        None => return Err(Diagnosis::Poisoned),
    };
    let elem = if lit.is_wide {
        let w = r.sema.target.wchar_t.duplicate();
        r.sema.intern_type(w)
    } else {
        r.sema.builtins.char
    };
    let id = r.sema.array_type(QualifiedType::plain(elem), Some(len));
    Ok((QualifiedType::plain(id), ExpressionKind::LValue))
}


/// 6.3.2.4, 6.3.3 What unary operator `op` (other than `&`) gives on an
/// operand with result `re`, whose value converted has type `t` and is
/// recorded with type `c`: `++`/`--` need a modifiable scalar lvalue (a
/// pointer to an object), `+`/`-` an arithmetic and `~` an integral operand,
/// giving its promoted type; `*` a pointer, not to void; `!` a scalar,
/// giving an int.
pub open spec fn spec_unary(sema: &Sema, op: UnaryOp, re: ResolvedExpression, t: ResolvedType, c: QualifiedType) -> R {
    match op {
        UnaryOp::PostInc | UnaryOp::PostDec | UnaryOp::PreInc | UnaryOp::PreDec => if re.kind == ExpressionKind::RValue {
            Err(Diagnosis::AssignToRValue)
        } else if re.ty.is_const {
            Err(Diagnosis::ConstAssignment(re.ty))
        } else if sema.ty(re.ty.id) is Pointer && !spec_is_object(sema, sema.ty(sema.ty(re.ty.id)->Pointer_0.id)) {
            if sema.ty(sema.ty(re.ty.id)->Pointer_0.id) is Function {
                Err(Diagnosis::BadPostIncDec(op, re.ty))
            } else {
                Err(Diagnosis::IncompleteType(sema.ty(re.ty.id)->Pointer_0))
            }
        } else if !spec_is_scalar(sema, sema.ty(re.ty.id)) {
            Err(Diagnosis::BadPostIncDec(op, re.ty))
        } else {
            Ok((c, ExpressionKind::RValue))
        },
        UnaryOp::Plus | UnaryOp::Minus => if spec_is_arithmetic(sema, t) {
            Ok((c, ExpressionKind::RValue))
        } else {
            Err(Diagnosis::InvalidUnary(re.ty))
        },
        UnaryOp::BitNot => if spec_is_integral(sema, t) {
            Ok((c, ExpressionKind::RValue))
        } else {
            Err(Diagnosis::InvalidUnary(re.ty))
        },
        UnaryOp::Deref => match t {
            ResolvedType::Pointer(inner) => if sema.ty(inner.id) is Void {
                Err(Diagnosis::IncompleteType(inner))
            } else if sema.ty(inner.id) is Function {
                Ok((inner, ExpressionKind::RValue))
            } else {
                Ok((inner, ExpressionKind::LValue))
            },
            _ => Err(Diagnosis::IndirectionNotPointer(re.ty)),
        },
        _ => if spec_is_scalar(sema, t) {
            Ok((QualifiedType { id: sema.builtins.int, is_const: false, is_volatile: false }, ExpressionKind::RValue))
        } else {
            Err(Diagnosis::InvalidUnary(re.ty))
        },
    }
}

/// What unary operator `op` on operand `e` gives, the operand's result taken
/// from `old` and its recorded conversion from `new`.
pub open spec fn spec_unary_outcome(old: &Sema, new: &Sema, op: UnaryOp, e: ExpressionNode) -> R {
    if old.expr_types.spec_get(e.id) is None {
        Err(Diagnosis::Poisoned)
    } else {
        let re = old.expr_types.spec_get(e.id)->0;
        spec_unary(old, op, re, spec_converted_ty(old, re), new.expr_types.spec_get(e.id)->0.spec_casted_ty())
    }
}

/// The type-specific part of an operator with one operand, on its result.
fn unary_node(r: &mut SymbolResolver, op: UnaryOp, e: &ExpressionNode) -> (res: R)
    requires
        old(r).wf(),
    ensures
        final(r).kept(*old(r)),
        res matches Ok((q, _)) ==> final(r).sema.qt_ok(q),
        op != UnaryOp::Addr ==> res == spec_unary_outcome(&old(r).sema, &final(r).sema, op, *e),
{
    let ghost r0 = *r;
    if op == UnaryOp::Addr {
        let sym = match r.sema.expr_bindings.get(e.id) {
            Some(id) => Some(*id),
            None => None,
        };
        proof {
            if let Some(id) = sym {
                assert(r.sema.expr_bindings.data@[e.id as int] == Some(id));
            }
        }
        let re = take_one(r, e, false)?;
        let ghost r1 = *r;
        let res = address_type(&mut r.sema, &re, sym);
        proof {
            lemma_re_ok_grown(&r.sema, &r1.sema, re);
        }
        put_one(r, e, re);
        return res;
    }
    let mut re = take_one(r, e, true)?;
    let ghost r1 = *r;
    let ghost re1 = re;
    proof {
        let re0 = r0.sema.expr_types.spec_get(e.id)->0;
        assert(r0.sema.re_ok(re0));
        assert(r0.sema.ty(re0.ty.id).refs_below(re0.ty.id as int));
        assert(r1.sema.ty(re0.ty.id) == r0.sema.ty(re0.ty.id));
        if r0.sema.ty(re0.ty.id) is Pointer {
            let p = r0.sema.ty(re0.ty.id)->Pointer_0;
            assert(r1.sema.ty(p.id) == r0.sema.ty(p.id));
        }
        if let ResolvedType::Pointer(inner) = spec_converted_ty(&r0.sema, re0) {
            assert(inner.id < r0.sema.ntypes());
            assert(r1.sema.ty(inner.id) == r0.sema.ty(inner.id));
        }
    }
    let res = match op {
        UnaryOp::PostInc | UnaryOp::PostDec | UnaryOp::PreInc | UnaryOp::PreDec => inc_dec_type(&r.sema, &re, op),
        UnaryOp::Plus | UnaryOp::Minus => sign_type(&r.sema, &mut re),
        UnaryOp::Deref => indirection_type(&r.sema, &re),
        UnaryOp::BitNot => bit_not_type(&r.sema, &mut re),
        _ => logic_not_type(&r.sema, &re),
    };
    put_one(r, e, re);
    res
}

/// The type-specific part of a binary operator, on its two converted operands.
fn binary_node(r: &mut SymbolResolver, ast: &Ast, op: BinaryOp, e1: &ExpressionNode, e2: &ExpressionNode, fuel: usize) -> (res: R)
    requires
        old(r).ready(ast),
    ensures
        final(r).kept(*old(r)),
        res matches Ok((q, _)) ==> final(r).sema.qt_ok(q),
    decreases fuel, 0int,
{
    let ghost r0 = *r;
    let (null1, null2) = if op == BinaryOp::Eq || op == BinaryOp::Neq {
        if fuel == 0 {
            return Err(Diagnosis::Poisoned);
        }
        let n1 = is_null_pointer_constant(r, ast, e1, fuel - 1);
        let ghost r1 = *r;
        let n2 = is_null_pointer_constant(r, ast, e2, fuel - 1);
        proof {
            crate::semantic::resolution::resolver::lemma_kept_trans(r0, r1, *r);
        }
        (n1, n2)
    } else {
        (false, false)
    };
    let count = if op == BinaryOp::Left || op == BinaryOp::Right {
        try_fold(&r.sema, ast, e2)
    } else {
        None
    };
    let ghost r2 = *r;
    let (mut lhs, mut rhs) = take_two(r, e1, true, e2, true)?;
    let ghost r3 = *r;
    let res = match op {
        BinaryOp::Add | BinaryOp::Sub => additive_types(&mut r.sema, &op, &mut lhs, &mut rhs),
        BinaryOp::Mul | BinaryOp::Div | BinaryOp::Mod => multiplicative_types(&mut r.sema, &op, &mut lhs, &mut rhs),
        BinaryOp::Left | BinaryOp::Right => shift_types(&mut r.sema, &mut lhs, &mut rhs, count),
        BinaryOp::Lower | BinaryOp::Greater | BinaryOp::LowerEq | BinaryOp::GreaterEq => relational_type(
            &mut r.sema,
            &mut lhs,
            &mut rhs,
        ),
        BinaryOp::Eq | BinaryOp::Neq => equality_type(&mut r.sema, &mut lhs, &mut rhs, null1, null2),
        BinaryOp::BitAnd | BinaryOp::BitOr | BinaryOp::BitXor => bitwise_type(&mut r.sema, &mut lhs, &mut rhs),
        BinaryOp::LogicalAnd | BinaryOp::LogicalOr => logic_type(&mut r.sema, &mut lhs, &mut rhs),
    };
    let ghost r4 = *r;
    put_one(r, e1, lhs);
    proof {
        lemma_re_ok_grown(&r.sema, &r4.sema, rhs);
    }
    put_one(r, e2, rhs);
    proof {
        crate::semantic::resolution::resolver::lemma_kept_trans(r0, r2, r3);
        crate::semantic::resolution::resolver::lemma_kept_trans(r0, r3, r4);
    }
    res
}


/// 6.3.16 Assignment operators: simple, additive, or another compound one.
fn assign_node(
    r: &mut SymbolResolver,
    ast: &Ast,
    op: Option<BinaryOp>,
    e1: &ExpressionNode,
    e2: &ExpressionNode,
    fuel: usize,
) -> (res: R)
    requires
        old(r).ready(ast),
    ensures
        final(r).kept(*old(r)),
        res matches Ok((q, _)) ==> final(r).sema.qt_ok(q),
    decreases fuel, 0int,
{
    let ghost r0 = *r;
    if fuel == 0 {
        proof {
            r.lemma_frame_refl();
        }
        return Err(Diagnosis::Poisoned);
    }
    let is_null = match op {
        None => is_null_pointer_constant(r, ast, e2, fuel - 1),
        _ => false,
    };
    let count = match op {
        Some(BinaryOp::Add) | Some(BinaryOp::Sub) | None => None,
        _ => try_fold(&r.sema, ast, e2),
    };
    let ghost r1 = *r;
    let (mut lhs, mut rhs) = take_two(r, e1, false, e2, true)?;
    let ghost r2 = *r;
    let res = match op {
        None => simple_assignation_type(&mut r.sema, &mut lhs, &mut rhs, is_null),
        Some(BinaryOp::Add) | Some(BinaryOp::Sub) => additive_assignation_type(&mut r.sema, &mut lhs, &mut rhs, &e1.span),
        Some(o) => match o {
            BinaryOp::Mul | BinaryOp::Div | BinaryOp::Mod | BinaryOp::Left | BinaryOp::Right | BinaryOp::BitAnd
            | BinaryOp::BitOr | BinaryOp::BitXor => coumpound_assignation_type(&mut r.sema, &o, &mut lhs, &mut rhs, &e1.span, count),
            _ => Err(Diagnosis::Poisoned),
        },
    };
    let ghost r3 = *r;
    proof {
        assert forall|i: int| 0 <= i < r2.sema.ntypes() implies #[trigger] r3.sema.types.data@[i] == r2.sema.types.data@[i] by {}
        assert(r3.kept(r2));
    }
    put_one(r, e1, lhs);
    proof {
        lemma_re_ok_grown(&r.sema, &r3.sema, rhs);
    }
    let ghost r4 = *r;
    put_one(r, e2, rhs);
    proof {
        crate::semantic::resolution::resolver::lemma_kept_trans(r0, r1, r2);
        crate::semantic::resolution::resolver::lemma_kept_trans(r0, r2, r3);
        crate::semantic::resolution::resolver::lemma_kept_trans(r0, r3, r4);
        crate::semantic::resolution::resolver::lemma_kept_trans(r0, r4, *r);
    }
    res
}

/// 6.3.15 The conditional operator, on its three converted operands.
#[verifier::rlimit(60)]
fn conditional_node(
    r: &mut SymbolResolver,
    ast: &Ast,
    e1: &ExpressionNode,
    e2: &ExpressionNode,
    e3: &ExpressionNode,
    fuel: usize,
) -> (res: R)
    requires
        old(r).ready(ast),
    ensures
        final(r).kept(*old(r)),
        res matches Ok((q, _)) ==> final(r).sema.qt_ok(q),
    decreases fuel, 0int,
{
    let ghost r0 = *r;
    if fuel == 0 {
        proof {
            r.lemma_frame_refl();
        }
        return Err(Diagnosis::Poisoned);
    }
    let null2 = is_null_pointer_constant(r, ast, e2, fuel - 1);
    let ghost r1 = *r;
    let null3 = is_null_pointer_constant(r, ast, e3, fuel - 1);
    let ghost r2 = *r;
    proof {
        crate::semantic::resolution::resolver::lemma_kept_trans(r0, r1, r2);
    }
    let mut c = take_one(r, e1, true)?;
    let ghost r3 = *r;
    proof {
        crate::semantic::resolution::resolver::lemma_kept_trans(r0, r2, r3);
    }
    let (mut lhs, mut rhs) = match take_two(r, e2, true, e3, true) {
        Ok(p) => p,
        Err(d) => {
            proof {
                lemma_re_ok_grown(&r.sema, &r3.sema, c);
            }
            let ghost r4 = *r;
            put_one(r, e1, c);
            proof {
                crate::semantic::resolution::resolver::lemma_kept_trans(r0, r3, r4);
                crate::semantic::resolution::resolver::lemma_kept_trans(r0, r4, *r);
            }
            return Err(d);
        },
    };
    proof {
        lemma_re_ok_grown(&r.sema, &r3.sema, c);
    }
    let ghost r4 = *r;
    proof {
        crate::semantic::resolution::resolver::lemma_kept_trans(r0, r3, r4);
    }
    let res = conditional_type(&mut r.sema, &mut c, &mut lhs, &mut rhs, null2, null3);
    let ghost r5 = *r;
    proof {
        crate::semantic::resolution::resolver::lemma_kept_trans(r0, r4, r5);
    }
    put_one(r, e1, c);
    let ghost r6 = *r;
    proof {
        lemma_re_ok_grown(&r.sema, &r5.sema, lhs);
        lemma_re_ok_grown(&r.sema, &r5.sema, rhs);
        crate::semantic::resolution::resolver::lemma_kept_trans(r0, r5, r6);
    }
    put_one(r, e2, lhs);
    let ghost r7 = *r;
    proof {
        lemma_re_ok_grown(&r.sema, &r6.sema, rhs);
        crate::semantic::resolution::resolver::lemma_kept_trans(r0, r6, r7);
    }
    put_one(r, e3, rhs);
    proof {
        crate::semantic::resolution::resolver::lemma_kept_trans(r0, r7, *r);
    }
    res
}

/// 6.3.4 A cast: the operand's value converted to the named type.
fn cast_node(
    r: &mut SymbolResolver,
    ast: &Ast,
    node: &ExpressionNode,
    tn: usize,
    operand: &ExpressionNode,
    fuel: usize,
) -> (res: R)
    requires
        old(r).ready(ast),
    ensures
        final(r).kept(*old(r)),
        res matches Ok((q, _)) ==> final(r).sema.qt_ok(q),
    decreases fuel, 0int,
{
    let ghost r0 = *r;
    if fuel == 0 || tn >= ast.type_names.len() {
        proof {
            r.lemma_frame_refl();
        }
        return Err(Diagnosis::Poisoned);
    }
    let ty_node = &ast.type_names[tn];
    let base = base_type_within(r, ast, ty_node.specifiers.as_slice(), &node.span, fuel - 1);
    let ghost r1 = *r;
    let declared = declared_type_within(r, ast, base, &ty_node.declarator, fuel - 1);
    let ghost r2 = *r;
    proof {
        crate::semantic::resolution::resolver::lemma_kept_trans(r0, r1, r2);
    }
    let qualif = match declared {
        Some((q, _)) => q,
        None => return Err(Diagnosis::Poisoned),
    };
    let is_null = is_null_pointer_constant(r, ast, operand, fuel - 1);
    let ghost r3 = *r;
    proof {
        crate::semantic::resolution::resolver::lemma_kept_trans(r0, r2, r3);
    }
    let mut re = take_one(r, operand, true)?;
    let ghost r4 = *r;
    proof {
        crate::semantic::resolution::resolver::lemma_kept_trans(r0, r3, r4);
    }
    let res = cast_type(&r.sema, qualif, &mut re, is_null);
    put_one(r, operand, re);
    proof {
        crate::semantic::resolution::resolver::lemma_kept_trans(r0, r4, *r);
    }
    res
}

/// 6.3.3.4 What `sizeof` gives on an operand of type `ty`: a `size_t`
/// rvalue, unless the operand is a bit-field, void, a function or of
/// incomplete type.
pub open spec fn spec_sizeof(sema: &Sema, ty: QualifiedType, is_bit_field: bool) -> R {
    if is_bit_field {
        Err(Diagnosis::SizeofBitfield)
    } else if sema.ty(ty.id) is Void {
        Err(Diagnosis::SizeofVoid)
    } else if sema.ty(ty.id) is Function {
        Err(Diagnosis::SizeofFunction)
    } else if !spec_is_complete(sema, sema.ty(ty.id)) {
        Err(Diagnosis::SizeofIncomplete(ty))
    } else {
        Ok((QualifiedType { id: sema.builtins.size_t, is_const: false, is_volatile: false }, ExpressionKind::RValue))
    }
}

/// What `sizeof` applied to expression `e` gives, the operand's result and
/// binding taken from `sema`.
pub open spec fn spec_sizeof_e(sema: &Sema, e: ExpressionNode) -> R {
    match sema.expr_types.spec_get(e.id) {
        None => Err(Diagnosis::Poisoned),
        Some(re) => spec_sizeof(sema, re.ty, crate::semantic::resolution::expression::operand::spec_is_bit_field(
            sema,
            sema.expr_bindings.spec_get(e.id),
        )),
    }
}

/// 6.3.3.4 The result of `sizeof`: a `size_t` rvalue, for an operand of
/// complete object type that is not a bit-field.
fn size_t(sema: &Sema, ty: QualifiedType, is_bit_field: bool) -> (res: R)
    requires
        sema.wf(),
        sema.qt_ok(ty),
    ensures
        res matches Ok((q, k)) ==> (q == (QualifiedType { id: sema.builtins.size_t, is_const: false, is_volatile: false })
            && k == ExpressionKind::RValue && sema.qt_ok(q)),
        res == spec_sizeof(sema, ty, is_bit_field),
{
    let d = check_sizeof(is_bit_field, ty.is_void(sema), ty.is_function(sema), ty.is_complete(sema), ty);
    match d.into_result() {
        Err(e) => Err(e),
        Ok(_) => Ok((QualifiedType::plain(sema.builtins.size_t), ExpressionKind::RValue)),
    }
}

/// The constant of `sizeof` expression `id` as `sema` holds it after `old`,
/// its type laid out as `l`: the size converted to `size_t`, or no record
/// where it does not fit.
pub open spec fn spec_sizeof_set(old: Sema, sema: Sema, id: usize, l: Layout) -> bool {
    if old.expr_consts.spec_seen(id) {
        sema.expr_consts == old.expr_consts
    } else {
        match old.target.spec_cast(old.target.size_t, Value::UnsignedLong(l.size as u64)) {
        Some(v) => sema.expr_consts.data@ == old.expr_consts.data@.update(id as int, Some(v))
            && sema.expr_consts.seen@ == old.expr_consts.seen@.update(id as int, true),
        None => sema.expr_consts == old.expr_consts,
        }
    }
}

/// Records the value of a `sizeof` expression, unless one was recorded:
/// the size of its type, as a `size_t`, when the type has a layout.
fn set_sizeof_constant(r: &mut SymbolResolver, node: &ExpressionNode, ty: QualifiedType)
    requires
        old(r).wf(),
        old(r).sema.qt_ok(ty),
        node.id < old(r).sema.expr_consts.data@.len(),
    ensures
        final(r).kept(*old(r)),
        final(r).sema.diagnosis == old(r).sema.diagnosis,
        final(r).sema.expr_types == old(r).sema.expr_types,
        final(r).sema.expr_bindings == old(r).sema.expr_bindings,
        final(r).sema.expr_consts == old(r).sema.expr_consts || (final(r).sema.layouts@.contains_key(ty.id)
            && spec_sizeof_set(old(r).sema, final(r).sema, node.id, final(r).sema.layouts@[ty.id])),
        old(r).sema.layouts@.contains_key(ty.id) ==> spec_sizeof_set(old(r).sema, final(r).sema, node.id, old(r).sema.layouts@[ty.id]),
        !old(r).sema.layouts@.contains_key(ty.id) && !(old(r).sema.ty(ty.id) is Tag) && !(old(r).sema.ty(ty.id) is Array) ==> (
        match old(r).sema.target.spec_scalar(old(r).sema.ty(ty.id)) {
            Some(l) => spec_sizeof_set(old(r).sema, final(r).sema, node.id, l),
            None => final(r).sema.expr_consts == old(r).sema.expr_consts,
        }),
{
    if let Some(l) = layout::of(&mut r.sema, ty.id) {
        if let Some(value) = r.sema.target.cast(&r.sema.target.size_t, Value::UnsignedLong(l.size as u64)) {
            if !r.sema.expr_consts.seen(node.id) {
                r.sema.set_constant(node.id, Some(value));
            }
        }
    }
}

/// 6.3.3.4 `sizeof` applied to an expression, which is not evaluated.
fn size_of_e(r: &mut SymbolResolver, node: &ExpressionNode, e: &ExpressionNode) -> (res: R)
    requires
        old(r).wf(),
        node.id < old(r).sema.expr_consts.data@.len(),
    ensures
        final(r).kept(*old(r)),
        res matches Ok((q, _)) ==> final(r).sema.qt_ok(q),
        res == spec_sizeof_e(&old(r).sema, *e),
{
    let binding = match r.sema.expr_bindings.get(e.id) {
        Some(id) => Some(*id),
        None => None,
    };
    proof {
        if let Some(id) = binding {
            assert(r.sema.expr_bindings.data@[e.id as int] == Some(id));
        }
    }
    let ghost r0 = *r;
    let re = take_one(r, e, false)?;
    let ty = re.ty;
    let bit_field = is_bit_field(&r.sema, binding);
    put_one(r, e, re);
    proof {
        let re0 = r0.sema.expr_types.spec_get(e.id)->0;
        assert(r0.sema.re_ok(re0));
        assert(r.sema.ty(ty.id) == r0.sema.ty(ty.id));
        assert(binding == r0.sema.expr_bindings.spec_get(e.id));
        assert(ty == re0.ty);
        assert(r.sema.symbols == r0.sema.symbols);
        assert(bit_field == crate::semantic::resolution::expression::operand::spec_is_bit_field(&r0.sema, binding));
        assert(r.sema.tags == r0.sema.tags);
        assert(r.sema.builtins == r0.sema.builtins);
        assert(spec_is_complete(&r.sema, r.sema.ty(ty.id)) == spec_is_complete(&r0.sema, r0.sema.ty(ty.id)));
        assert(spec_sizeof(&r.sema, ty, bit_field) == spec_sizeof_e(&r0.sema, *e));
    }
    let result = size_t(&r.sema, ty, bit_field)?;
    set_sizeof_constant(r, node, ty);
    Ok(result)
}

/// 6.3.3.4 `sizeof` applied to a type name.
fn size_of_ty(r: &mut SymbolResolver, ast: &Ast, node: &ExpressionNode, tn: usize, fuel: usize) -> (res: R)
    requires
        old(r).ready(ast),
        node.id < old(r).sema.expr_consts.data@.len(),
    ensures
        final(r).kept(*old(r)),
        res matches Ok((q, _)) ==> final(r).sema.qt_ok(q),
    decreases fuel, 0int,
{
    if fuel == 0 || tn >= ast.type_names.len() {
        proof {
            r.lemma_frame_refl();
        }
        return Err(Diagnosis::Poisoned);
    }
    let ty_node = &ast.type_names[tn];
    let base = base_type_within(r, ast, ty_node.specifiers.as_slice(), &node.span, fuel - 1);
    let ty = match declared_type_within(r, ast, base, &ty_node.declarator, fuel - 1) {
        Some((q, _)) => q,
        None => return Err(Diagnosis::Poisoned),
    };
    let result = size_t(&r.sema, ty, false)?;
    set_sizeof_constant(r, node, ty);
    Ok(result)
}

/// 6.3.2.3 Member access: `.` on a structure or union, `->` on a pointer to
/// one. The member's type gets the qualifiers of the structure; the
/// expression is bound to the member.
/// 6.3.2.3 What member access `op` on the operand result `base` (whose
/// recorded conversion has type `c`) for the member `name` gives: the
/// structure or union is the operand's type for `.` and what it points to
/// for `->`; the result has the member's type with the qualifiers of both,
/// and is an lvalue for `->`, of the operand's kind for `.`.
pub open spec fn spec_member_access(sema: &Sema, op: MemberOp, base: ResolvedExpression, c: QualifiedType, name: Name) -> Result<
    (QualifiedType, ExpressionKind),
    Diagnosis,
> {
    let target: Result<(QualifiedType, ExpressionKind), Diagnosis> = match op {
        MemberOp::Dot => Ok((base.spec_casted_ty(), base.kind)),
        MemberOp::Arrow => match spec_converted_ty(sema, base) {
            ResolvedType::Pointer(inner) => Ok((inner, ExpressionKind::LValue)),
            _ => Err(Diagnosis::AccessNotPointer(c)),
        },
    };
    match target {
        Err(d) => Err(d),
        Ok((tq, kind)) => match sema.ty(tq.id) {
            ResolvedType::Tag(t) => if !sema.tag(t).is_complete {
                Err(Diagnosis::IncompleteType(tq))
            } else if sema.tag(t).kind != Tag::Struct && sema.tag(t).kind != Tag::Union {
                Err(Diagnosis::AccessNotStuctOrUnion(tq))
            } else {
                match crate::semantic::model::tag_def::find_member(sema.tag(t).members@, sema.symbols.data@, name.id) {
                    None => Err(Diagnosis::AccessNotMember(tq, name.id)),
                    Some(m) => match sema.sym(m).ty {
                        None => Err(Diagnosis::Poisoned),
                        Some(ty) => Ok(
                            (
                                QualifiedType {
                                    id: ty.id,
                                    is_const: ty.is_const || tq.is_const,
                                    is_volatile: ty.is_volatile || tq.is_volatile,
                                },
                                kind,
                            ),
                        ),
                    },
                }
            },
            _ => Err(Diagnosis::AccessNotStuctOrUnion(tq)),
        },
    }
}

/// The member symbol that access `op` to `name` on operand `base`
/// designates, if the operand is a structure or union that has such a member.
pub open spec fn spec_member_symbol(sema: &Sema, op: MemberOp, base: ResolvedExpression, name: Name) -> Option<SymbolId> {
    let target: Option<QualifiedType> = match op {
        MemberOp::Dot => Some(base.spec_casted_ty()),
        MemberOp::Arrow => match spec_converted_ty(sema, base) {
            ResolvedType::Pointer(inner) => Some(inner),
            _ => None,
        },
    };
    match target {
        Some(tq) => match sema.ty(tq.id) {
            ResolvedType::Tag(t) => crate::semantic::model::tag_def::find_member(sema.tag(t).members@, sema.symbols.data@, name.id),
            _ => None,
        },
        None => None,
    }
}

fn member(r: &mut SymbolResolver, node: &ExpressionNode, op: MemberOp, e: &ExpressionNode, name: &Name) -> (res: R)
    requires
        old(r).wf(),
        node.id < old(r).sema.expr_bindings.data@.len(),
    ensures
        final(r).kept(*old(r)),
        res matches Ok((q, _)) ==> final(r).sema.qt_ok(q),
        old(r).sema.expr_types.spec_get(e.id) is None ==> res == Err::<(QualifiedType, ExpressionKind), Diagnosis>(Diagnosis::Poisoned),
        old(r).sema.expr_types.spec_get(e.id) is Some ==> res == spec_member_access(
            &old(r).sema,
            op,
            old(r).sema.expr_types.spec_get(e.id)->0,
            final(r).sema.expr_types.spec_get(e.id)->0.spec_casted_ty(),
            *name,
        ),
        res is Ok ==> final(r).sema.expr_bindings.spec_get(node.id) == spec_member_symbol(
            &old(r).sema,
            op,
            old(r).sema.expr_types.spec_get(e.id)->0,
            *name,
        ) && final(r).sema.expr_bindings.spec_get(node.id) is Some,
{
    let ghost r0 = *r;
    let re = take_one(r, e, op == MemberOp::Arrow)?;
    let casted = re.casted_ty();
    let kind = re.kind;
    put_one(r, e, re);
    proof {
        let re0 = r0.sema.expr_types.spec_get(e.id)->0;
        assert(r0.sema.re_ok(re0));
        assert(re0.ty.id < r0.sema.ntypes());
        if op == MemberOp::Dot {
            assert(re == re0);
            assert(r.sema.ty(casted.id) == r0.sema.ty(casted.id));
        } else {
            assert(r.sema.ty(casted.id) == spec_converted_ty(&r0.sema, re0));
            assert(r0.sema.ty(re0.ty.id).refs_below(re0.ty.id as int));
            if let ResolvedType::Pointer(inner) = spec_converted_ty(&r0.sema, re0) {
                assert(inner.id < r0.sema.ntypes());
                assert(r.sema.ty(inner.id) == r0.sema.ty(inner.id));
            }
        }
    }
    let (tag_qty, kind) = match op {
        MemberOp::Dot => (casted, kind),
        MemberOp::Arrow => match r.sema.types.get(casted.id) {
            ResolvedType::Pointer(inner) => {
                proof {
                    assert(r.sema.ty(casted.id).refs_below(casted.id as int));
                }
                (*inner, ExpressionKind::LValue)
            },
            _ => return Err(Diagnosis::AccessNotPointer(casted)),
        },
    };
    let tag_id = match r.sema.types.get(tag_qty.id) {
        ResolvedType::Tag(t) => *t,
        _ => return Err(Diagnosis::AccessNotStuctOrUnion(tag_qty)),
    };
    proof {
        assert(r.sema.ty(tag_qty.id).tags_below(r.sema.ntags()));
    }
    let tag = r.sema.tags.get(tag_id);
    if !tag.is_complete {
        return Err(Diagnosis::IncompleteType(tag_qty));
    }
    if tag.kind != Tag::Struct && tag.kind != Tag::Union {
        return Err(Diagnosis::AccessNotStuctOrUnion(tag_qty));
    }
    let sym_id = match tag.get_member(&r.sema.symbols, name) {
        Some(id) => id,
        None => return Err(Diagnosis::AccessNotMember(tag_qty, name.id)),
    };
    proof {
        crate::semantic::resolution::expression::dispatch::lemma_find_member_below(
            r.sema.tag(tag_id).members@, r.sema.symbols.data@, name.id);
    }
    r.sema.set_binding(node.id, Some(sym_id));
    proof {
        assert(r.sema.symbol_ok(r.sema.symbols.data@[sym_id as int]));
    }
    let ty = match r.sema.symbols.get(sym_id).ty {
        Some(t) => t,
        None => return Err(Diagnosis::Poisoned),
    };
    Ok((QualifiedType::new(ty.id, ty.is_const || tag_qty.is_const, ty.is_volatile || tag_qty.is_volatile), kind))
}

/// What `find_member` finds is an existing symbol.
pub proof fn lemma_find_member_below(members: Seq<crate::semantic::model::tag_def::Member>, symbols: Seq<crate::semantic::model::symbol::Symbol>, name: crate::ast::StringId)
    ensures
        crate::semantic::model::tag_def::find_member(members, symbols, name) matches Some(id) ==> id < symbols.len(),
    decreases members.len(),
{
    if members.len() > 0 {
        lemma_find_member_below(members.drop_first(), symbols, name);
    }
}


impl Sema {
    /// Records the result of expression `id`, or that it has none.
    pub fn set_result(&mut self, id: usize, re: Option<ResolvedExpression>)
        requires
            old(self).wf(),
            re matches Some(e) ==> old(self).re_ok(e),
            id < old(self).expr_types.data@.len(),
        ensures
            final(self).wf(),
            final(self).expr_types.data@ == old(self).expr_types.data@.update(id as int, re),
            final(self).expr_types.seen@ == old(self).expr_types.seen@.update(id as int, true),
            final(self).diagnosis == old(self).diagnosis,
            final(self).expr_bindings == old(self).expr_bindings,
            final(self).expr_consts == old(self).expr_consts,
            final(self).same_but_exprs(*old(self)),
    {
        self.expr_types.set(id, re);
        proof {
            assert forall|i: int| 0 <= i < self.expr_types.data@.len() implies ((#[trigger] self.expr_types.data@[i]) matches Some(e)
                ==> self.re_ok(e)) by {
                if i != id {
                    assert(self.expr_types.data@[i] == old(self).expr_types.data@[i]);
                }
            }
        }
    }
}

/// 6.3.2.2 What a call of a callee of converted type `callee` (recorded as
/// `c`) with `nargs` arguments gives before its arguments are converted:
/// the function's return type, or what is wrong with the call.
pub open spec fn spec_call(sema: &Sema, callee: ResolvedType, c: QualifiedType, nargs: int) -> Result<QualifiedType, Diagnosis> {
    match callee {
        ResolvedType::Pointer(inner) => match sema.ty(inner.id) {
            ResolvedType::Function { ret, params } => if !(sema.ty(ret.id) is Void) && !spec_is_complete(sema, sema.ty(ret.id)) {
                Err(Diagnosis::CallingIncompleteReturn(ret))
            } else {
                match params {
                    ParamTypes::Prototype { params, is_variadic } => if !is_variadic && nargs > params@.len() {
                        Err(Diagnosis::TooManyArguments(params@.len() as usize, nargs as usize))
                    } else if nargs < params@.len() {
                        Err(Diagnosis::TooFewArguments(params@.len() as usize, nargs as usize))
                    } else {
                        Ok(ret)
                    },
                    ParamTypes::Unspecified => Ok(ret),
                }
            },
            _ => Err(Diagnosis::CallingNotFunction(c)),
        },
        _ => Err(Diagnosis::CallingNotFunction(c)),
    }
}

/// What a call with callee `f` and `nargs` arguments gives before its
/// arguments are converted, the callee's result taken from `old` and its
/// recorded conversion from `new`.
pub open spec fn spec_call_result(old: &Sema, new: &Sema, f: ExpressionNode, nargs: int) -> Result<QualifiedType, Diagnosis> {
    spec_call(old, spec_converted_ty(old, old.expr_types.spec_get(f.id)->0), new.expr_types.spec_get(f.id)->0.spec_casted_ty(), nargs)
}

/// The result `res` of a call with callee `f` and arguments `args`,
/// resolved from `old` into `new`; `deep` when the nesting left room to
/// convert the arguments. A call that can be made gives the function's
/// unqualified return type, and does so at least when every argument had a
/// plain result and none was reported.
pub open spec fn spec_call_outcome(old: &Sema, new: &Sema, ast: &Ast, f: ExpressionNode, args: Seq<ExpressionNode>, deep: bool, res: R) -> bool {
    if old.expr_types.spec_get(f.id) is None {
        res == Err::<(QualifiedType, ExpressionKind), Diagnosis>(Diagnosis::Poisoned)
    } else {
        match spec_call_result(old, new, f, args.len() as int) {
            Err(d) => res == Err::<(QualifiedType, ExpressionKind), Diagnosis>(d),
            Ok(ret) => (res == Ok::<(QualifiedType, ExpressionKind), Diagnosis>((unqualified(ret.id), ExpressionKind::RValue))
                || res == Err::<(QualifiedType, ExpressionKind), Diagnosis>(Diagnosis::Poisoned)) && ((deep && spec_args_plain(
                old,
                ast,
                args,
            ) && new.diagnosis@.len() == old.diagnosis@.len()) ==> res == Ok::<(QualifiedType, ExpressionKind), Diagnosis>(
                (unqualified(ret.id), ExpressionKind::RValue),
            )),
        }
    }
}

/// What member access `op` to `name` on operand `e` gives, the operand's
/// result taken from `old` and its recorded conversion from `new`.
pub open spec fn spec_member_outcome(old: &Sema, new: &Sema, op: MemberOp, e: ExpressionNode, name: Name) -> R {
    if old.expr_types.spec_get(e.id) is None {
        Err(Diagnosis::Poisoned)
    } else {
        spec_member_access(old, op, old.expr_types.spec_get(e.id)->0, new.expr_types.spec_get(e.id)->0.spec_casted_ty(), name)
    }
}

/// `sema` holds for expression `node` the result `res` of its typing: its
/// type and kind, or no result and the diagnosis reported at `node`.
pub open spec fn spec_recorded_result(sema: &Sema, node: ExpressionNode, res: R) -> bool {
    match res {
        Ok((q, k)) => sema.expr_types.spec_get(node.id) matches Some(re) && re.ty == q && re.kind == k && re.casts@.len() == 0,
        Err(d) => sema.expr_types.spec_get(node.id) is None && (d != Diagnosis::Poisoned
            ==> crate::semantic::resolution::declaration::reported_last(sema.diagnosis@, Some(d), node.span)),
    }
}

/// What resolving a call expression `node` with callee `f` and arguments
/// `args` records (`deep` when the nesting left room to convert the
/// arguments): a call that cannot be made is reported at `node` and has no
/// result; a call that can has the function's unqualified return type as an
/// rvalue, unless an argument was reported, and has it at least when every
/// argument had a plain result and nothing was reported.
pub open spec fn spec_call_recorded(old: &Sema, new: &Sema, ast: &Ast, node: ExpressionNode, f: ExpressionNode, args: Seq<ExpressionNode>, deep: bool) -> bool {
    if old.expr_types.spec_get(f.id) is None {
        new.expr_types.spec_get(node.id) is None
    } else {
        match spec_call_result(old, new, f, args.len() as int) {
            Err(d) => new.expr_types.spec_get(node.id) is None && crate::semantic::resolution::declaration::reported_last(
                new.diagnosis@,
                Some(d),
                node.span,
            ),
            Ok(ret) => (new.expr_types.spec_get(node.id) is None || (new.expr_types.spec_get(node.id) matches Some(re)
                && re.ty == unqualified(ret.id) && re.kind == ExpressionKind::RValue && re.casts@.len() == 0)) && ((deep
                && spec_args_plain(old, ast, args) && new.diagnosis@.len() == old.diagnosis@.len())
                ==> new.expr_types.spec_get(node.id) is Some),
        }
    }
}

/// Every argument among `args` has a result in `sema`, and none is a cast.
pub open spec fn spec_args_plain(sema: &Sema, ast: &Ast, args: Seq<ExpressionNode>) -> bool {
    forall|j: int|
        0 <= j < args.len() ==> sema.expr_types.spec_get(#[trigger] args[j].id) is Some && !(args[j].id < ast.expressions@.len()
            && ast.expr(args[j].id) is Cast)
}

/// 6.3.2.2 A function call: the callee is a pointer to a function whose
/// return type is void or complete; each argument is converted as if by
/// assignment to its parameter's type, the arguments past a prototype's
/// parameters (or of a function without one) get the default argument
/// promotions. The result is the unqualified return type.
fn fn_call(r: &mut SymbolResolver, ast: &Ast, fn_node: &ExpressionNode, args: &Vec<ExpressionNode>, fuel: usize) -> (res: R)
    requires
        old(r).ready(ast),
    ensures
        final(r).kept(*old(r)),
        res matches Ok((q, _)) ==> final(r).sema.qt_ok(q),
        res matches Ok((q, k)) ==> k == ExpressionKind::RValue && !q.is_const && !q.is_volatile,
        old(r).sema.expr_types.spec_get(fn_node.id) is None ==> res == Err::<(QualifiedType, ExpressionKind), Diagnosis>(Diagnosis::Poisoned),
        old(r).sema.expr_types.spec_get(fn_node.id) is Some ==> match spec_call(
            &old(r).sema,
            spec_converted_ty(&old(r).sema, old(r).sema.expr_types.spec_get(fn_node.id)->0),
            final(r).sema.expr_types.spec_get(fn_node.id)->0.spec_casted_ty(),
            args@.len() as int,
        ) {
            Err(d) => res == Err::<(QualifiedType, ExpressionKind), Diagnosis>(d),
            Ok(ret) => (res == Ok::<(QualifiedType, ExpressionKind), Diagnosis>((unqualified(ret.id), ExpressionKind::RValue))
                || res == Err::<(QualifiedType, ExpressionKind), Diagnosis>(Diagnosis::Poisoned)) && ((fuel > 0
                && spec_args_plain(&old(r).sema, ast, args@) && final(r).sema.diagnosis@.len() == old(r).sema.diagnosis@.len())
                ==> res == Ok::<(QualifiedType, ExpressionKind), Diagnosis>((unqualified(ret.id), ExpressionKind::RValue))),
        },
        spec_args_plain(&old(r).sema, ast, args@) ==> forall|j: int|
            0 <= j < args@.len() ==> final(r).sema.expr_types.spec_get(#[trigger] args@[j].id) is Some,
    decreases fuel, 0int,
{
    let ghost r0 = *r;
    let ghost plain = spec_args_plain(&r0.sema, ast, args@);
    let re = take_one(r, fn_node, true)?;
    let ty = re.casted_ty();
    let ghost r1 = *r;
    put_one(r, fn_node, re);
    proof {
        assert forall|j: int| plain && 0 <= j < args@.len() implies r.sema.expr_types.spec_get(#[trigger] args@[j].id) is Some by {
            assert(r0.sema.expr_types.spec_get(args@[j].id) is Some);
        }
    }
    proof {
        let re0 = r0.sema.expr_types.spec_get(fn_node.id)->0;
        assert(r0.sema.re_ok(re0));
        assert(r.sema.ty(ty.id) == spec_converted_ty(&r0.sema, re0));
        assert(r.sema.expr_types.spec_get(fn_node.id)->0.spec_casted_ty() == ty);
    }
    let inner = match r.sema.types.get(ty.id) {
        ResolvedType::Pointer(inner) => *inner,
        _ => return Err(Diagnosis::CallingNotFunction(ty)),
    };
    proof {
        assert(r.sema.ty(ty.id).refs_below(ty.id as int));
    }
    let (ret, params) = match r.sema.types.get(inner.id) {
        ResolvedType::Function { ret, params } => (*ret, params.clone_params()),
        _ => return Err(Diagnosis::CallingNotFunction(ty)),
    };
    proof {
        assert(r.sema.ty(inner.id).refs_below(inner.id as int));
    }
    let returned = r.sema.types.get(ret.id);
    if !returned.is_void() && !returned.is_complete(&r.sema) {
        return Err(Diagnosis::CallingIncompleteReturn(ret));
    }
    let (param_list, is_variadic) = match params {
        ParamTypes::Prototype { params, is_variadic } => (params, is_variadic),
        ParamTypes::Unspecified => (Vec::new(), true),
    };
    let np = param_list.len();
    let na = args.len();
    if !is_variadic && na > np {
        return Err(Diagnosis::TooManyArguments(np, na));
    }
    if na < np {
        return Err(Diagnosis::TooFewArguments(np, na));
    }
    if fuel == 0 {
        return Err(Diagnosis::Poisoned);
    }
    let mut rejected = false;
    let mut i: usize = 0;
    proof {
        assert forall|j: int| plain && 0 <= j < na implies r.sema.expr_types.spec_get(#[trigger] args@[j].id) is Some by {
            assert(r0.sema.expr_types.spec_get(args@[j].id) is Some);
        }
    }
    while i < np
        invariant
            i <= np,
            np == param_list@.len(),
            np <= na,
            na == args@.len(),
            fuel > 0,
            r.kept(r0),
            r0.ready(ast),
            ret.id < r.sema.ntypes(),
            forall|j: int| 0 <= j < param_list@.len() ==> r.sema.qt_ok(#[trigger] param_list@[j]),
            plain == spec_args_plain(&r0.sema, ast, args@),
            plain ==> forall|j: int| 0 <= j < na ==> r.sema.expr_types.spec_get(#[trigger] args@[j].id) is Some,
            plain ==> r.sema.diagnosis@.len() >= r0.sema.diagnosis@.len(),
            plain && rejected ==> r.sema.diagnosis@.len() > r0.sema.diagnosis@.len(),
        decreases np - i,
    {
        let ghost ri = *r;
        let arg = args[i];
        proof {
            if plain {
                assert(r0.sema.expr_types.spec_get(args@[i as int].id) is Some);
                assert(r.sema.expr_types.spec_get(args@[i as int].id) is Some);
            }
        }
        match init(r, ast, param_list[i], &arg, AssignmentContext::Argument(i + 1), fuel - 1) {
            Ok(_) => {},
            Err(err) => {
                r.add_diag(Diag::err((), err), &arg.span);
                rejected = true;
            },
        }
        proof {
            crate::semantic::resolution::resolver::lemma_kept_trans(r0, ri, *r);
            if plain {
                assert forall|j: int| 0 <= j < na implies r.sema.expr_types.spec_get(#[trigger] args@[j].id) is Some by {
                    assert(ri.sema.expr_types.spec_get(args@[j].id) is Some);
                }
            }
        }
        i += 1;
    }
    let mut k: usize = np;
    while k < na
        invariant
            np <= k <= na,
            na == args@.len(),
            ret.id < r.sema.ntypes(),
            r.kept(r0),
            r0.ready(ast),
            plain ==> forall|j: int| 0 <= j < na ==> r.sema.expr_types.spec_get(#[trigger] args@[j].id) is Some,
            plain ==> r.sema.diagnosis@.len() >= r0.sema.diagnosis@.len(),
            plain && rejected ==> r.sema.diagnosis@.len() > r0.sema.diagnosis@.len(),
        decreases na - k,
    {
        let ghost rk = *r;
        let arg = args[k];
        proof {
            if plain {
                assert(r.sema.expr_types.spec_get(args@[k as int].id) is Some);
            }
        }
        match take_one(r, &arg, true) {
            Ok(mut a) => {
                default_argument_promotions(&r.sema, &mut a);
                put_one(r, &arg, a);
            },
            Err(err) => {
                r.add_diag(Diag::err((), err), &arg.span);
                rejected = true;
            },
        }
        proof {
            crate::semantic::resolution::resolver::lemma_kept_trans(r0, rk, *r);
            if plain {
                assert forall|j: int| 0 <= j < na implies r.sema.expr_types.spec_get(#[trigger] args@[j].id) is Some by {
                    assert(rk.sema.expr_types.spec_get(args@[j].id) is Some);
                }
            }
        }
        k += 1;
    }
    if rejected {
        Err(Diagnosis::Poisoned)
    } else {
        Ok((QualifiedType::new(ret.id, false, false), ExpressionKind::RValue))
    }
}

/// 6.3.17 The comma operator: the operands before the last are evaluated
/// for their side effects (converted to void); the result is the last
/// one's value.
fn list(r: &mut SymbolResolver, es: &Vec<ExpressionNode>) -> (res: R)
    requires
        old(r).wf(),
    ensures
        final(r).kept(*old(r)),
        res matches Ok((q, _)) ==> final(r).sema.qt_ok(q),
{
    let ghost r0 = *r;
    if es.len() == 0 {
        proof {
            r.lemma_frame_refl();
        }
        return Err(Diagnosis::Poisoned);
    }
    let mut i: usize = 0;
    proof {
        r.lemma_frame_refl();
    }
    while i < es.len() - 1
        invariant
            i < es@.len(),
            es@.len() > 0,
            r.kept(r0),
        decreases es@.len() - i,
    {
        let ghost ri = *r;
        let node = es[i];
        match take_one(r, &node, true) {
            Ok(mut re) => {
                let void = r.sema.builtins.void;
                convert(&r.sema, &mut re, void, false);
                put_one(r, &node, re);
            },
            Err(_) => {},
        }
        proof {
            crate::semantic::resolution::resolver::lemma_kept_trans(r0, ri, *r);
        }
        i += 1;
    }
    let last = es[es.len() - 1];
    let ghost rl = *r;
    let re = take_one(r, &last, true)?;
    let q = re.casted_ty();
    put_one(r, &last, re);
    proof {
        crate::semantic::resolution::resolver::lemma_kept_trans(r0, rl, *r);
    }
    Ok((q, ExpressionKind::RValue))
}

/// The type of expression `node`, from its operands' results (6.3).
fn type_of(r: &mut SymbolResolver, ast: &Ast, node: &ExpressionNode, fuel: usize) -> (res: R)
    requires
        old(r).ready(ast),
        node.id < ast.expressions@.len(),
    ensures
        final(r).kept(*old(r)),
        res matches Ok((q, _)) ==> final(r).sema.qt_ok(q),
        ast.expressions@[node.id as int] is Constant ==> res == Ok::<(QualifiedType, ExpressionKind), Diagnosis>(
            (spec_value_type(&old(r).sema, ast.expressions@[node.id as int]->Constant_0.value), ExpressionKind::RValue),
        ),
        ast.expressions@[node.id as int] is Identifier && fuel > 0 ==> res == spec_identifier(&old(r).sema, node.id),
        ast.expressions@[node.id as int] is Identifier ==> *final(r) == *old(r),
        ast.expressions@[node.id as int] is FunctionCall && fuel > 0 ==> spec_call_outcome(
            &old(r).sema,
            &final(r).sema,
            ast,
            ast.expressions@[node.id as int]->FunctionCall_0,
            ast.expressions@[node.id as int]->FunctionCall_1@,
            fuel > 1,
            res,
        ),
        ast.expressions@[node.id as int] is Unary && ast.expressions@[node.id as int]->Unary_0 != UnaryOp::Addr && fuel > 0
            ==> res == spec_unary_outcome(
            &old(r).sema,
            &final(r).sema,
            ast.expressions@[node.id as int]->Unary_0,
            ast.expressions@[node.id as int]->Unary_1,
        ),
        ast.expressions@[node.id as int] is SizeofExpr && fuel > 0 ==> res == spec_sizeof_e(
            &old(r).sema,
            ast.expressions@[node.id as int]->SizeofExpr_0,
        ),
        ast.expressions@[node.id as int] is Member && fuel > 0 ==> res == spec_member_outcome(
            &old(r).sema,
            &final(r).sema,
            ast.expressions@[node.id as int]->Member_0,
            ast.expressions@[node.id as int]->Member_1,
            ast.expressions@[node.id as int]->Member_2,
        ),
    decreases fuel, 0int,
{
    if fuel == 0 {
        proof {
            r.lemma_frame_refl();
        }
        if let Expression::Constant(c) = &ast.expressions[node.id] {
            return Ok((value_type(&r.sema, c.value), ExpressionKind::RValue));
        }
        return Err(Diagnosis::Poisoned);
    }
    match &ast.expressions[node.id] {
        Expression::Identifier(_) => {
            proof {
                r.lemma_frame_refl();
            }
            identifier(r, node)
        },
        Expression::Constant(c) => {
            proof {
                r.lemma_frame_refl();
            }
            Ok((value_type(&r.sema, c.value), ExpressionKind::RValue))
        },
        Expression::StringLiteral(sid) => string_literal(r, ast, *sid),
        Expression::ConstantExpression(e) => {
            proof {
                r.lemma_frame_refl();
            }
            constant_expression(r, e)
        },
        Expression::ArraySubscripting(e1, e2) => {
            let (q, _) = binary_node(r, ast, BinaryOp::Add, e1, e2, fuel - 1)?;
            match r.sema.types.get(q.id) {
                ResolvedType::Pointer(inner) => {
                    proof {
                        assert(r.sema.ty(q.id).refs_below(q.id as int));
                    }
                    Ok((*inner, ExpressionKind::LValue))
                },
                _ => Err(Diagnosis::SubscriptNotArray),
            }
        },
        Expression::FunctionCall(f, args) => fn_call(r, ast, f, args, fuel - 1),
        Expression::Member(op, e, name) => member(r, node, *op, e, name),
        Expression::Unary(op, e) => unary_node(r, *op, e),
        Expression::SizeofExpr(e) => size_of_e(r, node, e),
        Expression::SizeofType(tn) => size_of_ty(r, ast, node, *tn, fuel - 1),
        Expression::Binary(op, e1, e2) => binary_node(r, ast, *op, e1, e2, fuel - 1),
        Expression::Ternary(e1, e2, e3) => conditional_node(r, ast, e1, e2, e3, fuel - 1),
        Expression::Assign(op, e1, e2) => assign_node(r, ast, *op, e1, e2, fuel - 1),
        Expression::Cast(tn, e) => cast_node(r, ast, node, *tn, e, fuel - 1),
        Expression::List(es) => list(r, es),
    }
}

/// Gives expression `node` its type, once: a node already visited is left
/// as it is; otherwise it gets the type of its operator, or no type and
/// the diagnostic that explains why.
pub fn resolve_expression(r: &mut SymbolResolver, ast: &Ast, node: &ExpressionNode)
    requires
        old(r).ready(ast),
        node.id < ast.expressions@.len(),
    ensures
        final(r).kept(*old(r)),
        final(r).sema.expr_types.seen@[node.id as int],
        old(r).sema.expr_types.seen@[node.id as int] ==> *final(r) == *old(r),
        (!old(r).sema.expr_types.seen@[node.id as int] && ast.expressions@[node.id as int] is Constant)
            ==> final(r).sema.expr_types.spec_get(node.id) == Some(ResolvedExpression {
                ty: spec_value_type(&old(r).sema, ast.expressions@[node.id as int]->Constant_0.value),
                kind: ExpressionKind::RValue,
                casts: final(r).sema.expr_types.spec_get(node.id)->0.casts,
                result_cast: None,
            }) && final(r).sema.expr_types.spec_get(node.id)->0.casts@.len() == 0,
        (!old(r).sema.expr_types.seen@[node.id as int] && ast.expressions@[node.id as int] is Identifier)
            ==> match spec_identifier(&old(r).sema, node.id) {
            Ok((q, k)) => final(r).sema.expr_types.spec_get(node.id) matches Some(re) && re.ty == q && re.kind == k
                && re.casts@.len() == 0 && re.result_cast is None,
            Err(_) => final(r).sema.expr_types.spec_get(node.id) is None && final(r).sema.diagnosis@ == old(r).sema.diagnosis@,
        },
        (!old(r).sema.expr_types.seen@[node.id as int] && ast.expressions@[node.id as int] is FunctionCall)
            ==> spec_call_recorded(
            &old(r).sema,
            &final(r).sema,
            ast,
            *node,
            ast.expressions@[node.id as int]->FunctionCall_0,
            ast.expressions@[node.id as int]->FunctionCall_1@,
            true,
        ),
        (!old(r).sema.expr_types.seen@[node.id as int] && ast.expressions@[node.id as int] is Member) ==> spec_recorded_result(
            &final(r).sema,
            *node,
            spec_member_outcome(
                &old(r).sema,
                &final(r).sema,
                ast.expressions@[node.id as int]->Member_0,
                ast.expressions@[node.id as int]->Member_1,
                ast.expressions@[node.id as int]->Member_2,
            ),
        ),
        (!old(r).sema.expr_types.seen@[node.id as int] && ast.expressions@[node.id as int] is Unary
            && ast.expressions@[node.id as int]->Unary_0 != UnaryOp::Addr) ==> spec_recorded_result(
            &final(r).sema,
            *node,
            spec_unary_outcome(
                &old(r).sema,
                &final(r).sema,
                ast.expressions@[node.id as int]->Unary_0,
                ast.expressions@[node.id as int]->Unary_1,
            ),
        ),
        (!old(r).sema.expr_types.seen@[node.id as int] && ast.expressions@[node.id as int] is SizeofExpr)
            ==> spec_recorded_result(&final(r).sema, *node, spec_sizeof_e(&old(r).sema, ast.expressions@[node.id as int]->SizeofExpr_0)),
{
    resolve_expression_within(r, ast, node, NESTING_BUDGET)
}

pub fn resolve_expression_within(r: &mut SymbolResolver, ast: &Ast, node: &ExpressionNode, fuel: usize)
    requires
        old(r).ready(ast),
        node.id < ast.expressions@.len(),
    ensures
        final(r).kept(*old(r)),
        final(r).sema.expr_types.seen@[node.id as int],
        old(r).sema.expr_types.seen@[node.id as int] ==> *final(r) == *old(r),
        (!old(r).sema.expr_types.seen@[node.id as int] && ast.expressions@[node.id as int] is Constant && fuel > 0)
            ==> final(r).sema.expr_types.spec_get(node.id) == Some(ResolvedExpression {
                ty: spec_value_type(&old(r).sema, ast.expressions@[node.id as int]->Constant_0.value),
                kind: ExpressionKind::RValue,
                casts: final(r).sema.expr_types.spec_get(node.id)->0.casts,
                result_cast: None,
            }) && final(r).sema.expr_types.spec_get(node.id)->0.casts@.len() == 0,
        (!old(r).sema.expr_types.seen@[node.id as int] && ast.expressions@[node.id as int] is Identifier && fuel > 1)
            ==> match spec_identifier(&old(r).sema, node.id) {
            Ok((q, k)) => final(r).sema.expr_types.spec_get(node.id) matches Some(re) && re.ty == q && re.kind == k
                && re.casts@.len() == 0 && re.result_cast is None,
            Err(_) => final(r).sema.expr_types.spec_get(node.id) is None && final(r).sema.diagnosis@ == old(r).sema.diagnosis@,
        },
        (!old(r).sema.expr_types.seen@[node.id as int] && ast.expressions@[node.id as int] is FunctionCall && fuel > 1)
            ==> spec_call_recorded(
            &old(r).sema,
            &final(r).sema,
            ast,
            *node,
            ast.expressions@[node.id as int]->FunctionCall_0,
            ast.expressions@[node.id as int]->FunctionCall_1@,
            fuel > 2,
        ),
        (!old(r).sema.expr_types.seen@[node.id as int] && ast.expressions@[node.id as int] is Member && fuel > 1) ==> spec_recorded_result(
            &final(r).sema,
            *node,
            spec_member_outcome(
                &old(r).sema,
                &final(r).sema,
                ast.expressions@[node.id as int]->Member_0,
                ast.expressions@[node.id as int]->Member_1,
                ast.expressions@[node.id as int]->Member_2,
            ),
        ),
        (!old(r).sema.expr_types.seen@[node.id as int] && ast.expressions@[node.id as int] is Unary
            && ast.expressions@[node.id as int]->Unary_0 != UnaryOp::Addr && fuel > 1) ==> spec_recorded_result(
            &final(r).sema,
            *node,
            spec_unary_outcome(
                &old(r).sema,
                &final(r).sema,
                ast.expressions@[node.id as int]->Unary_0,
                ast.expressions@[node.id as int]->Unary_1,
            ),
        ),
        (!old(r).sema.expr_types.seen@[node.id as int] && ast.expressions@[node.id as int] is SizeofExpr && fuel > 1)
            ==> spec_recorded_result(&final(r).sema, *node, spec_sizeof_e(&old(r).sema, ast.expressions@[node.id as int]->SizeofExpr_0)),
    decreases fuel, 0int,
{
    let ghost r0 = *r;
    proof {
        assert(ast.expressions@[node.id as int].children_below(node.id as int));
    }
    if r.sema.expr_types.seen(node.id) {
        return;
    }
    let resolved = if fuel == 0 {
        proof {
            r.lemma_frame_refl();
        }
        None
    } else {
        match type_of(r, ast, node, fuel - 1) {
            Ok((ty, kind)) => Some(ResolvedExpression::new(ty, kind)),
            Err(d) => {
                r.add_diag(Diag::err((), d), &node.span);
                None
            },
        }
    };
    let ghost r1 = *r;
    r.sema.set_result(node.id, resolved);
    proof {
        crate::semantic::resolution::resolver::lemma_kept_trans(r0, r1, *r);
    }
}

/// Expression `id` was visited: bound to a declaration, or given its result.
pub open spec fn spec_visited(r: &SymbolResolver, id: int) -> bool {
    spec_visited_in(&r.sema, id)
}

/// Expression `id` was visited in the analysis `sema`.
pub open spec fn spec_visited_in(sema: &Sema, id: int) -> bool {
    ||| (0 <= id < sema.expr_bindings.seen@.len() && sema.expr_bindings.seen@[id])
    ||| (0 <= id < sema.expr_types.seen@.len() && sema.expr_types.seen@[id])
}

/// A path of expressions in `ast`, each an operand of the one before.
pub open spec fn operand_path(ast: &Ast, c: Seq<int>) -> bool {
    &&& c.len() >= 1
    &&& forall|k: int| 0 <= k < c.len() - 1 ==> 0 <= #[trigger] c[k] < ast.expressions@.len() && operand_of(
        ast.expressions@[c[k]],
        c[k + 1],
    )
}

/// Expression `id` and every expression below it were visited.
pub open spec fn spec_tree_visited(r: &SymbolResolver, ast: &Ast, id: int) -> bool {
    spec_tree_visited_in(&r.sema, ast, id)
}

/// Expression `id` and every expression below it were visited in the analysis `sema`.
pub open spec fn spec_tree_visited_in(sema: &Sema, ast: &Ast, id: int) -> bool {
    forall|c: Seq<int>| #[trigger] operand_path(ast, c) && c[0] == id ==> spec_visited_in(sema, c.last())
}

/// What was visited stays visited.
pub proof fn lemma_tree_visited_kept(new: &SymbolResolver, old: &SymbolResolver, ast: &Ast, id: int)
    requires
        new.kept(*old),
        spec_tree_visited(old, ast, id),
    ensures
        spec_tree_visited(new, ast, id),
{
    assert forall|c: Seq<int>| #[trigger] operand_path(ast, c) && c[0] == id implies spec_visited(new, c.last()) by {
        assert(spec_visited(old, c.last()));
    }
}

/// An expression visited after all its operands was visited as a tree.
proof fn lemma_tree_visited_up(r: &SymbolResolver, ast: &Ast, id: int)
    requires
        0 <= id < ast.expressions@.len(),
        spec_visited(r, id),
        forall|x: int| #[trigger] operand_of(ast.expressions@[id], x) ==> spec_tree_visited(r, ast, x),
    ensures
        spec_tree_visited(r, ast, id),
{
    assert forall|c: Seq<int>| #[trigger] operand_path(ast, c) && c[0] == id implies spec_visited(r, c.last()) by {
        if c.len() > 1 {
            let t = c.subrange(1, c.len() as int);
            assert(0 <= c[0] < ast.expressions@.len() && operand_of(ast.expressions@[c[0]], c[1]));
            assert forall|k: int| 0 <= k < t.len() - 1 implies 0 <= #[trigger] t[k] < ast.expressions@.len() && operand_of(
                ast.expressions@[t[k]],
                t[k + 1],
            ) by {
                assert(t[k] == c[k + 1] && t[k + 1] == c[k + 2]);
                assert(0 <= c[k + 1] < ast.expressions@.len() && operand_of(ast.expressions@[c[k + 1]], c[k + 2]));
            }
            assert(operand_path(ast, t));
            assert(t[0] == c[1]);
            assert(spec_tree_visited(r, ast, c[1]));
            assert(t.last() == c.last());
        }
    }
}

/// 6.3.1 Binds an identifier to the declaration visible for it (an
/// undeclared one is reported), then types the expression.
fn resolve_bound(r: &mut SymbolResolver, ast: &Ast, node: &ExpressionNode, fuel: usize)
    requires
        old(r).ready(ast),
        node.id < ast.expressions@.len(),
    ensures
        final(r).kept(*old(r)),
        !old(r).sema.expr_bindings.seen@[node.id as int] && fuel > 0 ==> final(r).sema.expr_types.seen@[node.id as int],
        fuel > 0 ==> spec_visited(final(r), node.id as int),
        !old(r).sema.expr_bindings.seen@[node.id as int] && fuel > 0 && ast.expressions@[node.id as int] is Identifier
            ==> final(r).sema.expr_bindings.seen@[node.id as int],
    decreases fuel, 0int,
{
    let ghost r0 = *r;
    if r.sema.expr_bindings.seen(node.id) || fuel == 0 {
        proof {
            r.lemma_frame_refl();
        }
        return;
    }
    if let Expression::Identifier(name) = &ast.expressions[node.id] {
        let sym = r.sema.scopes.lookup_ordinary(name.id);
        proof {
            crate::semantic::resolution::scope::lemma_lookup_in_below(r.sema.scopes@, name.id, r.sema.nsyms(), r.sema.ntags());
        }
        if sym.is_none() {
            r.add_diag(Diag::err((), Diagnosis::UndeclaredIdentifier(*name)), &node.span);
        }
        r.sema.set_binding(node.id, sym);
    }
    let ghost r1 = *r;
    resolve_expression_within(r, ast, node, fuel - 1);
    proof {
        crate::semantic::resolution::resolver::lemma_kept_trans(r0, r1, *r);
    }
}

/// Walks an expression bottom-up: a call of an undeclared identifier first
/// declares it implicitly (6.3.2.2), the operands are visited, then the
/// expression itself is bound and typed.
pub fn visit_expression(r: &mut SymbolResolver, ast: &Ast, node: &ExpressionNode, fuel: usize)
    requires
        old(r).ready(ast),
    ensures
        final(r).kept(*old(r)),
        fuel > 0 && node.id < ast.expressions@.len() ==> spec_tree_visited(final(r), ast, node.id as int),
        fuel > 0 && node.id < ast.expressions@.len() && ast.expressions@[node.id as int] is Identifier
            && !old(r).sema.expr_bindings.seen@[node.id as int] ==> final(r).sema.expr_bindings.seen@[node.id as int]
            && final(r).sema.expr_types.seen@[node.id as int],
        node.id >= ast.expressions@.len() ==> *final(r) == *old(r),
    decreases fuel, 2 * node.id + 1,
{
    let ghost r0 = *r;
    proof {
        r.lemma_frame_refl();
    }
    if node.id >= ast.expressions.len() {
        return;
    }
    proof {
        assert(ast.expressions@[node.id as int].children_below(node.id as int));
    }
    let ghost ex = ast.expressions@[node.id as int];
    match &ast.expressions[node.id] {
        Expression::FunctionCall(f, args) => {
            if f.id < ast.expressions.len() {
                if let Expression::Identifier(fname) = &ast.expressions[f.id] {
                    if r.sema.scopes.lookup_ordinary(fname.id).is_none() {
                        crate::semantic::resolution::declaration::implicit_declare_function(r, fname, &node.span);
                    }
                }
            }
            let ghost r1 = *r;
            visit_expression(r, ast, f, fuel);
            proof {
                crate::semantic::resolution::resolver::lemma_kept_trans(r0, r1, *r);
            }
            let ghost rf = *r;
            visit_all(r, ast, args, node.id, fuel);
            proof {
                if fuel > 0 {
                    assert forall|x: int| #[trigger] operand_of(ex, x) implies spec_tree_visited(r, ast, x) by {
                        if x == f.id {
                            lemma_tree_visited_kept(&*r, &rf, ast, x);
                        } else {
                            let k = choose|k: int| 0 <= k < args@.len() && (#[trigger] args@[k]).id == x;
                            assert(spec_tree_visited(r, ast, args@[k].id as int));
                        }
                    }
                }
            }
        },
        Expression::ConstantExpression(e) | Expression::Unary(_, e) | Expression::SizeofExpr(e) | Expression::Cast(_, e)
        | Expression::Member(_, e, _) => {
            visit_expression(r, ast, e, fuel);
            proof {
                if fuel > 0 {
                    assert forall|x: int| #[trigger] operand_of(ex, x) implies spec_tree_visited(r, ast, x) by {
                        assert(x == e.id);
                    }
                }
            }
        },
        Expression::ArraySubscripting(a, b) | Expression::Binary(_, a, b) | Expression::Assign(_, a, b) => {
            visit_expression(r, ast, a, fuel);
            let ghost r1 = *r;
            visit_expression(r, ast, b, fuel);
            proof {
                crate::semantic::resolution::resolver::lemma_kept_trans(r0, r1, *r);
                if fuel > 0 {
                    lemma_tree_visited_kept(&*r, &r1, ast, a.id as int);
                    assert forall|x: int| #[trigger] operand_of(ex, x) implies spec_tree_visited(r, ast, x) by {
                        assert(x == a.id || x == b.id);
                    }
                }
            }
        },
        Expression::Ternary(a, b, c) => {
            visit_expression(r, ast, a, fuel);
            let ghost r1 = *r;
            visit_expression(r, ast, b, fuel);
            let ghost r2 = *r;
            visit_expression(r, ast, c, fuel);
            proof {
                crate::semantic::resolution::resolver::lemma_kept_trans(r0, r1, r2);
                crate::semantic::resolution::resolver::lemma_kept_trans(r0, r2, *r);
                if fuel > 0 {
                    crate::semantic::resolution::resolver::lemma_kept_trans(r1, r2, *r);
                    lemma_tree_visited_kept(&*r, &r1, ast, a.id as int);
                    lemma_tree_visited_kept(&*r, &r2, ast, b.id as int);
                    assert forall|x: int| #[trigger] operand_of(ex, x) implies spec_tree_visited(r, ast, x) by {
                        assert(x == a.id || x == b.id || x == c.id);
                    }
                }
            }
        },
        Expression::List(es) => {
            visit_all(r, ast, es, node.id, fuel);
            proof {
                if fuel > 0 {
                    assert forall|x: int| #[trigger] operand_of(ex, x) implies spec_tree_visited(r, ast, x) by {
                        let k = choose|k: int| 0 <= k < es@.len() && (#[trigger] es@[k]).id == x;
                        assert(spec_tree_visited(r, ast, es@[k].id as int));
                    }
                }
            }
        },
        _ => {
            proof {
                assert forall|x: int| #[trigger] operand_of(ex, x) implies spec_tree_visited(r, ast, x) by {}
            }
        },
    }
    let ghost r3 = *r;
    resolve_bound(r, ast, node, fuel);
    proof {
        crate::semantic::resolution::resolver::lemma_kept_trans(r0, r3, *r);
        if fuel > 0 {
            assert forall|x: int| #[trigger] operand_of(ex, x) implies spec_tree_visited(r, ast, x) by {
                lemma_tree_visited_kept(&*r, &r3, ast, x);
            }
            lemma_tree_visited_up(&*r, ast, node.id as int);
        }
    }
}

/// Visits each of `nodes`, the operands of expression `parent`.
fn visit_all(r: &mut SymbolResolver, ast: &Ast, nodes: &Vec<ExpressionNode>, parent: usize, fuel: usize)
    requires
        old(r).ready(ast),
        forall|i: int| 0 <= i < nodes@.len() ==> #[trigger] nodes@[i].id < parent,
        parent <= ast.expressions@.len(),
    ensures
        final(r).kept(*old(r)),
        fuel > 0 ==> forall|i: int| 0 <= i < nodes@.len() ==> spec_tree_visited(final(r), ast, #[trigger] nodes@[i].id as int),
    decreases fuel, 2 * parent,
{
    let ghost r0 = *r;
    proof {
        r.lemma_frame_refl();
    }
    let mut i: usize = 0;
    while i < nodes.len()
        invariant
            i <= nodes@.len(),
            r.kept(r0),
            r0.ready(ast),
            parent <= ast.expressions@.len(),
            forall|j: int| 0 <= j < nodes@.len() ==> #[trigger] nodes@[j].id < parent,
            fuel > 0 ==> forall|j: int| 0 <= j < i ==> spec_tree_visited(r, ast, #[trigger] nodes@[j].id as int),
        decreases nodes@.len() - i,
    {
        let ghost ri = *r;
        let n = nodes[i];
        assert(nodes@[i as int].id < parent);
        visit_expression(r, ast, &n, fuel);
        proof {
            crate::semantic::resolution::resolver::lemma_kept_trans(r0, ri, *r);
            if fuel > 0 {
                assert forall|j: int| 0 <= j < i + 1 implies spec_tree_visited(r, ast, #[trigger] nodes@[j].id as int) by {
                    if j < i {
                        lemma_tree_visited_kept(&*r, &ri, ast, nodes@[j].id as int);
                    }
                }
            }
        }
        i += 1;
    }
}

/// 6.4 The value of an integral constant expression: the expression is
/// resolved, then folded, once; a value recorded earlier is given back.
pub fn eval_constant_within(r: &mut SymbolResolver, ast: &Ast, expr: &ExpressionNode, fuel: usize) -> (res: Option<Value>)
    requires
        old(r).ready(ast),
    ensures
        final(r).kept(*old(r)),
        old(r).sema.expr_consts.spec_seen(expr.id) ==> res == old(r).sema.expr_consts.spec_get(expr.id) && *final(r) == *old(r),
        !old(r).sema.expr_consts.spec_seen(expr.id) && fuel > 0 ==> final(r).sema.expr_consts.spec_get(expr.id) == res,
        !old(r).sema.expr_consts.spec_seen(expr.id) && fuel == 0 ==> res is None && *final(r) == *old(r),
        fuel > 0 && expr.id < old(r).sema.expr_consts.data@.len() ==> final(r).sema.expr_consts.spec_seen(expr.id),
    decreases fuel, 0int,
{
    let ghost r0 = *r;
    if r.sema.expr_consts.seen(expr.id) {
        return match r.sema.expr_consts.get(expr.id) {
            Some(v) => Some(*v),
            None => None,
        };
    }
    if fuel == 0 {
        proof {
            r.lemma_frame_refl();
        }
        return None;
    }
    visit_expression(r, ast, expr, fuel - 1);
    let ghost r1 = *r;
    let res = crate::semantic::eval::ice::eval_constant(r, ast, expr);
    proof {
        crate::semantic::resolution::resolver::lemma_kept_trans(r0, r1, *r);
    }
    res
}


impl SymbolResolver {
    /// 6.4 The value of the integral constant expression `expr`: resolved,
    /// folded and recorded once; a value recorded earlier is given back.
    pub fn eval_constant(&mut self, ast: &Ast, expr: &ExpressionNode) -> (res: Option<Value>)
        requires
            old(self).ready(ast),
        ensures
            final(self).kept(*old(self)),
            old(self).sema.expr_consts.spec_seen(expr.id) ==> res == old(self).sema.expr_consts.spec_get(expr.id) && *final(self) == *old(self),
            !old(self).sema.expr_consts.spec_seen(expr.id) ==> final(self).sema.expr_consts.spec_get(expr.id) == res,
            expr.id < old(self).sema.expr_consts.data@.len() ==> final(self).sema.expr_consts.spec_seen(expr.id),
    {
        eval_constant_within(self, ast, expr, NESTING_BUDGET)
    }

    /// Walks expression `node`: binds its identifiers and gives every
    /// sub-expression its type.
    pub fn visit(&mut self, ast: &Ast, node: &ExpressionNode)
        requires
            old(self).ready(ast),
        ensures
            final(self).kept(*old(self)),
            node.id < ast.expressions@.len() ==> spec_tree_visited(final(self), ast, node.id as int),
            node.id >= ast.expressions@.len() ==> *final(self) == *old(self),
    {
        visit_expression(self, ast, node, NESTING_BUDGET)
    }
}

} // verus!
