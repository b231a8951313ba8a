//! Marking the symbols a translation unit uses: those an identifier
//! designates outside the operand of `sizeof`, which is not evaluated.

use vstd::prelude::*;

use crate::ast::{Ast, Expression, ExpressionNode};
use crate::semantic::sema::Sema;

verus! {

/// `old` with at most the `used` flag of some symbols set.
pub open spec fn only_uses_marked(new: &Sema, old: &Sema) -> bool {
    &&& new.symbols.data@.len() == old.symbols.data@.len()
    &&& forall|i: int| 0 <= i < old.symbols.data@.len() ==> {
        let a = #[trigger] new.symbols.data@[i];
        let b = old.symbols.data@[i];
        &&& (crate::semantic::model::symbol::Symbol { used: b.used, ..a }) == b
        &&& (b.used ==> a.used)
    }
}

/// Expression `x` is an operand of `e`.
pub open spec fn operand_of(e: Expression, x: int) -> bool {
    match e {
        Expression::ConstantExpression(a) | Expression::Unary(_, a) | Expression::SizeofExpr(a) | Expression::Cast(_, a)
        | Expression::Member(_, a, _) => a.id == x,
        Expression::ArraySubscripting(a, b) | Expression::Binary(_, a, b) | Expression::Assign(_, a, b) => a.id == x
            || b.id == x,
        Expression::Ternary(a, b, c) => a.id == x || b.id == x || c.id == x,
        Expression::FunctionCall(f, args) => f.id == x || exists|k: int| 0 <= k < args@.len() && (#[trigger] args@[k]).id
            == x,
        Expression::List(es) => exists|k: int| 0 <= k < es@.len() && (#[trigger] es@[k]).id == x,
        _ => false,
    }
}

/// A chain of expressions from a `sizeof` down to one of its operands at
/// any depth, each an operand of the one before.
pub open spec fn sizeof_chain(ast: &Ast, c: Seq<int>) -> bool {
    &&& c.len() >= 2
    &&& forall|k: int| 0 <= k < c.len() - 1 ==> 0 <= #[trigger] c[k] < ast.expressions@.len() && operand_of(
        ast.expressions@[c[k]],
        c[k + 1],
    )
    &&& ast.expressions@[c[0]] is SizeofExpr
}

/// 6.3.3.4 Expression `i` sits in the operand of a `sizeof`, which is not evaluated.
pub open spec fn under_sizeof(ast: &Ast, i: int) -> bool {
    exists|c: Seq<int>| sizeof_chain(ast, c) && c.last() == i
}

/// Flags that are set only for expressions under a `sizeof`.
pub open spec fn flags_sound(ast: &Ast, flags: Seq<bool>) -> bool {
    forall|k: int| 0 <= k < flags.len() && #[trigger] flags[k] ==> under_sizeof(ast, k)
}

/// Symbol `k` is designated by an identifier of `ast` outside any operand of `sizeof`.
pub open spec fn used_outside_sizeof(sema: &Sema, ast: &Ast, k: int) -> bool {
    exists|i: int|
        0 <= i < ast.expressions@.len() && #[trigger] ast.expressions@[i] is Identifier && !under_sizeof(ast, i)
            && sema.expr_bindings.spec_get(i as usize) == Some(k as crate::semantic::model::symbol::SymbolId)
}

/// An operand has a smaller id than its expression.
proof fn lemma_operand_below(ast: &Ast, p: int, x: int)
    requires
        ast.wf(),
        0 <= p < ast.expressions@.len(),
        operand_of(ast.expressions@[p], x),
    ensures
        x < p,
{
    assert(ast.expressions@[p].children_below(p));
    match ast.expressions@[p] {
        Expression::FunctionCall(f, args) => {
            if f.id != x {
                let k = choose|k: int| 0 <= k < args@.len() && (#[trigger] args@[k]).id == x;
                assert(args@[k].id < p);
            }
        },
        Expression::List(es) => {
            let k = choose|k: int| 0 <= k < es@.len() && (#[trigger] es@[k]).id == x;
            assert(es@[k].id < p);
        },
        _ => {},
    }
}

/// Marks, for each identifier outside an operand of `sizeof`, the symbol
/// it was bound to as used. Operands have smaller ids than their
/// expression, so the expressions are walked from the last one down,
/// passing on to the operands whether they sit under a `sizeof`.
pub fn mark_uses(sema: &mut Sema, ast: &Ast)
    requires
        old(sema).wf(),
        ast.wf(),
    ensures
        final(sema).wf(),
        only_uses_marked(final(sema), old(sema)),
        forall|i: int| 0 <= i < ast.expressions@.len() && #[trigger] ast.expressions@[i] is Identifier && !under_sizeof(ast, i)
            && old(sema).expr_bindings.spec_get(i as usize) is Some ==> final(sema).sym(
            old(sema).expr_bindings.spec_get(i as usize)->0,
        ).used,
        final(sema).diagnosis == old(sema).diagnosis,
        final(sema).types == old(sema).types,
        final(sema).tags == old(sema).tags,
        final(sema).scopes == old(sema).scopes,
        final(sema).expr_types == old(sema).expr_types,
        final(sema).expr_bindings == old(sema).expr_bindings,
        final(sema).expr_consts == old(sema).expr_consts,
        final(sema).member_refs == old(sema).member_refs,
        final(sema).target == old(sema).target,
        forall|k: crate::semantic::model::symbol::SymbolId| k < old(sema).nsyms() && #[trigger] final(sema).sym(k).used ==> old(sema).sym(k).used
            || used_outside_sizeof(old(sema), ast, k as int),
        forall|k: crate::semantic::model::symbol::SymbolId| k < old(sema).nsyms() ==> #[trigger] final(sema).sym(k).used == (old(
            sema,
        ).sym(k).used || used_outside_sizeof(old(sema), ast, k as int)),
{
    let n = ast.expressions.len();
    let mut flags: Vec<bool> = Vec::new();
    let mut k: usize = 0;
    while k < n
        invariant
            k <= n,
            flags@.len() == k,
            forall|j: int| 0 <= j < k ==> !#[trigger] flags@[j],
        decreases n - k,
    {
        flags.push(false);
        k += 1;
    }
    let mut i: usize = n;
    while i > 0
        invariant
            i <= n,
            n == ast.expressions@.len(),
            flags@.len() == n,
            flags_sound(ast, flags@),
            ast.wf(),
            sema.wf(),
            only_uses_marked(sema, old(sema)),
            forall|j: int| i <= j < n && #[trigger] ast.expressions@[j] is Identifier && !flags@[j]
                && old(sema).expr_bindings.spec_get(j as usize) is Some ==> sema.sym(
                old(sema).expr_bindings.spec_get(j as usize)->0,
            ).used,
            sema.diagnosis == old(sema).diagnosis,
            sema.types == old(sema).types,
            sema.tags == old(sema).tags,
            sema.scopes == old(sema).scopes,
            sema.expr_types == old(sema).expr_types,
            sema.expr_bindings == old(sema).expr_bindings,
            sema.functions == old(sema).functions,
            sema.externals == old(sema).externals,
            sema.declarations == old(sema).declarations,
            sema.member_refs == old(sema).member_refs,
            sema.expr_consts == old(sema).expr_consts,
            sema.inits == old(sema).inits,
            sema.stmts == old(sema).stmts,
            sema.layouts == old(sema).layouts,
            sema.target == old(sema).target,
            sema.builtins == old(sema).builtins,
            forall|k: crate::semantic::model::symbol::SymbolId| k < old(sema).nsyms() && #[trigger] sema.sym(k).used ==> old(sema).sym(k).used
                || used_outside_sizeof(old(sema), ast, k as int),
            forall|c: Seq<int>, m: int|
                #![trigger sizeof_chain(ast, c), c[m]]
                sizeof_chain(ast, c) && 0 <= m < c.len() - 1 && c[m] >= i ==> flags@[c[m + 1]],
        decreases i,
    {
        i -= 1;
        proof {
            assert(ast.expressions@[i as int].children_below(i as int));
        }
        let skipped = flags[i];
        let ghost flags0 = flags@;
        let ghost sema0 = *sema;
        let ghost mut marked = false;
        match &ast.expressions[i] {
            Expression::SizeofExpr(_) => {
                mark_children(&mut flags, &ast.expressions[i], i);
                proof {
                    marked = true;
                    assert forall|k: int| 0 <= k < flags@.len() && #[trigger] flags@[k] implies under_sizeof(ast, k) by {
                        if !flags0[k] {
                            let c = seq![i as int, k];
                            assert(sizeof_chain(ast, c));
                            assert(c.last() == k);
                        }
                    }
                }
            },
            Expression::Identifier(_) => {
                if !skipped {
                    let bound = match sema.expr_bindings.get(i) {
                        Some(id) => Some(*id),
                        None => None,
                    };
                    if let Some(id) = bound {
                        proof {
                            assert(sema.expr_bindings.data@[i as int] == Some(id));
                        }
                        let mut sym = *sema.symbols.get(id);
                        sym.used = true;
                        let ghost s0 = *sema;
                        sema.symbols.set(id, sym);
                        proof {
                            if under_sizeof(ast, i as int) {
                                let c = choose|c: Seq<int>| sizeof_chain(ast, c) && c.last() == i as int;
                                let m = c.len() - 2;
                                assert(0 <= c[m] < ast.expressions@.len() && operand_of(ast.expressions@[c[m]], c[m + 1]));
                                lemma_operand_below(ast, c[m], c[m + 1]);
                                assert(flags0[c[m + 1]]);
                            }
                            assert(old(sema).expr_bindings.spec_get(i) == Some(id));
                            assert(used_outside_sizeof(old(sema), ast, id as int));
                            assert forall|k: crate::semantic::model::symbol::SymbolId| k < old(sema).nsyms() && #[trigger] sema.sym(k).used implies old(
                                sema,
                            ).sym(k).used || used_outside_sizeof(old(sema), ast, k as int) by {
                                if k != id {
                                    assert(sema.sym(k) == s0.sym(k));
                                }
                            }
                            assert(s0.symbol_ok(s0.symbols.data@[id as int]));
                            assert forall|j: int| 0 <= j < sema.nsyms() implies sema.symbol_ok(#[trigger] sema.symbols.data@[j]) by {
                                assert(s0.symbol_ok(s0.symbols.data@[j]));
                            }
                            sema.lemma_symbols_grown(s0);
                        }
                    }
                }
            },
            _ => {
                if skipped {
                    mark_children(&mut flags, &ast.expressions[i], i);
                    proof {
                        marked = true;
                        assert(under_sizeof(ast, i as int));
                        let c0 = choose|c: Seq<int>| sizeof_chain(ast, c) && c.last() == i as int;
                        assert forall|k: int| 0 <= k < flags@.len() && #[trigger] flags@[k] implies under_sizeof(ast, k) by {
                            if !flags0[k] {
                                let c = c0.push(k);
                                assert(c.last() == k);
                                assert forall|m: int| 0 <= m < c.len() - 1 implies 0 <= #[trigger] c[m] < ast.expressions@.len()
                                    && operand_of(ast.expressions@[c[m]], c[m + 1]) by {
                                    if m < c0.len() - 1 {
                                        assert(c[m] == c0[m] && c[m + 1] == c0[m + 1]);
                                    } else {
                                        assert(c[m] == i as int);
                                    }
                                }
                                assert(sizeof_chain(ast, c));
                            }
                        }
                    }
                }
            },
        }
        proof {
            assert(marked ==> forall|x: int| 0 <= x < flags@.len() && #[trigger] operand_of(ast.expressions@[i as int], x)
                ==> flags@[x]);
            assert(ast.expressions@[i as int] is SizeofExpr ==> marked);
            assert(skipped && !(ast.expressions@[i as int] is Identifier) ==> marked);
            assert forall|c: Seq<int>, m: int|
                #![trigger sizeof_chain(ast, c), c[m]]
                sizeof_chain(ast, c) && 0 <= m < c.len() - 1 && c[m] >= i implies flags@[c[m + 1]] by {
                assert(0 <= c[m] < ast.expressions@.len() && operand_of(ast.expressions@[c[m]], c[m + 1]));
                lemma_operand_below(ast, c[m], c[m + 1]);
                if c[m] > i {
                    assert(flags0[c[m + 1]]);
                } else if m > 0 {
                    assert(0 <= c[m - 1] < ast.expressions@.len() && operand_of(ast.expressions@[c[m - 1]], c[m]));
                    lemma_operand_below(ast, c[m - 1], c[m]);
                    assert(flags0[c[m]]);
                }
            }
        }
    }
    proof {
        assert forall|k: crate::semantic::model::symbol::SymbolId| k < old(sema).nsyms() implies #[trigger] sema.sym(k).used == (old(
            sema,
        ).sym(k).used || used_outside_sizeof(old(sema), ast, k as int)) by {
            if old(sema).sym(k).used {
                assert(sema.symbols.data@[k as int].used);
            }
            if used_outside_sizeof(old(sema), ast, k as int) {
                let j = choose|j: int|
                    0 <= j < ast.expressions@.len() && #[trigger] ast.expressions@[j] is Identifier && !under_sizeof(ast, j)
                        && old(sema).expr_bindings.spec_get(j as usize) == Some(k);
                assert(!flags@[j]);
            }
        }
    }
}

/// Flags the operands of `e`, expression `parent`, as under a `sizeof`.
fn mark_children(flags: &mut Vec<bool>, e: &Expression, parent: usize)
    requires
        e.children_below(parent as int),
        parent <= old(flags)@.len(),
    ensures
        final(flags)@.len() == old(flags)@.len(),
        forall|k: int| 0 <= k < old(flags)@.len() ==> #[trigger] final(flags)@[k] == old(flags)@[k] || (final(flags)@[k]
            && operand_of(*e, k) && k < parent),
        forall|k: int| 0 <= k < old(flags)@.len() && #[trigger] operand_of(*e, k) ==> final(flags)@[k],
{
    match e {
        Expression::ConstantExpression(x) | Expression::Unary(_, x) | Expression::SizeofExpr(x) | Expression::Cast(_, x)
        | Expression::Member(_, x, _) => {
            flags.set(x.id, true);
        },
        Expression::ArraySubscripting(a, b) | Expression::Binary(_, a, b) | Expression::Assign(_, a, b) => {
            flags.set(a.id, true);
            flags.set(b.id, true);
        },
        Expression::Ternary(a, b, c) => {
            flags.set(a.id, true);
            flags.set(b.id, true);
            flags.set(c.id, true);
        },
        Expression::FunctionCall(f, args) => {
            flags.set(f.id, true);
            let ghost mid = flags@;
            mark_all(flags, args, parent);
            proof {
                assert forall|k: int| 0 <= k < old(flags)@.len() implies #[trigger] flags@[k] == old(flags)@[k] || (flags@[k]
                    && operand_of(*e, k) && k < parent) by {
                    if flags@[k] != mid[k] {
                        let j = choose|j: int| 0 <= j < args@.len() && (#[trigger] args@[j]).id == k;
                        assert(args@[j].id == k);
                    }
                }
                assert forall|k: int| 0 <= k < old(flags)@.len() && #[trigger] operand_of(*e, k) implies flags@[k] by {
                    if f.id != k {
                        let j = choose|j: int| 0 <= j < args@.len() && (#[trigger] args@[j]).id == k;
                        assert(flags@[args@[j].id as int]);
                    }
                }
            }
        },
        Expression::List(es) => {
            mark_all(flags, es, parent);
            proof {
                assert forall|k: int| 0 <= k < old(flags)@.len() && #[trigger] operand_of(*e, k) implies flags@[k] by {
                    let j = choose|j: int| 0 <= j < es@.len() && (#[trigger] es@[j]).id == k;
                    assert(flags@[es@[j].id as int]);
                }
            }
        },
        _ => {},
    }
}

/// Flags each of `nodes`, the operands of expression `parent`.
fn mark_all(flags: &mut Vec<bool>, nodes: &Vec<ExpressionNode>, parent: usize)
    requires
        forall|i: int| 0 <= i < nodes@.len() ==> #[trigger] nodes@[i].id < parent,
        parent <= old(flags)@.len(),
    ensures
        final(flags)@.len() == old(flags)@.len(),
        forall|k: int| 0 <= k < old(flags)@.len() ==> #[trigger] final(flags)@[k] == old(flags)@[k] || (final(flags)@[k]
            && (exists|j: int| 0 <= j < nodes@.len() && (#[trigger] nodes@[j]).id == k) && k < parent),
        forall|j: int| 0 <= j < nodes@.len() ==> final(flags)@[#[trigger] nodes@[j].id as int],
{
    let mut i: usize = 0;
    while i < nodes.len()
        invariant
            i <= nodes@.len(),
            flags@.len() == old(flags)@.len(),
            parent <= flags@.len(),
            forall|j: int| 0 <= j < nodes@.len() ==> #[trigger] nodes@[j].id < parent,
            forall|k: int| 0 <= k < old(flags)@.len() ==> #[trigger] flags@[k] == old(flags)@[k] || (flags@[k]
                && (exists|j: int| 0 <= j < i && (#[trigger] nodes@[j]).id == k) && k < parent),
            forall|j: int| 0 <= j < i ==> flags@[#[trigger] nodes@[j].id as int],
        decreases nodes@.len() - i,
    {
        let id = nodes[i].id;
        assert(nodes@[i as int].id < parent);
        flags.set(id, true);
        proof {
            assert(nodes@[i as int].id == id);
        }
        i += 1;
    }
}

} // verus!
