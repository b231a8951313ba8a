//! The passes of the semantic analysis of a translation unit, in order:
//! the tables are made, names are resolved, integral constant expressions
//! are evaluated, and the symbols in use are marked.

use vstd::prelude::*;

use crate::ast::{Ast, Expression, ExpressionNode, ExternalDeclaration};
use crate::semantic::resolution::expression::dispatch::spec_tree_visited_in;
use crate::semantic::resolution::function::{bind_function_parameters, define_function};
use crate::semantic::resolution::resolver::{CurrentFunction, SymbolResolver};
use crate::semantic::resolution::scope::ScopeKind;
use crate::semantic::resolution::uses::mark_uses;
use crate::semantic::sema::Sema;
use crate::target::Target;

verus! {

/// The side tables of `sema` have room for every expression of `ast`.
pub open spec fn sized_for(sema: &Sema, ast: &Ast) -> bool {
    &&& sema.expr_types.data@.len() >= ast.expressions@.len()
    &&& sema.expr_bindings.data@.len() >= ast.expressions@.len()
    &&& sema.expr_consts.data@.len() >= ast.expressions@.len()
    &&& sema.member_refs.data@.len() >= ast.expressions@.len()
}

/// The initializer of init declarator `j` of `d`, when `d` is a declaration.
pub open spec fn spec_initializer(d: ExternalDeclaration, j: int) -> Option<ExpressionNode> {
    match d {
        ExternalDeclaration::Declaration(n) => if 0 <= j < n.init_declarators@.len() {
            n.init_declarators@[j].initializer
        } else {
            None
        },
        _ => None,
    }
}

/// Every initializer of a declaration among `unit` that is a node of `ast`
/// was visited in `sema`, with every expression below it.
pub open spec fn initializers_visited(sema: &Sema, ast: &Ast, unit: Seq<ExternalDeclaration>) -> bool {
    forall|i: int, j: int|
        0 <= i < unit.len() && #[trigger] spec_initializer(unit[i], j) is Some && spec_initializer(unit[i], j)->0.id
            < ast.expressions@.len() ==> spec_tree_visited_in(sema, ast, spec_initializer(unit[i], j)->0.id as int)
}

/// Every integral constant expression of `ast` has its value recorded in `sema`.
pub open spec fn constants_recorded(sema: &Sema, ast: &Ast) -> bool {
    forall|i: int| 0 <= i < ast.expressions@.len() && #[trigger] ast.expressions@[i] is ConstantExpression
        ==> sema.expr_consts.spec_seen(i as usize)
}

/// The passes of the analysis.
pub struct Analyzer;

impl Analyzer {
    /// Runs the passes on the translation unit `unit` of `ast` for `target`.
    pub fn analyze(target: Target, ast: &Ast, unit: &Vec<ExternalDeclaration>) -> (s: Sema)
        requires
            target.wf(),
            ast.wf(),
        ensures
            s.wf(),
            s.target == target,
            s.scopes@.len() == 0,
            sized_for(&s, ast),
            initializers_visited(&s, ast, unit@),
            constants_recorded(&s, ast),
    {
        let sema = Self::init(target, ast);
        let sema = Self::resolve_names(sema, ast, unit);
        let sema = Self::check_constants(sema, ast);
        Self::mark_uses(sema, ast)
    }

    /// A new analysis for `target` with tables sized for `ast`.
    pub fn init(target: Target, ast: &Ast) -> (s: Sema)
        requires
            target.wf(),
        ensures
            s.wf(),
            s.target == target,
            s.builtins.fresh(),
            s.diagnosis@.len() == 0,
            s.symbols.data@.len() == 0,
            s.tags.data@.len() == 0,
            s.scopes@.len() == 0,
            sized_for(&s, ast),
    {
        let mut sema = Sema::new(target);
        sema.size_tables(ast.expressions.len(), 0);
        sema
    }

    /// Resolves the names of `unit` in a file scope, which is closed again:
    /// declarations are declared and their initializers visited; a
    /// function definition is declared and its parameters bound.
    pub fn resolve_names(sema: Sema, ast: &Ast, unit: &Vec<ExternalDeclaration>) -> (s: Sema)
        requires
            sema.wf(),
            ast.wf(),
            sema.scopes@.len() == 0,
            sized_for(&sema, ast),
        ensures
            s.wf(),
            s.target == sema.target,
            s.scopes@.len() == 0,
            sized_for(&s, ast),
            initializers_visited(&s, ast, unit@),
    {
        let mut r = SymbolResolver::new(sema);
        r.enter_scope(ScopeKind::File);
        let ghost r0 = r;
        let mut i: usize = 0;
        while i < unit.len()
            invariant
                i <= unit@.len(),
                r.kept(r0),
                r0.ready(ast),
                r.f is None,
                r.gotos@.len() == 0,
                r.sema.target == sema.target,
                initializers_visited(&r.sema, ast, unit@.take(i as int)),
            decreases unit@.len() - i,
        {
            let ghost ri = r;
            match &unit[i] {
                ExternalDeclaration::Declaration(d) => {
                    r.visit_declaration(ast, d);
                },
                ExternalDeclaration::FunctionDefinition(f) => {
                    Self::resolve_function(&mut r, ast, f);
                },
            }
            proof {
                crate::semantic::resolution::resolver::lemma_kept_trans(r0, ri, r);
                assert forall|a: int, j: int|
                    0 <= a < unit@.take(i + 1).len() && #[trigger] spec_initializer(unit@.take(i + 1)[a], j) is Some
                        && spec_initializer(unit@.take(i + 1)[a], j)->0.id < ast.expressions@.len() implies spec_tree_visited_in(
                    &r.sema,
                    ast,
                    spec_initializer(unit@.take(i + 1)[a], j)->0.id as int,
                ) by {
                    let e = spec_initializer(unit@.take(i + 1)[a], j)->0;
                    if a < i {
                        assert(unit@.take(i + 1)[a] == unit@.take(i as int)[a]);
                        assert(spec_tree_visited_in(&ri.sema, ast, e.id as int));
                        crate::semantic::resolution::expression::dispatch::lemma_tree_visited_kept(&r, &ri, ast, e.id as int);
                    } else {
                        assert(unit@.take(i + 1)[a] == unit@[i as int]);
                        let n = unit@[i as int]->Declaration_0;
                        assert(0 <= j < n.init_declarators@.len());
                        assert((#[trigger] n.init_declarators@[j]).initializer == Some(e));
                    }
                }
            }
            i += 1;
        }
        proof {
            assert(unit@.take(i as int) =~= unit@);
        }
        r.leave_scope();
        r.sema
    }

    /// Declares the function `node` defines and binds its parameters in
    /// their own scope, checking its `goto`s against its labels.
    fn resolve_function(r: &mut SymbolResolver, ast: &Ast, node: &crate::ast::FunctionDefinitionNode)
        requires
            old(r).ready(ast),
            old(r).f is None,
            old(r).gotos@.len() == 0,
        ensures
            final(r).kept(*old(r)),
            final(r).sema.target == old(r).sema.target,
    {
        let ghost r0 = *r;
        let header = match define_function(r, ast, node) {
            Some(h) => h,
            None => return,
        };
        let ghost r1 = *r;
        r.f = Some(CurrentFunction { def: header.id, return_ty: header.return_ty });
        let ghost r2 = *r;
        bind_function_parameters(r, ast, node, &header);
        let ghost r3 = *r;
        r.resolve_gotos();
        let ghost r4 = *r;
        r.leave_scope();
        r.f = None;
        proof {
            assert(r.gotos@ =~= r1.gotos@);
            assert(r4.sema.same_except(r3.sema, false, false, false));
            assert(r.sema.same_except(r3.sema, false, false, true));
            crate::semantic::resolution::resolver::lemma_kept_closed(*r, r3, r2, r1);
            crate::semantic::resolution::resolver::lemma_kept_trans(r0, r1, *r);
        }
    }

    /// Evaluates every integral constant expression of `ast`, in the order
    /// of the nodes, recording its value.
    pub fn check_constants(sema: Sema, ast: &Ast) -> (s: Sema)
        requires
            sema.wf(),
            ast.wf(),
            sema.scopes@.len() == 0,
            sized_for(&sema, ast),
        ensures
            s.wf(),
            s.target == sema.target,
            s.scopes@.len() == 0,
            sized_for(&s, ast),
            constants_recorded(&s, ast),
            crate::semantic::resolution::resolver::seen_kept(s.expr_types.seen@, sema.expr_types.seen@),
            crate::semantic::resolution::resolver::seen_kept(s.expr_bindings.seen@, sema.expr_bindings.seen@),
    {
        let mut r = SymbolResolver::new(sema);
        r.enter_scope(ScopeKind::File);
        let ghost r0 = r;
        let mut i: usize = 0;
        while i < ast.expressions.len()
            invariant
                i <= ast.expressions@.len(),
                r.kept(r0),
                r0.ready(ast),
                r.sema.target == sema.target,
                forall|k: int| 0 <= k < i && #[trigger] ast.expressions@[k] is ConstantExpression
                    ==> r.sema.expr_consts.spec_seen(k as usize),
            decreases ast.expressions@.len() - i,
        {
            if let Expression::ConstantExpression(inner) = &ast.expressions[i] {
                let ghost ri = r;
                let node = ExpressionNode { id: i, span: inner.span };
                crate::semantic::eval::ice::eval_constant(&mut r, ast, &node);
                proof {
                    crate::semantic::resolution::resolver::lemma_kept_trans(r0, ri, r);
                }
            }
            i += 1;
        }
        r.leave_scope();
        r.sema
    }

    /// Marks the symbols the translation unit uses.
    pub fn mark_uses(sema: Sema, ast: &Ast) -> (s: Sema)
        requires
            sema.wf(),
            ast.wf(),
        ensures
            s.wf(),
            s.target == sema.target,
            s.scopes == sema.scopes,
            s.expr_types == sema.expr_types,
            s.expr_bindings == sema.expr_bindings,
            s.expr_consts == sema.expr_consts,
            s.member_refs == sema.member_refs,
            s.diagnosis == sema.diagnosis,
    {
        let mut s = sema;
        mark_uses(&mut s, ast);
        s
    }
}

} // verus!
