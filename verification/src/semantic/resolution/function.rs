//! Function definitions (6.7.1): the symbol a definition declares and the
//! parameters bound in the scope of its body.

use vstd::prelude::*;

use crate::ast::{Ast, DeclarationNode, DeclarationSpecifier, Declarator, DeclaratorNode, FunctionDefinitionNode, Name,
    Span, Storage};
use crate::semantic::constrain::declaration::{get_storage, storages};
use crate::semantic::constrain::external::{
    check_external_specifiers, check_function_storage, check_void_parameter, extract_function_declarator,
    is_valid_old_style, is_valid_parameter_style, param_storage_only_register,
};
use crate::semantic::constrain::parameter::check_complete_parameter;
use crate::semantic::diagnosis::{recorded, Diag, DiagCollector, Diagnosis, DiagnosisNode};
use crate::semantic::model::function_def::{DeclaredParams, FunctionDefId, ParamInfo, ParamTypes};
use crate::semantic::model::resolved_type::{compatible, spec_promoted, QualifiedType, ResolvedType, ResolvedTypeArena};
use crate::semantic::model::symbol::{Definition, Symbol, SymbolId, SymbolKind};
use crate::semantic::resolution::declaration::{base_type, declared_function, declared_type, ident, params_ok, reported_last, spec_declares_function, spec_gives_type, spec_ident, spec_leaf};
use crate::semantic::resolution::resolver::{lemma_kept_frame, lemma_kept_trans, spec_current, SymbolResolver};
use crate::semantic::resolution::scope::ScopeKind;
use crate::semantic::sema::Sema;

verus! {

/// What the definition of a function gives its body: the definition, the
/// parameters its declarator declares, the parameter types of a prior
/// declaration of the same function, and the return type.
pub struct FunctionHeader {
    pub id: FunctionDefId,
    pub params: DeclaredParams,
    pub declared: Option<ParamTypes>,
    pub return_ty: QualifiedType,
}

impl Sema {
    /// A new definition of the function `sym`, without parameters yet.
    pub fn declare_function(&mut self, sym: SymbolId) -> (id: FunctionDefId)
        requires
            old(self).wf(),
            sym < old(self).nsyms(),
        ensures
            final(self).wf(),
            id == old(self).functions.data@.len(),
            final(self).functions.data@.len() == old(self).functions.data@.len() + 1,
            final(self).functions.data@[id as int].sym == sym,
            !final(self).functions.data@[id as int].is_complete,
            final(self).functions.data@[id as int].parameters@.len() == 0,
            final(self).same_tables_but_functions(*old(self)),
            final(self).diagnosis == old(self).diagnosis,
    {
        let id = self.functions.declare(sym);
        proof {
            assert forall|i: int| 0 <= i < self.functions.data@.len() implies {
                &&& (#[trigger] self.functions.data@[i]).sym < self.nsyms()
                &&& forall|j: int| 0 <= j < self.functions.data@[i].parameters@.len() ==> #[trigger] self.functions.data@[i].parameters@[j] < self.nsyms()
            } by {
                if i < old(self).functions.data@.len() {
                    assert(self.functions.data@[i] == self.functions.data@.drop_last()[i]);
                }
            }
        }
        id
    }

    /// Gives definition `id` its parameters and marks it complete.
    pub fn complete_function(&mut self, id: FunctionDefId, parameters: Vec<SymbolId>)
        requires
            old(self).wf(),
            id < old(self).functions.data@.len(),
            forall|i: int| 0 <= i < parameters@.len() ==> #[trigger] parameters@[i] < old(self).nsyms(),
        ensures
            final(self).wf(),
            final(self).functions.data@.len() == old(self).functions.data@.len(),
            final(self).functions.data@[id as int].parameters@ == parameters@,
            final(self).functions.data@[id as int].is_complete,
            final(self).functions.data@[id as int].sym == old(self).functions.data@[id as int].sym,
            final(self).same_tables_but_functions(*old(self)),
            final(self).diagnosis == old(self).diagnosis,
    {
        self.functions.complete(id, parameters);
        proof {
            assert forall|i: int| 0 <= i < self.functions.data@.len() implies {
                &&& (#[trigger] self.functions.data@[i]).sym < self.nsyms()
                &&& forall|j: int| 0 <= j < self.functions.data@[i].parameters@.len() ==> #[trigger] self.functions.data@[i].parameters@[j] < self.nsyms()
            } by {
                assert(old(self).functions_wf());
            }
        }
    }
}

/// The identifier a declarator declares, found by walking it inwards.
pub fn declarator_name(ast: &Ast, node: &DeclaratorNode) -> (r: Option<Name>)
    requires
        ast.wf(),
    ensures
        r == spec_ident(ast, spec_leaf(ast, *node)),
    decreases node.id,
{
    if node.id >= ast.declarators.len() {
        return None;
    }
    proof {
        assert(ast.declarators@[node.id as int].inner_below(node.id as int));
    }
    match &ast.declarators[node.id] {
        Declarator::Ident(name) => Some(*name),
        Declarator::Pointer { inner, .. } => declarator_name(ast, inner),
        Declarator::Array { declarator, .. } | Declarator::Function { declarator, .. } => declarator_name(ast, declarator),
        Declarator::Abstract => None,
    }
}

/// The parameter types of the function type of symbol `sym`, if it has one.
fn param_types(sema: &Sema, sym: SymbolId) -> (r: Option<ParamTypes>)
    requires
        sema.wf(),
        sym < sema.nsyms(),
    ensures
        r matches Some(p) ==> p.refs_below(sema.ntypes()),
{
    proof {
        assert(sema.symbol_ok(sema.symbols.data@[sym as int]));
    }
    let ty = match sema.symbols.get(sym).ty {
        Some(t) => t,
        None => return None,
    };
    match sema.types.get(ty.id) {
        ResolvedType::Function { params, .. } => {
            proof {
                assert(sema.ty(ty.id).refs_below(ty.id as int));
            }
            let p = params.clone_params();
            proof {
                if p is Prototype {
                    let ps = p->Prototype_params;
                    let qs = params->Prototype_params;
                    assert forall|i: int| 0 <= i < ps@.len() implies #[trigger] ps@[i].id < sema.ntypes() by {
                        assert(ps@ == qs@);
                        assert(qs@[i].id < ty.id);
                    }
                }
            }
            Some(p)
        },
        _ => None,
    }
}

/// The function type `ty` with the parameters `params` in place of its own.
fn with_param_types(sema: &mut Sema, ty: QualifiedType, params: ParamTypes) -> (q: QualifiedType)
    requires
        old(sema).wf(),
        old(sema).qt_ok(ty),
        params.refs_below(old(sema).ntypes()),
    ensures
        final(sema).wf(),
        final(sema).types_grown(*old(sema)),
        final(sema).qt_ok(q),
        !(old(sema).ty(ty.id) is Function) ==> q == ty,
        old(sema).ty(ty.id) matches ResolvedType::Function { ret, .. } ==> (final(sema).ty(q.id) matches ResolvedType::Function {
            ret: r2,
            ..
        } && r2 == ret),
{
    let ret = match sema.types.get(ty.id) {
        ResolvedType::Function { ret, .. } => *ret,
        _ => {
            proof {
                sema.lemma_frame_refl();
            }
            return ty;
        },
    };
    proof {
        assert(sema.ty(ty.id).refs_below(ty.id as int));
    }
    let id = sema.function_type(ret, params);
    QualifiedType::new(id, ty.is_const, ty.is_volatile)
}

/// 6.7.1 Declares the function a definition defines: the declarator shall
/// declare a function, whose storage class is `extern` or `static` and
/// whose return type is void or complete. A definition with an identifier
/// list takes the parameter types of a prior prototype of the function.
#[verifier::rlimit(100)]
#[verifier::spinoff_prover]
pub fn define_function(r: &mut SymbolResolver, ast: &Ast, node: &FunctionDefinitionNode) -> (res: Option<FunctionHeader>)
    requires
        old(r).ready(ast),
    ensures
        final(r).kept(*old(r)),
        res matches Some(h) ==> {
            &&& h.id < final(r).sema.functions.data@.len()
            &&& final(r).sema.functions.data@[h.id as int].sym < final(r).sema.nsyms()
            &&& final(r).sema.qt_ok(h.return_ty)
            &&& params_ok(&final(r).sema, h.params)
            &&& h.declared matches Some(p) ==> p.refs_below(final(r).sema.ntypes())
        },
        res matches Some(h) ==> {
            &&& h.id == final(r).sema.functions.data@.len() - 1
            &&& !final(r).sema.functions.data@[h.id as int].is_complete
            &&& final(r).sema.functions.data@[h.id as int].parameters@.len() == 0
            &&& spec_declares_function(ast, node.declarator)
            &&& spec_ident(ast, spec_leaf(ast, node.declarator)) matches Some(name) && spec_current(
                &final(r).sema,
                SymbolKind::Function,
                name.id,
            ) == Some(final(r).sema.functions.data@[h.id as int].sym)
        },
        spec_gives_type(old(r), ast, node.specifiers@) ==> (res is Some <==> spec_declares_function(ast, node.declarator)
            && spec_ident(ast, spec_leaf(ast, node.declarator)) is Some),
        spec_gives_type(old(r), ast, node.specifiers@) && !spec_declares_function(ast, node.declarator) ==> reported_last(
            final(r).sema.diagnosis@,
            Some(Diagnosis::NotFunctionTypeDeclarator),
            node.declarator.span,
        ),
        (res is Some && storages(node.specifiers@).len() > 0 && storages(node.specifiers@)[0] != Storage::Static
            && storages(node.specifiers@)[0] != Storage::Extern) ==> exists|k: int|
            old(r).sema.diagnosis@.len() <= k < final(r).sema.diagnosis@.len() && #[trigger] final(r).sema.diagnosis@[k]
                == (DiagnosisNode { span: node.span, inner: Diagnosis::FunctionAutoExtern }),
{
    let ghost r0 = *r;
    let span = &node.span;
    let decl_span = &node.declarator.span;
    let qualif = base_type(r, ast, node.specifiers.as_slice(), span);
    let ghost r1 = *r;
    let declared_fn = declared_function(r, ast, qualif, &node.declarator);
    proof {
        lemma_kept_trans(r0, r1, *r);
    }
    let (rty, decl, params) = match declared_fn {
        Some(d) => d,
        None => return None,
    };
    let ghost r2 = *r;
    let params = match extract_function_declarator(params).collect(r, decl_span) {
        Some(p) => p,
        None => {
            proof {
                lemma_kept_frame(*r, r2);
                lemma_kept_trans(r0, r2, *r);
            }
            return None;
        },
    };
    let declared_storage = get_storage(node.specifiers.as_slice()).collect(r, span);
    let storage = match declared_storage {
        Some(s) => s,
        None => Storage::Extern,
    };
    let ghost auto_at = r.sema.diagnosis@.len() as int;
    check_function_storage(storage).collect(r, span);
    let ghost r_auto = *r;
    check_external_specifiers(node.specifiers.as_slice()).collect(r, span);
    proof {
        lemma_kept_frame(*r, r2);
        lemma_kept_trans(r0, r2, *r);
    }
    let name = match ident(ast, &decl) {
        Some(n) => n,
        None => return None,
    };
    let ghost r3 = *r;
    let previous = r.sema.scopes.current(SymbolKind::Function, name.id);
    proof {
        assert(crate::semantic::resolution::scope::scope_refs_below(r.sema.scopes.0@[r.sema.scopes@.len() - 1], r.sema.nsyms(), r.sema.ntags()));
    }
    let declared = match previous {
        Some(id) => param_types(&r.sema, id),
        None => None,
    };
    let is_prototype = matches!(params, DeclaredParams::Prototype { .. });
    let ty = match &declared {
        Some(d) => if !is_prototype {
            with_param_types(&mut r.sema, rty, d.clone_params())
        } else {
            rty
        },
        None => rty,
    };
    let ghost r4 = *r;
    proof {
        assert forall|i: int| 0 <= i < r3.sema.ntypes() implies #[trigger] r4.sema.types.data@[i] == r3.sema.types.data@[i] by {}
        lemma_kept_trans(r0, r3, r4);
        crate::semantic::resolution::declaration::lemma_params_ok_grown_pub(&r4.sema, &r3.sema, params);
    }
    let return_ty = match r.sema.types.get(ty.id) {
        ResolvedType::Function { ret, .. } => *ret,
        _ => return None,
    };
    proof {
        assert(r.sema.ty(ty.id).refs_below(ty.id as int));
    }
    let complete = return_ty.is_void(&r.sema) || return_ty.is_complete(&r.sema);
    if !complete {
        r.add_diag(Diag::err((), Diagnosis::IncompleteReturn(return_ty)), decl_span);
    }
    let prior = r.sema.linkage_of_name(name.id);
    let scope_kind = r.sema.scopes.kind();
    let linkage = Symbol::linkage_of(scope_kind, declared_storage, SymbolKind::Function, prior);
    let mut sym = Symbol::function(name, ty, storage);
    sym.linkage = linkage;
    sym.definition = Definition::Definition;
    proof {
        lemma_kept_frame(*r, r4);
        lemma_kept_trans(r0, r4, *r);
    }
    let ghost r5 = *r;
    let sym_id = r.declare(sym, decl_span);
    let ghost r6 = *r;
    proof {
        lemma_kept_trans(r0, r5, r6);
    }
    let declared = if previous == Some(sym_id) {
        declared
    } else {
        None
    };
    let id = r.sema.declare_function(sym_id);
    proof {
        crate::semantic::resolution::resolver::lemma_kept_same_types(*r, r6);
        lemma_kept_trans(r0, r6, *r);
        crate::semantic::resolution::declaration::lemma_params_ok_grown_pub(&r.sema, &r4.sema, params);
        if storages(node.specifiers@).len() > 0 && storages(node.specifiers@)[0] != Storage::Static
            && storages(node.specifiers@)[0] != Storage::Extern {
            assert(r_auto.sema.diagnosis@[auto_at] == (DiagnosisNode { span: node.span, inner: Diagnosis::FunctionAutoExtern }));
            lemma_kept_frame(r3, r_auto);
            lemma_kept_trans(r_auto, r3, r4);
            lemma_kept_trans(r_auto, r4, r5);
            lemma_kept_trans(r_auto, r5, r6);
            lemma_kept_trans(r_auto, r6, *r);
            assert(r.sema.diagnosis@[auto_at] == r_auto.sema.diagnosis@[auto_at]);
        }
    }
    Some(FunctionHeader { id, params, declared, return_ty })
}


/// `parameters` are all existing symbols.
pub open spec fn syms_ok(sema: &Sema, parameters: Seq<SymbolId>) -> bool {
    forall|i: int| 0 <= i < parameters.len() ==> #[trigger] parameters[i] < sema.nsyms()
}

/// 6.7.1 A definition whose declarator gives no parameters has no declaration list.
fn param_empty(r: &mut SymbolResolver, lst: &Vec<DeclarationNode>, span: &Span) -> (ps: Vec<SymbolId>)
    requires
        old(r).wf(),
    ensures
        final(r).kept(*old(r)),
        ps@.len() == 0,
{
    if lst.len() > 0 {
        r.add_diag(Diag::err((), Diagnosis::ParameterTypeListWithList), span);
    }
    proof {
        lemma_kept_frame(*r, *old(r));
    }
    Vec::new()
}

/// Declares the parameter `param`, when it is named.
fn add_parameter(r: &mut SymbolResolver, param: &ParamInfo) -> (id: Option<SymbolId>)
    requires
        old(r).wf(),
        old(r).sema.scopes@.len() > 0,
        old(r).sema.qt_ok(param.ty),
    ensures
        final(r).kept(*old(r)),
        id matches Some(s) ==> s < final(r).sema.nsyms(),
        param.name is None ==> id is None,
{
    let name = match param.name {
        Some(n) => n,
        None => {
            proof {
                lemma_kept_frame(*r, *old(r));
            }
            return None;
        },
    };
    let storage = match param.storage {
        Some(s) => s,
        None => Storage::Auto,
    };
    let sym = Symbol::parameter(name, param.ty, storage);
    let id = r.declare(sym, &name.span);
    proof {
        assert forall|i: int| 0 <= i < old(r).sema.ntypes() implies #[trigger] r.sema.types.data@[i] == old(r).sema.types.data@[i] by {}
    }
    Some(id)
}

/// 6.7.1 The parameters of a prototype definition: each named, no
/// declaration list, none void, each of complete type. The named ones are
/// declared.
fn param_prototype(r: &mut SymbolResolver, params: &Vec<ParamInfo>, lst: &Vec<DeclarationNode>, span: &Span) -> (ps: Vec<SymbolId>)
    requires
        old(r).wf(),
        old(r).sema.scopes@.len() > 0,
        forall|i: int| 0 <= i < params@.len() ==> old(r).sema.qt_ok(#[trigger] params@[i].ty),
    ensures
        final(r).kept(*old(r)),
        syms_ok(&final(r).sema, ps@),
{
    let ghost r0 = *r;
    if !is_valid_parameter_style(params.as_slice(), lst.as_slice()).collect(r, span) {
        proof {
            lemma_kept_frame(*r, r0);
        }
        return Vec::new();
    }
    if params.len() == 1 {
        let only = params[0];
        let is_void = matches!(r.sema.types.get(only.ty.id), ResolvedType::Void);
        check_void_parameter(is_void).collect(r, &only.span);
    }
    let mut i: usize = 0;
    while i < params.len()
        invariant
            i <= params@.len(),
            r.sema.frame(r0.sema),
            r.own_state_kept(r0),
            r0.wf(),
            crate::semantic::resolution::resolver::diags_extend(r.sema.diagnosis@, r0.sema.diagnosis@),
            forall|j: int| 0 <= j < params@.len() ==> r0.sema.qt_ok(#[trigger] params@[j].ty),
        decreases params@.len() - i,
    {
        let param = params[i];
        proof {
            assert(r0.sema.qt_ok(params@[i as int].ty));
            lemma_kept_frame(*r, r0);
        }
        if !param.ty.is_void(&r.sema) {
            let complete = param.ty.is_complete(&r.sema);
            check_complete_parameter(complete, param.ty).collect(r, &param.span);
        }
        i += 1;
    }
    proof {
        lemma_kept_frame(*r, r0);
    }
    let mut out: Vec<SymbolId> = Vec::new();
    let mut k: usize = 0;
    while k < params.len()
        invariant
            k <= params@.len(),
            r.kept(r0),
            r0.sema.scopes@.len() > 0,
            forall|j: int| 0 <= j < params@.len() ==> r0.sema.qt_ok(#[trigger] params@[j].ty),
            syms_ok(&r.sema, out@),
        decreases params@.len() - k,
    {
        let ghost rk = *r;
        proof {
            assert(r0.sema.qt_ok(params@[k as int].ty));
        }
        if let Some(id) = add_parameter(r, &params[k]) {
            out.push(id);
        }
        proof {
            lemma_kept_trans(r0, rk, *r);
        }
        k += 1;
    }
    out
}

/// 6.7.1 Declares a parameter from a declaration of the list following an
/// identifier list: its storage class may only be `register`, and its
/// type, adjusted, shall be complete.
fn add_parameter_declarator(
    r: &mut SymbolResolver,
    ast: &Ast,
    specifiers: &Vec<DeclarationSpecifier>,
    decl: &DeclaratorNode,
    span: &Span,
) -> (id: Option<SymbolId>)
    requires
        old(r).ready(ast),
    ensures
        final(r).kept(*old(r)),
        id matches Some(s) ==> s < final(r).sema.nsyms(),
{
    let ghost r0 = *r;
    let qualif = base_type(r, ast, specifiers.as_slice(), span);
    let ghost r1 = *r;
    let declared = declared_type(r, ast, qualif, decl);
    proof {
        lemma_kept_trans(r0, r1, *r);
    }
    let (ty, core) = match declared {
        Some(d) => d,
        None => return None,
    };
    let ghost r2 = *r;
    let ty = r.sema.adjust_parameter(ty);
    let declared_storage = get_storage(specifiers.as_slice()).collect(r, span);
    if let Some(st) = declared_storage {
        if param_storage_only_register(st).collect(r, span).is_none() {
            proof {
                lemma_kept_trans(r0, r2, *r);
            }
            return None;
        }
    }
    let name = match ident(ast, &core) {
        Some(n) => n,
        None => {
            proof {
                lemma_kept_trans(r0, r2, *r);
            }
            return None;
        },
    };
    if !ty.is_void(&r.sema) {
        let complete = ty.is_complete(&r.sema);
        check_complete_parameter(complete, ty).collect(r, &core.span);
    }
    let storage = match declared_storage {
        Some(s) => s,
        None => Storage::Auto,
    };
    proof {
        lemma_kept_trans(r0, r2, *r);
    }
    let ghost r3 = *r;
    let id = r.declare(Symbol::parameter(name, ty, storage), &core.span);
    proof {
        assert forall|i: int| 0 <= i < r3.sema.ntypes() implies #[trigger] r.sema.types.data@[i] == r3.sema.types.data@[i] by {}
        lemma_kept_trans(r0, r3, *r);
    }
    Some(id)
}

/// The symbols the identifiers `names` designate in the scopes of `sema`,
/// in order, leaving out those that designate none.
pub open spec fn spec_looked_up(sema: &Sema, names: Seq<Name>) -> Seq<SymbolId>
    decreases names.len(),
{
    if names.len() == 0 {
        Seq::empty()
    } else {
        let p = spec_looked_up(sema, names.drop_last());
        match crate::semantic::resolution::scope::lookup_in(sema.scopes@, names.last().id) {
            Some(id) => p.push(id),
            None => p,
        }
    }
}

/// 6.7.1 The parameters of an identifier-list definition: the declarations
/// that follow declare them (only identifiers of the list, each once);
/// those left undeclared are int. The list's identifiers are looked up in
/// order.
fn param_old_style(r: &mut SymbolResolver, ast: &Ast, names: &Vec<Name>, lst: &Vec<DeclarationNode>, span: &Span) -> (ps: Vec<SymbolId>)
    requires
        old(r).ready(ast),
    ensures
        final(r).kept(*old(r)),
        syms_ok(&final(r).sema, ps@),
        ps@ == spec_looked_up(&final(r).sema, names@) || (ps@.len() == 0 && old(r).sema.diagnosis@.len()
            < final(r).sema.diagnosis@.len()),
{
    let ghost r0 = *r;
    let mut declarations: Vec<Option<crate::ast::StringId>> = Vec::new();
    let mut d: usize = 0;
    while d < lst.len()
        invariant
            d <= lst@.len(),
            r.kept(r0),
            r0.ready(ast),
        decreases lst@.len() - d,
    {
        let dn = &lst[d];
        let mut k: usize = 0;
        while k < dn.init_declarators.len()
            invariant
                k <= dn.init_declarators@.len(),
                d < lst@.len(),
                *dn == lst@[d as int],
                r.kept(r0),
                r0.ready(ast),
            decreases dn.init_declarators@.len() - k,
        {
            let ghost rk = *r;
            let added = add_parameter_declarator(r, ast, &dn.specifiers, &dn.init_declarators[k].declarator, &dn.span);
            proof {
                lemma_kept_trans(r0, rk, *r);
            }
            match added {
                Some(id) => declarations.push(Some(r.sema.symbols.get(id).name.id)),
                None => declarations.push(None),
            }
            k += 1;
        }
        d += 1;
    }
    let mut names_id: Vec<crate::ast::StringId> = Vec::new();
    let mut n: usize = 0;
    while n < names.len()
        invariant
            n <= names@.len(),
        decreases names@.len() - n,
    {
        names_id.push(names[n].id);
        n += 1;
    }
    let ghost r1 = *r;
    let missing = match is_valid_old_style(names_id.as_slice(), declarations).collect(r, span) {
        Some(m) => m,
        None => {
            proof {
                lemma_kept_frame(*r, r1);
                lemma_kept_trans(r0, r1, *r);
            }
            return Vec::new();
        },
    };
    proof {
        lemma_kept_frame(*r, r1);
        lemma_kept_trans(r0, r1, *r);
    }
    let int_ty = QualifiedType::plain(r.sema.builtins.int);
    let mut m: usize = 0;
    while m < missing.len()
        invariant
            m <= missing@.len(),
            r.kept(r0),
            r0.ready(ast),
            int_ty.id == r.sema.builtins.int,
        decreases missing@.len() - m,
    {
        let ghost rm = *r;
        let name = Name::new(missing[m], Span::none());
        r.declare(Symbol::parameter(name, int_ty, Storage::Auto), &Span::none());
        proof {
            assert forall|i: int| 0 <= i < rm.sema.ntypes() implies #[trigger] r.sema.types.data@[i] == rm.sema.types.data@[i] by {}
            lemma_kept_trans(r0, rm, *r);
        }
        m += 1;
    }
    let mut out: Vec<SymbolId> = Vec::new();
    let mut j: usize = 0;
    while j < names.len()
        invariant
            j <= names@.len(),
            r.wf(),
            syms_ok(&r.sema, out@),
            out@ == spec_looked_up(&r.sema, names@.take(j as int)),
        decreases names@.len() - j,
    {
        proof {
            assert(names@.take(j as int + 1).drop_last() =~= names@.take(j as int));
            assert(names@.take(j as int + 1).last() == names@[j as int]);
        }
        let nid = names[j].id;
        let found = r.sema.scopes.lookup_ordinary(nid);
        proof {
            crate::semantic::resolution::scope::lemma_lookup_in_below(r.sema.scopes@, nid, r.sema.nsyms(), r.sema.ntags());
        }
        if let Some(id) = found {
            out.push(id);
        }
        j += 1;
    }
    proof {
        assert(names@.take(names@.len() as int) =~= names@);
    }
    out
}

/// The declared types of the symbols `params`, when each has one.
pub open spec fn spec_declared_types(sema: &Sema, params: Seq<SymbolId>) -> Option<Seq<QualifiedType>> {
    if forall|j: int| 0 <= j < params.len() ==> (#[trigger] sema.sym(params[j])).ty is Some {
        Some(Seq::new(params.len(), |j: int| sema.sym(params[j]).ty->0))
    } else {
        None
    }
}

/// Whether the prototype part `declared` agrees with the promoted types of
/// the identifiers `identifiers`.
pub open spec fn spec_compatible_with_identifiers(sema: &Sema, declared: ParamTypes, identifiers: Seq<QualifiedType>) -> bool {
    match declared {
        ParamTypes::Unspecified => true,
        ParamTypes::Prototype { params, .. } => params@.len() == identifiers.len() && forall|i: int|
            0 <= i < params@.len() ==> compatible(sema, #[trigger] params@[i], spec_promoted(sema, identifiers[i])),
    }
}

/// What the identifier-list definition of `name`, parameters `parameters`,
/// reports against the prior prototype part `declared`.
pub open spec fn spec_identifier_list_diag(
    sema: &Sema,
    declared: ParamTypes,
    params: DeclaredParams,
    parameters: Seq<SymbolId>,
    name: Name,
) -> Option<Diagnosis> {
    if params matches DeclaredParams::Names(names) && names@.len() != parameters.len() {
        None
    } else {
        match spec_declared_types(sema, parameters) {
            Some(tys) => if spec_compatible_with_identifiers(sema, declared, tys) {
                None
            } else {
                Some(Diagnosis::DuplicateDeclaration(SymbolKind::Function, name))
            },
            None => None,
        }
    }
}

/// 6.5.4.3, 6.7.1 An identifier-list definition of a function with a prior
/// prototype: the promoted parameter types shall be compatible with it.
fn check_identifier_list(
    r: &mut SymbolResolver,
    declared: &ParamTypes,
    params: &DeclaredParams,
    parameters: &Vec<SymbolId>,
    name: Name,
    span: &Span,
)
    requires
        old(r).wf(),
        declared.refs_below(old(r).sema.ntypes()),
        syms_ok(&old(r).sema, parameters@),
    ensures
        final(r).kept(*old(r)),
        final(r).frame(*old(r)),
        final(r).sema.diagnosis@ == recorded(
            old(r).sema.diagnosis@,
            spec_identifier_list_diag(&old(r).sema, *declared, *params, parameters@, name),
            *span,
        ),
{
    proof {
        lemma_kept_frame(*r, *old(r));
        r.lemma_frame_refl();
    }
    if let DeclaredParams::Names(names) = params {
        if names.len() != parameters.len() {
            return;
        }
    }
    let mut identifiers: Vec<QualifiedType> = Vec::new();
    let mut i: usize = 0;
    while i < parameters.len()
        invariant
            i <= parameters@.len(),
            *r == *old(r),
            r.wf(),
            syms_ok(&r.sema, parameters@),
            forall|j: int| 0 <= j < identifiers@.len() ==> #[trigger] identifiers@[j].id < r.sema.ntypes(),
            identifiers@.len() <= i,
            (identifiers@.len() == i) == (forall|j: int| 0 <= j < i ==> (#[trigger] r.sema.sym(parameters@[j])).ty is Some),
            identifiers@.len() == i ==> forall|j: int| 0 <= j < i ==> #[trigger] identifiers@[j] == r.sema.sym(parameters@[j]).ty->0,
        decreases parameters@.len() - i,
    {
        proof {
            assert(parameters@[i as int] < r.sema.nsyms());
            assert(r.sema.symbol_ok(r.sema.symbols.data@[parameters@[i as int] as int]));
        }
        let ghost all_before = identifiers@.len() == i;
        if let Some(t) = r.sema.symbols.get(parameters[i]).ty {
            identifiers.push(t);
        }
        proof {
            if !all_before {
                let j = choose|j: int| 0 <= j < i && !((#[trigger] r.sema.sym(parameters@[j])).ty is Some);
                assert(0 <= j < i + 1 && !(r.sema.sym(parameters@[j]).ty is Some));
            } else if !(r.sema.sym(parameters@[i as int]).ty is Some) {
                assert(0 <= i < i + 1 && !(r.sema.sym(parameters@[i as int]).ty is Some));
            }
        }
        i += 1;
    }
    proof {
        if identifiers@.len() == parameters@.len() {
            if let Some(tys) = spec_declared_types(&r.sema, parameters@) {
                assert(tys =~= identifiers@);
            }
        }
    }
    if identifiers.len() != parameters.len() || declared.is_compatible_with_identifiers(&r.sema, identifiers.as_slice()) {
        return;
    }
    r.add_diag(Diag::err((), Diagnosis::DuplicateDeclaration(SymbolKind::Function, name)), span);
    proof {
        lemma_kept_frame(*r, *old(r));
    }
}

/// 6.7.1 Opens the scope of a function's parameters and declares them,
/// then completes the definition with them. The scope stays open for the body.
pub fn bind_function_parameters(r: &mut SymbolResolver, ast: &Ast, node: &FunctionDefinitionNode, header: &FunctionHeader)
    requires
        old(r).ready(ast),
        header.id < old(r).sema.functions.data@.len(),
        params_ok(&old(r).sema, header.params),
        header.declared matches Some(p) ==> p.refs_below(old(r).sema.ntypes()),
    ensures
        final(r).wf(),
        final(r).own_state_kept(*old(r)),
        final(r).sema.scopes@.len() == old(r).sema.scopes@.len() + 1,
        final(r).sema.functions.data@[header.id as int].is_complete,
        ResolvedTypeArena::extends(final(r).sema.types, old(r).sema.types),
        final(r).kept_opened(*old(r)),
{
    let ghost r0 = *r;
    r.enter_scope(ScopeKind::Prototype);
    let ghost r1 = *r;
    proof {
        crate::semantic::resolution::declaration::lemma_params_ok_grown_pub(&r1.sema, &r0.sema, header.params);
        assert forall|i: int| 0 <= i < r0.sema.ntypes() implies #[trigger] r1.sema.types.data@[i] == r0.sema.types.data@[i] by {}
    }
    let lst = &node.old_style_declarations;
    let span = &node.declarator.span;
    let parameters = match &header.params {
        DeclaredParams::Unspecified => param_empty(r, lst, span),
        DeclaredParams::Names(names) => param_old_style(r, ast, names, lst, span),
        DeclaredParams::Prototype { params, .. } => param_prototype(r, params, lst, span),
    };
    let ghost r2 = *r;
    if let Some(declared) = &header.declared {
        if !matches!(header.params, DeclaredParams::Prototype { .. }) {
            if let Some(name) = declarator_name(ast, &node.declarator) {
                check_identifier_list(r, declared, &header.params, &parameters, name, span);
                proof {
                    lemma_kept_trans(r1, r2, *r);
                }
            }
        }
    }
    let ghost r3 = *r;
    r.sema.complete_function(header.id, parameters);
    proof {
        if r3 != r2 {
            lemma_kept_trans(r1, r2, r3);
        }
        crate::semantic::resolution::resolver::lemma_kept_same_types(*r, r3);
        lemma_kept_trans(r1, r3, *r);
        crate::semantic::resolution::resolver::lemma_kept_opened(*r, r1, r0);
    }
}

} // verus!
