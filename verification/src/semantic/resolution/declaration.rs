//! Declarations (6.5): the type the declaration specifiers give, the type a
//! declarator derives from it, structure, union and enumeration
//! specifiers, and the symbols a declaration introduces.

use vstd::prelude::*;

use crate::ast::{
    Ast, DeclarationNode, DeclarationSpecifier, Declarator, DeclaratorNode, EnumId, ExpressionNode,
    FunctionParameters, InitDeclaratorNode, Name, ParameterDeclaration, Span, Storage, StructDeclaration, Tag,
    TypeSpecifier, Value,
};
use crate::semantic::constrain::declaration::{
    basic_type, check_bit_width, check_complete_object, check_element_type, check_member_type, check_qualifier,
    check_return_type, extern_function_only, get_qualifier, get_storage, spec_basic_type,
};
use crate::semantic::constrain::external::{check_external_specifiers, check_void_parameter, param_storage_only_register};
use crate::semantic::diagnosis::{recorded, Diag, DiagCollector, Diagnosis, DiagnosisNode};
use crate::semantic::model::function_def::{DeclaredParams, ParamInfo, ParamTypes};
use crate::semantic::model::resolved_type::{QualifiedType, ResolvedType, TagDefId};
use crate::semantic::model::symbol::{Symbol, SymbolId, SymbolKind};
use crate::semantic::model::tag_def::Member;
use crate::semantic::resolution::expression::dispatch::{eval_constant_within, lemma_tree_visited_kept, spec_tree_visited, NESTING_BUDGET};
use crate::semantic::resolution::resolver::{lemma_kept_frame, lemma_kept_trans, spec_current, spec_tag_declared, spec_typedef, SymbolResolver};
use crate::ast::StructDeclarator;
use crate::semantic::resolution::scope::ScopeKind;
use crate::semantic::sema::{lemma_re_ok_grown, Sema};

verus! {

/// The type specifiers among declaration specifiers, in order.
pub open spec fn type_specifiers(s: Seq<DeclarationSpecifier>) -> Seq<TypeSpecifier>
    decreases s.len(),
{
    if s.len() == 0 {
        Seq::empty()
    } else {
        let r = type_specifiers(s.drop_last());
        match s.last() {
            DeclarationSpecifier::Type(t) => r.push(t),
            _ => r,
        }
    }
}

/// A struct, union, enum or typedef name: a specifier that names a type of its own.
pub open spec fn is_named_type(t: TypeSpecifier) -> bool {
    t is Struct || t is Union || t is Enum || t is TypedefName
}

fn collect_type_specifiers(specifiers: &[DeclarationSpecifier]) -> (v: Vec<TypeSpecifier>)
    ensures
        v@ == type_specifiers(specifiers@),
{
    let mut v: Vec<TypeSpecifier> = Vec::new();
    let mut i: usize = 0;
    while i < specifiers.len()
        invariant
            i <= specifiers@.len(),
            v@ == type_specifiers(specifiers@.subrange(0, i as int)),
        decreases specifiers@.len() - i,
    {
        proof {
            assert(specifiers@.subrange(0, i + 1).drop_last() =~= specifiers@.subrange(0, i as int));
        }
        if let DeclarationSpecifier::Type(t) = specifiers[i] {
            v.push(t);
        }
        i += 1;
    }
    proof {
        assert(specifiers@.subrange(0, specifiers@.len() as int) =~= specifiers@);
    }
    v
}

/// The identifier a declarator declares, when its innermost part is one.
/// 6.5.4 The type that declarator `d` derives `out` from, in `sema`: the
/// declarators are applied from the outside in, so the innermost one gave
/// `out` its outermost constructor. Peeling `out` along `d`, a pointer
/// declarator takes a pointer qualified as its qualifiers say to its
/// pointee, an array declarator an array to its element type, a function
/// declarator a function to its return type; `None` where `out` does not
/// have that shape.
pub open spec fn spec_peeled(sema: &Sema, ast: &Ast, d: DeclaratorNode, out: QualifiedType) -> Option<QualifiedType>
    decreases d.id,
{
    if d.id < ast.declarators@.len() {
        match ast.declarators@[d.id as int] {
            Declarator::Pointer { qualifiers, inner } => if inner.id < d.id {
                match spec_peeled(sema, ast, inner, out) {
                    Some(t) => if sema.ty(t.id) is Pointer && t.is_const == (crate::semantic::constrain::declaration::count(
                        qualifiers@,
                        crate::ast::Qualifier::Const,
                    ) >= 1) && t.is_volatile == (crate::semantic::constrain::declaration::count(
                        qualifiers@,
                        crate::ast::Qualifier::Volatile,
                    ) >= 1) {
                        Some(sema.ty(t.id)->Pointer_0)
                    } else {
                        None
                    },
                    None => None,
                }
            } else {
                None
            },
            Declarator::Array { declarator, .. } => if declarator.id < d.id {
                match spec_peeled(sema, ast, declarator, out) {
                    Some(t) => if sema.ty(t.id) is Array && !t.is_const && !t.is_volatile {
                        Some(sema.ty(t.id)->elem)
                    } else {
                        None
                    },
                    None => None,
                }
            } else {
                None
            },
            Declarator::Function { declarator, .. } => if declarator.id < d.id {
                match spec_peeled(sema, ast, declarator, out) {
                    Some(t) => if sema.ty(t.id) is Function && !t.is_const && !t.is_volatile {
                        Some(sema.ty(t.id)->ret)
                    } else {
                        None
                    },
                    None => None,
                }
            } else {
                None
            },
            _ => Some(out),
        }
    } else {
        Some(out)
    }
}

/// 6.5.3 A type qualifier may appear once in a list of specifiers.
pub open spec fn spec_qualifier_diag(specifiers: Seq<DeclarationSpecifier>) -> Option<Diagnosis> {
    if crate::semantic::constrain::declaration::count(crate::semantic::constrain::declaration::qualifiers(specifiers), crate::ast::Qualifier::Const) > 1
        || crate::semantic::constrain::declaration::count(crate::semantic::constrain::declaration::qualifiers(specifiers), crate::ast::Qualifier::Volatile) > 1 {
        Some(Diagnosis::DuplicateTypeQualifiers)
    } else {
        None
    }
}

/// The length an array declarator with `size` gives, from the value recorded for it.
pub open spec fn spec_size_length(sema: &Sema, size: Option<ExpressionNode>) -> Option<usize> {
    match size {
        Some(e) => spec_array_length(sema.expr_consts.spec_get(e.id)),
        None => None,
    }
}

/// Walking `d` inwards from type `out`, each array declarator meets an
/// array type whose length is the one its size gives.
pub open spec fn spec_array_lengths(sema: &Sema, ast: &Ast, d: DeclaratorNode, out: QualifiedType) -> bool
    decreases d.id,
{
    if d.id < ast.declarators@.len() {
        match ast.declarators@[d.id as int] {
            Declarator::Pointer { inner, .. } => inner.id < d.id ==> spec_array_lengths(sema, ast, inner, out),
            Declarator::Array { declarator, size } => declarator.id < d.id ==> {
                &&& spec_array_lengths(sema, ast, declarator, out)
                &&& spec_peeled(sema, ast, declarator, out) matches Some(t) ==> (sema.ty(t.id) is Array ==> sema.ty(t.id)->len
                    == spec_size_length(sema, size))
            },
            Declarator::Function { declarator, .. } => declarator.id < d.id ==> spec_array_lengths(sema, ast, declarator, out),
            _ => true,
        }
    } else {
        true
    }
}

/// The parameters of the function declarator that directly holds the
/// identifier (or the abstract declarator) of `node`, if one does.
pub open spec fn spec_leaf_params(ast: &Ast, node: DeclaratorNode) -> Option<FunctionParameters>
    decreases node.id,
{
    if node.id < ast.declarators@.len() {
        match ast.declarators@[node.id as int] {
            Declarator::Function { declarator, params } => if declarator.id < node.id {
                if declarator.id < ast.declarators@.len() && (ast.declarators@[declarator.id as int] is Ident
                    || ast.declarators@[declarator.id as int] is Abstract) {
                    Some(params)
                } else {
                    spec_leaf_params(ast, declarator)
                }
            } else {
                None
            },
            Declarator::Pointer { inner, .. } => if inner.id < node.id {
                spec_leaf_params(ast, inner)
            } else {
                None
            },
            Declarator::Array { declarator, .. } => if declarator.id < node.id {
                spec_leaf_params(ast, declarator)
            } else {
                None
            },
            _ => None,
        }
    } else {
        None
    }
}

/// 6.5.4.3 What the parameter part `p` of a function declarator gives: no
/// parameter information for `()`, the names of an identifier list, and a
/// prototype for a parameter type list, variadic when it ends with `...`,
/// with at most one parameter per declaration and none for `(void)`.
pub open spec fn spec_params_given(ast: &Ast, p: FunctionParameters, dp: DeclaredParams) -> bool {
    match p {
        FunctionParameters::Empty => dp is Unspecified,
        FunctionParameters::OldStyle(_) => dp is Names,
        FunctionParameters::ParameterTypeList(ps) => dp matches DeclaredParams::Prototype { params, is_variadic } && !is_variadic
            && params@.len() <= ps@.len() && ((ps@.len() == 1 && spec_is_abstract_void(ast, ps@[0])) ==> params@.len() == 0),
        FunctionParameters::Variadic(ps) => dp matches DeclaredParams::Prototype { params, is_variadic } && is_variadic
            && params@.len() <= ps@.len(),
    }
}

/// Walking `node` inwards, the declarator that holds the identifier (or the
/// abstract declarator) is directly a function declarator: `node` declares a function.
pub open spec fn spec_declares_function(ast: &Ast, node: DeclaratorNode) -> bool
    decreases node.id,
{
    if node.id < ast.declarators@.len() {
        match ast.declarators@[node.id as int] {
            Declarator::Function { declarator, .. } => if declarator.id < node.id {
                (declarator.id < ast.declarators@.len() && (ast.declarators@[declarator.id as int] is Ident
                    || ast.declarators@[declarator.id as int] is Abstract)) || spec_declares_function(ast, declarator)
            } else {
                false
            },
            Declarator::Pointer { inner, .. } => if inner.id < node.id {
                spec_declares_function(ast, inner)
            } else {
                false
            },
            Declarator::Array { declarator, .. } => if declarator.id < node.id {
                spec_declares_function(ast, declarator)
            } else {
                false
            },
            _ => false,
        }
    } else {
        false
    }
}

/// The declarator reached from `node` by walking wrapped declarators
/// inwards: an identifier, an abstract declarator, or a node outside `ast`.
pub open spec fn spec_leaf(ast: &Ast, node: DeclaratorNode) -> DeclaratorNode
    decreases node.id,
{
    if node.id < ast.declarators@.len() {
        match ast.declarators@[node.id as int] {
            Declarator::Pointer { inner, .. } => if inner.id < node.id {
                spec_leaf(ast, inner)
            } else {
                node
            },
            Declarator::Array { declarator, .. } => if declarator.id < node.id {
                spec_leaf(ast, declarator)
            } else {
                node
            },
            Declarator::Function { declarator, .. } => if declarator.id < node.id {
                spec_leaf(ast, declarator)
            } else {
                node
            },
            _ => node,
        }
    } else {
        node
    }
}

pub open spec fn spec_ident(ast: &Ast, node: DeclaratorNode) -> Option<Name> {
    if node.id < ast.declarators@.len() {
        match ast.declarators@[node.id as int] {
            Declarator::Ident(name) => Some(name),
            _ => None,
        }
    } else {
        None
    }
}

pub fn ident(ast: &Ast, node: &DeclaratorNode) -> (r: Option<Name>)
    ensures
        r == spec_ident(ast, *node),
{
    if node.id < ast.declarators.len() {
        match &ast.declarators[node.id] {
            Declarator::Ident(name) => Some(*name),
            _ => None,
        }
    } else {
        None
    }
}

/// 6.5.2, 6.5.3 The type declaration specifiers give: a struct, union or
/// enum specifier, a typedef name, or a combination of basic type
/// specifiers, with the qualifiers among them.
pub fn base_type(r: &mut SymbolResolver, ast: &Ast, specifiers: &[DeclarationSpecifier], span: &Span) -> (res: Option<
    QualifiedType,
>)
    requires
        old(r).ready(ast),
    ensures
        final(r).kept(*old(r)),
        res matches Some(q) ==> final(r).sema.qt_ok(q),
        ({
            let ts = type_specifiers(specifiers@);
            &&& (ts.len() == 1 && ts[0] is TypedefName) ==> res == spec_typedef(
                &old(r).sema,
                ts[0]->TypedefName_0,
                crate::semantic::constrain::declaration::count(crate::semantic::constrain::declaration::qualifiers(specifiers@), crate::ast::Qualifier::Const) >= 1,
                crate::semantic::constrain::declaration::count(crate::semantic::constrain::declaration::qualifiers(specifiers@), crate::ast::Qualifier::Volatile) >= 1,
            )
            &&& !(ts.len() == 1 && is_named_type(ts[0])) ==> match spec_basic_type(ts) {
                Some(t) => res matches Some(q) && final(r).sema.ty(q.id).same(t),
                None => res is None,
            }
            &&& !(ts.len() == 1 && ts[0] is TypedefName) ==> (res matches Some(q) ==> q.is_const == (
                crate::semantic::constrain::declaration::count(crate::semantic::constrain::declaration::qualifiers(specifiers@), crate::ast::Qualifier::Const) >= 1)
                && q.is_volatile == (crate::semantic::constrain::declaration::count(crate::semantic::constrain::declaration::qualifiers(specifiers@), crate::ast::Qualifier::Volatile) >= 1))
            &&& (ts.len() == 1 && ts[0] is Struct) ==> (res is Some <==> ts[0]->Struct_0 < ast.structs@.len())
            &&& (ts.len() == 1 && ts[0] is Union) ==> (res is Some <==> ts[0]->Union_0 < ast.structs@.len())
            &&& (ts.len() == 1 && ts[0] is Enum) ==> (res is Some <==> ts[0]->Enum_0 < ast.enums@.len())
            &&& !(ts.len() == 1 && is_named_type(ts[0])) ==> final(r).sema.diagnosis@ == recorded(
                recorded(old(r).sema.diagnosis@, spec_qualifier_diag(specifiers@), *span),
                if spec_basic_type(ts) is None { Some(Diagnosis::InvalidTypeSpecifier) } else { None },
                *span,
            )
            &&& (ts.len() == 1 && (ts[0] is Struct || ts[0] is Union || ts[0] is Enum)) ==> (res matches Some(q)
                ==> final(r).sema.ty(q.id) is Tag)
        }),
        spec_qualifier_diag(specifiers@) matches Some(d) ==> old(r).sema.diagnosis@.len() < final(r).sema.diagnosis@.len()
            && final(r).sema.diagnosis@[old(r).sema.diagnosis@.len() as int] == (DiagnosisNode { span: *span, inner: d }),
{
    base_type_within(r, ast, specifiers, span, NESTING_BUDGET)
}

pub fn base_type_within(
    r: &mut SymbolResolver,
    ast: &Ast,
    specifiers: &[DeclarationSpecifier],
    span: &Span,
    fuel: usize,
) -> (res: Option<QualifiedType>)
    requires
        old(r).ready(ast),
    ensures
        final(r).kept(*old(r)),
        res matches Some(q) ==> final(r).sema.qt_ok(q),
        ({
            let ts = type_specifiers(specifiers@);
            &&& (ts.len() == 1 && ts[0] is TypedefName) ==> res == spec_typedef(
                &old(r).sema,
                ts[0]->TypedefName_0,
                crate::semantic::constrain::declaration::count(crate::semantic::constrain::declaration::qualifiers(specifiers@), crate::ast::Qualifier::Const) >= 1,
                crate::semantic::constrain::declaration::count(crate::semantic::constrain::declaration::qualifiers(specifiers@), crate::ast::Qualifier::Volatile) >= 1,
            )
            &&& !(ts.len() == 1 && is_named_type(ts[0])) ==> match spec_basic_type(ts) {
                Some(t) => res matches Some(q) && final(r).sema.ty(q.id).same(t),
                None => res is None,
            }
            &&& !(ts.len() == 1 && ts[0] is TypedefName) ==> (res matches Some(q) ==> q.is_const == (
                crate::semantic::constrain::declaration::count(crate::semantic::constrain::declaration::qualifiers(specifiers@), crate::ast::Qualifier::Const) >= 1)
                && q.is_volatile == (crate::semantic::constrain::declaration::count(crate::semantic::constrain::declaration::qualifiers(specifiers@), crate::ast::Qualifier::Volatile) >= 1))
            &&& (ts.len() == 1 && ts[0] is Struct) ==> (res is Some <==> fuel > 0 && ts[0]->Struct_0 < ast.structs@.len())
            &&& (ts.len() == 1 && ts[0] is Union) ==> (res is Some <==> fuel > 0 && ts[0]->Union_0 < ast.structs@.len())
            &&& (ts.len() == 1 && ts[0] is Enum) ==> (res is Some <==> fuel > 0 && ts[0]->Enum_0 < ast.enums@.len())
            &&& !(ts.len() == 1 && is_named_type(ts[0])) ==> final(r).sema.diagnosis@ == recorded(
                recorded(old(r).sema.diagnosis@, spec_qualifier_diag(specifiers@), *span),
                if spec_basic_type(ts) is None { Some(Diagnosis::InvalidTypeSpecifier) } else { None },
                *span,
            )
            &&& (ts.len() == 1 && (ts[0] is Struct || ts[0] is Union || ts[0] is Enum)) ==> (res matches Some(q)
                ==> final(r).sema.ty(q.id) is Tag)
        }),
        spec_qualifier_diag(specifiers@) matches Some(d) ==> old(r).sema.diagnosis@.len() < final(r).sema.diagnosis@.len()
            && final(r).sema.diagnosis@[old(r).sema.diagnosis@.len() as int] == (DiagnosisNode { span: *span, inner: d }),
    decreases fuel, 0int,
{
    let ghost r0 = *r;
    let (is_const, is_volatile) = get_qualifier(specifiers).collect(r, span);
    let types = collect_type_specifiers(specifiers);
    let named = types.len() == 1 && match types[0] {
        TypeSpecifier::Struct(_) | TypeSpecifier::Union(_) | TypeSpecifier::Enum(_) | TypeSpecifier::TypedefName(_) => true,
        _ => false,
    };
    if named {
        let id = match types[0] {
            TypeSpecifier::TypedefName(t) => {
                return r.resolve_typedef(t, is_const, is_volatile, span);
            },
            TypeSpecifier::Struct(sid) | TypeSpecifier::Union(sid) => {
                if fuel == 0 || sid >= ast.structs.len() {
                    return None;
                }
                let kind = if matches!(types[0], TypeSpecifier::Struct(_)) { Tag::Struct } else { Tag::Union };
                let node = &ast.structs[sid];
                let tag = struct_or_union_tag(r, ast, kind, node.name, node.fields.as_slice(), &node.span, fuel - 1);
                r.sema.tag_type(tag)
            },
            TypeSpecifier::Enum(eid) => {
                if fuel == 0 {
                    return None;
                }
                let tag = match enum_tag(r, ast, eid, fuel - 1) {
                    Some(t) => t,
                    None => return None,
                };
                r.sema.tag_type(tag)
            },
            _ => {
                return None;
            },
        };
        return Some(QualifiedType::new(id, is_const, is_volatile));
    }
    let ty = match basic_type(types.as_slice()).collect(r, span) {
        Some(t) => t,
        None => return None,
    };
    let id = r.sema.intern_type(ty);
    Some(QualifiedType::new(id, is_const, is_volatile))
}

/// The type a declarator derives from `inner_most` (6.5.4), with the
/// innermost declarator, which names the identifier when there is one.
pub fn declared_type(r: &mut SymbolResolver, ast: &Ast, inner_most: Option<QualifiedType>, decl: &DeclaratorNode) -> (res:
    Option<(QualifiedType, DeclaratorNode)>)
    requires
        old(r).ready(ast),
        inner_most matches Some(q) ==> old(r).sema.qt_ok(q),
    ensures
        final(r).kept(*old(r)),
        res matches Some((q, _)) ==> final(r).sema.qt_ok(q),
        inner_most is None ==> res is None && *final(r) == *old(r),
        inner_most is Some ==> (res matches Some((_, core)) && core == spec_leaf(ast, *decl)),
{
    declared_type_within(r, ast, inner_most, decl, NESTING_BUDGET)
}

pub fn declared_type_within(
    r: &mut SymbolResolver,
    ast: &Ast,
    inner_most: Option<QualifiedType>,
    decl: &DeclaratorNode,
    fuel: usize,
) -> (res: Option<(QualifiedType, DeclaratorNode)>)
    requires
        old(r).ready(ast),
        inner_most matches Some(q) ==> old(r).sema.qt_ok(q),
    ensures
        final(r).kept(*old(r)),
        res matches Some((q, _)) ==> final(r).sema.qt_ok(q),
        inner_most is None ==> res is None && *final(r) == *old(r),
        inner_most is Some && fuel > 1 ==> (res matches Some((_, core)) && core == spec_leaf(ast, *decl)),
    decreases fuel, 0int,
{
    let q = match inner_most {
        Some(q) => q,
        None => return None,
    };
    if fuel == 0 {
        return None;
    }
    let (ty, declarator, _) = extract_declarator(r, ast, decl, q, false, fuel - 1);
    Some((ty, declarator))
}

/// As `declared_type`, with the parameters of the function the declarator
/// declares, when it declares one.
pub fn declared_function(r: &mut SymbolResolver, ast: &Ast, inner_most: Option<QualifiedType>, decl: &DeclaratorNode) -> (res:
    Option<(QualifiedType, DeclaratorNode, Option<DeclaredParams>)>)
    requires
        old(r).ready(ast),
        inner_most matches Some(q) ==> old(r).sema.qt_ok(q),
    ensures
        final(r).kept(*old(r)),
        res matches Some((q, _, p)) ==> final(r).sema.qt_ok(q) && (p matches Some(dp) ==> params_ok(&final(r).sema, dp)),
        inner_most is None ==> res is None,
        inner_most is Some ==> (res matches Some((q, core, p)) && core == spec_leaf(ast, *decl) && (p is Some
            <==> spec_declares_function(ast, *decl)) && (p is Some ==> final(r).sema.ty(q.id) is Function)),
{
    let q = match inner_most {
        Some(q) => q,
        None => return None,
    };
    Some(extract_declarator(r, ast, decl, q, false, NESTING_BUDGET))
}

/// Every parameter type refers to an existing type.
pub open spec fn params_ok(sema: &Sema, dp: DeclaredParams) -> bool {
    match dp {
        DeclaredParams::Prototype { params, .. } => forall|i: int| 0 <= i < params@.len() ==> sema.qt_ok(#[trigger] params@[i].ty),
        _ => true,
    }
}

/// Parameter types stay valid as the type arena grows.
pub proof fn lemma_params_ok_grown_pub(new: &Sema, old: &Sema, dp: DeclaredParams)
    requires
        params_ok(old, dp),
        old.ntypes() <= new.ntypes(),
    ensures
        params_ok(new, dp),
{
    lemma_params_ok_grown(new, old, dp);
}

proof fn lemma_params_ok_grown(new: &Sema, old: &Sema, dp: DeclaredParams)
    requires
        params_ok(old, dp),
        old.ntypes() <= new.ntypes(),
    ensures
        params_ok(new, dp),
{
    if let DeclaredParams::Prototype { params, .. } = dp {
        assert forall|i: int| 0 <= i < params@.len() implies new.qt_ok(#[trigger] params@[i].ty) by {
            assert(old.qt_ok(params@[i].ty));
        }
    }
}

/// 6.5.4 Walks a declarator from the outside in, deriving pointer, array
/// and function types from `inner_most`. The parameters given are those of
/// the function the identifier itself is declared as.
fn extract_declarator(
    r: &mut SymbolResolver,
    ast: &Ast,
    declarator: &DeclaratorNode,
    inner_most: QualifiedType,
    inner_already_diagnosed: bool,
    fuel: usize,
) -> (res: (QualifiedType, DeclaratorNode, Option<DeclaredParams>))
    requires
        old(r).ready(ast),
        old(r).sema.qt_ok(inner_most),
    ensures
        final(r).kept(*old(r)),
        final(r).sema.qt_ok(res.0),
        res.2 matches Some(dp) ==> params_ok(&final(r).sema, dp),
        fuel > 0 ==> res.1 == spec_leaf(ast, *declarator),
        fuel > 0 ==> spec_peeled(&final(r).sema, ast, *declarator, res.0) == Some(inner_most),
        fuel > 0 ==> (res.2 is Some <==> spec_declares_function(ast, *declarator)),
        res.2 is Some ==> final(r).sema.ty(res.0.id) is Function,
        fuel > 2 ==> spec_array_lengths(&final(r).sema, ast, *declarator, res.0),
        fuel > 0 ==> (res.2 matches Some(dp) ==> spec_leaf_params(ast, *declarator) matches Some(p) && spec_params_given(ast, p, dp)),
        declarator.id >= ast.declarators@.len() || !(ast.declarators@[declarator.id as int] is Pointer
            || ast.declarators@[declarator.id as int] is Array || ast.declarators@[declarator.id as int] is Function)
            ==> res.0 == inner_most && *final(r) == *old(r),
    decreases fuel, declarator.id,
{
    let ghost r0 = *r;
    if declarator.id >= ast.declarators.len() {
        return (inner_most, *declarator, None);
    }
    proof {
        assert(ast.declarators@[declarator.id as int].inner_below(declarator.id as int));
    }
    match &ast.declarators[declarator.id] {
        Declarator::Pointer { qualifiers, inner } => {
            let (is_const, is_volatile) = check_qualifier(qualifiers.as_slice()).collect(r, &declarator.span);
            let id = r.sema.pointer_type(inner_most);
            let ghost r1 = *r;
            let qp = QualifiedType::new(id, is_const, is_volatile);
            let res = extract_declarator(r, ast, inner, qp, false, fuel);
            proof {
                lemma_kept_trans(r0, r1, *r);
                if fuel > 0 {
                    assert(r.sema.types.data@[id as int] == r1.sema.types.data@[id as int]);
                    assert(r.sema.ty(qp.id) == ResolvedType::Pointer(inner_most));
                }
            }
            res
        },
        Declarator::Array { declarator: inner, size } => {
            if !inner_already_diagnosed {
                let is_object = inner_most.is_object(&r.sema);
                check_element_type(is_object, inner_most).collect(r, &declarator.span);
            }
            let ghost r1 = *r;
            let len = match size {
                Some(e) => if fuel > 0 {
                    array_length(r, ast, e, fuel - 1)
                } else {
                    None
                },
                None => None,
            };
            proof {
                r1.lemma_frame_refl();
                lemma_kept_trans(r0, r1, *r);
            }
            let this_level_erred = size.is_some() && len.is_none();
            let ghost r2 = *r;
            let id = r.sema.array_type(inner_most, len);
            let ghost r3 = *r;
            proof {
                lemma_kept_trans(r0, r2, r3);
            }
            let qa = QualifiedType::plain(id);
            let res = extract_declarator(r, ast, inner, qa, this_level_erred, fuel);
            proof {
                lemma_kept_trans(r0, r3, *r);
                if fuel > 0 {
                    assert(r.sema.types.data@[id as int] == r3.sema.types.data@[id as int]);
                }
                if fuel > 2 {
                    if let Some(e) = size {
                        if e.id < r2.sema.expr_consts.data@.len() {
                            assert(r2.sema.expr_consts.spec_seen(e.id));
                            assert(r.sema.expr_consts.data@[e.id as int] == r2.sema.expr_consts.data@[e.id as int]);
                        }
                        assert(spec_size_length(&r.sema, *size) == spec_size_length(&r2.sema, *size));
                    }
                    assert(r.sema.ty(qa.id) == r3.sema.ty(id));
                    assert(r.sema.ty(qa.id)->len == len);
                }
            }
            res
        },
        Declarator::Function { declarator: inner, params } => {
            if fuel == 0 {
                proof {
                    r.lemma_frame_refl();
                }
                return (inner_most, *declarator, None);
            }
            let list = resolve_params(r, ast, params, fuel - 1);
            let ghost r1 = *r;
            let d = check_return_type(r.sema.types.get(inner_most.id), inner_most);
            d.collect(r, &declarator.span);
            let types = list.types();
            let id = r.sema.function_type(inner_most, types);
            let ghost r2 = *r;
            proof {
                lemma_kept_trans(r0, r1, r2);
            }
            let qf = QualifiedType::plain(id);
            let (ty, leaf, inner_list) = extract_declarator(r, ast, inner, qf, false, fuel);
            proof {
                lemma_params_ok_grown(&r.sema, &r1.sema, list);
                lemma_kept_trans(r0, r2, *r);
                assert(r.sema.types.data@[id as int] == r2.sema.types.data@[id as int]);
            }
            let at_leaf = inner.id < ast.declarators.len() && match &ast.declarators[inner.id] {
                Declarator::Ident(_) | Declarator::Abstract => true,
                _ => false,
            };
            if at_leaf {
                (ty, leaf, Some(list))
            } else {
                (ty, leaf, inner_list)
            }
        },
        _ => {
            proof {
                r.lemma_frame_refl();
            }
            (inner_most, *declarator, None)
        },
    }
}

/// 6.5.4.3 The parameters a function declarator gives: none, an identifier
/// list, or a parameter type list, possibly ending with `...`.
fn resolve_params(r: &mut SymbolResolver, ast: &Ast, params: &FunctionParameters, fuel: usize) -> (res: DeclaredParams)
    requires
        old(r).ready(ast),
    ensures
        final(r).kept(*old(r)),
        params_ok(&final(r).sema, res),
        spec_params_given(ast, *params, res),
    decreases fuel, 0int,
{
    match params {
        FunctionParameters::Empty => {
            proof {
                r.lemma_frame_refl();
            }
            DeclaredParams::Unspecified
        },
        FunctionParameters::OldStyle(names) => {
            proof {
                r.lemma_frame_refl();
            }
            DeclaredParams::Names(names.clone())
        },
        FunctionParameters::ParameterTypeList(ps) => if fuel > 0 {
            resolve_prototype(r, ast, ps.as_slice(), false, fuel - 1)
        } else {
            proof {
                r.lemma_frame_refl();
            }
            DeclaredParams::Prototype { params: Vec::new(), is_variadic: false }
        },
        FunctionParameters::Variadic(ps) => if fuel > 0 {
            resolve_prototype(r, ast, ps.as_slice(), true, fuel - 1)
        } else {
            proof {
                r.lemma_frame_refl();
            }
            DeclaredParams::Prototype { params: Vec::new(), is_variadic: true }
        },
    }
}

/// The parameter `void` alone: a prototype without parameters.
pub open spec fn spec_is_abstract_void(ast: &Ast, p: ParameterDeclaration) -> bool {
    &&& p.specifiers@ == seq![DeclarationSpecifier::Type(TypeSpecifier::Void)]
    &&& p.declarator.id < ast.declarators@.len()
    &&& ast.declarators@[p.declarator.id as int] is Abstract
}

fn is_abstract_void(ast: &Ast, p: &ParameterDeclaration) -> (b: bool)
    ensures
        b == spec_is_abstract_void(ast, *p),
{
    let only_void = p.specifiers.len() == 1 && match p.specifiers[0] {
        DeclarationSpecifier::Type(TypeSpecifier::Void) => true,
        _ => false,
    };
    proof {
        if only_void {
            assert(p.specifiers@ =~= seq![DeclarationSpecifier::Type(TypeSpecifier::Void)]);
        }
    }
    only_void && p.declarator.id < ast.declarators.len() && matches!(ast.declarators[p.declarator.id], Declarator::Abstract)
}

/// 6.5.4.3 A parameter type list: `(void)` declares no parameter; otherwise
/// each parameter is resolved, and only a lone named parameter may have type void.
fn resolve_prototype(
    r: &mut SymbolResolver,
    ast: &Ast,
    params: &[ParameterDeclaration],
    is_variadic: bool,
    fuel: usize,
) -> (res: DeclaredParams)
    requires
        old(r).ready(ast),
    ensures
        final(r).kept(*old(r)),
        params_ok(&final(r).sema, res),
        res is Prototype,
        res matches DeclaredParams::Prototype { params: ps, is_variadic: v } ==> v == is_variadic && ps@.len() <= params@.len(),
        (params@.len() == 1 && !is_variadic && spec_is_abstract_void(ast, params@[0])) ==> (res matches DeclaredParams::Prototype {
            params: ps,
            ..
        } && ps@.len() == 0),
    decreases fuel, 0int,
{
    let ghost r0 = *r;
    if params.len() == 1 && !is_variadic && is_abstract_void(ast, &params[0]) {
        proof {
            r.lemma_frame_refl();
        }
        return DeclaredParams::Prototype { params: Vec::new(), is_variadic };
    }
    let mut list: Vec<ParamInfo> = Vec::new();
    let mut i: usize = 0;
    proof {
        r.lemma_frame_refl();
    }
    while i < params.len()
        invariant
            i <= params@.len(),
            list@.len() <= i,
            r.kept(r0),
            r0.ready(ast),
            forall|j: int| 0 <= j < list@.len() ==> r.sema.qt_ok(#[trigger] list@[j].ty),
        decreases params@.len() - i,
    {
        if fuel > 0 {
            let ghost r1 = *r;
            let p = resolve_parameter(r, ast, &params[i], fuel - 1);
            proof {
                lemma_kept_trans(r0, r1, *r);
            }
            if let Some(info) = p {
                list.push(info);
            }
        }
        i += 1;
    }
    let n = list.len();
    let mut k: usize = 0;
    while k < n
        invariant
            k <= n,
            n == list@.len(),
            r.kept(r0),
            r0.ready(ast),
            forall|j: int| 0 <= j < list@.len() ==> r.sema.qt_ok(#[trigger] list@[j].ty),
        decreases n - k,
    {
        let info = list[k];
        let is_void = matches!(r.sema.types.get(info.ty.id), ResolvedType::Void);
        let is_special_case = n == 1 && info.name.is_some();
        let ghost r1 = *r;
        check_void_parameter(is_void && !is_special_case).collect(r, &info.span);
        proof {
            lemma_kept_trans(r0, r1, *r);
        }
        k += 1;
    }
    DeclaredParams::Prototype { params: list, is_variadic }
}

/// 6.5.4.3, 6.7.1 A parameter declaration: its type, adjusted, and its
/// storage class, which may only be `register`.
fn resolve_parameter(r: &mut SymbolResolver, ast: &Ast, param: &ParameterDeclaration, fuel: usize) -> (res: Option<ParamInfo>)
    requires
        old(r).ready(ast),
    ensures
        final(r).kept(*old(r)),
        res matches Some(info) ==> final(r).sema.qt_ok(info.ty) && info.span == param.span,
    decreases fuel, 0int,
{
    let ghost r0 = *r;
    let span = &param.span;
    if fuel == 0 {
        proof {
            r.lemma_frame_refl();
        }
        return None;
    }
    let qualif = base_type_within(r, ast, param.specifiers.as_slice(), span, fuel - 1);
    let ghost r1 = *r;
    let declared = declared_type_within(r, ast, qualif, &param.declarator, fuel - 1);
    proof {
        lemma_kept_trans(r0, r1, *r);
    }
    let (ty, decl) = match declared {
        Some(d) => d,
        None => return None,
    };
    let ghost r2 = *r;
    let ty = r.sema.adjust_parameter(ty);
    let storage = get_storage(param.specifiers.as_slice()).collect(r, span);
    if let Some(st) = storage {
        param_storage_only_register(st).collect(r, span);
    }
    proof {
        lemma_kept_trans(r0, r2, *r);
    }
    Some(ParamInfo { name: ident(ast, &decl), ty, storage, span: *span })
}

/// The diagnostic an array size gives: one that is not an integer, negative or zero.
pub open spec fn spec_array_size_diag(value: Value) -> Option<Diagnosis> {
    if !value.spec_is_integer() {
        Some(Diagnosis::NonIntArraySize)
    } else if value.spec_is_negative() {
        Some(Diagnosis::NegativeArraySize)
    } else if value.spec_is_zero() {
        Some(Diagnosis::ZeroArraySize)
    } else {
        None
    }
}

/// `d`, if any, is the last of `diags`, reported at `span`.
pub open spec fn reported_last(diags: Seq<DiagnosisNode>, d: Option<Diagnosis>, span: crate::ast::Span) -> bool {
    match d {
        Some(x) => diags.len() > 0 && diags.last() == (DiagnosisNode { span, inner: x }),
        None => true,
    }
}

/// The length an array size recorded as `value` gives.
pub open spec fn spec_array_length(value: Option<Value>) -> Option<usize> {
    match value {
        Some(v) => if spec_array_size_diag(v) is None {
            Some(v.spec_bits() as usize)
        } else {
            None
        },
        None => None,
    }
}

/// 6.5.4.2 The expression delimited by [ and ] (which specifies the size of
/// an array) shall be an integral constant expression that has a value
/// greater than zero.
fn array_length(r: &mut SymbolResolver, ast: &Ast, expr: &ExpressionNode, fuel: usize) -> (res: Option<usize>)
    requires
        old(r).ready(ast),
    ensures
        final(r).kept(*old(r)),
        fuel == 0 || (fuel == 1 && !old(r).sema.expr_consts.spec_seen(expr.id)) ==> res is None && *final(r) == *old(r),
        fuel > 1 || (fuel == 1 && old(r).sema.expr_consts.spec_seen(expr.id)) ==> {
            &&& expr.id < old(r).sema.expr_consts.data@.len() ==> final(r).sema.expr_consts.spec_seen(expr.id)
            &&& res == spec_array_length(final(r).sema.expr_consts.spec_get(expr.id))
            &&& reported_last(
                final(r).sema.diagnosis@,
                (match final(r).sema.expr_consts.spec_get(expr.id) {
                    Some(v) => spec_array_size_diag(v),
                    None => None,
                }),
                expr.span,
            )
        },
    decreases fuel, 0int,
{
    let ghost r0 = *r;
    if fuel == 0 {
        proof {
            r.lemma_frame_refl();
        }
        return None;
    }
    let value = match eval_constant_within(r, ast, expr, fuel - 1) {
        Some(v) => v,
        None => return None,
    };
    let ghost r1 = *r;
    let res = array_size(value).collect(r, &expr.span);
    proof {
        lemma_kept_trans(r0, r1, *r);
    }
    res
}

/// 6.5.4.2 The length an array size of value `value` gives, if it is a
/// positive integer.
fn array_size(value: Value) -> (d: Diag<Option<usize>>)
    ensures
        d.diagnosis == spec_array_size_diag(value),
        d.diagnosis is None ==> d.res == Some((value.spec_bits() as usize)),
        d.diagnosis is Some ==> d.res is None,
{
    let len = match value.get_integer_value() {
        Some(l) => l,
        None => return Diag::err(None, Diagnosis::NonIntArraySize),
    };
    if value.is_negative() {
        return Diag::err(None, Diagnosis::NegativeArraySize);
    }
    if value.is_zero() {
        return Diag::err(None, Diagnosis::ZeroArraySize);
    }
    Diag::ok(Some(len as usize))
}


/// Some named member among `members` is called `name`.
pub open spec fn has_member_named(sema: &Sema, members: Seq<Member>, name: crate::ast::StringId) -> bool {
    exists|i: int| 0 <= i < members.len() && (#[trigger] members[i]).sym is Some && members[i].sym->0 < sema.nsyms() && sema.sym(members[i].sym->0).name.id == name
}

fn member_named(sema: &Sema, members: &Vec<Member>, name: crate::ast::StringId) -> (b: bool)
    ensures
        b == has_member_named(sema, members@, name),
{
    let mut i: usize = 0;
    while i < members.len()
        invariant
            i <= members@.len(),
            forall|j: int| 0 <= j < i ==> !((#[trigger] members@[j]).sym is Some && members@[j].sym->0 < sema.nsyms() && sema.sym(members@[j].sym->0).name.id == name),
        decreases members@.len() - i,
    {
        if let Some(id) = members[i].sym {
            if id < sema.symbols.data.len() && sema.symbols.data[id].name.id == name {
                return true;
            }
        }
        i += 1;
    }
    false
}

/// Every member refers to an existing symbol.
pub open spec fn members_ok(sema: &Sema, members: Seq<Member>) -> bool {
    forall|i: int| 0 <= i < members.len() ==> ((#[trigger] members[i]).sym matches Some(s) ==> s < sema.nsyms())
}

/// 6.5.2.1 The named members have distinct names.
pub open spec fn distinct_member_names(sema: &Sema, ms: Seq<Member>) -> bool {
    forall|a: int, b: int| 0 <= a < b < ms.len() && (#[trigger] ms[a]).sym is Some && (#[trigger] ms[b]).sym is Some ==> sema.sym(
        ms[a].sym->0,
    ).name.id != sema.sym(ms[b].sym->0).name.id
}

/// Members keep referring to existing symbols, under the same names, as the resolution goes on.
/// The struct declarators of `fields`, in source order.
pub open spec fn spec_flat(fields: Seq<StructDeclaration>) -> Seq<StructDeclarator>
    decreases fields.len(),
{
    if fields.len() == 0 {
        Seq::empty()
    } else {
        spec_flat(fields.drop_last()) + fields.last().struct_declarators@
    }
}

/// The declarators of the first `n` fields come first among those of all.
proof fn lemma_flat_prefix(fields: Seq<StructDeclaration>, n: int)
    requires
        0 <= n <= fields.len(),
    ensures
        spec_flat(fields.take(n)).len() <= spec_flat(fields).len(),
        forall|k: int| 0 <= k < spec_flat(fields.take(n)).len() ==> #[trigger] spec_flat(fields.take(n))[k] == spec_flat(fields)[k],
        n < fields.len() ==> spec_flat(fields.take(n + 1)) == spec_flat(fields.take(n)) + fields[n].struct_declarators@,
    decreases fields.len() - n,
{
    if n < fields.len() {
        assert(fields.take(n + 1).drop_last() =~= fields.take(n));
        assert(fields.take(n + 1).last() == fields[n]);
        assert(spec_flat(fields.take(n + 1)) == spec_flat(fields.take(n)) + fields[n].struct_declarators@);
        lemma_flat_prefix(fields, n + 1);
        assert forall|k: int| 0 <= k < spec_flat(fields.take(n)).len() implies #[trigger] spec_flat(fields.take(n))[k]
            == spec_flat(fields)[k] by {
            assert(spec_flat(fields.take(n + 1))[k] == spec_flat(fields.take(n))[k]);
        }
    } else {
        assert(fields.take(n) =~= fields);
    }
}

/// Member `m` comes from the struct declarator `d`: a named member carries
/// the identifier `d` declares; an unnamed one is a bit-field of `d`, which
/// declares none.
pub open spec fn spec_member_from(sema: &Sema, ast: &Ast, m: Member, d: StructDeclarator) -> bool {
    match m.sym {
        Some(s) => spec_ident(ast, spec_leaf(ast, d.declarator)) == Some(sema.sym(s).name),
        None => spec_ident(ast, spec_leaf(ast, d.declarator)) is None && d.bit_width is Some && m.bit_width is Some,
    }
}

/// Member `k` of `ms` comes from declarator `pos[k]` of `ds`, the positions rising.
pub open spec fn spec_positions(sema: &Sema, ast: &Ast, ms: Seq<Member>, ds: Seq<StructDeclarator>, pos: Seq<int>) -> bool {
    &&& pos.len() == ms.len()
    &&& forall|k: int| 0 <= k < pos.len() ==> 0 <= #[trigger] pos[k] < ds.len() && spec_member_from(sema, ast, ms[k], ds[pos[k]])
    &&& forall|a: int, b: int| 0 <= a < b < pos.len() ==> #[trigger] pos[a] < #[trigger] pos[b]
}

/// The names of existing symbols stay, so the origins of members do.
proof fn lemma_positions_kept(new: SymbolResolver, old: SymbolResolver, ast: &Ast, ms: Seq<Member>, ds: Seq<StructDeclarator>, pos: Seq<int>)
    requires
        new.kept(old),
        members_ok(&old.sema, ms),
    ensures
        spec_positions(&old.sema, ast, ms, ds, pos) ==> spec_positions(&new.sema, ast, ms, ds, pos),
{
    if spec_positions(&old.sema, ast, ms, ds, pos) {
        assert forall|k: int| 0 <= k < pos.len() implies 0 <= #[trigger] pos[k] < ds.len() && spec_member_from(
            &new.sema,
            ast,
            ms[k],
            ds[pos[k]],
        ) by {
            if let Some(sid) = ms[k].sym {
                assert(sid < old.sema.nsyms());
                assert(new.sema.symbols.data@[sid as int].name == old.sema.symbols.data@[sid as int].name);
            }
        }
    }
}

/// The members `ms` come, in source order, from distinct declarators among `ds`.
pub open spec fn spec_members_in_order(sema: &Sema, ast: &Ast, ms: Seq<Member>, ds: Seq<StructDeclarator>) -> bool {
    exists|pos: Seq<int>| spec_positions(sema, ast, ms, ds, pos)
}

proof fn lemma_members_kept(new: SymbolResolver, old: SymbolResolver, ms: Seq<Member>)
    requires
        new.kept(old),
        members_ok(&old.sema, ms),
        distinct_member_names(&old.sema, ms),
    ensures
        members_ok(&new.sema, ms),
        distinct_member_names(&new.sema, ms),
{
    assert forall|a: int, b: int| 0 <= a < b < ms.len() && (#[trigger] ms[a]).sym is Some && (#[trigger] ms[b]).sym is Some implies new.sema.sym(
        ms[a].sym->0,
    ).name.id != new.sema.sym(ms[b].sym->0).name.id by {
        assert(ms[a].sym->0 < old.sema.nsyms());
        assert(ms[b].sym->0 < old.sema.nsyms());
        assert(new.sema.symbols.data@[ms[a].sym->0 as int].name == old.sema.symbols.data@[ms[a].sym->0 as int].name);
        assert(new.sema.symbols.data@[ms[b].sym->0 as int].name == old.sema.symbols.data@[ms[b].sym->0 as int].name);
    }
    assert forall|i: int| 0 <= i < ms.len() implies ((#[trigger] ms[i]).sym matches Some(s) ==> s < new.sema.nsyms()) by {}
}

/// Some member among `members` is named.
pub open spec fn has_named_member(members: Seq<Member>) -> bool {
    exists|i: int| 0 <= i < members.len() && (#[trigger] members[i]).sym is Some
}

fn any_named(members: &Vec<Member>) -> (b: bool)
    ensures
        b == has_named_member(members@),
{
    let mut i: usize = 0;
    while i < members.len()
        invariant
            i <= members@.len(),
            forall|j: int| 0 <= j < i ==> (#[trigger] members@[j]).sym is None,
        decreases members@.len() - i,
    {
        if members[i].sym.is_some() {
            return true;
        }
        i += 1;
    }
    false
}

/// 6.5.2.1, 6.5.2.3 A structure or union specifier. Without a member list it
/// refers to a tag (declaring it when none is visible); with one it defines
/// the tag: each declarator becomes a member of object type, named members
/// must differ, and a definition needs a named member (unless a member was
/// already refused). The tag is complete afterwards.
#[verifier::rlimit(100)]
#[verifier::spinoff_prover]
pub fn struct_or_union_tag(
    r: &mut SymbolResolver,
    ast: &Ast,
    kind: Tag,
    name: Option<Name>,
    fields: &[StructDeclaration],
    span: &Span,
    fuel: usize,
) -> (tag: TagDefId)
    requires
        old(r).ready(ast),
    ensures
        final(r).kept(*old(r)),
        tag < final(r).sema.ntags(),
        fields@.len() > 0 ==> final(r).sema.tag(tag).is_complete,
        fields@.len() > 0 ==> members_ok(&final(r).sema, final(r).sema.tag(tag).members@),
        fields@.len() > 0 ==> distinct_member_names(&final(r).sema, final(r).sema.tag(tag).members@),
        fields@.len() == 0 ==> spec_tag_declared(*final(r), *old(r), kind, name, false, *span, tag),
        fields@.len() > 0 && fuel > 2 ==> spec_members_in_order(
            &final(r).sema,
            ast,
            final(r).sema.tag(tag).members@,
            spec_flat(fields@),
        ),
        fields@.len() > 0 && !has_named_member(final(r).sema.tag(tag).members@) ==> old(r).sema.diagnosis@.len()
            < final(r).sema.diagnosis@.len(),
    decreases fuel, 0int,
{
    let ghost r0 = *r;
    let is_definition = fields.len() > 0;
    let tag = r.declare_tag(kind, name, is_definition, span);
    if !is_definition {
        return tag;
    }
    let mut members: Vec<Member> = Vec::new();
    let mut has_rejected_member = false;
    let mut fi: usize = 0;
    let ghost mut pos: Seq<int> = Seq::empty();
    let ghost ds = spec_flat(fields@);
    while fi < fields.len()
        invariant
            fi <= fields@.len(),
            r.kept(r0),
            r0.ready(ast),
            tag < r.sema.ntags(),
            members_ok(&r.sema, members@),
            distinct_member_names(&r.sema, members@),
            ds == spec_flat(fields@),
            fuel > 2 ==> spec_positions(&r.sema, ast, members@, ds, pos),
            fuel > 2 ==> forall|k: int| 0 <= k < pos.len() ==> #[trigger] pos[k] < spec_flat(fields@.take(fi as int)).len(),
            has_rejected_member ==> r0.sema.diagnosis@.len() < r.sema.diagnosis@.len(),
        decreases fields@.len() - fi,
    {
        let field = &fields[fi];
        proof {
            lemma_flat_prefix(fields@, fi as int);
        }
        let ghost base = spec_flat(fields@.take(fi as int)).len() as int;
        proof {
            lemma_flat_prefix(fields@, fi as int + 1);
            assert(spec_flat(fields@.take(fi as int + 1)) == spec_flat(fields@.take(fi as int)) + field.struct_declarators@);
            assert forall|j: int| 0 <= j < field.struct_declarators@.len() implies #[trigger] ds[base + j] == field.struct_declarators@[j] by {
                assert(spec_flat(fields@.take(fi as int + 1))[base + j] == field.struct_declarators@[j]);
            }
        }
        let ghost rf = *r;
        if field.struct_declarators.len() == 0 {
            r.add_diag(Diag::err((), Diagnosis::EmptyDeclaration), &field.span);
        }
        let qual = if fuel > 0 {
            base_type_within(r, ast, field.specifiers.as_slice(), &field.span, fuel - 1)
        } else {
            None
        };
        proof {
            lemma_kept_trans(r0, rf, *r);
            lemma_members_kept(*r, rf, members@);
            lemma_positions_kept(*r, rf, ast, members@, ds, pos);
        }
        let mut di: usize = 0;
        while di < field.struct_declarators.len()
            invariant
                di <= field.struct_declarators@.len(),
                fi < fields@.len(),
                *field == fields@[fi as int],
                r.kept(r0),
                r0.ready(ast),
                tag < r.sema.ntags(),
                qual matches Some(q) ==> r.sema.qt_ok(q),
                members_ok(&r.sema, members@),
                distinct_member_names(&r.sema, members@),
                ds == spec_flat(fields@),
                base + field.struct_declarators@.len() <= ds.len(),
                forall|j: int| 0 <= j < field.struct_declarators@.len() ==> #[trigger] ds[base + j] == field.struct_declarators@[j],
                base == spec_flat(fields@.take(fi as int)).len(),
                fuel > 2 ==> spec_positions(&r.sema, ast, members@, ds, pos),
                fuel > 2 ==> forall|k: int| 0 <= k < pos.len() ==> #[trigger] pos[k] < base + di,
                has_rejected_member ==> r0.sema.diagnosis@.len() < r.sema.diagnosis@.len(),
            decreases field.struct_declarators@.len() - di,
        {
            let sd = field.struct_declarators[di];
            let ghost g = base + di;
            proof {
                assert(ds[g] == sd);
            }
            let decl = sd.declarator;
            di += 1;
            let ghost rd = *r;
            let diag_count_before = r.sema.diagnosis.len();
            if fuel == 0 {
                continue;
            }
            let declared = declared_type_within(r, ast, qual, &decl, fuel - 1);
            proof {
                lemma_kept_trans(r0, rd, *r);
                lemma_members_kept(*r, rd, members@);
                lemma_positions_kept(*r, rd, ast, members@, ds, pos);
            }
            let (ty, node) = match declared {
                Some(d) => d,
                None => continue,
            };
            let already_diagnosed = r.sema.diagnosis.len() != diag_count_before;
            let member_name = ident(ast, &node);
            let bit_width = match sd.bit_width {
                Some(e) => {
                    let ghost re0 = *r;
                    let value = eval_constant_within(r, ast, &e, fuel - 1);
                    let d = check_bit_width(&r.sema.target, r.sema.types.get(ty.id), value, member_name);
                    let w = d.collect(r, span);
                    proof {
                        lemma_kept_trans(r0, re0, *r);
                        lemma_members_kept(*r, re0, members@);
                lemma_positions_kept(*r, re0, ast, members@, ds, pos);
                    }
                    w
                },
                None => None,
            };
            let is_member_object = ty.is_object(&r.sema);
            if !already_diagnosed {
                let ghost rc = *r;
                check_member_type(is_member_object, ty).collect(r, &decl.span);
                proof {
                    lemma_kept_trans(r0, rc, *r);
                    lemma_kept_frame(*r, rc);
                    lemma_members_kept(*r, rc, members@);
                lemma_positions_kept(*r, rc, ast, members@, ds, pos);
                }
            }
            if already_diagnosed || !is_member_object {
                has_rejected_member = true;
                proof {
                    assert(rd.sema.diagnosis@.len() == diag_count_before);
                    assert(r0.sema.diagnosis@.len() <= rd.sema.diagnosis@.len());
                }
                continue;
            }
            match (member_name, bit_width) {
                (Some(n), _) => {
                    if member_named(&r.sema, &members, n.id) {
                        let ghost rc = *r;
                        r.add_diag(Diag::err((), Diagnosis::DuplicateDeclaration(SymbolKind::Member, n)), &decl.span);
                        proof {
                            lemma_kept_trans(r0, rc, *r);
                            lemma_kept_frame(*r, rc);
                            lemma_members_kept(*r, rc, members@);
                lemma_positions_kept(*r, rc, ast, members@, ds, pos);
                        }
                        continue;
                    }
                    let ghost rc = *r;
                    let memb = Symbol::member(n, ty, bit_width);
                    let id = r.sema.add_symbol(memb);
                    proof {
                        lemma_kept_trans(r0, rc, *r);
                        lemma_members_kept(*r, rc, members@);
                        lemma_positions_kept(*r, rc, ast, members@, ds, pos);
                    }
                    let ghost before = members@;
                    let ghost pos0 = pos;
                    members.push(Member::symbol(id, bit_width));
                    proof {
                        pos = pos.push(g);
                        assert(r.sema.sym(id).name == n);
                        if fuel > 2 {
                            assert forall|k: int| 0 <= k < pos.len() implies 0 <= #[trigger] pos[k] < ds.len() && spec_member_from(&r.sema, ast, members@[k], ds[pos[k]]) by {
                                if k < pos0.len() {
                                    assert(pos[k] == pos0[k] && members@[k] == before[k]);
                                }
                            }
                        }
                        assert(r.sema.sym(id).name.id == n.id);
                        assert forall|a: int, b: int| 0 <= a < b < members@.len() && (#[trigger] members@[a]).sym is Some
                            && (#[trigger] members@[b]).sym is Some implies r.sema.sym(members@[a].sym->0).name.id != r.sema.sym(
                            members@[b].sym->0,
                        ).name.id by {
                            if b == members@.len() - 1 {
                                assert(members@[a] == before[a]);
                                assert(before[a].sym->0 < rc.sema.nsyms());
                                assert(r.sema.symbols.data@[before[a].sym->0 as int] == rc.sema.symbols.data@[before[a].sym->0 as int]);
                                if rc.sema.sym(before[a].sym->0).name.id == n.id {
                                    assert(has_member_named(&rc.sema, before, n.id));
                                }
                            } else {
                                assert(members@[a] == before[a] && members@[b] == before[b]);
                            }
                        }
                    }
                },
                (None, Some(w)) => {
                    let ghost before = members@;
                    let ghost pos0 = pos;
                    members.push(Member::bitfield(w));
                    proof {
                        pos = pos.push(g);
                        if fuel > 2 {
                            assert forall|k: int| 0 <= k < pos.len() implies 0 <= #[trigger] pos[k] < ds.len() && spec_member_from(&r.sema, ast, members@[k], ds[pos[k]]) by {
                                if k < pos0.len() {
                                    assert(pos[k] == pos0[k] && members@[k] == before[k]);
                                }
                            }
                        }
                        assert forall|a: int, b: int| 0 <= a < b < members@.len() && (#[trigger] members@[a]).sym is Some
                            && (#[trigger] members@[b]).sym is Some implies r.sema.sym(members@[a].sym->0).name.id != r.sema.sym(
                            members@[b].sym->0,
                        ).name.id by {
                            assert(members@[a] == before[a]);
                            if b < members@.len() - 1 {
                                assert(members@[b] == before[b]);
                            }
                        }
                    }
                },
                _ => {},
            }
        }
        proof {
            lemma_flat_prefix(fields@, fi as int + 1);
        }
        fi += 1;
    }
    let ghost re = *r;
    if !has_rejected_member && (members.len() == 0 || !any_named(&members)) {
        let k = kind.symbol_kind();
        r.add_diag(Diag::err((), Diagnosis::TagWithoutMember(k)), span);
    }
    proof {
        lemma_kept_frame(*r, re);
        lemma_members_kept(*r, re, members@);
        lemma_positions_kept(*r, re, ast, members@, ds, pos);
    }
    let ghost rm = *r;
    let ghost ms = members@;
    r.sema.complete_tag(tag, members);
    proof {
        lemma_kept_trans(r0, re, *r);
        lemma_positions_kept(*r, rm, ast, ms, ds, pos);
        if fuel > 2 {
            assert(spec_positions(&r.sema, ast, r.sema.tag(tag).members@, spec_flat(fields@), pos));
        }
    }
    tag
}

/// The value of an enumeration constant recorded as `value`: its bits, if
/// it is an integer.
pub open spec fn spec_variant_value(value: Option<Value>) -> Option<i64> {
    match value {
        Some(v) => if v.spec_is_integer() {
            Some(v.spec_bits() as i64)
        } else {
            None
        },
        None => None,
    }
}

/// 6.5.2.2 The value of an enumeration constant given explicitly, which
/// shall be an integral constant expression.
fn variant_value(r: &mut SymbolResolver, ast: &Ast, expr: &ExpressionNode, fuel: usize) -> (res: Option<i64>)
    requires
        old(r).ready(ast),
    ensures
        final(r).kept(*old(r)),
        fuel == 0 || (fuel == 1 && !old(r).sema.expr_consts.spec_seen(expr.id)) ==> res is None && *final(r) == *old(r),
        fuel > 1 || (fuel == 1 && old(r).sema.expr_consts.spec_seen(expr.id)) ==> {
            &&& expr.id < old(r).sema.expr_consts.data@.len() ==> final(r).sema.expr_consts.spec_seen(expr.id)
            &&& res == spec_variant_value(final(r).sema.expr_consts.spec_get(expr.id))
            &&& reported_last(
                final(r).sema.diagnosis@,
                (match final(r).sema.expr_consts.spec_get(expr.id) {
                    Some(v) => if v.spec_is_integer() {
                        None
                    } else {
                        Some(Diagnosis::NonIntegerConstantExpression)
                    },
                    None => None,
                }),
                expr.span,
            )
        },
    decreases fuel, 0int,
{
    let ghost r0 = *r;
    if fuel == 0 {
        proof {
            r.lemma_frame_refl();
        }
        return None;
    }
    let value = match eval_constant_within(r, ast, expr, fuel - 1) {
        Some(v) => v,
        None => return None,
    };
    match value.get_integer_value() {
        Some(v) => Some(v as i64),
        None => {
            let ghost r1 = *r;
            let res = r.add_diag(Diag::err(None, Diagnosis::NonIntegerConstantExpression), &expr.span);
            proof {
                lemma_kept_trans(r0, r1, *r);
            }
            res
        },
    }
}

/// How many of the variants `vs` are nodes of `ast`.
pub open spec fn spec_known_variants(ast: &Ast, vs: Seq<crate::ast::VariantNodeId>) -> nat
    decreases vs.len(),
{
    if vs.len() == 0 {
        0
    } else {
        spec_known_variants(ast, vs.drop_last()) + if vs.last() < ast.variants@.len() { 1nat } else { 0nat }
    }
}

/// 6.5.2.2 The values of the enumeration constants among `vs` that are
/// nodes of `ast`, in order, and the value the next one would get: a
/// constant has the value given, if it is an integer, or one more than the
/// previous one (0 first); a value out of the range of int becomes 0.
pub open spec fn spec_enum_values(sema: &Sema, ast: &Ast, vs: Seq<crate::ast::VariantNodeId>) -> (Seq<i64>, int)
    decreases vs.len(),
{
    if vs.len() == 0 {
        (Seq::empty(), 0)
    } else {
        let prev = spec_enum_values(sema, ast, vs.drop_last());
        if vs.last() >= ast.variants@.len() {
            prev
        } else {
            let given = match ast.variants@[vs.last() as int].value {
                Some(e) => spec_variant_value(sema.expr_consts.spec_get(e.id)),
                None => None,
            };
            let v0: int = match given {
                Some(v) => v as int,
                None => prev.1,
            };
            let v: int = if v0 < i32::MIN || v0 > i32::MAX { 0 } else { v0 };
            (prev.0.push(v as i64), v + 1)
        }
    }
}

/// The values given for the variants `vs` are recorded alike in `a` and `b`.
pub open spec fn same_given_values(a: &Sema, b: &Sema, ast: &Ast, vs: Seq<crate::ast::VariantNodeId>) -> bool {
    forall|j: int|
        0 <= j < vs.len() && vs[j] < ast.variants@.len() && #[trigger] ast.variants@[vs[j] as int].value is Some ==> a.expr_consts.spec_get(
            ast.variants@[vs[j] as int].value->0.id,
        ) == b.expr_consts.spec_get(ast.variants@[vs[j] as int].value->0.id)
}

proof fn lemma_enum_values_stable(a: &Sema, b: &Sema, ast: &Ast, vs: Seq<crate::ast::VariantNodeId>)
    requires
        same_given_values(a, b, ast, vs),
    ensures
        spec_enum_values(a, ast, vs) == spec_enum_values(b, ast, vs),
    decreases vs.len(),
{
    if vs.len() > 0 {
        assert forall|j: int|
            0 <= j < vs.drop_last().len() && vs.drop_last()[j] < ast.variants@.len() && #[trigger] ast.variants@[vs.drop_last()[j] as int].value is Some
            implies a.expr_consts.spec_get(ast.variants@[vs.drop_last()[j] as int].value->0.id) == b.expr_consts.spec_get(
            ast.variants@[vs.drop_last()[j] as int].value->0.id,
        ) by {
            assert(vs.drop_last()[j] == vs[j]);
        }
        lemma_enum_values_stable(a, b, ast, vs.drop_last());
        if vs.last() < ast.variants@.len() && ast.variants@[vs.last() as int].value is Some {
            assert(vs.last() == vs[vs.len() - 1]);
        }
    }
}

/// 6.5.2.2 An enumeration specifier. With a list of enumeration constants it
/// defines the tag: each constant is an int declared in the current scope,
/// with the value given or one more than the previous one (0 first); a
/// value out of the range of int is reported and replaced by 0.
#[verifier::rlimit(100)]
#[verifier::spinoff_prover]
pub fn enum_tag(r: &mut SymbolResolver, ast: &Ast, id: EnumId, fuel: usize) -> (res: Option<TagDefId>)
    requires
        old(r).ready(ast),
    ensures
        final(r).kept(*old(r)),
        res matches Some(t) ==> t < final(r).sema.ntags(),
        id >= ast.enums@.len() ==> res is None,
        id < ast.enums@.len() ==> res is Some,
        (id < ast.enums@.len() && ast.enums@[id as int].variants@.len() > 0) ==> (res matches Some(t)
            && final(r).sema.tag(t).is_complete && members_ok(&final(r).sema, final(r).sema.tag(t).members@)),
        (id < ast.enums@.len() && ast.enums@[id as int].variants@.len() == 0) ==> (res matches Some(t) && spec_tag_declared(
            *final(r),
            *old(r),
            Tag::Enum,
            ast.enums@[id as int].name,
            false,
            ast.enums@[id as int].span,
            t,
        )),
        (id < ast.enums@.len() && ast.enums@[id as int].variants@.len() > 0) ==> (res matches Some(t) && {
            let ms = final(r).sema.tag(t).members@;
            &&& ms.len() == spec_known_variants(ast, ast.enums@[id as int].variants@)
            &&& forall|k: int| 0 <= k < ms.len() ==> (#[trigger] ms[k]).sym is Some && ms[k].bit_width is None
        }),
        (id < ast.enums@.len() && ast.enums@[id as int].variants@.len() > 0 && fuel > 2 && final(r).sema.diagnosis@.len()
            == old(r).sema.diagnosis@.len()) ==> (res matches Some(t) && {
            let ms = final(r).sema.tag(t).members@;
            let vals = spec_enum_values(&final(r).sema, ast, ast.enums@[id as int].variants@).0;
            &&& vals.len() == ms.len()
            &&& forall|k: int| 0 <= k < ms.len() ==> final(r).sema.sym((#[trigger] ms[k]).sym->0).value == Some(vals[k] as i32)
                && final(r).sema.sym(ms[k].sym->0).kind == SymbolKind::Variant
        }),
    decreases fuel, 0int,
{
    let ghost r0 = *r;
    if id >= ast.enums.len() {
        proof {
            r.lemma_frame_refl();
        }
        return None;
    }
    let enum_node = &ast.enums[id];
    let is_definition = enum_node.variants.len() > 0;
    let tag = r.declare_tag(Tag::Enum, enum_node.name, is_definition, &enum_node.span);
    if !is_definition {
        return Some(tag);
    }
    let mut members: Vec<Member> = Vec::new();
    let mut value: i64 = 0;
    let mut i: usize = 0;
    while i < enum_node.variants.len()
        invariant
            i <= enum_node.variants@.len(),
            members@.len() == spec_known_variants(ast, enum_node.variants@.take(i as int)),
            forall|k: int| 0 <= k < members@.len() ==> (#[trigger] members@[k]).sym is Some && members@[k].bit_width is None,
            *enum_node == ast.enums@[id as int],
            r.kept(r0),
            r0.ready(ast),
            tag < r.sema.ntags(),
            members_ok(&r.sema, members@),
            i32::MIN <= value <= i32::MAX as i64 + 1,
            fuel > 2 ==> value == spec_enum_values(&r.sema, ast, enum_node.variants@.take(i as int)).1,
            fuel > 2 ==> spec_enum_values(&r.sema, ast, enum_node.variants@.take(i as int)).0.len() == members@.len(),
            fuel > 2 && r.sema.diagnosis@.len() == r0.sema.diagnosis@.len() ==> forall|k: int|
                0 <= k < members@.len() ==> r.sema.sym((#[trigger] members@[k]).sym->0).value == Some(
                    spec_enum_values(&r.sema, ast, enum_node.variants@.take(i as int)).0[k] as i32,
                ) && r.sema.sym(members@[k].sym->0).kind == SymbolKind::Variant,
            fuel > 2 ==> forall|j: int|
                0 <= j < i && enum_node.variants@[j] < ast.variants@.len() && #[trigger] ast.variants@[enum_node.variants@[j] as int].value is Some
                    ==> (ast.variants@[enum_node.variants@[j] as int].value->0.id < r.sema.expr_consts.data@.len()
                    ==> r.sema.expr_consts.spec_seen(ast.variants@[enum_node.variants@[j] as int].value->0.id)),
        decreases enum_node.variants@.len() - i,
    {
        let vid = enum_node.variants[i];
        let ghost pre = enum_node.variants@.take(i as int);
        let ghost rs = *r;
        proof {
            assert(enum_node.variants@.take(i as int + 1).drop_last() =~= enum_node.variants@.take(i as int));
            assert(enum_node.variants@.take(i as int + 1).last() == vid);
        }
        i += 1;
        if vid >= ast.variants.len() {
            continue;
        }
        let variant = ast.variants[vid];
        let ghost rv = *r;
        if let Some(expr) = variant.value {
            if fuel > 0 {
                if let Some(v) = variant_value(r, ast, &expr, fuel - 1) {
                    value = v;
                }
            }
        }
        let ghost r1 = *r;
        if value < i32::MIN as i64 || value > i32::MAX as i64 {
            r.add_diag(Diag::err((), Diagnosis::VariantBadValue), &variant.span);
            value = 0;
        }
        let ty = QualifiedType::plain(r.sema.builtins.int);
        let ghost rb = *r;
        let sym_id = r.declare(Symbol::variant(variant.name, ty, value as i32), &variant.span);
        proof {
            lemma_kept_trans(rv, rb, *r);
            lemma_kept_trans(r0, rv, *r);
        }
        let ghost before = members@;
        members.push(Member::symbol(sym_id, None));
        proof {
            if fuel > 2 {
                let now = enum_node.variants@.take(i as int);
                assert(now.drop_last() == pre && now.last() == vid);
                assert forall|j: int|
                    0 <= j < pre.len() && pre[j] < ast.variants@.len() && #[trigger] ast.variants@[pre[j] as int].value is Some
                    implies rs.sema.expr_consts.spec_get(ast.variants@[pre[j] as int].value->0.id) == r.sema.expr_consts.spec_get(
                    ast.variants@[pre[j] as int].value->0.id,
                ) by {
                    let eid = ast.variants@[pre[j] as int].value->0.id;
                    assert(pre[j] == enum_node.variants@[j]);
                    if eid < rs.sema.expr_consts.data@.len() {
                        assert(rs.sema.expr_consts.spec_seen(eid));
                        assert(r.sema.expr_consts.data@[eid as int] == rs.sema.expr_consts.data@[eid as int]);
                    }
                }
                lemma_enum_values_stable(&rs.sema, &r.sema, ast, pre);
                if let Some(e) = variant.value {
                    if e.id < r1.sema.expr_consts.data@.len() {
                        assert(r1.sema.expr_consts.spec_seen(e.id));
                        lemma_kept_trans(r1, rb, *r);
                        assert(r.sema.expr_consts.data@[e.id as int] == r1.sema.expr_consts.data@[e.id as int]);
                    }
                    assert(r.sema.expr_consts.spec_get(e.id) == r1.sema.expr_consts.spec_get(e.id));
                }
                if r.sema.diagnosis@.len() == r0.sema.diagnosis@.len() {
                    assert(rs.sema.diagnosis@.len() == r0.sema.diagnosis@.len());
                    assert(rb.sema.diagnosis@.len() == r.sema.diagnosis@.len());
                    if let Some(p) = spec_current(&rb.sema, SymbolKind::Variant, variant.name.id) {
                        assert(rb.sema.symbol_ok(rb.sema.symbols.data@[p as int]));
                    }
                    assert(r.sema.sym(sym_id).value == Some(value as i32));
                    assert forall|k: int| 0 <= k < members@.len() implies r.sema.sym((#[trigger] members@[k]).sym->0).value == Some(
                        spec_enum_values(&r.sema, ast, now).0[k] as i32,
                    ) && r.sema.sym(members@[k].sym->0).kind == SymbolKind::Variant by {
                        if k < before.len() {
                            assert(members@[k] == before[k]);
                            assert(before[k].sym->0 < rs.sema.nsyms());
                            assert(r.sema.symbols.data@[before[k].sym->0 as int].value == rs.sema.symbols.data@[before[k].sym->0 as int].value);
                        }
                    }
                }
                assert forall|j: int|
                    0 <= j < i && enum_node.variants@[j] < ast.variants@.len() && #[trigger] ast.variants@[enum_node.variants@[j] as int].value is Some
                    implies (ast.variants@[enum_node.variants@[j] as int].value->0.id < r.sema.expr_consts.data@.len()
                    ==> r.sema.expr_consts.spec_seen(ast.variants@[enum_node.variants@[j] as int].value->0.id)) by {
                    let eid = ast.variants@[enum_node.variants@[j] as int].value->0.id;
                    if j < i - 1 {
                        if eid < rs.sema.expr_consts.data@.len() {
                            assert(rs.sema.expr_consts.spec_seen(eid));
                        }
                    } else {
                        assert(enum_node.variants@[j] == vid);
                        if eid < r1.sema.expr_consts.data@.len() {
                            assert(r1.sema.expr_consts.spec_seen(eid));
                            lemma_kept_trans(r1, rb, *r);
                        }
                    }
                }
            }
        }
        value += 1;
    }
    let ghost re = *r;
    proof {
        assert(enum_node.variants@.take(i as int) =~= enum_node.variants@);
    }
    r.sema.complete_tag(tag, members);
    proof {
        lemma_kept_trans(r0, re, *r);
        if fuel > 2 {
            assert(same_given_values(&re.sema, &r.sema, ast, enum_node.variants@));
            lemma_enum_values_stable(&re.sema, &r.sema, ast, enum_node.variants@);
        }
    }
    Some(tag)
}


/// 6.3.2.2 A call of an undeclared identifier declares it, in the innermost
/// scope, as `extern int identifier();`.
pub fn implicit_declare_function(r: &mut SymbolResolver, fn_name: &Name, span: &Span)
    requires
        old(r).wf(),
        old(r).sema.scopes@.len() > 0,
    ensures
        final(r).kept(*old(r)),
        final(r).sema.scopes@.last().ordinaries@.contains_key(fn_name.id),
{
    let ret = QualifiedType::plain(r.sema.builtins.int);
    let fn_ty = r.sema.function_type(ret, ParamTypes::Unspecified);
    let ty = QualifiedType::plain(fn_ty);
    let sym = Symbol::function(*fn_name, ty, Storage::Extern);
    let ghost r1 = *r;
    r.declare(sym, span);
    proof {
        lemma_kept_trans(*old(r), r1, *r);
    }
}


/// 6.5, 6.7.2 A declared object must have a complete type: always for void,
/// when initialized (an array of unknown size takes its size from the
/// initializer), and for a definition in block scope.
pub open spec fn spec_requires_complete_object(sema: &Sema, ty: QualifiedType, storage: Storage, is_init: bool) -> bool {
    if sema.ty(ty.id) is Void {
        true
    } else if is_init && (sema.ty(ty.id) matches ResolvedType::Array { len: None, .. }) {
        false
    } else if is_init {
        true
    } else {
        (sema.scopes@.last().kind == ScopeKind::Block || sema.scopes@.last().kind == ScopeKind::Function) && storage
            != Storage::Extern
    }
}

pub fn requires_complete_object(sema: &Sema, ty: QualifiedType, storage: Storage, is_init: bool) -> (b: bool)
    requires
        sema.wf(),
        sema.qt_ok(ty),
        sema.scopes@.len() > 0,
    ensures
        b == spec_requires_complete_object(sema, ty, storage, is_init),
{
    if ty.is_void(sema) {
        return true;
    }
    let is_unsized_array = match sema.types.get(ty.id) {
        ResolvedType::Array { len: None, .. } => true,
        _ => false,
    };
    if is_init && is_unsized_array {
        return false;
    }
    if is_init {
        return true;
    }
    matches!(sema.scopes.kind(), ScopeKind::Block | ScopeKind::Function) && storage != Storage::Extern
}

/// A declaration specifier that declares a tag: a named structure or union,
/// or an enumeration.
pub open spec fn spec_declares_tag_specifier(ast: &Ast, s: DeclarationSpecifier) -> bool {
    match s {
        DeclarationSpecifier::Type(TypeSpecifier::Struct(id)) | DeclarationSpecifier::Type(TypeSpecifier::Union(id)) =>
            id < ast.structs@.len() && ast.structs@[id as int].name is Some,
        DeclarationSpecifier::Type(TypeSpecifier::Enum(_)) => true,
        _ => false,
    }
}

/// 6.5 A declaration without declarators must declare a tag.
pub fn declares_tag(ast: &Ast, specifiers: &[DeclarationSpecifier]) -> (b: bool)
    ensures
        b == exists|i: int| 0 <= i < specifiers@.len() && spec_declares_tag_specifier(ast, #[trigger] specifiers@[i]),
{
    let mut i: usize = 0;
    while i < specifiers.len()
        invariant
            i <= specifiers@.len(),
            forall|j: int| 0 <= j < i ==> !spec_declares_tag_specifier(ast, #[trigger] specifiers@[j]),
        decreases specifiers@.len() - i,
    {
        let found = match specifiers[i] {
            DeclarationSpecifier::Type(TypeSpecifier::Struct(id)) | DeclarationSpecifier::Type(TypeSpecifier::Union(id)) =>
                id < ast.structs.len() && ast.structs[id].name.is_some(),
            DeclarationSpecifier::Type(TypeSpecifier::Enum(_)) => true,
            _ => false,
        };
        if found {
            return true;
        }
        i += 1;
    }
    false
}

/// 6.5, 6.7 A declaration declares at least a declarator or a tag; at file
/// scope its specifiers include neither `auto` nor `register`.
pub fn check_declaration(r: &mut SymbolResolver, ast: &Ast, node: &DeclarationNode)
    requires
        old(r).wf(),
        old(r).sema.scopes@.len() > 0,
    ensures
        final(r).frame(*old(r)),
        final(r).sema.diagnosis@ == crate::semantic::diagnosis::recorded(
            crate::semantic::diagnosis::recorded(
                old(r).sema.diagnosis@,
                if old(r).sema.scopes@.last().kind == ScopeKind::File {
                    check_external_specifiers_diag(node.specifiers@)
                } else {
                    None
                },
                node.span,
            ),
            if node.init_declarators@.len() == 0 && !(exists|i: int| 0 <= i < node.specifiers@.len()
                && spec_declares_tag_specifier(ast, #[trigger] node.specifiers@[i])) {
                Some(Diagnosis::EmptyDeclaration)
            } else {
                None
            },
            node.span,
        ),
{
    let span = &node.span;
    if matches!(r.sema.scopes.kind(), ScopeKind::File) {
        check_external_specifiers(node.specifiers.as_slice()).collect(r, span);
    } else {
        proof {
            r.lemma_frame_refl();
        }
    }
    if node.init_declarators.len() == 0 && !declares_tag(ast, node.specifiers.as_slice()) {
        r.add_diag(Diag::err((), Diagnosis::EmptyDeclaration), span);
    } else {
        proof {
            r.lemma_frame_refl();
        }
    }
}

/// The diagnostic `check_external_specifiers` gives.
pub open spec fn check_external_specifiers_diag(specifiers: Seq<DeclarationSpecifier>) -> Option<Diagnosis> {
    if exists|i: int| 0 <= i < specifiers.len() && (#[trigger] specifiers[i] == DeclarationSpecifier::Storage(Storage::Auto)
        || specifiers[i] == DeclarationSpecifier::Storage(Storage::Register)) {
        Some(Diagnosis::AutoRegisterExternal)
    } else {
        None
    }
}

/// As `declared_type`, telling whether resolving the declarator reported anything.
pub fn declared_type_watched(
    r: &mut SymbolResolver,
    ast: &Ast,
    qualif: Option<QualifiedType>,
    decl: &DeclaratorNode,
) -> (res: Option<(QualifiedType, DeclaratorNode, bool)>)
    requires
        old(r).ready(ast),
        qualif matches Some(q) ==> old(r).sema.qt_ok(q),
    ensures
        final(r).kept(*old(r)),
        res matches Some((q, _, diagnosed)) ==> final(r).sema.qt_ok(q) && diagnosed == (final(r).sema.diagnosis@.len()
            != old(r).sema.diagnosis@.len()),
        qualif is None ==> res is None,
        qualif is Some ==> (res matches Some((_, core, _)) && core == spec_leaf(ast, *decl)),
{
    let before = r.sema.diagnosis.len();
    let (ty, core) = match declared_type(r, ast, qualif, decl) {
        Some(d) => d,
        None => return None,
    };
    Some((ty, core, r.sema.diagnosis.len() != before))
}

/// The storage class and kind of symbol a declaration of type `ty` gives:
/// a function declared in a block shall be `extern` (or have no storage
/// class); functions default to `extern`, objects to `auto`.
pub open spec fn spec_classify(ty: ResolvedType, declared_storage: Option<Storage>) -> (Storage, SymbolKind) {
    let is_function = ty is Function;
    let storage = match declared_storage {
        Some(s) => s,
        None => if is_function { Storage::Extern } else { Storage::Auto },
    };
    let kind = if storage == Storage::Typedef {
        SymbolKind::Typedef
    } else if is_function {
        SymbolKind::Function
    } else {
        SymbolKind::Variable
    };
    (storage, kind)
}

pub fn classify(r: &mut SymbolResolver, ty: QualifiedType, declared_storage: Option<Storage>, span: &Span) -> (res: (
    Storage,
    SymbolKind,
))
    requires
        old(r).wf(),
        old(r).sema.qt_ok(ty),
        old(r).sema.scopes@.len() > 0,
    ensures
        final(r).frame(*old(r)),
        res == spec_classify(old(r).sema.ty(ty.id), declared_storage),
        final(r).sema.diagnosis@ == crate::semantic::diagnosis::recorded(
            old(r).sema.diagnosis@,
            match declared_storage {
                Some(st) => if st != Storage::Typedef && old(r).sema.ty(ty.id) is Function && (old(r).sema.scopes@.last().kind
                    == ScopeKind::Block || old(r).sema.scopes@.last().kind == ScopeKind::Function) && st != Storage::Extern {
                    Some(Diagnosis::BlockScopeNotExtern)
                } else {
                    None
                },
                None => None,
            },
            *span,
        ),
{
    let is_function = matches!(r.sema.types.get(ty.id), ResolvedType::Function { .. });
    match declared_storage {
        Some(st) => {
            if !matches!(st, Storage::Typedef) && is_function {
                let k = r.sema.scopes.kind();
                extern_function_only(k, st).collect(r, span);
            } else {
                proof {
                    r.lemma_frame_refl();
                }
            }
        },
        None => {
            proof {
                r.lemma_frame_refl();
            }
        },
    }
    let storage = match declared_storage {
        Some(st) => st,
        None => if is_function {
            Storage::Extern
        } else {
            Storage::Auto
        },
    };
    let kind = if matches!(storage, Storage::Typedef) {
        SymbolKind::Typedef
    } else if is_function {
        SymbolKind::Function
    } else {
        SymbolKind::Variable
    };
    (storage, kind)
}

/// 6.1.2.2, 6.1.2.4, 6.7.2 Declares `sym` with the linkage, storage
/// duration and kind of definition its scope and storage class give.
pub fn declare_symbol(r: &mut SymbolResolver, sym: Symbol, declared_storage: Option<Storage>, span: &Span) -> (id: SymbolId)
    requires
        old(r).wf(),
        old(r).sema.scopes@.len() > 0,
        old(r).sema.symbol_ok(sym),
        is_ordinary_kind(sym.kind),
    ensures
        final(r).kept(*old(r)),
        id < final(r).sema.nsyms(),
        final(r).sema.scopes@.last().ordinaries@.contains_key(sym.name.id),
        final(r).sema.scopes@.last().ordinaries@[sym.name.id] == id,
        ({
            let scope = old(r).sema.scopes@.last().kind;
            let prior = if old(r).sema.externals@.contains_key(sym.name.id) {
                Some(old(r).sema.sym(old(r).sema.externals@[sym.name.id].symbol).linkage)
            } else {
                None
            };
            let linkage = crate::semantic::model::symbol::spec_linkage_of(scope, declared_storage, sym.kind, prior);
            (linkage == crate::semantic::model::symbol::Linkage::NoLinkage && crate::semantic::resolution::resolver::spec_current(&old(r).sema, sym.kind, sym.name.id) is None) ==> {
                &&& id == old(r).sema.nsyms()
                &&& final(r).sema.sym(id) == (Symbol {
                    linkage,
                    duration: crate::semantic::model::symbol::spec_duration_of(scope, declared_storage, sym.kind),
                    definition: crate::semantic::model::symbol::spec_definition_of(scope, declared_storage, sym.is_init, sym.kind),
                    ..sym
                })
            }
        }),
{
    let scope_kind = r.sema.scopes.kind();
    let prior = r.sema.linkage_of_name(sym.name.id);
    let mut sym = sym;
    sym.linkage = Symbol::linkage_of(scope_kind, declared_storage, sym.kind, prior);
    sym.duration = Symbol::duration_of(scope_kind, declared_storage, sym.kind);
    sym.definition = Symbol::definition_of(scope_kind, declared_storage, sym.is_init, sym.kind);
    let ghost r1 = *r;
    let ghost s1 = sym;
    let id = r.declare(sym, span);
    proof {
        assert forall|i: int| 0 <= i < r1.sema.ntypes() implies #[trigger] r.sema.types.data@[i] == r1.sema.types.data@[i] by {}
        if s1.linkage == crate::semantic::model::symbol::Linkage::NoLinkage && crate::semantic::resolution::resolver::spec_current(&r1.sema, s1.kind, s1.name.id) is None {
            assert(r.sema.symbols.data@ == r1.sema.symbols.data@.push(s1));
            assert(id == r1.sema.nsyms());
            assert(r.sema.sym(id) == s1);
        }
    }
    id
}

/// The kinds of symbols a declaration with declarators introduces.
pub open spec fn is_ordinary_kind(kind: SymbolKind) -> bool {
    crate::semantic::resolution::scope::is_ordinary(kind)
}

impl Sema {
    /// Records that declarator `decl` declares symbol `id`.
    pub fn record_declaration(&mut self, decl: crate::ast::DeclaratorId, id: SymbolId)
        requires
            old(self).wf(),
            id < old(self).nsyms(),
        ensures
            final(self).target == old(self).target,
            final(self).wf(),
            final(self).declarations@ == old(self).declarations@.insert(decl, id),
            final(self).diagnosis == old(self).diagnosis,
            final(self).symbols == old(self).symbols,
            final(self).types == old(self).types,
            final(self).tags == old(self).tags,
            final(self).scopes == old(self).scopes,
            final(self).functions == old(self).functions,
            final(self).expr_types == old(self).expr_types,
            final(self).expr_bindings == old(self).expr_bindings,
            final(self).expr_consts == old(self).expr_consts,
            final(self).member_refs == old(self).member_refs,
    {
        self.declarations.insert(decl, id);
    }
}

/// 6.5, 6.7 Declares the identifier of one declarator of a declaration:
/// its type, storage class and kind; an object defined here must have a
/// complete type. The declarator is recorded as declaring the symbol.
pub fn declare_init_declarator(
    r: &mut SymbolResolver,
    ast: &Ast,
    init_declarator: &InitDeclaratorNode,
    qualif: Option<QualifiedType>,
    declared_storage: Option<Storage>,
) -> (res: Option<()>)
    requires
        old(r).ready(ast),
        qualif matches Some(q) ==> old(r).sema.qt_ok(q),
    ensures
        final(r).kept(*old(r)),
        res is Some ==> final(r).sema.declarations@.contains_key(init_declarator.declarator.id),
        qualif is None ==> res is None,
        qualif is Some ==> (res is Some <==> spec_ident(ast, spec_leaf(ast, init_declarator.declarator)) is Some),
{
    let ghost r0 = *r;
    let (ty, core, already_diagnosed) = match declared_type_watched(r, ast, qualif, &init_declarator.declarator) {
        Some(d) => d,
        None => return None,
    };
    let name = match ident(ast, &core) {
        Some(n) => n,
        None => return None,
    };
    let ghost r1 = *r;
    let is_init = init_declarator.initializer.is_some();
    let (storage, kind) = classify(r, ty, declared_storage, &core.span);
    if matches!(kind, SymbolKind::Variable) && !already_diagnosed && requires_complete_object(&r.sema, ty, storage, is_init) {
        let complete = ty.is_complete(&r.sema);
        check_complete_object(complete, ty).collect(r, &core.span);
    }
    let ghost r2 = *r;
    proof {
        crate::semantic::resolution::resolver::lemma_kept_frame(r2, r1);
        lemma_kept_trans(r0, r1, r2);
    }
    let sym = Symbol::new(name, Some(ty), Some(storage), kind, is_init);
    let sym_id = declare_symbol(r, sym, declared_storage, &core.span);
    let ghost r3 = *r;
    r.sema.record_declaration(init_declarator.declarator.id, sym_id);
    proof {
        crate::semantic::resolution::resolver::lemma_kept_same_types(*r, r3);
        lemma_kept_trans(r0, r2, r3);
        lemma_kept_trans(r0, r3, *r);
    }
    Some(())
}


/// The specifiers `specifiers` give a type in `r`: by a typedef name that
/// names one, a structure, union or enumeration specifier of `ast`, or a
/// valid combination of basic type specifiers.
pub open spec fn spec_gives_type(r: &SymbolResolver, ast: &Ast, specifiers: Seq<DeclarationSpecifier>) -> bool {
    let ts = type_specifiers(specifiers);
    if ts.len() == 1 && ts[0] is Struct {
        ts[0]->Struct_0 < ast.structs@.len()
    } else if ts.len() == 1 && ts[0] is Union {
        ts[0]->Union_0 < ast.structs@.len()
    } else if ts.len() == 1 && ts[0] is Enum {
        ts[0]->Enum_0 < ast.enums@.len()
    } else if ts.len() == 1 && ts[0] is TypedefName {
        spec_typedef(
            &r.sema,
            ts[0]->TypedefName_0,
            crate::semantic::constrain::declaration::count(crate::semantic::constrain::declaration::qualifiers(specifiers), crate::ast::Qualifier::Const) >= 1,
            crate::semantic::constrain::declaration::count(crate::semantic::constrain::declaration::qualifiers(specifiers), crate::ast::Qualifier::Volatile) >= 1,
        ) is Some
    } else if !(ts.len() == 1 && is_named_type(ts[0])) {
        spec_basic_type(ts) is Some
    } else {
        false
    }
}

impl SymbolResolver {
    /// 6.5 A declaration: checked as a whole, then each declarator declared
    /// with the type the specifiers give, and its initializer resolved.
    pub fn visit_declaration(&mut self, ast: &Ast, node: &DeclarationNode)
        requires
            old(self).ready(ast),
        ensures
            final(self).kept(*old(self)),
            spec_gives_type(old(self), ast, node.specifiers@) ==> forall|i: int| 0 <= i < node.init_declarators@.len() && spec_ident(
                ast,
                spec_leaf(ast, (#[trigger] node.init_declarators@[i]).declarator),
            ) is Some ==> final(self).sema.declarations@.contains_key(node.init_declarators@[i].declarator.id),
            forall|i: int| 0 <= i < node.init_declarators@.len() && ((#[trigger] node.init_declarators@[i]).initializer matches Some(
                e,
            ) && e.id < ast.expressions@.len()) ==> spec_tree_visited(final(self), ast, node.init_declarators@[i].initializer->0.id as int),
    {
        let ghost r0 = *self;
        check_declaration(self, ast, node);
        let declared_storage = get_storage(node.specifiers.as_slice()).collect(self, &node.span);
        proof {
            crate::semantic::resolution::resolver::lemma_kept_frame(*self, r0);
        }
        let ghost r1 = *self;
        let qualif = base_type(self, ast, node.specifiers.as_slice(), &node.span);
        proof {
            lemma_kept_trans(r0, r1, *self);
            if spec_gives_type(&r0, ast, node.specifiers@) {
                assert(qualif is Some);
            }
        }
        let mut i: usize = 0;
        while i < node.init_declarators.len()
            invariant
                i <= node.init_declarators@.len(),
                self.kept(r0),
                r0.ready(ast),
                qualif matches Some(q) ==> self.sema.qt_ok(q),
                spec_gives_type(&r0, ast, node.specifiers@) ==> qualif is Some,
                qualif is Some ==> forall|j: int| 0 <= j < i && spec_ident(
                    ast,
                    spec_leaf(ast, (#[trigger] node.init_declarators@[j]).declarator),
                ) is Some ==> self.sema.declarations@.contains_key(node.init_declarators@[j].declarator.id),
                forall|j: int| 0 <= j < i && ((#[trigger] node.init_declarators@[j]).initializer matches Some(e) && e.id
                    < ast.expressions@.len()) ==> spec_tree_visited(self, ast, node.init_declarators@[j].initializer->0.id as int),
            decreases node.init_declarators@.len() - i,
        {
            let ghost ri = *self;
            let d = &node.init_declarators[i];
            declare_init_declarator(self, ast, d, qualif, declared_storage);
            let ghost rj = *self;
            proof {
                lemma_kept_trans(r0, ri, rj);
            }
            if let Some(e) = d.initializer {
                crate::semantic::resolution::expression::dispatch::visit_expression(self, ast, &e, NESTING_BUDGET);
                proof {
                    lemma_kept_trans(r0, rj, *self);
                    lemma_kept_trans(ri, rj, *self);
                }
            } else {
                proof {
                    rj.lemma_frame_refl();
                }
            }
            proof {
                assert(self.kept(ri)) by {
                    if d.initializer is None {
                        crate::semantic::resolution::resolver::lemma_kept_frame(*self, rj);
                        lemma_kept_trans(ri, rj, *self);
                    }
                }
                assert forall|j: int| 0 <= j < i + 1 && ((#[trigger] node.init_declarators@[j]).initializer matches Some(e) && e.id
                    < ast.expressions@.len()) implies spec_tree_visited(self, ast, node.init_declarators@[j].initializer->0.id as int) by {
                    if j < i {
                        lemma_tree_visited_kept(&*self, &ri, ast, node.init_declarators@[j].initializer->0.id as int);
                    }
                }
            }
            i += 1;
        }
    }
}

} // verus!
