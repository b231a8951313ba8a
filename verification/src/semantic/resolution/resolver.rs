//! The resolver: binds identifiers, tags and labels to what they declare,
//! scope by scope, and reports what C90 forbids of redeclarations.

use vstd::prelude::*;

use crate::ast::{Name, Span, StringId, Tag};
use crate::semantic::diagnosis::{recorded, Diag, DiagCollector, Diagnosis, DiagnosisNode};
use crate::semantic::model::function_def::FunctionDefId;
use crate::semantic::model::resolved_statement::StatementScopes;
use crate::semantic::model::resolved_type::{QualifiedType, ResolvedTypeArena, TagDefId};
use crate::semantic::model::symbol::{spec_symbols_compatible, Linkage, Symbol, SymbolId, SymbolKind};
use crate::semantic::model::tag_def::{spec_symbol_kind, Member};
use crate::semantic::resolution::scope::{
    function_index, has_function_scope, is_ordinary, lookup_in, lookup_tag_in, scope_refs_below, ScopeKind, Scopes,
};
use crate::semantic::sema::Sema;

verus! {

broadcast use vstd::std_specs::hash::group_hash_axioms;

impl Sema {
    /// Only the diagnostics and the parts named by the flags differ from `old`.
    pub open spec fn same_except(&self, old: Sema, symbols: bool, tags: bool, scopes: bool) -> bool {
        &&& (!symbols ==> self.symbols == old.symbols)
        &&& (!tags ==> self.tags == old.tags)
        &&& (!scopes ==> self.scopes == old.scopes)
        &&& self.types == old.types
        &&& self.builtins == old.builtins
        &&& self.functions == old.functions
        &&& self.inits == old.inits
        &&& self.expr_types == old.expr_types
        &&& self.expr_bindings == old.expr_bindings
        &&& self.expr_consts == old.expr_consts
        &&& self.member_refs == old.member_refs
        &&& self.declarations == old.declarations
        &&& self.externals == old.externals
        &&& self.stmts == old.stmts
        &&& self.layouts == old.layouts
        &&& self.target == old.target
    }

    /// Only the diagnostics and the function definitions differ from `old`.
    pub open spec fn same_tables_but_functions(&self, old: Sema) -> bool {
        &&& self.symbols == old.symbols
        &&& self.tags == old.tags
        &&& self.scopes == old.scopes
        &&& self.types == old.types
        &&& self.builtins == old.builtins
        &&& self.inits == old.inits
        &&& self.expr_types == old.expr_types
        &&& self.expr_bindings == old.expr_bindings
        &&& self.expr_consts == old.expr_consts
        &&& self.member_refs == old.member_refs
        &&& self.declarations == old.declarations
        &&& self.externals == old.externals
        &&& self.stmts == old.stmts
        &&& self.layouts == old.layouts
        &&& self.target == old.target
    }

    /// Adds `sym` to the symbol arena.
    pub fn add_symbol(&mut self, sym: Symbol) -> (id: SymbolId)
        requires
            old(self).wf(),
            old(self).symbol_ok(sym),
        ensures
            final(self).wf(),
            id == old(self).nsyms(),
            final(self).symbols.data@ == old(self).symbols.data@.push(sym),
            final(self).diagnosis == old(self).diagnosis,
            final(self).same_except(*old(self), true, false, false),
    {
        let id = self.symbols.allocate(sym);
        proof {
            assert forall|i: int| 0 <= i < self.nsyms() implies self.symbol_ok(#[trigger] self.symbols.data@[i]) by {
                if i < old(self).nsyms() {
                    assert(old(self).symbol_ok(old(self).symbols.data@[i]));
                }
            }
            self.lemma_symbols_grown(*old(self));
        }
        id
    }

    /// Adds a new, incomplete tag of `kind` to the tag arena.
    pub fn add_tag(&mut self, kind: Tag, name: Option<Name>) -> (id: TagDefId)
        requires
            old(self).wf(),
        ensures
            final(self).wf(),
            id == old(self).ntags(),
            final(self).tags.data@.len() == old(self).ntags() + 1,
            final(self).tags.data@.drop_last() == old(self).tags.data@,
            final(self).tag(id).kind == kind,
            final(self).tag(id).name == name,
            final(self).tag(id).members@.len() == 0,
            !final(self).tag(id).is_complete,
            final(self).diagnosis == old(self).diagnosis,
            final(self).same_except(*old(self), false, true, false),
    {
        let id = self.tags.declare(kind, name);
        proof {
            assert forall|i: int| 0 <= i < self.ntypes() implies (#[trigger] self.types.data@[i]).refs_below(i)
                && self.types.data@[i].tags_below(self.ntags()) by {
                assert(old(self).types.data@[i].tags_below(old(self).ntags()));
            }
            assert forall|i: int| 0 <= i < self.ntags() implies self.tag_ok(#[trigger] self.tags.data@[i]) by {
                if i < old(self).ntags() {
                    assert(self.tags.data@[i] == old(self).tags.data@[i]);
                    assert(old(self).tag_ok(old(self).tags.data@[i]));
                }
            }
            lemma_scopes_grow(&self.scopes, old(self).nsyms(), old(self).ntags(), self.nsyms(), self.ntags());
            assert forall|i: int| 0 <= i < self.member_refs.data@.len() implies ((#[trigger] self.member_refs.data@[i]) matches Some(r)
                ==> r.tag < self.ntags()) by {
            }
        }
        id
    }

    /// Gives tag `id` its members and marks it complete.
    pub fn complete_tag(&mut self, id: TagDefId, members: Vec<Member>)
        requires
            old(self).wf(),
            id < old(self).ntags(),
            forall|i: int| 0 <= i < members@.len() ==> ((#[trigger] members@[i]).sym matches Some(s) ==> s < old(self).nsyms()),
        ensures
            final(self).wf(),
            final(self).tags.data@.len() == old(self).ntags(),
            forall|j: int| 0 <= j < old(self).ntags() && j != id ==> final(self).tags.data@[j] == old(self).tags.data@[j],
            final(self).tag(id).kind == old(self).tag(id).kind,
            final(self).tag(id).name == old(self).tag(id).name,
            final(self).tag(id).members@ == members@,
            final(self).tag(id).is_complete,
            final(self).diagnosis == old(self).diagnosis,
            final(self).same_except(*old(self), false, true, false),
    {
        self.tags.complete(id, members);
        proof {
            assert forall|i: int| 0 <= i < self.ntags() implies self.tag_ok(#[trigger] self.tags.data@[i]) by {
                if i != id {
                    assert(old(self).tag_ok(old(self).tags.data@[i]));
                }
            }
        }
    }

    /// Binds `name` to `id` where a declaration of `kind` goes: labels in
    /// the function scope, ordinary identifiers in the innermost scope.
    pub fn bind(&mut self, kind: SymbolKind, name: StringId, id: SymbolId)
        requires
            old(self).wf(),
            id < old(self).nsyms(),
            old(self).scopes@.len() > 0,
            kind == SymbolKind::Label || is_ordinary(kind),
            kind == SymbolKind::Label ==> has_function_scope(old(self).scopes@),
        ensures
            final(self).wf(),
            spec_current(final(self), kind, name) == Some(id),
            final(self).scopes@.len() == old(self).scopes@.len(),
            kind != SymbolKind::Label ==> {
                &&& final(self).scopes@.drop_last() == old(self).scopes@.drop_last()
                &&& final(self).scopes@.last().ordinaries@ == old(self).scopes@.last().ordinaries@.insert(name, id)
                &&& final(self).scopes@.last().tags@ == old(self).scopes@.last().tags@
                &&& final(self).scopes@.last().kind == old(self).scopes@.last().kind
            },
            final(self).diagnosis == old(self).diagnosis,
            final(self).same_except(*old(self), false, false, true),
    {
        self.scopes.insert(kind, name, id);
        proof {
            if kind == SymbolKind::Label {
                assert forall|j: int| 0 <= j < self.scopes@.len() implies (#[trigger] self.scopes@[j]).kind
                    == old(self).scopes@[j].kind by {
                    if j != function_index(old(self).scopes@) {
                        assert(self.scopes@[j] == old(self).scopes@[j]);
                    }
                }
                lemma_function_index_same(self.scopes@, old(self).scopes@, 0);
            }
            assert forall|i: int| 0 <= i < self.scopes@.len() implies scope_refs_below(
                #[trigger] self.scopes.0@[i],
                self.nsyms(),
                self.ntags(),
            ) by {
                assert(scope_refs_below(old(self).scopes.0@[i], old(self).nsyms(), old(self).ntags()));
                if kind != SymbolKind::Label && i < self.scopes@.len() - 1 {
                    assert(self.scopes@[i] == self.scopes@.drop_last()[i]);
                    assert(old(self).scopes@[i] == old(self).scopes@.drop_last()[i]);
                }
            }
        }
    }

    /// Binds the tag `name` to `id` in the innermost scope.
    pub fn bind_tag(&mut self, name: StringId, id: TagDefId)
        requires
            old(self).wf(),
            id < old(self).ntags(),
            old(self).scopes@.len() > 0,
        ensures
            final(self).wf(),
            final(self).scopes@.len() == old(self).scopes@.len(),
            final(self).scopes@.drop_last() == old(self).scopes@.drop_last(),
            final(self).scopes@.last().tags@ == old(self).scopes@.last().tags@.insert(name, id),
            final(self).scopes@.last().ordinaries@ == old(self).scopes@.last().ordinaries@,
            final(self).scopes@.last().kind == old(self).scopes@.last().kind,
            final(self).diagnosis == old(self).diagnosis,
            final(self).same_except(*old(self), false, false, true),
    {
        self.scopes.insert_tag(name, id);
        proof {
            assert forall|i: int| 0 <= i < self.scopes@.len() implies scope_refs_below(
                #[trigger] self.scopes.0@[i],
                self.nsyms(),
                self.ntags(),
            ) by {
                assert(scope_refs_below(old(self).scopes.0@[i], old(self).nsyms(), old(self).ntags()));
                if i < self.scopes@.len() - 1 {
                    assert(self.scopes@[i] == self.scopes@.drop_last()[i]);
                    assert(old(self).scopes@[i] == old(self).scopes@.drop_last()[i]);
                }
            }
        }
    }
}

/// Scopes that refer below some arena lengths refer below any larger ones.
pub proof fn lemma_scopes_grow(scopes: &Scopes, nsyms: int, ntags: int, nsyms2: int, ntags2: int)
    requires
        scopes.refs_below(nsyms, ntags),
        nsyms <= nsyms2,
        ntags <= ntags2,
    ensures
        scopes.refs_below(nsyms2, ntags2),
{
    assert forall|i: int| 0 <= i < scopes.0@.len() implies scope_refs_below(#[trigger] scopes.0@[i], nsyms2, ntags2) by {
        assert(scope_refs_below(scopes.0@[i], nsyms, ntags));
    }
}

/// The position of the function scope depends on the kinds of the scopes alone.
pub proof fn lemma_function_index_same(a: Seq<crate::semantic::resolution::scope::Scope>, b: Seq<crate::semantic::resolution::scope::Scope>, from: int)
    requires
        a.len() == b.len(),
        forall|j: int| 0 <= j < a.len() ==> (#[trigger] a[j]).kind == b[j].kind,
    ensures
        crate::semantic::resolution::scope::function_index_from(a, from) == crate::semantic::resolution::scope::function_index_from(b, from),
    decreases a.len() - from,
{
    if from >= 0 && from < a.len() {
        lemma_function_index_same(a, b, from + 1);
    }
}

/// Keeping is transitive.
/// What declaring the tag `name` of kind `kind` (a definition when
/// `is_definition`) at `span` does to `old`, giving `new` and the tag `id`.
pub open spec fn spec_tag_declared(
    new: SymbolResolver,
    old: SymbolResolver,
    kind: Tag,
    name: Option<Name>,
    is_definition: bool,
    span: Span,
    id: TagDefId,
) -> bool {
    &&& new.wf()
    &&& new.own_state_kept(old)
    &&& id < new.sema.ntags()
    &&& new.sema.symbols == old.sema.symbols
    &&& new.sema.same_except(old.sema, false, true, true)
    &&& new.sema.tags.data@.len() >= old.sema.ntags()
    &&& forall|j: int| 0 <= j < old.sema.ntags() ==> new.sema.tags.data@[j] == old.sema.tags.data@[j]
    &&& new.sema.scopes@.len() == old.sema.scopes@.len()
    &&& match name {
            None => {
                &&& id == old.sema.ntags()
                &&& new.sema.tags.data@ == old.sema.tags.data@.push(new.sema.tag(id))
                &&& new.sema.tag(id).kind == kind && new.sema.tag(id).name == name
                &&& !new.sema.tag(id).is_complete && new.sema.tag(id).members@.len() == 0
                &&& new.sema.scopes == old.sema.scopes
                &&& new.sema.diagnosis == old.sema.diagnosis
            },
            Some(n) => match spec_visible_tag(&old.sema, n.id, is_definition) {
                Some(t) => {
                    let def = old.sema.tag(t);
                    &&& id == t
                    &&& new.sema.tags == old.sema.tags
                    &&& new.sema.scopes == old.sema.scopes
                    &&& new.sema.diagnosis@ == recorded(
                        old.sema.diagnosis@,
                        if def.kind != kind || (is_definition && def.is_complete) {
                            Some(Diagnosis::DuplicateDeclaration(spec_symbol_kind(def.kind), n))
                        } else {
                            None
                        },
                        span,
                    )
                },
                None => {
                    &&& id == old.sema.ntags()
                    &&& new.sema.tags.data@ == old.sema.tags.data@.push(new.sema.tag(id))
                    &&& new.sema.tag(id).kind == kind && new.sema.tag(id).name == name
                    &&& !new.sema.tag(id).is_complete && new.sema.tag(id).members@.len() == 0
                    &&& new.sema.scopes@.drop_last() == old.sema.scopes@.drop_last()
                    &&& new.sema.scopes@.last().tags@ == old.sema.scopes@.last().tags@.insert(n.id, id)
                    &&& new.sema.scopes@.last().ordinaries@ == old.sema.scopes@.last().ordinaries@
                    &&& new.sema.scopes@.last().kind == old.sema.scopes@.last().kind
                    &&& new.sema.diagnosis == old.sema.diagnosis
                },
            },
        }
}

/// Every expression visited in `old` is still visited in `new`.
pub open spec fn seen_kept(new: Seq<bool>, old: Seq<bool>) -> bool {
    &&& old.len() <= new.len()
    &&& forall|i: int| 0 <= i < old.len() && old[i] ==> #[trigger] new[i]
}

/// The diagnostics `old` are the first of `new`.
pub open spec fn diags_extend(new: Seq<crate::semantic::diagnosis::DiagnosisNode>, old: Seq<crate::semantic::diagnosis::DiagnosisNode>) -> bool {
    &&& old.len() <= new.len()
    &&& forall|i: int| 0 <= i < old.len() ==> #[trigger] new[i] == old[i]
}

/// The values recorded for the nodes visited in `old` are those in `new`.
pub open spec fn values_kept<T>(new: Seq<Option<T>>, old: Seq<Option<T>>, seen: Seq<bool>) -> bool {
    forall|i: int| 0 <= i < seen.len() && seen[i] && i < old.len() ==> #[trigger] new[i] == old[i]
}

pub proof fn lemma_kept_trans(a: SymbolResolver, b: SymbolResolver, c: SymbolResolver)
    requires
        b.kept(a),
        c.kept(b),
    ensures
        c.kept(a),
{
    assert forall|i: int| 0 <= i < a.sema.ntypes() implies #[trigger] c.sema.types.data@[i] == a.sema.types.data@[i] by {
        assert(b.sema.types.data@[i] == a.sema.types.data@[i]);
    }
    assert forall|i: int| 0 <= i < a.sema.nsyms() implies (#[trigger] c.sema.symbols.data@[i]).name == a.sema.symbols.data@[i].name by {
        assert(b.sema.symbols.data@[i].name == a.sema.symbols.data@[i].name);
    }
    assert forall|i: int| 0 <= i < a.sema.nsyms() implies (#[trigger] c.sema.symbols.data@[i]).value == a.sema.symbols.data@[i].value
        && c.sema.symbols.data@[i].kind == a.sema.symbols.data@[i].kind by {
        assert(b.sema.symbols.data@[i].value == a.sema.symbols.data@[i].value);
    }
    assert forall|k: crate::ast::DeclaratorId| #[trigger] a.sema.declarations@.contains_key(k) implies c.sema.declarations@.contains_key(k) by {
        assert(b.sema.declarations@.contains_key(k));
    }
    assert forall|i: int| 0 <= i < a.sema.expr_types.seen@.len() && a.sema.expr_types.seen@[i] implies #[trigger] c.sema.expr_types.seen@[i] by {
        assert(b.sema.expr_types.seen@[i]);
    }
    assert forall|i: int| 0 <= i < a.sema.expr_bindings.seen@.len() && a.sema.expr_bindings.seen@[i] implies #[trigger] c.sema.expr_bindings.seen@[i] by {
        assert(b.sema.expr_bindings.seen@[i]);
    }
    assert forall|i: int| 0 <= i < a.sema.diagnosis@.len() implies #[trigger] c.sema.diagnosis@[i] == a.sema.diagnosis@[i] by {
        assert(b.sema.diagnosis@[i] == a.sema.diagnosis@[i]);
    }
    assert forall|i: int| 0 <= i < a.sema.expr_consts.seen@.len() && a.sema.expr_consts.seen@[i] implies #[trigger] c.sema.expr_consts.seen@[i] by {
        assert(b.sema.expr_consts.seen@[i]);
    }
    assert forall|i: int| 0 <= i < a.sema.expr_consts.seen@.len() && a.sema.expr_consts.seen@[i] && i < a.sema.expr_consts.data@.len()
        implies #[trigger] c.sema.expr_consts.data@[i] == a.sema.expr_consts.data@[i] by {
        assert(b.sema.expr_consts.seen@[i]);
        assert(b.sema.expr_consts.data@[i] == a.sema.expr_consts.data@[i]);
    }
}

/// What a step keeps after a scope was opened is kept, with that scope open.
pub proof fn lemma_kept_opened(c: SymbolResolver, b: SymbolResolver, a: SymbolResolver)
    requires
        c.kept(b),
        b.sema.same_except(a.sema, false, false, true),
        b.own_state_kept(a),
        b.sema.scopes@.len() == a.sema.scopes@.len() + 1,
        diags_extend(b.sema.diagnosis@, a.sema.diagnosis@),
    ensures
        c.kept_opened(a),
{
    assert forall|i: int| 0 <= i < a.sema.ntypes() implies #[trigger] c.sema.types.data@[i] == a.sema.types.data@[i] by {
        assert(b.sema.types.data@[i] == a.sema.types.data@[i]);
    }
}

/// Closing the scope a step opened keeps what the step kept.
pub proof fn lemma_kept_closed(d: SymbolResolver, c: SymbolResolver, a: SymbolResolver, x: SymbolResolver)
    requires
        c.kept_opened(a),
        d.wf(),
        d.sema.same_except(c.sema, false, false, true),
        d.sema.scopes@.len() + 1 == c.sema.scopes@.len(),
        x.sema == a.sema,
        d.own_state_kept(x),
        diags_extend(d.sema.diagnosis@, c.sema.diagnosis@),
    ensures
        d.kept(x),
{
    assert forall|i: int| 0 <= i < x.sema.ntypes() implies #[trigger] d.sema.types.data@[i] == x.sema.types.data@[i] by {
        assert(c.sema.types.data@[i] == a.sema.types.data@[i]);
    }
}

/// A step that changed nothing but the diagnostics keeps.
pub proof fn lemma_kept_frame(new: SymbolResolver, old: SymbolResolver)
    requires
        old.wf(),
        new.sema.frame(old.sema),
        new.own_state_kept(old),
        diags_extend(new.sema.diagnosis@, old.sema.diagnosis@),
    ensures
        new.kept(old),
{
    assert forall|i: int| 0 <= i < old.sema.ntypes() implies #[trigger] new.sema.types.data@[i] == old.sema.types.data@[i] by {}
}

/// A step that kept the types as they were keeps, when the rest holds.
pub proof fn lemma_kept_same_types(new: SymbolResolver, old: SymbolResolver)
    requires
        new.wf(),
        new.own_state_kept(old),
        new.sema.types == old.sema.types,
        new.sema.expr_types.data@.len() == old.sema.expr_types.data@.len(),
        new.sema.expr_bindings.data@.len() == old.sema.expr_bindings.data@.len(),
        new.sema.expr_consts.data@.len() == old.sema.expr_consts.data@.len(),
        new.sema.member_refs.data@.len() == old.sema.member_refs.data@.len(),
        new.sema.scopes@.len() == old.sema.scopes@.len(),
        old.sema.nsyms() <= new.sema.nsyms(),
        old.sema.ntags() <= new.sema.ntags(),
        old.sema.functions.data@.len() <= new.sema.functions.data@.len(),
        new.sema.symbols == old.sema.symbols,
        seen_kept(new.sema.expr_types.seen@, old.sema.expr_types.seen@),
        seen_kept(new.sema.expr_bindings.seen@, old.sema.expr_bindings.seen@),
        forall|k: crate::ast::DeclaratorId| #[trigger] old.sema.declarations@.contains_key(k) ==> new.sema.declarations@.contains_key(k),
        new.sema.target == old.sema.target,
        seen_kept(new.sema.expr_consts.seen@, old.sema.expr_consts.seen@),
        values_kept(new.sema.expr_consts.data@, old.sema.expr_consts.data@, old.sema.expr_consts.seen@),
        diags_extend(new.sema.diagnosis@, old.sema.diagnosis@),
    ensures
        new.kept(old),
{
    assert forall|i: int| 0 <= i < old.sema.ntypes() implies #[trigger] new.sema.types.data@[i] == old.sema.types.data@[i] by {}
}


/// The symbol `name` already declares where a declaration of `kind` goes.
pub open spec fn spec_current(sema: &Sema, kind: SymbolKind, name: StringId) -> Option<SymbolId> {
    if kind == SymbolKind::Label {
        let f = sema.scopes@[function_index(sema.scopes@)];
        if f.labels@.contains_key(name) { Some(f.labels@[name]) } else { None }
    } else {
        let s = sema.scopes@.last();
        if s.ordinaries@.contains_key(name) { Some(s.ordinaries@[name]) } else { None }
    }
}

/// 6.1.2.1, 6.1.2.2 A redeclaration is the same declaration again when it is
/// no typedef, is at file scope or both declarations have linkage, the
/// types are compatible and at most one of them has an initializer.
pub open spec fn spec_redeclares(sema: &Sema, sym: Symbol, prior: SymbolId) -> bool {
    let old_sym = sema.sym(prior);
    &&& sym.kind != SymbolKind::Typedef
    &&& (sema.scopes@.last().kind == ScopeKind::File || (sym.linkage != Linkage::NoLinkage && old_sym.linkage
        != Linkage::NoLinkage))
    &&& spec_symbols_compatible(sema, old_sym, sym)
    &&& !(sym.is_init && old_sym.is_init)
}

/// The function whose body is being resolved, with its return type.
#[derive(Clone, Copy, Debug)]
pub struct CurrentFunction {
    pub def: FunctionDefId,
    pub return_ty: QualifiedType,
}

/// Walks a translation unit, binding every identifier to its declaration.
pub struct SymbolResolver {
    pub sema: Sema,
    pub stmt_scopes: StatementScopes,
    pub f: Option<CurrentFunction>,
    pub gotos: Vec<Name>,
}

/// `labels` holds a label called `id`.
pub open spec fn label_defined(labels: Seq<Name>, id: StringId) -> bool {
    exists|i: int| 0 <= i < labels.len() && (#[trigger] labels[i]).id == id
}

/// 6.6.1 One diagnostic for each `goto` whose label the function does not define.
pub open spec fn undefined_label_diags(gotos: Seq<Name>, labels: Seq<Name>) -> Seq<DiagnosisNode>
    decreases gotos.len(),
{
    if gotos.len() == 0 {
        Seq::empty()
    } else {
        let rest = undefined_label_diags(gotos.drop_last(), labels);
        let g = gotos.last();
        if label_defined(labels, g.id) {
            rest
        } else {
            rest.push(DiagnosisNode { span: g.span, inner: Diagnosis::UndefinedLabel(g) })
        }
    }
}

impl DiagCollector for SymbolResolver {
    open spec fn spec_diags(&self) -> Seq<DiagnosisNode> {
        self.sema.diagnosis@
    }

    open spec fn frame(&self, old: Self) -> bool {
        &&& self.sema.frame(old.sema)
        &&& self.stmt_scopes == old.stmt_scopes
        &&& self.f == old.f
        &&& self.gotos == old.gotos
    }

    proof fn lemma_frame_refl(&self) {
    }

    fn push_diagnosis(&mut self, node: DiagnosisNode) {
        self.sema.diagnosis.push(node);
    }
}

impl SymbolResolver {
    /// The invariant of the analysis, and a current function that exists.
    pub open spec fn wf(&self) -> bool {
        &&& self.sema.wf()
        &&& self.f matches Some(c) ==> c.def < self.sema.functions.data@.len() && self.sema.qt_ok(c.return_ty)
    }

    /// Only the analysis changed, and the resolver's own state is as in `old`.
    pub open spec fn own_state_kept(&self, old: SymbolResolver) -> bool {
        &&& self.stmt_scopes@ == old.stmt_scopes@
        &&& self.f == old.f
        &&& self.gotos@ == old.gotos@
    }

    /// As `kept`, with one scope more open than in `old`.
    pub open spec fn kept_opened(&self, old: SymbolResolver) -> bool {
        &&& self.wf()
        &&& self.own_state_kept(old)
        &&& self.sema.expr_types.data@.len() == old.sema.expr_types.data@.len()
        &&& self.sema.expr_bindings.data@.len() == old.sema.expr_bindings.data@.len()
        &&& self.sema.expr_consts.data@.len() == old.sema.expr_consts.data@.len()
        &&& self.sema.member_refs.data@.len() == old.sema.member_refs.data@.len()
        &&& self.sema.scopes@.len() == old.sema.scopes@.len() + 1
        &&& ResolvedTypeArena::extends(self.sema.types, old.sema.types)
        &&& old.sema.nsyms() <= self.sema.nsyms()
        &&& old.sema.ntags() <= self.sema.ntags()
        &&& old.sema.functions.data@.len() <= self.sema.functions.data@.len()
        &&& forall|i: int| 0 <= i < old.sema.nsyms() ==> (#[trigger] self.sema.symbols.data@[i]).name == old.sema.symbols.data@[i].name
        &&& forall|i: int| 0 <= i < old.sema.nsyms() ==> (#[trigger] self.sema.symbols.data@[i]).value == old.sema.symbols.data@[i].value
            && self.sema.symbols.data@[i].kind == old.sema.symbols.data@[i].kind
        &&& seen_kept(self.sema.expr_types.seen@, old.sema.expr_types.seen@)
        &&& seen_kept(self.sema.expr_bindings.seen@, old.sema.expr_bindings.seen@)
        &&& forall|k: crate::ast::DeclaratorId| #[trigger] old.sema.declarations@.contains_key(k) ==> self.sema.declarations@.contains_key(k)
        &&& self.sema.target == old.sema.target
        &&& seen_kept(self.sema.expr_consts.seen@, old.sema.expr_consts.seen@)
        &&& values_kept(self.sema.expr_consts.data@, old.sema.expr_consts.data@, old.sema.expr_consts.seen@)
        &&& diags_extend(self.sema.diagnosis@, old.sema.diagnosis@)
    }

    /// Ready to resolve the nodes of `ast`: the invariant, a scope to
    /// declare in, and side tables with room for every expression.
    pub open spec fn ready(&self, ast: &crate::ast::Ast) -> bool {
        &&& self.wf()
        &&& ast.wf()
        &&& self.sema.scopes@.len() > 0
        &&& self.sema.expr_types.data@.len() >= ast.expressions@.len()
        &&& self.sema.expr_bindings.data@.len() >= ast.expressions@.len()
        &&& self.sema.expr_consts.data@.len() >= ast.expressions@.len()
        &&& self.sema.member_refs.data@.len() >= ast.expressions@.len()
    }

    /// What every step of the resolution keeps: the invariant, the resolver's
    /// own state, the sizes of the side tables, the number of scopes, and the
    /// types, symbols and tags already made.
    pub open spec fn kept(&self, old: SymbolResolver) -> bool {
        &&& self.wf()
        &&& self.own_state_kept(old)
        &&& self.sema.expr_types.data@.len() == old.sema.expr_types.data@.len()
        &&& self.sema.expr_bindings.data@.len() == old.sema.expr_bindings.data@.len()
        &&& self.sema.expr_consts.data@.len() == old.sema.expr_consts.data@.len()
        &&& self.sema.member_refs.data@.len() == old.sema.member_refs.data@.len()
        &&& self.sema.scopes@.len() == old.sema.scopes@.len()
        &&& ResolvedTypeArena::extends(self.sema.types, old.sema.types)
        &&& old.sema.nsyms() <= self.sema.nsyms()
        &&& old.sema.ntags() <= self.sema.ntags()
        &&& old.sema.functions.data@.len() <= self.sema.functions.data@.len()
        &&& forall|i: int| 0 <= i < old.sema.nsyms() ==> (#[trigger] self.sema.symbols.data@[i]).name == old.sema.symbols.data@[i].name
        &&& forall|i: int| 0 <= i < old.sema.nsyms() ==> (#[trigger] self.sema.symbols.data@[i]).value == old.sema.symbols.data@[i].value
            && self.sema.symbols.data@[i].kind == old.sema.symbols.data@[i].kind
        &&& seen_kept(self.sema.expr_types.seen@, old.sema.expr_types.seen@)
        &&& seen_kept(self.sema.expr_bindings.seen@, old.sema.expr_bindings.seen@)
        &&& forall|k: crate::ast::DeclaratorId| #[trigger] old.sema.declarations@.contains_key(k) ==> self.sema.declarations@.contains_key(k)
        &&& self.sema.target == old.sema.target
        &&& seen_kept(self.sema.expr_consts.seen@, old.sema.expr_consts.seen@)
        &&& values_kept(self.sema.expr_consts.data@, old.sema.expr_consts.data@, old.sema.expr_consts.seen@)
        &&& diags_extend(self.sema.diagnosis@, old.sema.diagnosis@)
    }

    pub fn new(sema: Sema) -> (r: Self)
        ensures
            r.sema == sema,
            r.stmt_scopes@.len() == 0,
            r.f is None,
            r.gotos@.len() == 0,
    {
        SymbolResolver { sema, stmt_scopes: StatementScopes::new(), f: None, gotos: Vec::new() }
    }

    /// The kind of the innermost scope.
    pub fn scope_kind(&self) -> (k: ScopeKind)
        requires
            self.sema.scopes@.len() > 0,
        ensures
            k == self.sema.scopes@.last().kind,
    {
        self.sema.scopes.kind()
    }

    /// Opens a scope of `kind` inside the current one.
    pub fn enter_scope(&mut self, kind: ScopeKind)
        requires
            old(self).wf(),
        ensures
            final(self).wf(),
            final(self).sema.scopes@.len() == old(self).sema.scopes@.len() + 1,
            final(self).sema.scopes@.drop_last() == old(self).sema.scopes@,
            final(self).sema.scopes@.last().kind == kind,
            final(self).sema.scopes@.last().ordinaries@ == Map::<StringId, SymbolId>::empty(),
            final(self).sema.scopes@.last().labels@ == Map::<StringId, SymbolId>::empty(),
            final(self).sema.scopes@.last().tags@ == Map::<StringId, TagDefId>::empty(),
            final(self).sema.diagnosis == old(self).sema.diagnosis,
            final(self).sema.same_except(old(self).sema, false, false, true),
            final(self).own_state_kept(*old(self)),
    {
        self.sema.scopes.push(kind);
        proof {
            assert forall|i: int| 0 <= i < self.sema.scopes@.len() implies scope_refs_below(
                #[trigger] self.sema.scopes.0@[i],
                self.sema.nsyms(),
                self.sema.ntags(),
            ) by {
                if i < old(self).sema.scopes@.len() {
                    assert(self.sema.scopes@[i] == self.sema.scopes@.drop_last()[i]);
                    assert(scope_refs_below(old(self).sema.scopes.0@[i], old(self).sema.nsyms(), old(self).sema.ntags()));
                }
            }
        }
    }

    /// Closes the innermost scope.
    pub fn leave_scope(&mut self)
        requires
            old(self).wf(),
        ensures
            final(self).wf(),
            final(self).sema.scopes@ == if old(self).sema.scopes@.len() > 0 {
                old(self).sema.scopes@.drop_last()
            } else {
                old(self).sema.scopes@
            },
            final(self).sema.diagnosis == old(self).sema.diagnosis,
            final(self).sema.same_except(old(self).sema, false, false, true),
            final(self).own_state_kept(*old(self)),
    {
        self.sema.scopes.pop();
        proof {
            assert forall|i: int| 0 <= i < self.sema.scopes@.len() implies scope_refs_below(
                #[trigger] self.sema.scopes.0@[i],
                self.sema.nsyms(),
                self.sema.ntags(),
            ) by {
                assert(scope_refs_below(old(self).sema.scopes.0@[i], old(self).sema.nsyms(), old(self).sema.ntags()));
            }
        }
    }

    /// Changes the kind of the innermost scope, as when a function's
    /// parameter scope becomes the scope of its body.
    pub fn promote_scope(&mut self, kind: ScopeKind)
        requires
            old(self).wf(),
            old(self).sema.scopes@.len() > 0,
        ensures
            final(self).wf(),
            final(self).sema.scopes@.len() == old(self).sema.scopes@.len(),
            final(self).sema.scopes@.drop_last() == old(self).sema.scopes@.drop_last(),
            final(self).sema.scopes@.last().kind == kind,
            final(self).sema.scopes@.last().ordinaries@ == old(self).sema.scopes@.last().ordinaries@,
            final(self).sema.scopes@.last().labels@ == old(self).sema.scopes@.last().labels@,
            final(self).sema.scopes@.last().tags@ == old(self).sema.scopes@.last().tags@,
            final(self).sema.diagnosis == old(self).sema.diagnosis,
            final(self).sema.same_except(old(self).sema, false, false, true),
            final(self).own_state_kept(*old(self)),
    {
        self.sema.scopes.set_kind(kind);
        proof {
            assert forall|i: int| 0 <= i < self.sema.scopes@.len() implies scope_refs_below(
                #[trigger] self.sema.scopes.0@[i],
                self.sema.nsyms(),
                self.sema.ntags(),
            ) by {
                assert(scope_refs_below(old(self).sema.scopes.0@[i], old(self).sema.nsyms(), old(self).sema.ntags()));
                if i < self.sema.scopes@.len() - 1 {
                    assert(self.sema.scopes@[i] == self.sema.scopes@.drop_last()[i]);
                    assert(old(self).sema.scopes@[i] == old(self).sema.scopes@.drop_last()[i]);
                }
            }
        }
    }

    /// The ordinary identifier `name`, searched from the innermost scope outwards.
    pub fn lookup_ordinary(&self, name: StringId) -> (r: Option<SymbolId>)
        ensures
            r == lookup_in(self.sema.scopes@, name),
    {
        self.sema.scopes.lookup_ordinary(name)
    }

    /// The ordinary identifier `name` in the innermost scope only.
    pub fn current(&self, name: StringId) -> (r: Option<SymbolId>)
        requires
            self.sema.scopes@.len() > 0,
        ensures
            r == spec_current(&self.sema, SymbolKind::Variable, name),
    {
        self.sema.scopes.current(SymbolKind::Variable, name)
    }
}


/// 6.5.6 The type a typedef name stands for, with the given qualifiers
/// added; `None` when the name is no typedef or its type was not resolved.
pub open spec fn spec_typedef(sema: &Sema, name: Name, is_const: bool, is_volatile: bool) -> Option<QualifiedType> {
    match lookup_in(sema.scopes@, name.id) {
        Some(id) => if sema.sym(id).kind == SymbolKind::Typedef {
            match sema.sym(id).ty {
                Some(base) => Some(
                    QualifiedType { id: base.id, is_const: base.is_const || is_const, is_volatile: base.is_volatile || is_volatile },
                ),
                None => None,
            }
        } else {
            None
        },
        None => None,
    }
}

/// The diagnostic a typedef name gives: an undeclared identifier when it
/// names no typedef, a duplicate qualifier when a qualifier is repeated.
pub open spec fn spec_typedef_diag(sema: &Sema, name: Name, is_const: bool, is_volatile: bool) -> Option<Diagnosis> {
    match lookup_in(sema.scopes@, name.id) {
        Some(id) => if sema.sym(id).kind != SymbolKind::Typedef {
            Some(Diagnosis::UndeclaredIdentifier(name))
        } else {
            match sema.sym(id).ty {
                Some(base) => if (is_const && base.is_const) || (is_volatile && base.is_volatile) {
                    Some(Diagnosis::DuplicateTypeQualifiers)
                } else {
                    None
                },
                None => None,
            }
        },
        None => None,
    }
}

/// The tag `name` refers to: in the innermost scope only for a definition.
pub open spec fn spec_visible_tag(sema: &Sema, name: StringId, is_definition: bool) -> Option<TagDefId> {
    if is_definition {
        let s = sema.scopes@.last();
        if s.tags@.contains_key(name) { Some(s.tags@[name]) } else { None }
    } else {
        lookup_tag_in(sema.scopes@, name)
    }
}

impl SymbolResolver {
    /// 6.5.6 Resolves a typedef name used as a type specifier.
    pub fn resolve_typedef(&mut self, name: Name, is_const: bool, is_volatile: bool, span: &Span) -> (r: Option<QualifiedType>)
        requires
            old(self).wf(),
        ensures
            final(self).wf(),
            final(self).frame(*old(self)),
            r == spec_typedef(&old(self).sema, name, is_const, is_volatile),
            r matches Some(q) ==> final(self).sema.qt_ok(q),
            final(self).sema.diagnosis@ == recorded(
                old(self).sema.diagnosis@,
                spec_typedef_diag(&old(self).sema, name, is_const, is_volatile),
                *span,
            ),
    {
        proof {
            self.lemma_frame_refl();
        }
        let sym_id = match self.sema.scopes.lookup_ordinary(name.id) {
            Some(id) => id,
            None => return None,
        };
        proof {
            crate::semantic::resolution::scope::lemma_lookup_in_below(self.sema.scopes@, name.id, self.sema.nsyms(), self.sema.ntags());
        }
        let sym = *self.sema.symbols.get(sym_id);
        if sym.kind != SymbolKind::Typedef {
            return self.add_diag(Diag::err(None, Diagnosis::UndeclaredIdentifier(name)), span);
        }
        let base = match sym.ty {
            Some(b) => b,
            None => return None,
        };
        proof {
            assert(self.sema.symbol_ok(self.sema.symbols.data@[sym_id as int]));
        }
        if (is_const && base.is_const) || (is_volatile && base.is_volatile) {
            self.add_diag(Diag::err((), Diagnosis::DuplicateTypeQualifiers), span);
        }
        Some(QualifiedType::new(base.id, base.is_const || is_const, base.is_volatile || is_volatile))
    }

    /// 6.5.2.3 The tag a struct, union or enum specifier refers to. A named
    /// tag already visible (in the innermost scope, for a definition) is
    /// reused; it is an error when it is of another kind, or defined again.
    /// Otherwise a new tag is made and, when named, bound in the innermost scope.
    pub fn declare_tag(&mut self, kind: Tag, name: Option<Name>, is_definition: bool, span: &Span) -> (id: TagDefId)
        requires
            old(self).wf(),
            old(self).sema.scopes@.len() > 0,
        ensures
            spec_tag_declared(*final(self), *old(self), kind, name, is_definition, *span, id),
    {
        let n = match name {
            Some(n) => n,
            None => {
                let id = self.sema.add_tag(kind, None);
                proof {
                    assert(self.sema.tags.data@ =~= old(self).sema.tags.data@.push(self.sema.tag(id)));
                }
                return id;
            },
        };
        match self.sema.scopes.lookup_tag(n.id, is_definition) {
            Some(id) => {
                proof {
                    crate::semantic::resolution::scope::lemma_lookup_tag_in_below(self.sema.scopes@, n.id, self.sema.nsyms(), self.sema.ntags());
                    if is_definition {
                        assert(scope_refs_below(self.sema.scopes.0@[self.sema.scopes@.len() - 1], self.sema.nsyms(), self.sema.ntags()));
                    }
                }
                let def_kind = self.sema.tags.get(id).kind;
                let def_complete = self.sema.tags.get(id).is_complete;
                if def_kind != kind || (is_definition && def_complete) {
                    let sk = def_kind.symbol_kind();
                    self.add_diag(Diag::err((), Diagnosis::DuplicateDeclaration(sk, n)), span);
                }
                return id;
            },
            None => {},
        }
        let id = self.sema.add_tag(kind, Some(n));
        self.sema.bind_tag(n.id, id);
        proof {
            assert(self.sema.tags.data@ =~= old(self).sema.tags.data@.push(self.sema.tag(id)));
        }
        id
    }
}


/// The diagnostic a declaration of `sym` gives where `prior` is already
/// declared in the same scope and name space, unless it redeclares it.
pub open spec fn spec_dedup_diag(sema: &Sema, sym: Symbol, prior: Option<SymbolId>) -> Option<Diagnosis> {
    match prior {
        Some(p) => if spec_redeclares(sema, sym, p) {
            None
        } else {
            Some(Diagnosis::DuplicateDeclaration(sym.kind, sym.name))
        },
        None => None,
    }
}

impl SymbolResolver {
    /// 6.1.2.1, 6.1.2.2 Declares `sym` in the innermost scope. A declaration
    /// that redeclares an identifier of the same scope names the same symbol
    /// (any other is a duplicate declaration, reported); an identifier with
    /// linkage is also recorded among the externals, which decide its
    /// symbol. The name is then bound to the symbol.
    pub fn declare(&mut self, sym: Symbol, span: &Span) -> (id: SymbolId)
        requires
            old(self).wf(),
            old(self).sema.scopes@.len() > 0,
            old(self).sema.symbol_ok(sym),
            is_ordinary(sym.kind),
        ensures
            final(self).sema.target == old(self).sema.target,
            final(self).wf(),
            final(self).own_state_kept(*old(self)),
            ResolvedTypeArena::extends(final(self).sema.types, old(self).sema.types),
            final(self).sema.tags == old(self).sema.tags,
            final(self).sema.builtins == old(self).sema.builtins,
            final(self).sema.functions == old(self).sema.functions,
            final(self).sema.declarations == old(self).sema.declarations,
            final(self).sema.expr_types == old(self).sema.expr_types,
            final(self).sema.expr_bindings == old(self).sema.expr_bindings,
            final(self).sema.expr_consts == old(self).sema.expr_consts,
            final(self).sema.member_refs == old(self).sema.member_refs,
            old(self).sema.nsyms() <= final(self).sema.nsyms(),
            id < final(self).sema.nsyms(),
            forall|i: int| 0 <= i < old(self).sema.nsyms() ==> (#[trigger] final(self).sema.symbols.data@[i]).name
                == old(self).sema.symbols.data@[i].name,
            forall|i: int| 0 <= i < old(self).sema.nsyms() ==> (#[trigger] final(self).sema.symbols.data@[i]).value
                == old(self).sema.symbols.data@[i].value && final(self).sema.symbols.data@[i].kind == old(self).sema.symbols.data@[i].kind,
            spec_current(&final(self).sema, sym.kind, sym.name.id) == Some(id),
            final(self).sema.scopes@.len() == old(self).sema.scopes@.len(),
            final(self).sema.scopes@.drop_last() == old(self).sema.scopes@.drop_last(),
            final(self).sema.scopes@.last().ordinaries@ == old(self).sema.scopes@.last().ordinaries@.insert(sym.name.id, id),
            final(self).sema.scopes@.last().tags@ == old(self).sema.scopes@.last().tags@,
            final(self).sema.scopes@.last().kind == old(self).sema.scopes@.last().kind,
            ({
                let prior = spec_current(&old(self).sema, sym.kind, sym.name.id);
                let d1 = recorded(old(self).sema.diagnosis@, spec_dedup_diag(&old(self).sema, sym, prior), *span);
                &&& sym.linkage == Linkage::NoLinkage ==> {
                    &&& id as int == match prior {
                        Some(p) => p as int,
                        None => old(self).sema.nsyms(),
                    }
                    &&& final(self).sema.symbols.data@ == if prior is None {
                        old(self).sema.symbols.data@.push(sym)
                    } else {
                        old(self).sema.symbols.data@
                    }
                    &&& final(self).sema.externals == old(self).sema.externals
                    &&& final(self).sema.diagnosis@ == d1
                }
                &&& sym.linkage != Linkage::NoLinkage ==> {
                    let known = old(self).sema.externals@.contains_key(sym.name.id);
                    &&& id as int == if known {
                        old(self).sema.externals@[sym.name.id].symbol as int
                    } else {
                        match prior {
                            Some(p) => p as int,
                            None => old(self).sema.nsyms(),
                        }
                    }
                    &&& final(self).sema.externals@.contains_key(sym.name.id)
                    &&& final(self).sema.externals@[sym.name.id].symbol == id
                    &&& final(self).sema.diagnosis@ == recorded(
                        d1,
                        if known && old(self).sema.sym(old(self).sema.externals@[sym.name.id].symbol).linkage
                            != sym.linkage {
                            Some(Diagnosis::ConflictingLinkage(sym.name))
                        } else {
                            None
                        },
                        *span,
                    )
                }
            }),
    {
        let prior = self.sema.scopes.current(sym.kind, sym.name.id);
        let lexical = match prior {
            None => {
                proof {
                    self.lemma_frame_refl();
                }
                None
            },
            Some(old_id) => {
                proof {
                    assert(scope_refs_below(self.sema.scopes.0@[self.sema.scopes@.len() - 1], self.sema.nsyms(), self.sema.ntags()));
                    assert(self.sema.symbol_ok(self.sema.symbols.data@[old_id as int]));
                }
                let old_sym = *self.sema.symbols.get(old_id);
                let at_file = matches!(self.sema.scopes.kind(), ScopeKind::File);
                let both_linked = !matches!(sym.linkage, Linkage::NoLinkage) && !matches!(old_sym.linkage, Linkage::NoLinkage);
                let redeclares = !matches!(sym.kind, SymbolKind::Typedef) && (at_file || both_linked)
                    && old_sym.is_compatible(&self.sema, &sym) && !(sym.is_init && old_sym.is_init);
                if !redeclares {
                    self.add_diag(Diag::err((), Diagnosis::DuplicateDeclaration(sym.kind, sym.name)), span);
                } else {
                    proof {
                        self.lemma_frame_refl();
                    }
                }
                Some(old_id)
            },
        };
        let ghost mid = self.sema;
        let id = if !matches!(sym.linkage, Linkage::NoLinkage) {
            self.sema.register_external(sym, span, lexical)
        } else {
            match lexical {
                Some(l) => l,
                None => self.sema.add_symbol(sym),
            }
        };
        proof {
            if !(sym.linkage != Linkage::NoLinkage) && lexical is None {
                assert(self.sema.symbols.data@ == mid.symbols.data@.push(sym));
            }
        }
        self.sema.bind(sym.kind, sym.name.id, id);
        id
    }

    /// Whether function definition `def` defines a label called `id`.
    fn has_label(&self, def: FunctionDefId, id: StringId) -> (b: bool)
        requires
            def < self.sema.functions.data@.len(),
        ensures
            b == label_defined(self.sema.functions.data@[def as int].labels@, id),
    {
        let labels = &self.sema.functions.get(def).labels;
        let mut i: usize = 0;
        while i < labels.len()
            invariant
                i <= labels@.len(),
                *labels == self.sema.functions.data@[def as int].labels,
                forall|j: int| 0 <= j < i ==> (#[trigger] labels@[j]).id != id,
            decreases labels@.len() - i,
        {
            if labels[i].id == id {
                return true;
            }
            i += 1;
        }
        false
    }

    /// 6.1.2.1 Defines the label `name` in the current function; a label
    /// defined twice is reported.
    pub fn define_label(&mut self, name: Name, span: &Span)
        requires
            old(self).wf(),
            old(self).f is Some,
        ensures
            final(self).wf(),
            final(self).own_state_kept(*old(self)),
            ({
                let def = old(self).f->0.def;
                let labels = old(self).sema.functions.data@[def as int].labels@;
                if label_defined(labels, name.id) {
                    &&& final(self).sema.diagnosis@ == old(self).sema.diagnosis@.push(
                        DiagnosisNode { span: *span, inner: Diagnosis::DuplicateLabel(name) },
                    )
                    &&& final(self).sema.functions == old(self).sema.functions
                } else {
                    &&& final(self).sema.diagnosis == old(self).sema.diagnosis
                    &&& final(self).sema.functions.data@.len() == old(self).sema.functions.data@.len()
                    &&& final(self).sema.functions.data@[def as int].labels@ == labels.push(name)
                    &&& forall|j: int| 0 <= j < old(self).sema.functions.data@.len() && j != def
                        ==> final(self).sema.functions.data@[j] == old(self).sema.functions.data@[j]
                }
            }),
            final(self).sema.symbols == old(self).sema.symbols,
            final(self).sema.same_tables_but_functions(old(self).sema),
    {
        let def = match self.f {
            Some(c) => c.def,
            None => return,
        };
        if self.has_label(def, name.id) {
            self.add_diag(Diag::err((), Diagnosis::DuplicateLabel(name)), span);
            return;
        }
        self.sema.functions.add_label(def, name);
        proof {
            assert forall|i: int| 0 <= i < self.sema.functions.data@.len() implies {
                &&& (#[trigger] self.sema.functions.data@[i]).sym < self.sema.nsyms()
                &&& forall|j: int| 0 <= j < self.sema.functions.data@[i].parameters@.len() ==> #[trigger] self.sema.functions.data@[i].parameters@[j] < self.sema.nsyms()
            } by {
                assert(old(self).sema.functions_wf());
                if i != def {
                    assert(self.sema.functions.data@[i] == old(self).sema.functions.data@[i]);
                }
            }
        }
    }

    /// Remembers a `goto` to the label `name`, checked when the function ends.
    pub fn reference_label(&mut self, name: Name)
        ensures
            final(self).gotos@ == old(self).gotos@.push(name),
            final(self).sema == old(self).sema,
            final(self).f == old(self).f,
            final(self).stmt_scopes == old(self).stmt_scopes,
    {
        self.gotos.push(name);
    }

    /// 6.6.6.1 At the end of a function, reports each `goto` whose label the
    /// function does not define, and forgets them.
    pub fn resolve_gotos(&mut self)
        requires
            old(self).wf(),
            old(self).f is Some,
        ensures
            final(self).wf(),
            final(self).gotos@.len() == 0,
            final(self).f == old(self).f,
            final(self).stmt_scopes == old(self).stmt_scopes,
            final(self).sema.frame(old(self).sema),
            final(self).sema.diagnosis@ == old(self).sema.diagnosis@ + undefined_label_diags(
                old(self).gotos@,
                old(self).sema.functions.data@[old(self).f->0.def as int].labels@,
            ),
    {
        let def = match self.f {
            Some(c) => c.def,
            None => return,
        };
        let mut gotos: Vec<Name> = Vec::new();
        std::mem::swap(&mut gotos, &mut self.gotos);
        let ghost labels = self.sema.functions.data@[def as int].labels@;
        let mut i: usize = 0;
        proof {
            assert(gotos@.take(0) =~= Seq::<Name>::empty());
            assert(self.sema.diagnosis@ =~= old(self).sema.diagnosis@ + Seq::<DiagnosisNode>::empty());
        }
        while i < gotos.len()
            invariant
                i <= gotos@.len(),
                gotos@ == old(self).gotos@,
                self.wf(),
                self.gotos@.len() == 0,
                self.f == old(self).f,
                self.f == Some(CurrentFunction { def, return_ty: old(self).f->0.return_ty }),
                self.stmt_scopes == old(self).stmt_scopes,
                self.sema.frame(old(self).sema),
                labels == old(self).sema.functions.data@[def as int].labels@,
                self.sema.diagnosis@ == old(self).sema.diagnosis@ + undefined_label_diags(gotos@.take(i as int), labels),
            decreases gotos@.len() - i,
        {
            let g = gotos[i];
            proof {
                assert(gotos@.take(i + 1).drop_last() =~= gotos@.take(i as int));
                assert(gotos@.take(i + 1).last() == g);
            }
            if !self.has_label(def, g.id) {
                self.add_diag(Diag::err((), Diagnosis::UndefinedLabel(g)), &g.span);
                proof {
                    assert(self.sema.diagnosis@ =~= old(self).sema.diagnosis@ + undefined_label_diags(gotos@.take(i + 1), labels));
                }
            }
            i += 1;
        }
        proof {
            assert(gotos@.take(i as int) =~= gotos@);
        }
    }
}

} // verus!
