//! The state of the analysis: arenas of types, symbols, tags and function
//! definitions, the tables that attach results to syntax nodes, the scopes,
//! and the diagnostics reported so far.

use vstd::prelude::*;
use std::collections::HashMap;

use crate::ast::{DeclaratorId, Span, StringId, Value};
use crate::semantic::diagnosis::{recorded, Diag, DiagCollector, Diagnosis, DiagnosisNode};
use crate::semantic::model::function_def::{FunctionDefArena, ParamTypes};
use crate::semantic::model::initializer::InitilizerArena;
use crate::semantic::model::resolved_expression::ResolvedExpression;
use crate::semantic::model::resolved_statement::ResolvedStatement;
use crate::semantic::model::resolved_type::{compatible, Builtins, QualifiedType, ResolvedType, ResolvedTypeArena, ResolvedTypeId, TagDefId};
use crate::semantic::model::symbol::{Definition, Linkage, Symbol, SymbolArena, SymbolId};
use crate::semantic::model::tag_def::{MemberRef, TagDef, TagDefArena};
use crate::semantic::resolution::scope::Scopes;
use crate::target::{Layout, Target};

verus! {

broadcast use vstd::std_specs::hash::group_hash_axioms;

/// Values attached to syntax nodes by index, remembering which nodes were visited.
pub struct SideTable<T> {
    pub data: Vec<Option<T>>,
    pub seen: Vec<bool>,
}

impl<T> SideTable<T> {
    pub open spec fn wf(&self) -> bool {
        self.data@.len() == self.seen@.len()
    }

    pub open spec fn spec_get(&self, id: usize) -> Option<T> {
        if id < self.data@.len() {
            self.data@[id as int]
        } else {
            None
        }
    }

    /// Node `id` was visited.
    pub open spec fn spec_seen(&self, id: usize) -> bool {
        id < self.seen@.len() && self.seen@[id as int]
    }

    pub fn new() -> (t: Self)
        ensures
            t.wf(),
            t.data@.len() == 0,
    {
        SideTable { data: Vec::new(), seen: Vec::new() }
    }

    /// Makes room for `len` nodes; the new ones are unvisited and empty.
    pub fn resize(&mut self, len: usize)
        requires
            old(self).wf(),
        ensures
            final(self).wf(),
            final(self).data@.len() == if old(self).data@.len() < len { len as nat } else { old(self).data@.len() },
            forall|i: int| 0 <= i < old(self).data@.len() ==> #[trigger] final(self).data@[i] == old(self).data@[i],
            forall|i: int| 0 <= i < old(self).data@.len() ==> #[trigger] final(self).seen@[i] == old(self).seen@[i],
            forall|i: int| old(self).data@.len() <= i < final(self).data@.len() ==> #[trigger] final(self).data@[i] is None,
            forall|i: int| old(self).data@.len() <= i < final(self).data@.len() ==> !#[trigger] final(self).seen@[i],
    {
        let ghost n0 = old(self).data@.len();
        while self.data.len() < len
            invariant
                self.wf(),
                n0 <= self.data@.len(),
                self.data@.len() <= if n0 < len { len as nat } else { n0 },
                forall|i: int| 0 <= i < n0 ==> #[trigger] self.data@[i] == old(self).data@[i],
                forall|i: int| 0 <= i < n0 ==> #[trigger] self.seen@[i] == old(self).seen@[i],
                forall|i: int| n0 <= i < self.data@.len() ==> #[trigger] self.data@[i] is None,
                forall|i: int| n0 <= i < self.seen@.len() ==> !#[trigger] self.seen@[i],
            decreases len - self.data@.len(),
        {
            self.data.push(None);
            self.seen.push(false);
        }
    }

    pub fn get(&self, id: usize) -> (r: Option<&T>)
        ensures
            r == match self.spec_get(id) {
                Some(v) => Some(&v),
                None => None::<&T>,
            },
    {
        if id < self.data.len() {
            match &self.data[id] {
                Some(v) => Some(v),
                None => None,
            }
        } else {
            None
        }
    }

    pub fn seen(&self, id: usize) -> (b: bool)
        requires
            self.wf(),
        ensures
            b == (id < self.seen@.len() && self.seen@[id as int]),
    {
        id < self.seen.len() && self.seen[id]
    }

    /// Records `value` for node `id` and marks it visited.
    pub fn set(&mut self, id: usize, value: Option<T>)
        requires
            old(self).wf(),
            id < old(self).data@.len(),
        ensures
            final(self).wf(),
            final(self).data@ == old(self).data@.update(id as int, value),
            final(self).seen@ == old(self).seen@.update(id as int, true),
    {
        self.data.set(id, value);
        self.seen.set(id, true);
    }

    /// Removes and returns the value of node `id`.
    pub fn take(&mut self, id: usize) -> (r: Option<T>)
        requires
            old(self).wf(),
        ensures
            final(self).wf(),
            r == old(self).spec_get(id),
            id < old(self).data@.len() ==> final(self).data@ == old(self).data@.update(id as int, None),
            id >= old(self).data@.len() ==> final(self).data@ == old(self).data@,
            final(self).seen@ == old(self).seen@,
    {
        if id < self.data.len() {
            let v = self.data.remove(id);
            self.data.insert(id, None);
            proof {
                assert(self.data@ =~= old(self).data@.update(id as int, None));
            }
            v
        } else {
            None
        }
    }
}

/// An identifier with linkage: the symbol all its declarations share and
/// where it was defined or tentatively defined.
#[derive(Debug, Clone, Copy)]
pub struct External {
    pub symbol: SymbolId,
    pub defined: Option<Span>,
    pub tentative: Option<Span>,
}

pub struct Sema {
    pub diagnosis: Vec<DiagnosisNode>,
    pub symbols: SymbolArena,
    pub types: ResolvedTypeArena,
    pub builtins: Builtins,
    pub tags: TagDefArena,
    pub functions: FunctionDefArena,
    pub inits: InitilizerArena,
    pub expr_types: SideTable<ResolvedExpression>,
    pub expr_bindings: SideTable<SymbolId>,
    pub expr_consts: SideTable<Value>,
    pub member_refs: SideTable<MemberRef>,
    pub declarations: HashMap<DeclaratorId, SymbolId>,
    pub externals: HashMap<StringId, External>,
    pub stmts: SideTable<ResolvedStatement>,
    pub layouts: HashMap<ResolvedTypeId, Layout>,
    pub target: Target,
    pub scopes: Scopes,
}

impl Sema {
    pub open spec fn ntypes(&self) -> int {
        self.types.data@.len() as int
    }

    pub open spec fn ntags(&self) -> int {
        self.tags.data@.len() as int
    }

    pub open spec fn nsyms(&self) -> int {
        self.symbols.data@.len() as int
    }

    /// The resolved type with id `id`.
    pub open spec fn ty(&self, id: ResolvedTypeId) -> ResolvedType {
        self.types.data@[id as int]
    }

    pub open spec fn tag(&self, id: TagDefId) -> TagDef {
        self.tags.data@[id as int]
    }

    pub open spec fn sym(&self, id: SymbolId) -> Symbol {
        self.symbols.data@[id as int]
    }

    pub open spec fn qt_ok(&self, q: QualifiedType) -> bool {
        q.id < self.ntypes()
    }

    pub open spec fn re_ok(&self, re: ResolvedExpression) -> bool {
        &&& self.qt_ok(re.ty)
        &&& forall|i: int| 0 <= i < re.casts@.len() ==> self.qt_ok(#[trigger] re.casts@[i].to)
        &&& re.result_cast matches Some(c) ==> self.qt_ok(c.to)
    }

    pub open spec fn symbol_ok(&self, s: Symbol) -> bool {
        &&& s.ty matches Some(q) ==> self.qt_ok(q)
        &&& s.kind == crate::semantic::model::symbol::SymbolKind::Variant ==> s.is_init
    }

    pub open spec fn tag_ok(&self, t: TagDef) -> bool {
        forall|i: int| 0 <= i < t.members@.len() ==> ((#[trigger] t.members@[i]).sym matches Some(id) ==> id < self.nsyms())
    }

    pub open spec fn symbols_wf(&self) -> bool {
        forall|i: int| 0 <= i < self.nsyms() ==> self.symbol_ok(#[trigger] self.symbols.data@[i])
    }

    pub open spec fn tags_wf(&self) -> bool {
        forall|i: int| 0 <= i < self.ntags() ==> self.tag_ok(#[trigger] self.tags.data@[i])
    }

    pub open spec fn functions_wf(&self) -> bool {
        forall|i: int| 0 <= i < self.functions.data@.len() ==> {
            &&& (#[trigger] self.functions.data@[i]).sym < self.nsyms()
            &&& forall|j: int| 0 <= j < self.functions.data@[i].parameters@.len() ==> #[trigger] self.functions.data@[i].parameters@[j] < self.nsyms()
        }
    }

    pub open spec fn expr_types_wf(&self) -> bool {
        &&& self.expr_types.wf()
        &&& forall|i: int| 0 <= i < self.expr_types.data@.len() ==> ((#[trigger] self.expr_types.data@[i]) matches Some(re)
            ==> self.re_ok(re))
    }

    pub open spec fn tables_wf(&self) -> bool {
        &&& self.expr_bindings.wf()
        &&& self.expr_consts.wf()
        &&& self.member_refs.wf()
        &&& self.stmts.wf()
        &&& forall|i: int| 0 <= i < self.expr_bindings.data@.len() ==> ((#[trigger] self.expr_bindings.data@[i]) matches Some(id)
            ==> id < self.nsyms())
        &&& forall|i: int| 0 <= i < self.member_refs.data@.len() ==> ((#[trigger] self.member_refs.data@[i]) matches Some(r)
            ==> r.tag < self.ntags())
        &&& forall|k: StringId| #[trigger] self.externals@.contains_key(k) ==> self.externals@[k].symbol < self.nsyms()
        &&& forall|k: DeclaratorId| #[trigger] self.declarations@.contains_key(k) ==> self.declarations@[k] < self.nsyms()
    }

    /// The invariant every pass keeps: every id stored anywhere refers to an
    /// existing entry, types only refer to earlier types, and the builtins
    /// name their types.
    pub open spec fn wf(&self) -> bool {
        &&& self.target.wf()
        &&& self.types.wf(self.ntags())
        &&& self.builtins.wf(self.types.data@, &self.target)
        &&& self.symbols_wf()
        &&& self.tags_wf()
        &&& self.functions_wf()
        &&& self.expr_types_wf()
        &&& self.tables_wf()
        &&& self.scopes.refs_below(self.nsyms(), self.ntags())
        &&& self.layouts_ok()
    }

    pub fn new(target: Target) -> (s: Self)
        requires
            target.wf(),
        ensures
            s.wf(),
            s.target == target,
            s.builtins.fresh(),
            s.builtins.ptrdiff_t == s.builtins.spec_basic_id(target.ptrdiff_t),
            s.builtins.size_t == s.builtins.spec_basic_id(target.size_t),
            s.types.data@.len() == 13,
            s.diagnosis@.len() == 0,
            s.symbols.data@.len() == 0,
            s.tags.data@.len() == 0,
            s.functions.data@.len() == 0,
            s.scopes@.len() == 0,
            s.layouts@.len() == 0,
            s.declarations@.len() == 0,
            s.expr_types.data@.len() == 0,
    {
        let mut types = ResolvedTypeArena::new();
        let builtins = Builtins::new(&mut types, &target);
        Sema {
            diagnosis: Vec::new(),
            symbols: SymbolArena::new(),
            types,
            builtins,
            tags: TagDefArena::new(),
            functions: FunctionDefArena::new(),
            inits: InitilizerArena::new(),
            expr_types: SideTable::new(),
            expr_bindings: SideTable::new(),
            expr_consts: SideTable::new(),
            member_refs: SideTable::new(),
            declarations: HashMap::new(),
            externals: HashMap::new(),
            stmts: SideTable::new(),
            layouts: HashMap::new(),
            target,
            scopes: Scopes::new(),
        }
    }

    /// A fresh analysis for the default target.
    pub fn default_sema() -> (s: Self)
        ensures
            s.wf(),
            s.target.is_i386(),
            s.builtins.fresh(),
            s.builtins.ptrdiff_t == s.builtins.spec_basic_id(ResolvedType::Int),
            s.builtins.size_t == s.builtins.spec_basic_id(ResolvedType::UnsignedInt),
            s.types.data@.len() == 13,
            s.diagnosis@.len() == 0,
            s.symbols.data@.len() == 0,
            s.tags.data@.len() == 0,
            s.functions.data@.len() == 0,
            s.scopes@.len() == 0,
            s.layouts@.len() == 0,
            s.declarations@.len() == 0,
            s.expr_types.data@.len() == 0,
    {
        Sema::new(Target::default_target())
    }

    /// Makes the side tables big enough for `expressions` expressions and
    /// `statements` statements.
    pub fn size_tables(&mut self, expressions: usize, statements: usize)
        requires
            old(self).wf(),
        ensures
            final(self).wf(),
            final(self).expr_types.data@.len() >= expressions,
            final(self).expr_bindings.data@.len() >= expressions,
            final(self).expr_consts.data@.len() >= expressions,
            final(self).member_refs.data@.len() >= expressions,
            final(self).stmts.data@.len() >= statements,
            final(self).target == old(self).target,
            final(self).scopes == old(self).scopes,
            final(self).diagnosis == old(self).diagnosis,
            final(self).builtins == old(self).builtins,
            final(self).symbols == old(self).symbols,
            final(self).types == old(self).types,
            final(self).tags == old(self).tags,
            final(self).diagnosis == old(self).diagnosis,
    {
        self.expr_types.resize(expressions);
        self.expr_bindings.resize(expressions);
        self.expr_consts.resize(expressions);
        self.member_refs.resize(expressions);
        self.stmts.resize(statements);
        proof {
            assert forall|i: int| 0 <= i < self.expr_types.data@.len() implies ((#[trigger] self.expr_types.data@[i]) matches Some(re)
                ==> self.re_ok(re)) by {
                if i < old(self).expr_types.data@.len() {
                    assert(self.expr_types.data@[i] == old(self).expr_types.data@[i]);
                }
            }
            assert forall|i: int| 0 <= i < self.expr_bindings.data@.len() implies ((#[trigger] self.expr_bindings.data@[i]) matches Some(id)
                ==> id < self.nsyms()) by {
                if i < old(self).expr_bindings.data@.len() {
                    assert(self.expr_bindings.data@[i] == old(self).expr_bindings.data@[i]);
                }
            }
            assert forall|i: int| 0 <= i < self.member_refs.data@.len() implies ((#[trigger] self.member_refs.data@[i]) matches Some(r)
                ==> r.tag < self.ntags()) by {
                if i < old(self).member_refs.data@.len() {
                    assert(self.member_refs.data@[i] == old(self).member_refs.data@[i]);
                }
            }
        }
    }
}

impl Sema {
    /// Only the type arena changed, by adding entries after the existing ones.
    pub open spec fn types_grown(&self, old: Sema) -> bool {
        &&& ResolvedTypeArena::extends(self.types, old.types)
        &&& self.diagnosis == old.diagnosis
        &&& self.same_tables(old)
    }

    /// Everything but the type arena and the diagnostics is as in `old`.
    pub open spec fn same_tables(&self, old: Sema) -> bool {
        &&& self.symbols == old.symbols
        &&& self.builtins == old.builtins
        &&& self.tags == old.tags
        &&& self.functions == old.functions
        &&& self.inits == old.inits
        &&& self.expr_types == old.expr_types
        &&& self.expr_bindings == old.expr_bindings
        &&& self.expr_consts == old.expr_consts
        &&& self.member_refs == old.member_refs
        &&& self.declarations == old.declarations
        &&& self.externals == old.externals
        &&& self.stmts == old.stmts
        &&& self.layouts == old.layouts
        &&& self.target == old.target
        &&& self.scopes == old.scopes
    }

    /// Adding types keeps the invariant, provided the arena itself keeps it.
    pub proof fn lemma_types_grown_wf(new: Sema, old: Sema)
        requires
            old.wf(),
            ResolvedTypeArena::extends(new.types, old.types),
            new.same_tables(old),
            new.types.wf(new.ntags()),
        ensures
            new.wf(),
    {
        lemma_builtins_extend(new.types, old.types, new.builtins, &new.target);
        assert forall|i: int| 0 <= i < new.nsyms() implies new.symbol_ok(#[trigger] new.symbols.data@[i]) by {
            assert(old.symbol_ok(old.symbols.data@[i]));
        }
        assert forall|i: int| 0 <= i < new.expr_types.data@.len() implies ((#[trigger] new.expr_types.data@[i]) matches Some(
            re,
        ) ==> new.re_ok(re)) by {
            assert(old.expr_types.data@[i] == new.expr_types.data@[i]);
            if let Some(re) = new.expr_types.data@[i] {
                assert(old.re_ok(re));
                assert forall|j: int| 0 <= j < re.casts@.len() implies new.qt_ok(#[trigger] re.casts@[j].to) by {
                    assert(old.qt_ok(re.casts@[j].to));
                }
            }
        }
    }

    /// The id of `ty` in the type arena, which interns it.
    pub fn intern_type(&mut self, ty: ResolvedType) -> (id: ResolvedTypeId)
        requires
            old(self).wf(),
            ty.refs_below(old(self).ntypes()),
            ty.tags_below(old(self).ntags()),
        ensures
            final(self).wf(),
            final(self).types_grown(*old(self)),
            id < final(self).ntypes(),
            final(self).ty(id).same(ty),
    {
        let id = self.types.allocate(ty);
        proof {
            Self::lemma_types_grown_wf(*self, *old(self));
        }
        id
    }

    /// The id of the type pointer to `inner`.
    pub fn pointer_type(&mut self, inner: QualifiedType) -> (id: ResolvedTypeId)
        requires
            old(self).wf(),
            inner.id < old(self).ntypes(),
        ensures
            final(self).wf(),
            final(self).types_grown(*old(self)),
            id < final(self).ntypes(),
            final(self).ty(id).same(ResolvedType::Pointer(inner)),
    {
        let id = self.types.pointer(inner);
        proof {
            Self::lemma_types_grown_wf(*self, *old(self));
        }
        id
    }

    /// The id of the type array of `elem`, of length `len` when it is known.
    pub fn array_type(&mut self, elem: QualifiedType, len: Option<usize>) -> (id: ResolvedTypeId)
        requires
            old(self).wf(),
            elem.id < old(self).ntypes(),
        ensures
            final(self).wf(),
            final(self).types_grown(*old(self)),
            id < final(self).ntypes(),
            final(self).ty(id).same(ResolvedType::Array { elem, len }),
    {
        let id = self.types.array(elem, len);
        proof {
            Self::lemma_types_grown_wf(*self, *old(self));
        }
        id
    }

    /// The id of the type function returning `ret` with parameters `params`.
    pub fn function_type(&mut self, ret: QualifiedType, params: ParamTypes) -> (id: ResolvedTypeId)
        requires
            old(self).wf(),
            ret.id < old(self).ntypes(),
            params.refs_below(old(self).ntypes()),
        ensures
            final(self).wf(),
            final(self).types_grown(*old(self)),
            id < final(self).ntypes(),
            final(self).ty(id).same(ResolvedType::Function { ret, params }),
    {
        let id = self.types.function(ret, params);
        proof {
            Self::lemma_types_grown_wf(*self, *old(self));
        }
        id
    }

    /// 6.7.1 The type a parameter declared with type `param` has: arrays
    /// and functions become pointers.
    pub fn adjust_parameter(&mut self, param: QualifiedType) -> (q: QualifiedType)
        requires
            old(self).wf(),
            param.id < old(self).ntypes(),
        ensures
            final(self).wf(),
            final(self).types_grown(*old(self)),
            q.id < final(self).ntypes(),
            q.is_const == param.is_const,
            q.is_volatile == param.is_volatile,
            match old(self).ty(param.id) {
                ResolvedType::Array { elem, .. } => final(self).ty(q.id).same(ResolvedType::Pointer(elem)),
                ResolvedType::Function { .. } => final(self).ty(q.id).same(
                    ResolvedType::Pointer(QualifiedType { id: param.id, is_const: false, is_volatile: false }),
                ),
                _ => q == param,
            },
    {
        let q = self.types.adjust_parameter(param);
        proof {
            Self::lemma_types_grown_wf(*self, *old(self));
        }
        q
    }

    /// The id of the type of the tag `tag`.
    pub fn tag_type(&mut self, tag: TagDefId) -> (id: ResolvedTypeId)
        requires
            old(self).wf(),
            tag < old(self).ntags(),
        ensures
            final(self).wf(),
            final(self).types_grown(*old(self)),
            id < final(self).ntypes(),
            final(self).ty(id).same(ResolvedType::Tag(tag)),
    {
        let id = self.types.tag(tag);
        proof {
            Self::lemma_types_grown_wf(*self, *old(self));
        }
        id
    }
}

/// How far a declaration goes toward defining its identifier.
pub open spec fn spec_definition_rank(d: Definition) -> int {
    match d {
        Definition::Declaration => 0,
        Definition::Tentative => 1,
        Definition::Definition => 2,
    }
}

/// Of two declarations, the one that goes further toward a definition.
pub open spec fn spec_promote_definition(a: Definition, b: Definition) -> Definition {
    if spec_definition_rank(b) > spec_definition_rank(a) {
        b
    } else {
        a
    }
}

fn definition_rank(definition: Definition) -> (r: u8)
    ensures
        r == spec_definition_rank(definition),
{
    match definition {
        Definition::Declaration => 0,
        Definition::Tentative => 1,
        Definition::Definition => 2,
    }
}

fn promote_definition(a: Definition, b: Definition) -> (r: Definition)
    ensures
        r == spec_promote_definition(a, b),
{
    if definition_rank(b) > definition_rank(a) {
        b
    } else {
        a
    }
}

/// Promoting definitions takes the one of highest rank: the result is one of
/// the two, of rank at least theirs; the order of the arguments, repeating
/// one, and the grouping of three do not matter.
pub proof fn lemma_promote_definition(a: Definition, b: Definition, c: Definition)
    ensures
        spec_promote_definition(a, b) == a || spec_promote_definition(a, b) == b,
        spec_definition_rank(spec_promote_definition(a, b)) >= spec_definition_rank(a),
        spec_definition_rank(spec_promote_definition(a, b)) >= spec_definition_rank(b),
        spec_promote_definition(a, b) == spec_promote_definition(b, a),
        spec_promote_definition(a, a) == a,
        spec_promote_definition(spec_promote_definition(a, b), c) == spec_promote_definition(a, spec_promote_definition(b, c)),
{
}

/// The spans recorded for an identifier with linkage after one more
/// declaration of kind `definition` at `span`: the first definition and the
/// first tentative definition are kept.
pub open spec fn spec_record_external(e: External, definition: Definition, span: Span) -> External {
    External {
        symbol: e.symbol,
        defined: if definition == Definition::Definition && e.defined is None { Some(span) } else { e.defined },
        tentative: if definition == Definition::Tentative && e.tentative is None { Some(span) } else { e.tentative },
    }
}

/// The entry of an identifier with linkage first declared as `definition` at `span`.
pub open spec fn spec_first_external(symbol: SymbolId, definition: Definition, span: Span) -> External {
    External {
        symbol,
        defined: if definition == Definition::Definition { Some(span) } else { None },
        tentative: if definition == Definition::Tentative { Some(span) } else { None },
    }
}

impl Sema {
    /// 6.1.2.2 The linkage of the identifier `name` where it already has one.
    pub fn linkage_of_name(&self, name: StringId) -> (r: Option<Linkage>)
        requires
            self.wf(),
        ensures
            r == if self.externals@.contains_key(name) {
                Some(self.sym(self.externals@[name].symbol).linkage)
            } else {
                None
            },
    {
        match self.externals.get(&name) {
            Some(e) => Some(self.symbols.get(e.symbol).linkage),
            None => None,
        }
    }

    /// 6.1.2.2, 6.7.2 Records a declaration of an identifier with linkage.
    /// The first declaration makes `lexical`, or a new symbol for `sym`, the
    /// identifier's symbol. A later one must agree on the linkage; its type
    /// is merged into the composite type (6.1.2.6) when the types are
    /// compatible, and the symbol keeps the furthest kind of definition.
    /// The symbol of the identifier is returned.
    pub fn register_external(&mut self, sym: Symbol, span: &Span, lexical: Option<SymbolId>) -> (id: SymbolId)
        requires
            old(self).wf(),
            old(self).symbol_ok(sym),
            lexical matches Some(l) ==> l < old(self).nsyms(),
        ensures
            final(self).wf(),
            ResolvedTypeArena::extends(final(self).types, old(self).types),
            id < final(self).nsyms(),
            final(self).tags == old(self).tags,
            final(self).scopes == old(self).scopes,
            final(self).builtins == old(self).builtins,
            final(self).functions == old(self).functions,
            final(self).inits == old(self).inits,
            final(self).declarations == old(self).declarations,
            final(self).expr_types == old(self).expr_types,
            final(self).expr_bindings == old(self).expr_bindings,
            final(self).expr_consts == old(self).expr_consts,
            final(self).member_refs == old(self).member_refs,
            final(self).stmts == old(self).stmts,
            final(self).layouts == old(self).layouts,
            final(self).target == old(self).target,
            !old(self).externals@.contains_key(sym.name.id) ==> {
                &&& id as int == match lexical {
                    Some(l) => l as int,
                    None => old(self).nsyms(),
                }
                &&& final(self).symbols.data@ == if lexical is None {
                    old(self).symbols.data@.push(sym)
                } else {
                    old(self).symbols.data@
                }
                &&& final(self).externals@ == old(self).externals@.insert(
                    sym.name.id,
                    spec_first_external(id, sym.definition, *span),
                )
                &&& final(self).diagnosis == old(self).diagnosis
                &&& final(self).types == old(self).types
            },
            old(self).externals@.contains_key(sym.name.id) ==> {
                let e = old(self).externals@[sym.name.id];
                let prev = old(self).sym(e.symbol);
                &&& id == e.symbol
                &&& final(self).symbols.data@.len() == old(self).symbols.data@.len()
                &&& forall|i: int| 0 <= i < old(self).nsyms() && i != id ==> final(self).symbols.data@[i]
                    == old(self).symbols.data@[i]
                &&& final(self).sym(id).definition == spec_promote_definition(prev.definition, sym.definition)
                &&& final(self).sym(id).name == prev.name
                &&& final(self).sym(id).kind == prev.kind
                &&& final(self).sym(id).value == prev.value
                &&& final(self).sym(id).is_init == prev.is_init
                &&& final(self).sym(id).linkage == prev.linkage
                &&& (prev.ty is Some && sym.ty is Some && compatible(old(self), prev.ty->0, sym.ty->0)) ==> (
                    final(self).sym(id).ty matches Some(q) && q.is_const == prev.ty->0.is_const && q.is_volatile
                        == prev.ty->0.is_volatile)
                &&& !(prev.ty is Some && sym.ty is Some && compatible(old(self), prev.ty->0, sym.ty->0))
                    ==> final(self).sym(id).ty == prev.ty
                &&& final(self).externals@ == old(self).externals@.insert(
                    sym.name.id,
                    spec_record_external(e, sym.definition, *span),
                )
                &&& final(self).diagnosis@ == recorded(
                    old(self).diagnosis@,
                    if prev.linkage != sym.linkage { Some(Diagnosis::ConflictingLinkage(sym.name)) } else { None },
                    *span,
                )
            },
    {
        let name = sym.name;
        let linkage = sym.linkage;
        let definition = sym.definition;
        let new_ty = sym.ty;
        let entry = match self.externals.get(&name.id) {
            Some(e) => *e,
            None => {
                let id = match lexical {
                    Some(l) => l,
                    None => self.symbols.allocate(sym),
                };
                let (defined, tentative) = match definition {
                    Definition::Definition => (Some(*span), None),
                    Definition::Tentative => (None, Some(*span)),
                    Definition::Declaration => (None, None),
                };
                self.externals.insert(name.id, External { symbol: id, defined, tentative });
                proof {
                    self.lemma_symbols_grown(*old(self));
                }
                return id;
            },
        };
        let entry_symbol = entry.symbol;
        let entry_linkage = self.symbols.get(entry_symbol).linkage;
        if entry_linkage != linkage {
            self.add_diag(Diag::err((), Diagnosis::ConflictingLinkage(name)), span);
        }
        let ghost s1 = *self;
        let old_ty = self.symbols.get(entry_symbol).ty;
        proof {
            if let (Some(o), Some(n)) = (old_ty, new_ty) {
                assert(old(self).symbol_ok(old(self).sym(entry_symbol)));
                crate::semantic::model::resolved_type::lemma_compatible_stable(&s1, old(self), o, n);
            }
        }
        let merged = match (old_ty, new_ty) {
            (Some(o), Some(n)) => o.composite(self, &n),
            _ => None,
        };
        let mut updated = *self.symbols.get(entry_symbol);
        if let Some(m) = merged {
            updated.ty = Some(m);
        }
        updated.definition = promote_definition(updated.definition, definition);
        self.symbols.set(entry_symbol, updated);
        let record = External {
            symbol: entry_symbol,
            defined: if matches!(definition, Definition::Definition) && entry.defined.is_none() {
                Some(*span)
            } else {
                entry.defined
            },
            tentative: if matches!(definition, Definition::Tentative) && entry.tentative.is_none() {
                Some(*span)
            } else {
                entry.tentative
            },
        };
        self.externals.insert(name.id, record);
        proof {
            self.lemma_symbols_grown(*old(self));
        }
        entry_symbol
    }

    /// The invariant after symbols were added or retyped and externals were
    /// recorded, every symbol referring to existing types and every external
    /// to an existing symbol.
    pub proof fn lemma_symbols_grown(&self, old: Sema)
        requires
            old.wf(),
            ResolvedTypeArena::extends(self.types, old.types),
            self.types.wf(self.ntags()),
            self.builtins == old.builtins,
            self.tags == old.tags,
            self.functions == old.functions,
            self.inits == old.inits,
            self.expr_types == old.expr_types,
            self.expr_bindings == old.expr_bindings,
            self.expr_consts == old.expr_consts,
            self.member_refs == old.member_refs,
            self.declarations == old.declarations,
            self.stmts == old.stmts,
            self.layouts == old.layouts,
            self.target == old.target,
            self.scopes == old.scopes,
            old.nsyms() <= self.nsyms(),
            self.symbols_wf(),
            forall|k: StringId| #[trigger] self.externals@.contains_key(k) ==> self.externals@[k].symbol < self.nsyms(),
        ensures
            self.wf(),
    {
        lemma_builtins_extend(self.types, old.types, self.builtins, &self.target);
        lemma_refs_grow(self, &old);
    }
}

/// The builtins keep naming their types as the type arena grows.
pub proof fn lemma_builtins_extend(new: ResolvedTypeArena, old: ResolvedTypeArena, b: Builtins, target: &Target)
    requires
        ResolvedTypeArena::extends(new, old),
        b.wf(old.data@, target),
    ensures
        b.wf(new.data@, target),
{
        assert forall|i: int| 0 <= i < old.data@.len() implies #[trigger] new.data@[i] == old.data@[i] by {}
                assert(new.data@[b.void as int] == old.data@[b.void as int]);
        assert(new.data@[b.char as int] == old.data@[b.char as int]);
        assert(new.data@[b.signed_char as int] == old.data@[b.signed_char as int]);
        assert(new.data@[b.unsigned_char as int] == old.data@[b.unsigned_char as int]);
        assert(new.data@[b.short as int] == old.data@[b.short as int]);
        assert(new.data@[b.unsigned_short as int] == old.data@[b.unsigned_short as int]);
        assert(new.data@[b.int as int] == old.data@[b.int as int]);
        assert(new.data@[b.unsigned_int as int] == old.data@[b.unsigned_int as int]);
        assert(new.data@[b.long as int] == old.data@[b.long as int]);
        assert(new.data@[b.unsigned_long as int] == old.data@[b.unsigned_long as int]);
        assert(new.data@[b.float as int] == old.data@[b.float as int]);
        assert(new.data@[b.double as int] == old.data@[b.double as int]);
        assert(new.data@[b.long_double as int] == old.data@[b.long_double as int]);
        assert(new.data@[b.ptrdiff_t as int] == old.data@[b.ptrdiff_t as int]);
        assert(new.data@[b.size_t as int] == old.data@[b.size_t as int]);
}

/// Every type a symbol, an expression or a scope refers to keeps existing
/// when the arenas grow.
pub proof fn lemma_refs_grow(new: &Sema, old: &Sema)
    requires
        old.wf(),
        old.ntypes() <= new.ntypes(),
        old.nsyms() <= new.nsyms(),
        old.ntags() <= new.ntags(),
        new.expr_types == old.expr_types,
        new.tags == old.tags,
        new.functions == old.functions,
        new.scopes == old.scopes,
        new.expr_bindings == old.expr_bindings,
        new.member_refs == old.member_refs,
        new.declarations == old.declarations,
    ensures
        new.expr_types_wf(),
        new.tags_wf(),
        new.functions_wf(),
        new.scopes.refs_below(new.nsyms(), new.ntags()),
        forall|i: int| 0 <= i < new.expr_bindings.data@.len() ==> ((#[trigger] new.expr_bindings.data@[i]) matches Some(id)
            ==> id < new.nsyms()),
        forall|i: int| 0 <= i < new.member_refs.data@.len() ==> ((#[trigger] new.member_refs.data@[i]) matches Some(r)
            ==> r.tag < new.ntags()),
        forall|k: DeclaratorId| #[trigger] new.declarations@.contains_key(k) ==> new.declarations@[k] < new.nsyms(),
{
    assert forall|i: int| 0 <= i < new.expr_types.data@.len() implies ((#[trigger] new.expr_types.data@[i]) matches Some(
        re,
    ) ==> new.re_ok(re)) by {
        if let Some(re) = new.expr_types.data@[i] {
            assert(old.expr_types.data@[i] == new.expr_types.data@[i]);
            lemma_re_ok_grown(new, old, re);
        }
    }
    assert forall|i: int| 0 <= i < new.ntags() implies new.tag_ok(#[trigger] new.tags.data@[i]) by {
        assert(old.tag_ok(old.tags.data@[i]));
    }
    assert forall|i: int| 0 <= i < new.scopes.0@.len() implies crate::semantic::resolution::scope::scope_refs_below(
        #[trigger] new.scopes.0@[i],
        new.nsyms(),
        new.ntags(),
    ) by {
        assert(crate::semantic::resolution::scope::scope_refs_below(old.scopes.0@[i], old.nsyms(), old.ntags()));
    }
}

/// `re` refers only to existing types, and keeps doing so as the arena grows.
pub proof fn lemma_re_ok_grown(new: &Sema, old: &Sema, re: ResolvedExpression)
    requires
        old.re_ok(re),
        old.ntypes() <= new.ntypes(),
    ensures
        new.re_ok(re),
{
    assert forall|j: int| 0 <= j < re.casts@.len() implies new.qt_ok(#[trigger] re.casts@[j].to) by {
        assert(old.qt_ok(re.casts@[j].to));
    }
}

impl DiagCollector for Sema {
    open spec fn spec_diags(&self) -> Seq<DiagnosisNode> {
        self.diagnosis@
    }

    open spec fn frame(&self, old: Self) -> bool {
        &&& self.symbols == old.symbols
        &&& self.types == old.types
        &&& self.builtins == old.builtins
        &&& self.tags == old.tags
        &&& self.functions == old.functions
        &&& self.inits == old.inits
        &&& self.expr_types == old.expr_types
        &&& self.expr_bindings == old.expr_bindings
        &&& self.expr_consts == old.expr_consts
        &&& self.member_refs == old.member_refs
        &&& self.declarations == old.declarations
        &&& self.externals == old.externals
        &&& self.stmts == old.stmts
        &&& self.layouts == old.layouts
        &&& self.target == old.target
        &&& self.scopes == old.scopes
    }

    proof fn lemma_frame_refl(&self) {
    }

    fn push_diagnosis(&mut self, node: DiagnosisNode) {
        self.diagnosis.push(node);
    }
}

} // verus!
